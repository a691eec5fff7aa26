//! What bringing the tiers up and taking them down promises of each single step:
//! every tier has its own device, size, algorithm and priority.

use crate::bringup::{ensure_tiers, Bringup, Task, UpStage};
use crate::config::TiersCfg;
use crate::lifecycle::{probes, runs, writes};
use crate::log::{Level, Message};
use crate::numeral::{decimal, law_signed_round_trip, signed, signed_decimal};
use crate::teardown::{
    restore, restored, teardown_errands, teardown_plan, zram_errands, Chore, Errand,
};
use crate::text::{begins, strings};
use crate::tiers::{Action, Outcome};
use vstd::prelude::*;

verus! {

/// Whether a device is among the swap areas.
pub open spec fn is_listed(swaps: Seq<String>, dev: Seq<char>) -> bool {
    exists|i: int| 0 <= i < swaps.len() && (#[trigger] swaps[i])@ == dev
}

/// Whether a ZRAM device is among the swap areas.
pub open spec fn has_zram_device(swaps: Seq<String>) -> bool {
    exists|i: int, id: Seq<char>|
        0 <= i < swaps.len() && (#[trigger] swaps[i])@ == #[trigger] ("/dev/zram"@ + id)
}

/// A device is listed where it is contained.
proof fn lemma_listed(swaps: Seq<String>, dev: Seq<char>)
    ensures
        is_listed(swaps, dev) <==> strings(swaps).contains(dev),
{
    if strings(swaps).contains(dev) {
        let i = choose|i: int| 0 <= i < strings(swaps).len() && strings(swaps)[i] == dev;
        assert(swaps[i]@ == dev);
    }
    if is_listed(swaps, dev) {
        let i = choose|i: int| 0 <= i < swaps.len() && (#[trigger] swaps[i])@ == dev;
        assert(strings(swaps)[i] == dev);
    }
}

/// A path begins with another exactly if something follows it.
proof fn lemma_begins(s: Seq<char>, front: Seq<char>)
    ensures
        begins(s, front) <==> exists|rest: Seq<char>| s == #[trigger] (front + rest),
{
    let n = front.len() as int;
    if begins(s, front) {
        assert(s == front + s.skip(n));
    }
    if exists|rest: Seq<char>| s == #[trigger] (front + rest) {
        let rest = choose|rest: Seq<char>| s == #[trigger] (front + rest);
        assert(s.take(n) == front);
    }
}

proof fn lemma_has_zram(swaps: Seq<String>)
    ensures
        has_zram_device(swaps) <==> exists|i: int|
            0 <= i < strings(swaps).len() && begins(#[trigger] strings(swaps)[i], "/dev/zram"@),
{
    let f = "/dev/zram"@;
    if has_zram_device(swaps) {
        let (i, id) = choose|i: int, id: Seq<char>|
            0 <= i < swaps.len() && (#[trigger] swaps[i])@ == #[trigger] (f + id);
        lemma_begins(swaps[i]@, f);
        assert(begins(strings(swaps)[i], f));
    }
    if exists|i: int| 0 <= i < strings(swaps).len() && begins(#[trigger] strings(swaps)[i], f) {
        let i = choose|i: int|
            0 <= i < strings(swaps).len() && begins(#[trigger] strings(swaps)[i], f);
        lemma_begins(swaps[i]@, f);
        let id = choose|id: Seq<char>| swaps[i]@ == #[trigger] (f + id);
        assert(swaps[i]@ == f + id);
    }
}

/// What each stage of the bring-up asks for. ZRAM is set up with its own size,
/// algorithm and priority, and each device is made a swap area with its own
/// priority.
pub proof fn law_every_tier_has_its_own(b: Bringup, r: Option<Task>)
    requires
        call_ensures(Bringup::task, (&b,), r),
    ensures
        r is None <==> b.stage == UpStage::Done,
        b.stage == UpStage::Zram ==> (r matches Some(Task::Zram(z)) && z.size_mb
            == b.cfg.zram_size_mb && z.algorithm@ == b.cfg.zram_algorithm@ && z.priority
            == b.cfg.zram_priority && z.stage is Control),
        b.stage == UpStage::FlashProbe ==> (r matches Some(Task::Step(a)) && probes(
            a,
            b.cfg.umami_device@,
        )),
        b.stage == UpStage::FlashFormat ==> (r matches Some(Task::Step(a)) && runs(
            a,
            "mkswap"@,
            seq!["-f"@, b.cfg.umami_device@],
        )),
        b.stage == UpStage::FlashActivate ==> (r matches Some(Task::Step(a)) && runs(
            a,
            "swapon"@,
            seq![
                "--priority"@,
                signed_decimal(b.cfg.umami_priority as int),
                b.cfg.umami_device@,
            ],
        )),
        b.stage == UpStage::FallbackProbe ==> (r matches Some(Task::Step(a)) && probes(
            a,
            b.cfg.fallback_swap@,
        )),
        b.stage == UpStage::FallbackFormat ==> (r matches Some(Task::Step(a)) && runs(
            a,
            "mkswap"@,
            seq!["-f"@, b.cfg.fallback_swap@],
        )),
        b.stage == UpStage::FallbackActivate ==> (r matches Some(Task::Step(a)) && runs(
            a,
            "swapon"@,
            seq![
                "--priority"@,
                signed_decimal(b.cfg.fallback_priority as int),
                b.cfg.fallback_swap@,
            ],
        )),
{
    if let Some(Task::Step(Action::Run(_, args))) = r {
        assert(forall|i: int| 0 <= i < args@.len() ==> strings(args@)[i] == (#[trigger] args@[i])@);
        assert(strings(args@).len() == args@.len());
    }
}

/// The priority that a run of `swapon` gives its device.
pub open spec fn priority_given(t: Option<Task>) -> Option<int> {
    match t {
        Some(Task::Zram(z)) => Some(z.priority as int),
        Some(Task::Step(Action::Run(_, args))) => signed(args@[1]@),
        _ => None,
    }
}

/// With priorities that descend from tier to tier, those that the swap areas are
/// made with descend too: ZRAM fills before flash, and flash before the
/// fallback.
pub proof fn law_priorities_descend(
    zram: Bringup,
    flash: Bringup,
    fallback: Bringup,
    a: Option<Task>,
    b: Option<Task>,
    c: Option<Task>,
)
    requires
        zram.stage == UpStage::Zram,
        flash.stage == UpStage::FlashActivate,
        fallback.stage == UpStage::FallbackActivate,
        zram.cfg == flash.cfg,
        flash.cfg == fallback.cfg,
        zram.cfg.zram_priority > zram.cfg.umami_priority > zram.cfg.fallback_priority,
        call_ensures(Bringup::task, (&zram,), a),
        call_ensures(Bringup::task, (&flash,), b),
        call_ensures(Bringup::task, (&fallback,), c),
    ensures
        priority_given(a) is Some,
        priority_given(b) is Some,
        priority_given(c) is Some,
        priority_given(a)->0 > priority_given(b)->0 > priority_given(c)->0,
{
    law_every_tier_has_its_own(zram, a);
    law_every_tier_has_its_own(flash, b);
    law_every_tier_has_its_own(fallback, c);
    law_signed_round_trip(flash.cfg.umami_priority as int);
    law_signed_round_trip(fallback.cfg.fallback_priority as int);
}

/// The bring-up begins with the first tier that is wanted and is no swap area
/// yet; where there is none, it is over at once.
pub proof fn law_bringup_begins(cfg: &TiersCfg, swaps: Vec<String>, format: bool, b: Bringup)
    requires
        call_ensures(ensure_tiers, (cfg, swaps, format), b),
    ensures
        b.cfg == *cfg && b.swaps == swaps && b.format == format,
        ({
            let zram = cfg.zram_size_mb > 0 && !has_zram_device(swaps@);
            let flash = cfg.umami_device@.len() > 0 && !is_listed(swaps@, cfg.umami_device@);
            let fallback = cfg.fallback_swap@.len() > 0 && !is_listed(swaps@, cfg.fallback_swap@);
            &&& zram <==> b.stage == UpStage::Zram
            &&& !zram && flash <==> b.stage == UpStage::FlashProbe
            &&& !zram && !flash && fallback <==> b.stage == UpStage::FallbackProbe
            &&& !zram && !flash && !fallback <==> b.stage == UpStage::Done
        }),
{
    lemma_has_zram(swaps@);
    lemma_listed(swaps@, cfg.umami_device@);
    lemma_listed(swaps@, cfg.fallback_swap@);
    let all = strings(swaps@);
    let f = "/dev/zram"@;
    if !has_zram_device(swaps@) {
        assert(forall|i: int| 0 <= i < all.len() ==> !begins(#[trigger] all[i], f));
    }
}

/// How the bring-up goes on. A device that is there is given a signature if that
/// was asked for, and then made a swap area; a device that is not there is
/// passed over. What comes of a signature, or of ZRAM, does not hold up the
/// rest.
pub proof fn law_course_of_a_bringup(b: &mut Bringup, o: Outcome, m: Option<Message>)
    requires
        call_ensures(Bringup::advance, (b, o), m),
    ensures
        final(b).cfg == old(b).cfg && final(b).swaps == old(b).swaps && final(b).format
            == old(b).format,
        ({
            let was = old(b).stage;
            let now = final(b).stage;
            let cfg = old(b).cfg;
            let flash = cfg.umami_device@.len() > 0 && !is_listed(old(b).swaps@, cfg.umami_device@);
            let fallback = cfg.fallback_swap@.len() > 0 && !is_listed(
                old(b).swaps@,
                cfg.fallback_swap@,
            );
            let flash_over = was == UpStage::FlashActivate || (was == UpStage::FlashProbe && o is Err)
                || (was == UpStage::Zram && !flash);
            &&& was == UpStage::Zram && flash ==> now == UpStage::FlashProbe
            &&& was == UpStage::FlashProbe && o is Ok && old(b).format ==> now
                == UpStage::FlashFormat
            &&& was == UpStage::FlashProbe && o is Ok && !old(b).format ==> now
                == UpStage::FlashActivate
            &&& was == UpStage::FlashFormat ==> now == UpStage::FlashActivate
            &&& flash_over && fallback ==> now == UpStage::FallbackProbe
            &&& flash_over && !fallback ==> now == UpStage::Done
            &&& was == UpStage::FallbackProbe && o is Ok && old(b).format ==> now
                == UpStage::FallbackFormat
            &&& was == UpStage::FallbackProbe && o is Ok && !old(b).format ==> now
                == UpStage::FallbackActivate
            &&& was == UpStage::FallbackProbe && o is Err ==> now == UpStage::Done
            &&& was == UpStage::FallbackFormat ==> now == UpStage::FallbackActivate
            &&& was == UpStage::FallbackActivate ==> now == UpStage::Done
            &&& was == UpStage::Done ==> now == UpStage::Done
        }),
{
    lemma_listed(old(b).swaps@, old(b).cfg.umami_device@);
    lemma_listed(old(b).swaps@, old(b).cfg.fallback_swap@);
}

/// Whether a message says that something went well.
pub open spec fn says(m: Option<Message>, text: Seq<char>) -> bool {
    m matches Some(x) && x.level == Level::Info && x.text@ == text
}

/// Whether a message says that something did not go well.
pub open spec fn warns(m: Option<Message>, text: Seq<char>) -> bool {
    m matches Some(x) && x.level == Level::Warn && x.text@ == text
}

/// What is said of a tier that is up: its own device, size, algorithm and
/// priority.
pub proof fn law_what_is_said_of_success(b: &mut Bringup, text: String, m: Option<Message>)
    requires
        call_ensures(Bringup::advance, (b, Ok(text)), m),
    ensures
        ({
            let cfg = old(b).cfg;
            let was = old(b).stage;
            &&& was == UpStage::Zram ==> says(
                m,
                "zram tier up: "@ + text@ + " ("@ + decimal(cfg.zram_size_mb as nat) + " MiB, "@
                    + cfg.zram_algorithm@ + ", priority "@ + signed_decimal(
                    cfg.zram_priority as int,
                ) + ")"@,
            )
            &&& was == UpStage::FlashFormat ==> says(
                m,
                "formatted "@ + cfg.umami_device@ + " as swap"@,
            )
            &&& was == UpStage::FlashActivate ==> says(
                m,
                "umami tier up: "@ + cfg.umami_device@ + " (priority "@ + signed_decimal(
                    cfg.umami_priority as int,
                ) + ")"@,
            )
            &&& was == UpStage::FallbackFormat ==> says(
                m,
                "formatted "@ + cfg.fallback_swap@ + " as swap"@,
            )
            &&& was == UpStage::FallbackActivate ==> says(
                m,
                "fallback tier up: "@ + cfg.fallback_swap@ + " (priority "@ + signed_decimal(
                    cfg.fallback_priority as int,
                ) + ")"@,
            )
            &&& was == UpStage::FlashProbe || was == UpStage::FallbackProbe || was == UpStage::Done
                ==> m is None
        }),
{
}

/// What is said of a tier that could not be brought up: its own device, and the
/// error.
pub proof fn law_what_is_said_of_failure(b: &mut Bringup, e: String, m: Option<Message>)
    requires
        call_ensures(Bringup::advance, (b, Err(e)), m),
    ensures
        ({
            let cfg = old(b).cfg;
            let was = old(b).stage;
            &&& was == UpStage::Zram ==> warns(m, "zram tier unavailable: "@ + e@)
            &&& was == UpStage::FlashProbe ==> warns(
                m,
                "umami tier "@ + cfg.umami_device@ + " not present; skipping"@,
            )
            &&& was == UpStage::FlashFormat ==> warns(
                m,
                "mkswap "@ + cfg.umami_device@ + " failed: "@ + e@,
            )
            &&& was == UpStage::FlashActivate ==> warns(
                m,
                "umami tier "@ + cfg.umami_device@ + " failed to activate: "@ + e@
                    + " (needs `umami setup --format`?)"@,
            )
            &&& was == UpStage::FallbackProbe ==> warns(
                m,
                "fallback swap "@ + cfg.fallback_swap@ + " not present; skipping"@,
            )
            &&& was == UpStage::FallbackFormat ==> warns(
                m,
                "mkswap "@ + cfg.fallback_swap@ + " failed: "@ + e@,
            )
            &&& was == UpStage::FallbackActivate ==> warns(
                m,
                "fallback tier "@ + cfg.fallback_swap@ + " failed: "@ + e@,
            )
            &&& was == UpStage::Done ==> m is None
        }),
{
}

/// What a chore does: a ZRAM device is removed, another device is stopped.
pub open spec fn is_zram_chore(c: Chore, dev: Seq<char>) -> bool {
    c matches Chore::Zram(d) && d@ == dev
}

/// Whether a chore stops this device being a swap area.
pub open spec fn is_swapoff_chore(c: Chore, dev: Seq<char>) -> bool {
    c matches Chore::Swapoff(d) && d@ == dev
}

/// The ZRAM devices among the swap areas, in their order.
pub open spec fn zram_devices(swaps: Seq<String>) -> Seq<Seq<char>> {
    strings(swaps).filter(|s: Seq<char>| begins(s, "/dev/zram"@))
}

proof fn lemma_zram_devices(swaps: Seq<Seq<char>>)
    ensures
        zram_errands(swaps) == swaps.filter(
            |s: Seq<char>| begins(s, "/dev/zram"@),
        ).map_values(|d: Seq<char>| Errand::Zram(d)),
    decreases swaps.len(),
{
    reveal(Seq::filter);
    let p = |s: Seq<char>| begins(s, "/dev/zram"@);
    if swaps.len() > 0 {
        let t = swaps.drop_last();
        lemma_zram_devices(t);
        if p(swaps.last()) {
            assert(swaps.filter(p) == t.filter(p).push(swaps.last()));
        } else {
            assert(swaps.filter(p) == t.filter(p));
        }
    }
    assert(zram_errands(swaps) =~= swaps.filter(p).map_values(|d: Seq<char>| Errand::Zram(d)));
}

/// Taking down removes every ZRAM device once, in the order of the swap areas,
/// and only then stops the flash tier and last the fallback tier, each if it is
/// managed and a swap area.
pub proof fn law_teardown_order(cfg: &TiersCfg, swaps: Vec<String>, r: Vec<Chore>)
    requires
        call_ensures(teardown_plan, (cfg, &swaps), r),
    ensures
        ({
            let zram = zram_devices(swaps@);
            let n = zram.len() as int;
            let flash = cfg.umami_device@.len() > 0 && is_listed(swaps@, cfg.umami_device@);
            let fallback = cfg.fallback_swap@.len() > 0 && is_listed(swaps@, cfg.fallback_swap@);
            let f = if flash {
                n + 1
            } else {
                n
            };
            &&& forall|i: int| 0 <= i < n ==> is_zram_chore(#[trigger] r@[i], zram[i])
            &&& flash ==> is_swapoff_chore(r@[n], cfg.umami_device@)
            &&& fallback ==> is_swapoff_chore(r@[f], cfg.fallback_swap@)
            &&& r@.len() == if fallback {
                f + 1
            } else {
                f
            }
        }),
{
    let all = strings(swaps@);
    lemma_zram_devices(all);
    lemma_listed(swaps@, cfg.umami_device@);
    lemma_listed(swaps@, cfg.fallback_swap@);
    let e = teardown_errands(*cfg, all);
    assert(e.len() == r@.len());
    assert forall|i: int| 0 <= i < r@.len() implies e[i] == (#[trigger] r@[i])@ by {
        assert(crate::teardown::errands(r@)[i] == r@[i]@);
    }
}

/// What is said of a chore, with its own device and the error.
pub proof fn law_what_is_said_of_a_chore(c: Chore, e: String, good: Message, bad: Message)
    requires
        call_ensures(Chore::message, (&c, &Ok::<(), String>(())), good),
        call_ensures(Chore::message, (&c, &Err::<(), String>(e)), bad),
    ensures
        c matches Chore::Zram(dev) ==> says(Some(good), "zram tier "@ + dev@ + " removed"@) && warns(
            Some(bad),
            "zram teardown "@ + dev@ + " failed: "@ + e@,
        ),
        c matches Chore::Swapoff(dev) ==> says(Some(good), "swapoff "@ + dev@) && warns(
            Some(bad),
            "swapoff "@ + dev@ + " failed: "@ + e@,
        ),
{
}

/// A system that was taken down has the swappiness and the cache pressure of a
/// stock system.
pub proof fn law_stock_tunables(r: (Action, Action), m: Message)
    requires
        call_ensures(restore, (), r),
        call_ensures(restored, (), m),
    ensures
        writes(r.0, "/proc/sys/vm/swappiness"@, seq!['6', '0']),
        writes(r.1, "/proc/sys/vm/vfs_cache_pressure"@, seq!['1', '0', '0']),
        says(Some(m), "sysctl restored: swappiness=60, vfs_cache_pressure=100"@),
{
    reveal_with_fuel(decimal, 4);
    assert(decimal(60) =~= seq!['6', '0']);
    assert(decimal(100) =~= seq!['1', '0', '0']);
}

} // verus!
