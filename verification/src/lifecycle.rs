//! What the life of the tiers promises: no half-configured device is left
//! behind, what is up already is left alone, and what was set up can be taken
//! down.

use crate::bringup::{device_missing, up_first, up_job, up_next, zram_missing, Job, UpStage};
use crate::config::TiersCfg;
use crate::numeral::{decimal, signed_decimal};
use crate::teardown::{device_errand, teardown_errands, zram_errands, Errand};
use crate::text::{begins, strings, trim};
use crate::tiers::{mkswap, swapoff, swapon, Action, Deed, Outcome};
use crate::zram::{
    device, down_deed, down_next, setup_deed, setup_next, zram_setup, zram_teardown, DownPhase,
    DownStage, InvalidInput, Phase, Stage, ZramSetup, ZramTeardown,
};
use vstd::prelude::*;

verus! {

/// What came of a row of steps.
pub type Results = Seq<Result<Seq<char>, Seq<char>>>;

/// The phase of a setup after a row of steps.
pub open spec fn setup_after(algorithm: Seq<char>, results: Results) -> Phase
    decreases results.len(),
{
    if results.len() == 0 {
        Phase::Control
    } else {
        setup_next(algorithm, setup_after(algorithm, results.drop_last()), results.last())
    }
}

/// How many steps a setup may still take.
pub open spec fn setup_left(p: Phase) -> nat {
    match p {
        Phase::Control => 9,
        Phase::Module => 8,
        Phase::HotAdd => 7,
        Phase::Allocate => 6,
        Phase::Algorithm(_) => 5,
        Phase::Size(_) => 4,
        Phase::Format(_) => 3,
        Phase::Activate(_) => 2,
        Phase::Rollback(_, _) => 1,
        Phase::Done(_) => 0,
    }
}

proof fn lemma_setup_left(algorithm: Seq<char>, results: Results)
    ensures
        setup_left(setup_after(algorithm, results)) + results.len() <= 9 || setup_after(
            algorithm,
            results,
        ) is Done,
    decreases results.len(),
{
    if results.len() > 0 {
        lemma_setup_left(algorithm, results.drop_last());
    }
}

/// A setup comes to an end after nine steps at most, whatever comes of them.
pub proof fn law_setup_ends(algorithm: Seq<char>, results: Results)
    requires
        results.len() >= 9,
    ensures
        setup_after(algorithm, results) is Done,
{
    lemma_setup_left(algorithm, results);
}

/// The number of the device that a phase has at hand.
pub open spec fn allocated(p: Phase) -> Option<Seq<char>> {
    match p {
        Phase::Algorithm(id) => Some(id),
        Phase::Size(id) => Some(id),
        Phase::Format(id) => Some(id),
        Phase::Activate(id) => Some(id),
        Phase::Rollback(id, _) => Some(id),
        _ => None,
    }
}

/// Whether a device with the number `id` was asked to be removed in the course
/// of a row of steps.
pub open spec fn removed(
    size_mb: u64,
    algorithm: Seq<char>,
    priority: i32,
    results: Results,
    id: Seq<char>,
) -> bool {
    exists|j: int|
        0 <= j < results.len() && setup_deed(
            size_mb,
            algorithm,
            priority,
            #[trigger] setup_after(algorithm, results.take(j)),
        ) == Some(Deed::Write("/sys/class/zram-control/hot_remove"@, id))
}

/// No half-configured device is left behind: once the kernel has allocated a
/// device, the setup is still at work on it, or it has ended with this very
/// device, or it has ended with an error and has had the device removed.
pub proof fn law_device_is_kept_or_removed(
    size_mb: u64,
    algorithm: Seq<char>,
    priority: i32,
    results: Results,
    i: int,
)
    requires
        0 <= i < results.len(),
        setup_after(algorithm, results.take(i)) == Phase::Allocate,
        results[i] is Ok,
    ensures
        ({
            let id = trim(results[i]->Ok_0);
            match setup_after(algorithm, results) {
                Phase::Done(Ok(dev)) => dev == device(id),
                Phase::Done(Err(_)) => removed(size_mb, algorithm, priority, results, id),
                p => allocated(p) == Some(id),
            }
        }),
    decreases results.len(),
{
    let t = results.drop_last();
    let id = trim(results[i]->Ok_0);
    if i == results.len() - 1 {
        assert(results.take(i) == t);
    } else {
        assert(results.take(i) == t.take(i));
        law_device_is_kept_or_removed(size_mb, algorithm, priority, t, i);
        let before = setup_after(algorithm, t);
        let n = results.len() - 1;
        if before matches Phase::Done(Err(_)) {
            let j = choose|j: int|
                0 <= j < t.len() && setup_deed(
                    size_mb,
                    algorithm,
                    priority,
                    #[trigger] setup_after(algorithm, t.take(j)),
                ) == Some(Deed::Write("/sys/class/zram-control/hot_remove"@, id));
            assert(t.take(j) == results.take(j));
            assert(setup_deed(size_mb, algorithm, priority, setup_after(algorithm, results.take(j)))
                == Some(Deed::Write("/sys/class/zram-control/hot_remove"@, id)));
        } else if before is Rollback {
            assert(results.take(n) == t);
            assert(setup_deed(size_mb, algorithm, priority, setup_after(algorithm, results.take(n)))
                == Some(Deed::Write("/sys/class/zram-control/hot_remove"@, id)));
        }
    }
}

/// The algorithm is chosen before the device gets its size: unless none is
/// wanted, the size is given only right after the algorithm has been accepted.
pub proof fn law_algorithm_comes_before_size(algorithm: Seq<char>, results: Results)
    requires
        algorithm.len() > 0,
        setup_after(algorithm, results) is Size,
    ensures
        results.len() > 0,
        results.last() is Ok,
        setup_after(algorithm, results.drop_last()) == Phase::Algorithm(
            setup_after(algorithm, results)->Size_0,
        ),
{
}

/// A setup succeeds only if the device was given its size, a signature and its
/// place among the swap areas, each with success and in this order.
pub proof fn law_success_takes_every_step(algorithm: Seq<char>, results: Results)
    requires
        results.len() > 0,
        setup_after(algorithm, results) matches Phase::Done(Ok(_)),
        !(setup_after(algorithm, results.drop_last()) is Done),
    ensures
        results.len() >= 3,
        ({
            let n = results.len() as int;
            exists|id: Seq<char>|
                {
                    &&& setup_after(algorithm, results) == Phase::Done(Ok(#[trigger] device(id)))
                    &&& setup_after(algorithm, results.take(n - 1)) == Phase::Activate(id)
                    &&& setup_after(algorithm, results.take(n - 2)) == Phase::Format(id)
                    &&& setup_after(algorithm, results.take(n - 3)) == Phase::Size(id)
                    &&& results[n - 1] is Ok && results[n - 2] is Ok && results[n - 3] is Ok
                }
        }),
{
    let n = results.len() as int;
    let a = results.drop_last();
    assert(a == results.take(n - 1));
    let id = setup_after(algorithm, a)->Activate_0;
    assert(a.drop_last() == results.take(n - 2));
    assert(a.last() == results[n - 2]);
    let b = results.take(n - 2);
    assert(setup_after(algorithm, a) == Phase::Activate(id));
    assert(setup_after(algorithm, b) == Phase::Format(id));
    assert(b.len() > 0);
    assert(b.drop_last() == results.take(n - 3));
    assert(b.last() == results[n - 3]);
    assert(setup_after(algorithm, results) == Phase::Done(Ok(device(id))));
}

/// The error that a setup ends with is the one that stopped it; what comes of
/// the removal does not replace it.
pub proof fn law_first_error_is_told(algorithm: Seq<char>, id: Seq<char>, e: Seq<char>, o: Result<
    Seq<char>,
    Seq<char>,
>)
    ensures
        setup_next(algorithm, Phase::Algorithm(id), Err(e)) == Phase::Rollback(id, e),
        setup_next(algorithm, Phase::Size(id), Err(e)) == Phase::Rollback(id, e),
        setup_next(algorithm, Phase::Format(id), Err(e)) == Phase::Rollback(id, e),
        setup_next(algorithm, Phase::Activate(id), Err(e)) == Phase::Rollback(id, e),
        setup_next(algorithm, Phase::Rollback(id, e), o) == Phase::Done(Err(e)),
{
}

/// The device that a setup ends with can be taken down, and the number that is
/// then removed is the one that the setup was given.
pub proof fn law_teardown_undoes_setup(id: Seq<char>, found: Seq<char>)
    requires
        device(found) == device(id),
    ensures
        begins(device(id), "/dev/zram"@),
        found == id,
        down_deed(found, DownPhase::Remove) == Some(
            Deed::Write("/sys/class/zram-control/hot_remove"@, id),
        ),
{
    let f = "/dev/zram"@;
    let n = f.len() as int;
    assert(device(id).take(n) == f);
    assert(device(id).skip(n) == id);
    assert(device(found).skip(n) == found);
}

/// The phase of a removal after a row of steps.
pub open spec fn down_after(results: Results) -> DownPhase
    decreases results.len(),
{
    if results.len() == 0 {
        DownPhase::Deactivate
    } else {
        down_next(down_after(results.drop_last()), results.last())
    }
}

/// A removal comes to an end after four steps at most, whatever comes of them.
pub proof fn law_removal_ends(results: Results)
    requires
        results.len() >= 4,
    ensures
        down_after(results) is Done,
{
    lemma_removal_left(results);
}

proof fn lemma_removal_left(results: Results)
    ensures
        match down_after(results) {
            DownPhase::Deactivate => results.len() == 0,
            DownPhase::Probe => results.len() == 1,
            DownPhase::Reset => results.len() == 2,
            DownPhase::Remove => results.len() == 3,
            DownPhase::Done(_) => true,
        },
    decreases results.len(),
{
    if results.len() > 0 {
        lemma_removal_left(results.drop_last());
    }
}

/// A removal first stops the device being a swap area; then it succeeds if the
/// kernel has no such device, or has reset it and then removed it. Whether the
/// device was a swap area does not matter.
pub proof fn law_removal(results: Results)
    requires
        results.len() == 4,
    ensures
        down_after(results) == DownPhase::Done(
            if results[1] is Err {
                Ok(())
            } else if results[2] is Err {
                Err(results[2]->Err_0)
            } else if results[3] is Err {
                Err(results[3]->Err_0)
            } else {
                Ok(())
            },
        ),
{
    let (a, b, c) = (results.take(3), results.take(2), results.take(1));
    assert(results.drop_last() == a && a.drop_last() == b && b.drop_last() == c);
    assert(c.drop_last() == Seq::<Result<Seq<char>, Seq<char>>>::empty());
    reveal_with_fuel(down_after, 5);
}

/// The stage of the bring-up after a row of stages, each of which was a success
/// or not.
pub open spec fn up_after(
    cfg: TiersCfg,
    swaps: Seq<Seq<char>>,
    format: bool,
    successes: Seq<bool>,
) -> UpStage
    decreases successes.len(),
{
    if successes.len() == 0 {
        up_first(cfg, swaps)
    } else {
        up_next(
            cfg,
            swaps,
            format,
            up_after(cfg, swaps, format, successes.drop_last()),
            successes.last(),
        )
    }
}

/// The place of a stage: ZRAM comes before flash, and flash before the fallback.
pub open spec fn up_place(stage: UpStage) -> nat {
    match stage {
        UpStage::Zram => 0,
        UpStage::FlashProbe => 1,
        UpStage::FlashFormat => 2,
        UpStage::FlashActivate => 3,
        UpStage::FallbackProbe => 4,
        UpStage::FallbackFormat => 5,
        UpStage::FallbackActivate => 6,
        UpStage::Done => 7,
    }
}

/// The tiers are brought up in their order, ZRAM first and the fallback last:
/// every stage leads to one further on.
pub proof fn law_tiers_come_in_order(
    cfg: TiersCfg,
    swaps: Seq<Seq<char>>,
    format: bool,
    stage: UpStage,
    success: bool,
)
    ensures
        stage == UpStage::Done ==> up_next(cfg, swaps, format, stage, success) == UpStage::Done,
        stage != UpStage::Done ==> up_place(up_next(cfg, swaps, format, stage, success)) > up_place(
            stage,
        ),
{
}

proof fn lemma_up_place(cfg: TiersCfg, swaps: Seq<Seq<char>>, format: bool, successes: Seq<bool>)
    ensures
        up_place(up_after(cfg, swaps, format, successes)) >= successes.len() || up_after(
            cfg,
            swaps,
            format,
            successes,
        ) == UpStage::Done,
    decreases successes.len(),
{
    if successes.len() > 0 {
        lemma_up_place(cfg, swaps, format, successes.drop_last());
    }
}

/// The bring-up comes to an end after seven stages at most.
pub proof fn law_bringup_ends(
    cfg: TiersCfg,
    swaps: Seq<Seq<char>>,
    format: bool,
    successes: Seq<bool>,
)
    requires
        successes.len() >= 7,
    ensures
        up_after(cfg, swaps, format, successes) == UpStage::Done,
{
    lemma_up_place(cfg, swaps, format, successes);
}

/// Whether every tier that is wanted is a swap area already.
pub open spec fn all_up(cfg: TiersCfg, swaps: Seq<Seq<char>>) -> bool {
    &&& cfg.zram_size_mb > 0 ==> exists|i: int|
        0 <= i < swaps.len() && begins(#[trigger] swaps[i], "/dev/zram"@)
    &&& cfg.umami_device@.len() > 0 ==> swaps.contains(cfg.umami_device@)
    &&& cfg.fallback_swap@.len() > 0 ==> swaps.contains(cfg.fallback_swap@)
}

/// Bringing up is idempotent: where every wanted tier is up already there is
/// nothing to do, and only there.
pub proof fn law_bringup_is_idempotent(cfg: TiersCfg, swaps: Seq<Seq<char>>)
    ensures
        all_up(cfg, swaps) <==> up_first(cfg, swaps) == UpStage::Done,
        all_up(cfg, swaps) <==> up_job(cfg, up_first(cfg, swaps)) is None,
{
}

/// A tier that is up already is left alone, whatever comes of the others.
pub proof fn law_active_tier_is_left_alone(
    cfg: TiersCfg,
    swaps: Seq<Seq<char>>,
    format: bool,
    successes: Seq<bool>,
)
    ensures
        !zram_missing(cfg, swaps) ==> up_after(cfg, swaps, format, successes) != UpStage::Zram,
        !device_missing(cfg.umami_device@, swaps) ==> {
            let p = up_place(up_after(cfg, swaps, format, successes));
            p < 1 || 3 < p
        },
        !device_missing(cfg.fallback_swap@, swaps) ==> {
            let p = up_place(up_after(cfg, swaps, format, successes));
            p < 4 || 6 < p
        },
    decreases successes.len(),
{
    if successes.len() > 0 {
        law_active_tier_is_left_alone(cfg, swaps, format, successes.drop_last());
    }
}

/// Swap signatures are written only on request.
pub proof fn law_format_only_on_request(
    cfg: TiersCfg,
    swaps: Seq<Seq<char>>,
    successes: Seq<bool>,
)
    ensures
        up_after(cfg, swaps, false, successes) != UpStage::FlashFormat,
        up_after(cfg, swaps, false, successes) != UpStage::FallbackFormat,
    decreases successes.len(),
{
    if successes.len() > 0 {
        law_format_only_on_request(cfg, swaps, successes.drop_last());
    }
}

/// Whether a stage was come to in the course of a row of stages.
pub open spec fn came_to(
    cfg: TiersCfg,
    swaps: Seq<Seq<char>>,
    format: bool,
    successes: Seq<bool>,
    stage: UpStage,
) -> bool {
    exists|j: int|
        0 <= j <= successes.len() && #[trigger] up_after(cfg, swaps, format, successes.take(j))
            == stage
}

proof fn lemma_came_to_more(
    cfg: TiersCfg,
    swaps: Seq<Seq<char>>,
    format: bool,
    successes: Seq<bool>,
    stage: UpStage,
)
    requires
        successes.len() > 0,
        came_to(cfg, swaps, format, successes.drop_last(), stage),
    ensures
        came_to(cfg, swaps, format, successes, stage),
{
    let t = successes.drop_last();
    let j = choose|j: int|
        0 <= j <= t.len() && #[trigger] up_after(cfg, swaps, format, t.take(j)) == stage;
    assert(t.take(j) == successes.take(j));
    assert(up_after(cfg, swaps, format, successes.take(j)) == stage);
}

/// Best effort: every tier that is missing has had its turn by the end,
/// whatever came of the others.
pub proof fn law_every_tier_has_its_turn(
    cfg: TiersCfg,
    swaps: Seq<Seq<char>>,
    format: bool,
    successes: Seq<bool>,
)
    ensures
        zram_missing(cfg, swaps) ==> came_to(cfg, swaps, format, successes, UpStage::Zram),
        ({
            let p = up_place(up_after(cfg, swaps, format, successes));
            &&& device_missing(cfg.umami_device@, swaps) && p >= 1 ==> came_to(
                cfg,
                swaps,
                format,
                successes,
                UpStage::FlashProbe,
            )
            &&& device_missing(cfg.fallback_swap@, swaps) && p >= 4 ==> came_to(
                cfg,
                swaps,
                format,
                successes,
                UpStage::FallbackProbe,
            )
        }),
    decreases successes.len(),
{
    let n = successes.len() as int;
    assert(successes.take(n) == successes);
    let here = up_after(cfg, swaps, format, successes);
    assert(up_after(cfg, swaps, format, successes.take(n)) == here);
    if n > 0 {
        let t = successes.drop_last();
        law_every_tier_has_its_turn(cfg, swaps, format, t);
        let before = up_after(cfg, swaps, format, t);
        if zram_missing(cfg, swaps) {
            lemma_came_to_more(cfg, swaps, format, successes, UpStage::Zram);
        }
        if device_missing(cfg.umami_device@, swaps) && up_place(before) >= 1 {
            lemma_came_to_more(cfg, swaps, format, successes, UpStage::FlashProbe);
        }
        if device_missing(cfg.fallback_swap@, swaps) && up_place(before) >= 4 {
            lemma_came_to_more(cfg, swaps, format, successes, UpStage::FallbackProbe);
        }
    }
}

/// Whether a step stops a device being a swap area.
pub open spec fn deactivates(d: Deed) -> bool {
    d matches Deed::Run(program, _) && program == "swapoff"@
}

/// Neither bringing up the tiers nor setting up a ZRAM device ever stops a
/// device being a swap area; a tier that is lost is left to the kernel.
pub proof fn law_bringing_up_deactivates_nothing(
    cfg: TiersCfg,
    stage: UpStage,
    size_mb: u64,
    algorithm: Seq<char>,
    priority: i32,
    p: Phase,
)
    ensures
        up_job(cfg, stage) matches Some(Job::Step(d)) ==> !deactivates(d),
        setup_deed(size_mb, algorithm, priority, p) matches Some(d) ==> !deactivates(d),
{
    reveal_strlit("swapoff");
    reveal_strlit("swapon");
    reveal_strlit("mkswap");
    reveal_strlit("modprobe");
    assert("swapoff"@.len() == 7 && "swapon"@.len() == 6 && "mkswap"@.len() == 6
        && "modprobe"@.len() == 8);
}

/// Whether an errand is for a swap area: a ZRAM device, or a managed device.
pub open spec fn is_due(cfg: TiersCfg, swaps: Seq<Seq<char>>, e: Errand) -> bool {
    match e {
        Errand::Zram(dev) => swaps.contains(dev) && begins(dev, "/dev/zram"@),
        Errand::Swapoff(dev) => swaps.contains(dev) && dev.len() > 0 && (dev == cfg.umami_device@
            || dev == cfg.fallback_swap@),
    }
}

proof fn lemma_zram_errands(swaps: Seq<Seq<char>>, e: Errand)
    ensures
        zram_errands(swaps).contains(e) <==> (e matches Errand::Zram(dev) && swaps.contains(dev)
            && begins(dev, "/dev/zram"@)),
    decreases swaps.len(),
{
    if swaps.len() > 0 {
        let t = swaps.drop_last();
        let n = swaps.len() - 1;
        lemma_zram_errands(t, e);
        let held = zram_errands(t);
        let all = zram_errands(swaps);
        if begins(swaps[n], "/dev/zram"@) {
            let f = Errand::Zram(swaps[n]);
            assert(all == held.push(f));
            assert(all[held.len() as int] == f);
            if held.contains(e) {
                let i = choose|i: int| 0 <= i < held.len() && held[i] == e;
                assert(all[i] == e);
            }
            if all.contains(e) && e != f {
                let i = choose|i: int| 0 <= i < all.len() && all[i] == e;
                assert(held[i] == e);
            }
        }
        if let Errand::Zram(dev) = e {
            if t.contains(dev) {
                let i = choose|i: int| 0 <= i < t.len() && t[i] == dev;
                assert(swaps[i] == dev);
            }
            if swaps.contains(dev) && dev != swaps[n] {
                let i = choose|i: int| 0 <= i < swaps.len() && swaps[i] == dev;
                assert(t[i] == dev);
            }
            if dev == swaps[n] {
                assert(swaps.contains(dev));
            }
        }
    }
}

/// Taking down covers exactly the ZRAM devices and the managed devices that are
/// swap areas.
pub proof fn law_teardown_is_complete(cfg: TiersCfg, swaps: Seq<Seq<char>>, e: Errand)
    ensures
        teardown_errands(cfg, swaps).contains(e) <==> is_due(cfg, swaps, e),
{
    lemma_zram_errands(swaps, e);
    let a = zram_errands(swaps);
    let b = device_errand(cfg.umami_device@, swaps);
    let c = device_errand(cfg.fallback_swap@, swaps);
    let all = a + b + c;
    if a.contains(e) {
        let i = choose|i: int| 0 <= i < a.len() && a[i] == e;
        assert(all[i] == e);
    }
    if b.len() > 0 {
        assert(all[a.len() as int] == b[0]);
    }
    if c.len() > 0 {
        assert(all[(a + b).len() as int] == c[0]);
    }
    if all.contains(e) {
        let i = choose|i: int| 0 <= i < all.len() && all[i] == e;
        if i < a.len() {
            assert(a[i] == e);
        } else if i < (a + b).len() {
            assert(b[i - a.len()] == e);
        } else {
            assert(c[i - (a + b).len()] == e);
        }
    }
}

/// What a vector of strings holds, one by one.
proof fn lemma_strings(v: Seq<String>)
    ensures
        strings(v).len() == v.len(),
        forall|i: int| 0 <= i < v.len() ==> strings(v)[i] == (#[trigger] v[i])@,
{
}

/// Whether an action runs a program with these arguments.
pub open spec fn runs(a: Action, program: Seq<char>, args: Seq<Seq<char>>) -> bool {
    a matches Action::Run(p, given) && p@ == program && given@.len() == args.len() && forall|i: int|
        0 <= i < args.len() ==> (#[trigger] given@[i])@ == args[i]
}

/// Whether an action writes a text to a file.
pub open spec fn writes(a: Action, path: Seq<char>, text: Seq<char>) -> bool {
    a matches Action::Write(p, t) && p@ == path && t@ == text
}

/// Whether an action looks for a file.
pub open spec fn probes(a: Action, path: Seq<char>) -> bool {
    a matches Action::Probe(p) && p@ == path
}

/// Whether an action reads a file.
pub open spec fn reads_file(a: Action, path: Seq<char>) -> bool {
    a matches Action::Read(p) && p@ == path
}

/// The three programs that deal with swap areas, and the arguments that they
/// are given.
pub proof fn law_swap_programs(dev: &str, priority: i32, made: Action, on: Action, off: Action)
    requires
        call_ensures(mkswap, (dev,), made),
        call_ensures(swapon, (dev, priority), on),
        call_ensures(swapoff, (dev,), off),
    ensures
        runs(made, "mkswap"@, seq!["-f"@, dev@]),
        runs(on, "swapon"@, seq!["--priority"@, signed_decimal(priority as int), dev@]),
        runs(off, "swapoff"@, seq![dev@]),
{
    lemma_strings(made->Run_1@);
    lemma_strings(on->Run_1@);
    lemma_strings(off->Run_1@);
}

/// The step that each stage of a setup asks for. The algorithm, the size and the
/// priority are those that the setup was begun with, and the device is the one
/// with the number that the stage has at hand.
pub proof fn law_steps_of_a_setup(z: ZramSetup, r: Option<Action>)
    requires
        call_ensures(ZramSetup::action, (&z,), r),
    ensures
        z.stage is Done <==> r is None,
        z.stage is Control ==> probes(r->0, "/sys/class/zram-control"@),
        z.stage is Module ==> runs(r->0, "modprobe"@, seq!["zram"@]),
        z.stage is HotAdd ==> probes(r->0, "/sys/class/zram-control/hot_add"@),
        z.stage is Allocate ==> reads_file(r->0, "/sys/class/zram-control/hot_add"@),
        z.stage matches Stage::Algorithm(id) ==> writes(
            r->0,
            "/sys/block/zram"@ + id@ + "/comp_algorithm"@,
            z.algorithm@,
        ),
        z.stage matches Stage::Size(id) ==> writes(
            r->0,
            "/sys/block/zram"@ + id@ + "/disksize"@,
            decimal(z.size_mb as nat) + "M"@,
        ),
        z.stage matches Stage::Format(id) ==> runs(
            r->0,
            "mkswap"@,
            seq!["-f"@, "/dev/zram"@ + id@],
        ),
        z.stage matches Stage::Activate(id) ==> runs(
            r->0,
            "swapon"@,
            seq!["--priority"@, signed_decimal(z.priority as int), "/dev/zram"@ + id@],
        ),
        z.stage matches Stage::Rollback(id, _) ==> writes(
            r->0,
            "/sys/class/zram-control/hot_remove"@,
            id@,
        ),
{
    if r is Some {
        lemma_strings((r->0)->Run_1@);
    }
}

/// A setup begins with the probe for the control of ZRAM, and holds on to what
/// it was asked for.
pub proof fn law_setup_begins(size_mb: u64, algorithm: &str, priority: i32, z: ZramSetup)
    requires
        call_ensures(zram_setup, (size_mb, algorithm, priority), z),
    ensures
        z.stage is Control,
        z.size_mb == size_mb,
        z.algorithm@ == algorithm@,
        z.priority == priority,
{
}

/// Whatever comes of loading the module, the step after it is to see whether
/// devices can be added; so it is where the control of ZRAM was there already.
pub proof fn law_module_is_best_effort(z: ZramSetup, o: Outcome, next: ZramSetup, r: Option<Action>)
    requires
        z.stage is Module || (z.stage is Control && o is Ok),
        call_ensures(ZramSetup::advance, (z, o), next),
        call_ensures(ZramSetup::action, (&next,), r),
    ensures
        r is Some,
        probes(r->0, "/sys/class/zram-control/hot_add"@),
{
    law_steps_of_a_setup(next, r);
}

/// How a setup goes on after each step. What it was asked for stays.
pub proof fn law_course_of_a_setup(z: ZramSetup, o: Outcome, next: ZramSetup)
    requires
        call_ensures(ZramSetup::advance, (z, o), next),
    ensures
        next.size_mb == z.size_mb && next.algorithm@ == z.algorithm@ && next.priority == z.priority,
        z.stage is Control && o is Err ==> next.stage is Module,
        z.stage is Control && o is Ok ==> next.stage is HotAdd,
        z.stage is Module ==> next.stage is HotAdd,
        z.stage is HotAdd && o is Ok ==> next.stage is Allocate,
        z.stage is HotAdd && o is Err ==> (next.stage matches Stage::Done(Err(e)) && e@
            == "zram-control not available (kernel lacks zram support)"@),
        z.stage is Allocate ==> (o matches Err(e) ==> (next.stage matches Stage::Done(Err(f)) && f@
            == e@)),
        z.stage is Allocate && z.algorithm@.len() > 0 ==> (o matches Ok(text) ==> (
        next.stage matches Stage::Algorithm(id) && id@ == trim(text@))),
        z.stage is Allocate && z.algorithm@.len() == 0 ==> (o matches Ok(text) ==> (
        next.stage matches Stage::Size(id) && id@ == trim(text@))),
        z.stage matches Stage::Algorithm(id) ==> (o is Ok ==> (next.stage matches Stage::Size(j)
            && j@ == id@)),
        z.stage matches Stage::Size(id) ==> (o is Ok ==> (next.stage matches Stage::Format(j) && j@
            == id@)),
        z.stage matches Stage::Format(id) ==> (o is Ok ==> (next.stage matches Stage::Activate(j)
            && j@ == id@)),
        z.stage matches Stage::Activate(id) ==> (o is Ok ==> (next.stage matches Stage::Done(Ok(dev))
            && dev@ == "/dev/zram"@ + id@)),
        z.stage matches Stage::Rollback(_, e) ==> (next.stage matches Stage::Done(Err(f)) && f@
            == e@),
        z.stage matches Stage::Done(Ok(dev)) ==> (next.stage matches Stage::Done(Ok(same)) && same@
            == dev@),
        z.stage matches Stage::Done(Err(e)) ==> (next.stage matches Stage::Done(Err(f)) && f@
            == e@),
{
}

/// An error at any step on an allocated device leads to the removal of that
/// device, and to nothing else; the error is kept.
pub proof fn law_errors_roll_back(z: ZramSetup, o: Outcome, next: ZramSetup, id: String)
    requires
        call_ensures(ZramSetup::advance, (z, o), next),
        z.stage == Stage::Algorithm(id) || z.stage == Stage::Size(id) || z.stage == Stage::Format(id)
            || z.stage == Stage::Activate(id),
    ensures
        o matches Err(e) ==> (next.stage matches Stage::Rollback(j, f) && j@ == id@ && f@ == e@),
{
}

proof fn lemma_setup_push(algorithm: Seq<char>, results: Results, o: Result<Seq<char>, Seq<char>>)
    ensures
        setup_after(algorithm, results.push(o)) == setup_next(
            algorithm,
            setup_after(algorithm, results),
            o,
        ),
{
    assert(results.push(o).drop_last() == results);
}

/// A setup that nothing hinders succeeds: where devices can be added and each
/// later step succeeds, it ends with the device whose number was read, whatever
/// came of the first probe and of loading the module.
pub proof fn law_setup_succeeds(
    algorithm: Seq<char>,
    front: Results,
    found: Seq<char>,
    text: Seq<char>,
    tail: Results,
)
    requires
        (front.len() == 1 && front[0] is Ok) || (front.len() == 2 && front[0] is Err),
        tail.len() == if algorithm.len() == 0 {
            3int
        } else {
            4int
        },
        forall|i: int| 0 <= i < tail.len() ==> (#[trigger] tail[i]) is Ok,
    ensures
        setup_after(algorithm, front + seq![Ok(found), Ok(text)] + tail) == Phase::Done(
            Ok("/dev/zram"@ + trim(text)),
        ),
{
    let nothing = Seq::<Result<Seq<char>, Seq<char>>>::empty();
    let a = nothing.push(front[0]);
    lemma_setup_push(algorithm, nothing, front[0]);
    let b = if front.len() == 2 {
        lemma_setup_push(algorithm, a, front[1]);
        a.push(front[1])
    } else {
        a
    };
    assert(b == front);
    assert(setup_after(algorithm, b) == Phase::HotAdd);
    let c = b.push(Ok(found));
    lemma_setup_push(algorithm, b, Ok(found));
    let d = c.push(Ok(text));
    lemma_setup_push(algorithm, c, Ok(text));
    assert(tail[0] is Ok && tail[1] is Ok && tail[2] is Ok);
    let e = d.push(tail[0]);
    lemma_setup_push(algorithm, d, tail[0]);
    let f = e.push(tail[1]);
    lemma_setup_push(algorithm, e, tail[1]);
    let g = f.push(tail[2]);
    lemma_setup_push(algorithm, f, tail[2]);
    let all = front + seq![Ok(found), Ok(text)] + tail;
    if algorithm.len() == 0 {
        assert(all =~= g);
    } else {
        assert(tail[3] is Ok);
        lemma_setup_push(algorithm, g, tail[3]);
        assert(all =~= g.push(tail[3]));
    }
}

/// Without a way to add devices there is no device: the setup ends right then,
/// and says so.
pub proof fn law_setup_needs_a_way_to_add(algorithm: Seq<char>, front: Results, e: Seq<char>)
    requires
        (front.len() == 1 && front[0] is Ok) || (front.len() == 2 && front[0] is Err),
    ensures
        setup_after(algorithm, front.push(Err(e))) == Phase::Done(
            Err("zram-control not available (kernel lacks zram support)"@),
        ),
{
    let nothing = Seq::<Result<Seq<char>, Seq<char>>>::empty();
    let a = nothing.push(front[0]);
    lemma_setup_push(algorithm, nothing, front[0]);
    if front.len() == 2 {
        lemma_setup_push(algorithm, a, front[1]);
        assert(a.push(front[1]) == front);
    } else {
        assert(a == front);
    }
    lemma_setup_push(algorithm, front, Err(e));
}

/// A removal is begun for exactly the devices whose path begins with
/// "/dev/zram", with what follows as the number, and by stopping the device
/// being a swap area.
pub proof fn law_removal_begins(dev: &str, r: Result<ZramTeardown, InvalidInput>)
    requires
        call_ensures(zram_teardown, (dev,), r),
    ensures
        r is Ok <==> exists|id: Seq<char>| dev@ == "/dev/zram"@ + id,
        r matches Ok(t) ==> dev@ == "/dev/zram"@ + t.id@ && t.stage is Deactivate,
        r matches Err(e) ==> e.message@ == "not a zram device: "@ + dev@,
{
    let f = "/dev/zram"@;
    let n = f.len() as int;
    if begins(dev@, f) {
        assert(dev@ == f + dev@.skip(n));
    }
    if exists|id: Seq<char>| dev@ == f + id {
        let id = choose|id: Seq<char>| dev@ == f + id;
        assert(dev@.take(n) == f);
    }
}

/// The step that each stage of a removal asks for.
pub proof fn law_steps_of_a_removal(t: ZramTeardown, r: Option<Action>)
    requires
        call_ensures(ZramTeardown::action, (&t,), r),
    ensures
        t.stage is Done <==> r is None,
        t.stage is Deactivate ==> runs(r->0, "swapoff"@, seq!["/dev/zram"@ + t.id@]),
        t.stage is Probe ==> probes(r->0, "/sys/block/zram"@ + t.id@),
        t.stage is Reset ==> writes(r->0, "/sys/block/zram"@ + t.id@ + "/reset"@, "1"@),
        t.stage is Remove ==> writes(r->0, "/sys/class/zram-control/hot_remove"@, t.id@),
{
    if r is Some {
        lemma_strings((r->0)->Run_1@);
    }
}

/// How a removal goes on after each step.
pub proof fn law_course_of_a_removal(t: ZramTeardown, o: Outcome, next: ZramTeardown)
    requires
        call_ensures(ZramTeardown::advance, (t, o), next),
    ensures
        next.id@ == t.id@,
        t.stage is Deactivate ==> next.stage is Probe,
        t.stage is Probe && o is Ok ==> next.stage is Reset,
        t.stage is Probe && o is Err ==> next.stage matches DownStage::Done(Ok(_)),
        t.stage is Reset && o is Ok ==> next.stage is Remove,
        t.stage is Remove && o is Ok ==> next.stage matches DownStage::Done(Ok(_)),
        t.stage is Reset || t.stage is Remove ==> (o matches Err(e) ==> (
        next.stage matches DownStage::Done(Err(f)) && f@ == e@)),
        t.stage matches DownStage::Done(Ok(_)) ==> next.stage matches DownStage::Done(Ok(_)),
        t.stage matches DownStage::Done(Err(e)) ==> (next.stage matches DownStage::Done(Err(f)) && f@
            == e@),
{
}

} // verus!
