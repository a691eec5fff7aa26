//! Taking the managed tiers down, so that the system behaves stock again.

use crate::config::TiersCfg;
use crate::log::{info, warning, Level, Message, Note};
use crate::numeral::decimal;
use crate::text::{begins, holds, joined, strings, without_front};
use crate::tiers::{sysctl_write, Action, Deed, CACHE_PRESSURE, SWAPPINESS};
use vstd::prelude::*;

verus! {

/// The swappiness of a stock system.
pub const STOCK_SWAPPINESS: u32 = 60;

/// The cache pressure of a stock system.
pub const STOCK_CACHE_PRESSURE: u32 = 100;

/// Something to take down.
#[derive(Debug)]
pub enum Chore {
    /// Remove this ZRAM device.
    Zram(String),
    /// Stop this device being a swap area.
    Swapoff(String),
}

/// Something to take down, as the contracts see it.
pub enum Errand {
    Zram(Seq<char>),
    Swapoff(Seq<char>),
}

impl View for Chore {
    type V = Errand;

    open spec fn view(&self) -> Errand {
        match *self {
            Chore::Zram(dev) => Errand::Zram(dev@),
            Chore::Swapoff(dev) => Errand::Swapoff(dev@),
        }
    }
}

/// The errands that chores stand for.
pub open spec fn errands(v: Seq<Chore>) -> Seq<Errand> {
    v.map_values(|c: Chore| c@)
}

/// An errand for each ZRAM device among the swap areas, in their order.
pub open spec fn zram_errands(swaps: Seq<Seq<char>>) -> Seq<Errand>
    decreases swaps.len(),
{
    if swaps.len() == 0 {
        seq![]
    } else if begins(swaps.last(), "/dev/zram"@) {
        zram_errands(swaps.drop_last()).push(Errand::Zram(swaps.last()))
    } else {
        zram_errands(swaps.drop_last())
    }
}

/// An errand for a device, if it is managed and a swap area.
pub open spec fn device_errand(dev: Seq<char>, swaps: Seq<Seq<char>>) -> Seq<Errand> {
    if dev.len() > 0 && swaps.contains(dev) {
        seq![Errand::Swapoff(dev)]
    } else {
        seq![]
    }
}

/// All that has to be taken down.
pub open spec fn teardown_errands(cfg: TiersCfg, swaps: Seq<Seq<char>>) -> Seq<Errand> {
    zram_errands(swaps) + device_errand(cfg.umami_device@, swaps) + device_errand(
        cfg.fallback_swap@,
        swaps,
    )
}

/// All that has to be taken down: every ZRAM device, then the flash tier and
/// the fallback tier.
pub fn teardown_plan(cfg: &TiersCfg, swaps: &Vec<String>) -> (r: Vec<Chore>)
    ensures
        errands(r@) == teardown_errands(*cfg, strings(swaps@)),
{
    let ghost all = strings(swaps@);
    let mut out: Vec<Chore> = Vec::new();
    let mut i: usize = 0;
    proof {
        assert(all.take(0) == Seq::<Seq<char>>::empty());
        assert(errands(out@) == Seq::<Errand>::empty());
    }
    while i < swaps.len()
        invariant
            i <= swaps@.len(),
            all == strings(swaps@),
            errands(out@) == zram_errands(all.take(i as int)),
        decreases swaps@.len() - i,
    {
        proof {
            assert(all[i as int] == swaps@[i as int]@);
            assert(all.take(i + 1).drop_last() == all.take(i as int));
        }
        let ghost before = errands(out@);
        if without_front(swaps[i].as_str(), "/dev/zram").is_some() {
            out.push(Chore::Zram(swaps[i].clone()));
            proof {
                assert(errands(out@) == before.push(Errand::Zram(all[i as int])));
            }
        }
        i = i + 1;
    }
    let ghost zram = errands(out@);
    proof {
        assert(all.take(i as int) == all);
        assert(zram + Seq::<Errand>::empty() == zram);
    }
    if !cfg.umami_device.as_str().is_empty() && holds(swaps, &cfg.umami_device) {
        out.push(Chore::Swapoff(cfg.umami_device.clone()));
        proof {
            assert(errands(out@) == zram + seq![Errand::Swapoff(cfg.umami_device@)]);
        }
    }
    let ghost both = errands(out@);
    proof {
        assert(both == zram + device_errand(cfg.umami_device@, all));
        assert(both + Seq::<Errand>::empty() == both);
    }
    if !cfg.fallback_swap.as_str().is_empty() && holds(swaps, &cfg.fallback_swap) {
        out.push(Chore::Swapoff(cfg.fallback_swap.clone()));
        proof {
            assert(errands(out@) == both + seq![Errand::Swapoff(cfg.fallback_swap@)]);
        }
    }
    out
}

/// What is said once an errand has been run.
pub open spec fn errand_note(e: Errand, o: Result<(), Seq<char>>) -> Note {
    match (e, o) {
        (Errand::Zram(dev), Ok(_)) => info("zram tier "@ + dev + " removed"@),
        (Errand::Zram(dev), Err(m)) => warning("zram teardown "@ + dev + " failed: "@ + m),
        (Errand::Swapoff(dev), Ok(_)) => info("swapoff "@ + dev),
        (Errand::Swapoff(dev), Err(m)) => warning("swapoff "@ + dev + " failed: "@ + m),
    }
}

impl Chore {
    /// What is said once the chore has been done, or has failed.
    pub fn message(&self, o: &Result<(), String>) -> (r: Message)
        ensures
            *o matches Ok(_) ==> r@ == errand_note(self@, Ok(())),
            *o matches Err(m) ==> r@ == errand_note(self@, Err(m@)),
    {
        match (self, o) {
            (Chore::Zram(dev), Ok(_)) => Message {
                level: Level::Info,
                text: joined(joined("zram tier ", dev.as_str()).as_str(), " removed"),
            },
            (Chore::Zram(dev), Err(m)) => {
                let mut text: String = joined("zram teardown ", dev.as_str());
                text.append(" failed: ");
                text.append(m.as_str());
                Message { level: Level::Warn, text }
            },
            (Chore::Swapoff(dev), Ok(_)) => Message {
                level: Level::Info,
                text: joined("swapoff ", dev.as_str()),
            },
            (Chore::Swapoff(dev), Err(m)) => {
                let mut text: String = joined("swapoff ", dev.as_str());
                text.append(" failed: ");
                text.append(m.as_str());
                Message { level: Level::Warn, text }
            },
        }
    }
}

/// The last steps of taking down: the tunables go back to those of a stock
/// system. What comes of them does not matter.
pub fn restore() -> (r: (Action, Action))
    ensures
        r.0@ == Deed::Write(SWAPPINESS@, decimal(STOCK_SWAPPINESS as nat)),
        r.1@ == Deed::Write(CACHE_PRESSURE@, decimal(STOCK_CACHE_PRESSURE as nat)),
{
    (
        sysctl_write(SWAPPINESS, STOCK_SWAPPINESS),
        sysctl_write(CACHE_PRESSURE, STOCK_CACHE_PRESSURE),
    )
}

/// What is said at the end.
pub fn restored() -> (r: Message)
    ensures
        r@ == info("sysctl restored: swappiness=60, vfs_cache_pressure=100"@),
{
    Message {
        level: Level::Info,
        text: String::from_str("sysctl restored: swappiness=60, vfs_cache_pressure=100"),
    }
}

} // verus!
