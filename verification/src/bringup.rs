//! Bringing every configured tier up.

use crate::config::TiersCfg;
use crate::log::{info, warning, Level, Message, Note};
use crate::numeral::{decimal, numeral_of, signed_decimal, signed_numeral_of};
use crate::text::{begins, holds, joined, strings, without_front};
use crate::tiers::{activate_deed, format_deed, mkswap, outcome, swapon, Action, Deed, Outcome};
use crate::zram::{zram_setup, Phase, ZramSetup};
use vstd::prelude::*;

verus! {

/// How far the tiers have been brought up: each stage but the last is something
/// that has to be done next.
#[derive(Clone, Copy, Debug, PartialEq, Eq, Structural)]
pub enum UpStage {
    /// Set up the ZRAM tier.
    Zram,
    /// See whether the flash tier is there.
    FlashProbe,
    /// Write a swap signature on the flash tier.
    FlashFormat,
    /// Make the flash tier a swap area.
    FlashActivate,
    /// See whether the fallback tier is there.
    FallbackProbe,
    /// Write a swap signature on the fallback tier.
    FallbackFormat,
    /// Make the fallback tier a swap area.
    FallbackActivate,
    /// Nothing is left to do.
    Done,
}

/// Whether the ZRAM tier has to be set up: it is wanted, and no ZRAM device is
/// a swap area yet.
pub open spec fn zram_missing(cfg: TiersCfg, swaps: Seq<Seq<char>>) -> bool {
    cfg.zram_size_mb > 0 && forall|i: int|
        0 <= i < swaps.len() ==> !begins(#[trigger] swaps[i], "/dev/zram"@)
}

/// Whether a device has to be brought up: it is managed, and no swap area yet.
pub open spec fn device_missing(dev: Seq<char>, swaps: Seq<Seq<char>>) -> bool {
    dev.len() > 0 && !swaps.contains(dev)
}

/// What comes after the flash tier.
pub open spec fn after_flash(cfg: TiersCfg, swaps: Seq<Seq<char>>) -> UpStage {
    if device_missing(cfg.fallback_swap@, swaps) {
        UpStage::FallbackProbe
    } else {
        UpStage::Done
    }
}

/// What comes after the ZRAM tier.
pub open spec fn after_zram(cfg: TiersCfg, swaps: Seq<Seq<char>>) -> UpStage {
    if device_missing(cfg.umami_device@, swaps) {
        UpStage::FlashProbe
    } else {
        after_flash(cfg, swaps)
    }
}

/// What comes first.
pub open spec fn up_first(cfg: TiersCfg, swaps: Seq<Seq<char>>) -> UpStage {
    if zram_missing(cfg, swaps) {
        UpStage::Zram
    } else {
        after_zram(cfg, swaps)
    }
}

/// What comes after a stage. A tier that cannot be brought up does not keep the
/// next one from being brought up.
pub open spec fn up_next(
    cfg: TiersCfg,
    swaps: Seq<Seq<char>>,
    format: bool,
    stage: UpStage,
    success: bool,
) -> UpStage {
    match stage {
        UpStage::Zram => after_zram(cfg, swaps),
        UpStage::FlashProbe => if !success {
            after_flash(cfg, swaps)
        } else if format {
            UpStage::FlashFormat
        } else {
            UpStage::FlashActivate
        },
        UpStage::FlashFormat => UpStage::FlashActivate,
        UpStage::FlashActivate => after_flash(cfg, swaps),
        UpStage::FallbackProbe => if !success {
            UpStage::Done
        } else if format {
            UpStage::FallbackFormat
        } else {
            UpStage::FallbackActivate
        },
        UpStage::FallbackFormat => UpStage::FallbackActivate,
        UpStage::FallbackActivate => UpStage::Done,
        UpStage::Done => UpStage::Done,
    }
}

/// Something to do for a tier, as the contracts see it.
pub enum Job {
    /// Set up a ZRAM device of this size, with this algorithm and priority.
    Zram(u64, Seq<char>, i32),
    /// Take one step.
    Step(Deed),
}

/// What a stage asks for.
pub open spec fn up_job(cfg: TiersCfg, stage: UpStage) -> Option<Job> {
    match stage {
        UpStage::Zram => Some(Job::Zram(cfg.zram_size_mb, cfg.zram_algorithm@, cfg.zram_priority)),
        UpStage::FlashProbe => Some(Job::Step(Deed::Probe(cfg.umami_device@))),
        UpStage::FlashFormat => Some(Job::Step(format_deed(cfg.umami_device@))),
        UpStage::FlashActivate => Some(
            Job::Step(activate_deed(cfg.umami_device@, cfg.umami_priority)),
        ),
        UpStage::FallbackProbe => Some(Job::Step(Deed::Probe(cfg.fallback_swap@))),
        UpStage::FallbackFormat => Some(Job::Step(format_deed(cfg.fallback_swap@))),
        UpStage::FallbackActivate => Some(
            Job::Step(activate_deed(cfg.fallback_swap@, cfg.fallback_priority)),
        ),
        UpStage::Done => None,
    }
}

/// What is said of a new ZRAM tier.
pub open spec fn zram_up(cfg: TiersCfg, dev: Seq<char>) -> Seq<char> {
    "zram tier up: "@ + dev + " ("@ + decimal(cfg.zram_size_mb as nat) + " MiB, "@
        + cfg.zram_algorithm@ + ", priority "@ + signed_decimal(cfg.zram_priority as int) + ")"@
}

/// What is said of a device that was given a swap signature, or was not.
pub open spec fn format_note(dev: Seq<char>, o: Result<Seq<char>, Seq<char>>) -> Note {
    match o {
        Ok(_) => info("formatted "@ + dev + " as swap"@),
        Err(e) => warning("mkswap "@ + dev + " failed: "@ + e),
    }
}

/// What is said once a stage is over.
pub open spec fn up_note(cfg: TiersCfg, stage: UpStage, o: Result<Seq<char>, Seq<char>>) -> Option<
    Note,
> {
    let flash = cfg.umami_device@;
    let fallback = cfg.fallback_swap@;
    match (stage, o) {
        (UpStage::Zram, Ok(dev)) => Some(info(zram_up(cfg, dev))),
        (UpStage::Zram, Err(e)) => Some(warning("zram tier unavailable: "@ + e)),
        (UpStage::FlashProbe, Ok(_)) => None,
        (UpStage::FlashProbe, Err(_)) => Some(
            warning("umami tier "@ + flash + " not present; skipping"@),
        ),
        (UpStage::FlashFormat, _) => Some(format_note(flash, o)),
        (UpStage::FlashActivate, Ok(_)) => Some(
            info(
                "umami tier up: "@ + flash + " (priority "@ + signed_decimal(
                    cfg.umami_priority as int,
                ) + ")"@,
            ),
        ),
        (UpStage::FlashActivate, Err(e)) => Some(
            warning(
                "umami tier "@ + flash + " failed to activate: "@ + e
                    + " (needs `umami setup --format`?)"@,
            ),
        ),
        (UpStage::FallbackProbe, Ok(_)) => None,
        (UpStage::FallbackProbe, Err(_)) => Some(
            warning("fallback swap "@ + fallback + " not present; skipping"@),
        ),
        (UpStage::FallbackFormat, _) => Some(format_note(fallback, o)),
        (UpStage::FallbackActivate, Ok(_)) => Some(
            info(
                "fallback tier up: "@ + fallback + " (priority "@ + signed_decimal(
                    cfg.fallback_priority as int,
                ) + ")"@,
            ),
        ),
        (UpStage::FallbackActivate, Err(e)) => Some(
            warning("fallback tier "@ + fallback + " failed: "@ + e),
        ),
        (UpStage::Done, _) => None,
    }
}

/// Something to do for a tier.
#[derive(Debug)]
pub enum Task {
    /// Carry this setup through.
    Zram(ZramSetup),
    /// Take this step.
    Step(Action),
}

/// What a task asks for. A setup is handed out before its first step.
pub open spec fn job_of(t: Task) -> Option<Job> {
    match t {
        Task::Zram(z) => if z.stage@ == Phase::Control {
            Some(Job::Zram(z.size_mb, z.algorithm@, z.priority))
        } else {
            None
        },
        Task::Step(a) => Some(Job::Step(a@)),
    }
}

/// Bringing up every configured tier. Best effort: each tier has its own
/// message, and the others are brought up whatever comes of it.
#[derive(Debug)]
pub struct Bringup {
    pub cfg: TiersCfg,
    /// The swap areas that were active before.
    pub swaps: Vec<String>,
    /// Whether to write swap signatures on the devices.
    pub format: bool,
    pub stage: UpStage,
}

/// Whether a ZRAM device is among the swap areas.
fn has_zram(swaps: &Vec<String>) -> (r: bool)
    ensures
        r == exists|i: int|
            0 <= i < strings(swaps@).len() && begins(#[trigger] strings(swaps@)[i], "/dev/zram"@),
{
    let mut i: usize = 0;
    while i < swaps.len()
        invariant
            i <= swaps@.len(),
            forall|j: int| 0 <= j < i ==> !begins(#[trigger] strings(swaps@)[j], "/dev/zram"@),
        decreases swaps@.len() - i,
    {
        proof {
            assert(strings(swaps@)[i as int] == swaps@[i as int]@);
        }
        if without_front(swaps[i].as_str(), "/dev/zram").is_some() {
            return true;
        }
        i = i + 1;
    }
    false
}

/// Whether a device has to be brought up.
fn is_missing(dev: &String, swaps: &Vec<String>) -> (r: bool)
    ensures
        r == device_missing(dev@, strings(swaps@)),
{
    !dev.as_str().is_empty() && !holds(swaps, dev)
}

/// What comes after the flash tier.
fn stage_after_flash(cfg: &TiersCfg, swaps: &Vec<String>) -> (r: UpStage)
    ensures
        r == after_flash(*cfg, strings(swaps@)),
{
    if is_missing(&cfg.fallback_swap, swaps) {
        UpStage::FallbackProbe
    } else {
        UpStage::Done
    }
}

/// What comes after the ZRAM tier.
fn stage_after_zram(cfg: &TiersCfg, swaps: &Vec<String>) -> (r: UpStage)
    ensures
        r == after_zram(*cfg, strings(swaps@)),
{
    if is_missing(&cfg.umami_device, swaps) {
        UpStage::FlashProbe
    } else {
        stage_after_flash(cfg, swaps)
    }
}

/// Begins to bring up every configured tier that is not a swap area already.
pub fn ensure_tiers(cfg: &TiersCfg, swaps: Vec<String>, format: bool) -> (r: Bringup)
    ensures
        r.cfg == *cfg,
        r.swaps == swaps,
        r.format == format,
        r.stage == up_first(*cfg, strings(swaps@)),
{
    let stage: UpStage = if cfg.zram_size_mb > 0 && !has_zram(&swaps) {
        UpStage::Zram
    } else {
        stage_after_zram(cfg, &swaps)
    };
    Bringup { cfg: cfg.clone(), swaps, format, stage }
}

/// A message for what went well.
fn say(text: String) -> (r: Option<Message>)
    ensures
        r is Some,
        r->0@ == info(text@),
{
    Some(Message { level: Level::Info, text })
}

/// A message for what did not go well.
fn warn(text: String) -> (r: Option<Message>)
    ensures
        r is Some,
        r->0@ == warning(text@),
{
    Some(Message { level: Level::Warn, text })
}

/// `a`, `b` and `c` in a row.
fn joined3(a: &str, b: &str, c: &str) -> (r: String)
    ensures
        r@ == a@ + b@ + c@,
{
    joined(joined(a, b).as_str(), c)
}

/// What is said of a tier that was brought up.
fn up_text(front: &str, dev: &str, priority: i32) -> (r: String)
    ensures
        r@ == front@ + dev@ + " (priority "@ + signed_decimal(priority as int) + ")"@,
{
    let mut out: String = joined3(front, dev, " (priority ");
    out.append(signed_numeral_of(priority).as_str());
    out.append(")");
    out
}

impl Bringup {
    /// What has to be done next; nothing once every tier has had its turn.
    pub fn task(&self) -> (r: Option<Task>)
        ensures
            r is Some <==> self.stage != UpStage::Done,
            r matches Some(t) ==> job_of(t) == up_job(self.cfg, self.stage),
            self.stage == UpStage::Zram ==> (r matches Some(Task::Zram(z)) && z.size_mb
                == self.cfg.zram_size_mb && z.algorithm@ == self.cfg.zram_algorithm@ && z.priority
                == self.cfg.zram_priority && z.stage is Control),
            self.stage == UpStage::FlashActivate ==> (r matches Some(Task::Step(a)) && a@
                == activate_deed(self.cfg.umami_device@, self.cfg.umami_priority)),
            self.stage == UpStage::FallbackActivate ==> (r matches Some(Task::Step(a)) && a@
                == activate_deed(self.cfg.fallback_swap@, self.cfg.fallback_priority)),
    {
        let flash: &str = self.cfg.umami_device.as_str();
        let fallback: &str = self.cfg.fallback_swap.as_str();
        match self.stage {
            UpStage::Zram => Some(
                Task::Zram(
                    zram_setup(
                        self.cfg.zram_size_mb,
                        self.cfg.zram_algorithm.as_str(),
                        self.cfg.zram_priority,
                    ),
                ),
            ),
            UpStage::FlashProbe => Some(Task::Step(Action::Probe(String::from_str(flash)))),
            UpStage::FlashFormat => Some(Task::Step(mkswap(flash))),
            UpStage::FlashActivate => Some(Task::Step(swapon(flash, self.cfg.umami_priority))),
            UpStage::FallbackProbe => Some(Task::Step(Action::Probe(String::from_str(fallback)))),
            UpStage::FallbackFormat => Some(Task::Step(mkswap(fallback))),
            UpStage::FallbackActivate => Some(
                Task::Step(swapon(fallback, self.cfg.fallback_priority)),
            ),
            UpStage::Done => None,
        }
    }

    /// What is said of the stage that is over.
    fn message(&self, o: &Outcome) -> (r: Option<Message>)
        ensures
            r is Some <==> up_note(self.cfg, self.stage, outcome(*o)) is Some,
            r matches Some(m) ==> up_note(self.cfg, self.stage, outcome(*o)) == Some(m@),
    {
        let flash: &str = self.cfg.umami_device.as_str();
        let fallback: &str = self.cfg.fallback_swap.as_str();
        match (self.stage, o) {
            (UpStage::Zram, Ok(dev)) => {
                let mut out: String = joined3("zram tier up: ", dev.as_str(), " (");
                out.append(numeral_of(self.cfg.zram_size_mb).as_str());
                out.append(" MiB, ");
                out.append(self.cfg.zram_algorithm.as_str());
                out.append(", priority ");
                out.append(signed_numeral_of(self.cfg.zram_priority).as_str());
                out.append(")");
                say(out)
            },
            (UpStage::Zram, Err(e)) => warn(joined("zram tier unavailable: ", e.as_str())),
            (UpStage::FlashProbe, Ok(_)) => None,
            (UpStage::FlashProbe, Err(_)) => warn(
                joined3("umami tier ", flash, " not present; skipping"),
            ),
            (UpStage::FlashFormat, Ok(_)) => say(joined3("formatted ", flash, " as swap")),
            (UpStage::FlashFormat, Err(e)) => warn(
                joined(joined3("mkswap ", flash, " failed: ").as_str(), e.as_str()),
            ),
            (UpStage::FlashActivate, Ok(_)) => say(
                up_text("umami tier up: ", flash, self.cfg.umami_priority),
            ),
            (UpStage::FlashActivate, Err(e)) => warn(
                joined3(
                    joined3("umami tier ", flash, " failed to activate: ").as_str(),
                    e.as_str(),
                    " (needs `umami setup --format`?)",
                ),
            ),
            (UpStage::FallbackProbe, Ok(_)) => None,
            (UpStage::FallbackProbe, Err(_)) => warn(
                joined3("fallback swap ", fallback, " not present; skipping"),
            ),
            (UpStage::FallbackFormat, Ok(_)) => say(joined3("formatted ", fallback, " as swap")),
            (UpStage::FallbackFormat, Err(e)) => warn(
                joined(joined3("mkswap ", fallback, " failed: ").as_str(), e.as_str()),
            ),
            (UpStage::FallbackActivate, Ok(_)) => say(
                up_text("fallback tier up: ", fallback, self.cfg.fallback_priority),
            ),
            (UpStage::FallbackActivate, Err(e)) => warn(
                joined(joined3("fallback tier ", fallback, " failed: ").as_str(), e.as_str()),
            ),
            (UpStage::Done, _) => None,
        }
    }

    /// Goes on, given what came of the task, and says what there is to say.
    pub fn advance(&mut self, o: Outcome) -> (r: Option<Message>)
        ensures
            final(self).cfg == old(self).cfg,
            final(self).swaps == old(self).swaps,
            final(self).format == old(self).format,
            final(self).stage == up_next(
                old(self).cfg,
                strings(old(self).swaps@),
                old(self).format,
                old(self).stage,
                o is Ok,
            ),
            r is Some <==> up_note(old(self).cfg, old(self).stage, outcome(o)) is Some,
            r matches Some(m) ==> up_note(old(self).cfg, old(self).stage, outcome(o)) == Some(m@),
    {
        let said: Option<Message> = self.message(&o);
        let success: bool = o.is_ok();
        let stage: UpStage = match self.stage {
            UpStage::Zram => stage_after_zram(&self.cfg, &self.swaps),
            UpStage::FlashProbe => if !success {
                stage_after_flash(&self.cfg, &self.swaps)
            } else if self.format {
                UpStage::FlashFormat
            } else {
                UpStage::FlashActivate
            },
            UpStage::FlashFormat => UpStage::FlashActivate,
            UpStage::FlashActivate => stage_after_flash(&self.cfg, &self.swaps),
            UpStage::FallbackProbe => if !success {
                UpStage::Done
            } else if self.format {
                UpStage::FallbackFormat
            } else {
                UpStage::FallbackActivate
            },
            UpStage::FallbackFormat => UpStage::FallbackActivate,
            UpStage::FallbackActivate => UpStage::Done,
            UpStage::Done => UpStage::Done,
        };
        self.stage = stage;
        said
    }
}

} // verus!
