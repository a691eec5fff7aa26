//! The life of a ZRAM device: setting it up as swap, and taking it down.

use crate::numeral::{decimal, numeral_of};
use crate::text::{begins, chars_of, joined, string_of, strings, trim, trimmed, without_front};
use crate::tiers::{
    activate_deed, deactivate_deed, format_deed, mkswap, outcome, swapoff, swapon, Action, Deed,
    Outcome,
};
use vstd::prelude::*;

verus! {

/// The device with the number `id`.
pub open spec fn device(id: Seq<char>) -> Seq<char> {
    "/dev/zram"@ + id
}

/// The directory where the kernel keeps the device with the number `id`.
pub open spec fn directory(id: Seq<char>) -> Seq<char> {
    "/sys/block/zram"@ + id
}

/// How far the setup of a device has come: each stage but the last is a step
/// that has to be taken next.
#[derive(Debug)]
pub enum Stage {
    /// See whether the kernel offers to control ZRAM.
    Control,
    /// Load the kernel module.
    Module,
    /// See whether devices can be added.
    HotAdd,
    /// Have the kernel allocate a device and tell its number.
    Allocate,
    /// Choose the compression algorithm of the device with this number.
    Algorithm(String),
    /// Give the device its size.
    Size(String),
    /// Write a swap signature on the device.
    Format(String),
    /// Make the device a swap area.
    Activate(String),
    /// Remove the half-configured device, because of this error.
    Rollback(String, String),
    /// There is a device, or an error.
    Done(Outcome),
}

/// A stage, as the contracts see it.
pub enum Phase {
    Control,
    Module,
    HotAdd,
    Allocate,
    Algorithm(Seq<char>),
    Size(Seq<char>),
    Format(Seq<char>),
    Activate(Seq<char>),
    Rollback(Seq<char>, Seq<char>),
    Done(Result<Seq<char>, Seq<char>>),
}

impl View for Stage {
    type V = Phase;

    open spec fn view(&self) -> Phase {
        match *self {
            Stage::Control => Phase::Control,
            Stage::Module => Phase::Module,
            Stage::HotAdd => Phase::HotAdd,
            Stage::Allocate => Phase::Allocate,
            Stage::Algorithm(id) => Phase::Algorithm(id@),
            Stage::Size(id) => Phase::Size(id@),
            Stage::Format(id) => Phase::Format(id@),
            Stage::Activate(id) => Phase::Activate(id@),
            Stage::Rollback(id, e) => Phase::Rollback(id@, e@),
            Stage::Done(o) => Phase::Done(outcome(o)),
        }
    }
}

/// The step that a phase asks for.
pub open spec fn setup_deed(size_mb: u64, algorithm: Seq<char>, priority: i32, p: Phase) -> Option<
    Deed,
> {
    match p {
        Phase::Control => Some(Deed::Probe("/sys/class/zram-control"@)),
        Phase::Module => Some(Deed::Run("modprobe"@, seq!["zram"@])),
        Phase::HotAdd => Some(Deed::Probe("/sys/class/zram-control/hot_add"@)),
        Phase::Allocate => Some(Deed::Read("/sys/class/zram-control/hot_add"@)),
        Phase::Algorithm(id) => Some(Deed::Write(directory(id) + "/comp_algorithm"@, algorithm)),
        Phase::Size(id) => Some(
            Deed::Write(directory(id) + "/disksize"@, decimal(size_mb as nat) + "M"@),
        ),
        Phase::Format(id) => Some(format_deed(device(id))),
        Phase::Activate(id) => Some(activate_deed(device(id), priority)),
        Phase::Rollback(id, _) => Some(Deed::Write("/sys/class/zram-control/hot_remove"@, id)),
        Phase::Done(_) => None,
    }
}

/// The phase after a step. Whether the module could be loaded does not matter:
/// it may be built in, or loaded already. Once a device has been allocated, an
/// error leads to its removal.
pub open spec fn setup_next(
    algorithm: Seq<char>,
    p: Phase,
    o: Result<Seq<char>, Seq<char>>,
) -> Phase {
    match (p, o) {
        (Phase::Control, Ok(_)) => Phase::HotAdd,
        (Phase::Control, Err(_)) => Phase::Module,
        (Phase::Module, _) => Phase::HotAdd,
        (Phase::HotAdd, Ok(_)) => Phase::Allocate,
        (Phase::HotAdd, Err(_)) => Phase::Done(
            Err("zram-control not available (kernel lacks zram support)"@),
        ),
        (Phase::Allocate, Ok(text)) => if algorithm.len() == 0 {
            Phase::Size(trim(text))
        } else {
            Phase::Algorithm(trim(text))
        },
        (Phase::Allocate, Err(e)) => Phase::Done(Err(e)),
        (Phase::Algorithm(id), Ok(_)) => Phase::Size(id),
        (Phase::Algorithm(id), Err(e)) => Phase::Rollback(id, e),
        (Phase::Size(id), Ok(_)) => Phase::Format(id),
        (Phase::Size(id), Err(e)) => Phase::Rollback(id, e),
        (Phase::Format(id), Ok(_)) => Phase::Activate(id),
        (Phase::Format(id), Err(e)) => Phase::Rollback(id, e),
        (Phase::Activate(id), Ok(_)) => Phase::Done(Ok(device(id))),
        (Phase::Activate(id), Err(e)) => Phase::Rollback(id, e),
        (Phase::Rollback(_, e), _) => Phase::Done(Err(e)),
        (Phase::Done(r), _) => Phase::Done(r),
    }
}

/// The setup of a ZRAM device as swap.
#[derive(Debug)]
pub struct ZramSetup {
    pub size_mb: u64,
    pub algorithm: String,
    pub priority: i32,
    pub stage: Stage,
}

/// Begins to create a ZRAM device, format it as swap and enable it. What comes
/// of it in the end is the device path, e.g. "/dev/zram0".
pub fn zram_setup(size_mb: u64, algorithm: &str, priority: i32) -> (r: ZramSetup)
    ensures
        r.size_mb == size_mb,
        r.algorithm@ == algorithm@,
        r.priority == priority,
        r.stage@ == Phase::Control,
{
    ZramSetup { size_mb, algorithm: String::from_str(algorithm), priority, stage: Stage::Control }
}

impl ZramSetup {
    /// The step to take next; none once there is a result.
    pub fn action(&self) -> (r: Option<Action>)
        ensures
            r is Some <==> !(self.stage@ is Done),
            r matches Some(a) ==> setup_deed(
                self.size_mb,
                self.algorithm@,
                self.priority,
                self.stage@,
            ) == Some(a@),
    {
        match &self.stage {
            Stage::Control => Some(Action::Probe(String::from_str("/sys/class/zram-control"))),
            Stage::Module => {
                let mut args: Vec<String> = Vec::new();
                args.push(String::from_str("zram"));
                proof {
                    assert(strings(args@) =~= seq!["zram"@]);
                }
                Some(Action::Run(String::from_str("modprobe"), args))
            },
            Stage::HotAdd => Some(
                Action::Probe(String::from_str("/sys/class/zram-control/hot_add")),
            ),
            Stage::Allocate => Some(
                Action::Read(String::from_str("/sys/class/zram-control/hot_add")),
            ),
            Stage::Algorithm(id) => {
                let dir: String = joined("/sys/block/zram", id.as_str());
                Some(
                    Action::Write(joined(dir.as_str(), "/comp_algorithm"), self.algorithm.clone()),
                )
            },
            Stage::Size(id) => {
                let dir: String = joined("/sys/block/zram", id.as_str());
                let size: String = numeral_of(self.size_mb);
                Some(Action::Write(joined(dir.as_str(), "/disksize"), joined(size.as_str(), "M")))
            },
            Stage::Format(id) => Some(mkswap(joined("/dev/zram", id.as_str()).as_str())),
            Stage::Activate(id) => Some(
                swapon(joined("/dev/zram", id.as_str()).as_str(), self.priority),
            ),
            Stage::Rollback(id, _) => Some(
                Action::Write(String::from_str("/sys/class/zram-control/hot_remove"), id.clone()),
            ),
            Stage::Done(_) => None,
        }
    }

    /// Goes on, given what came of the step.
    pub fn advance(self, o: Outcome) -> (r: ZramSetup)
        ensures
            r.size_mb == self.size_mb,
            r.algorithm@ == self.algorithm@,
            r.priority == self.priority,
            r.stage@ == setup_next(self.algorithm@, self.stage@, outcome(o)),
    {
        let plain: bool = self.algorithm.as_str().is_empty();
        let stage: Stage = match (self.stage, o) {
            (Stage::Control, Ok(_)) => Stage::HotAdd,
            (Stage::Control, Err(_)) => Stage::Module,
            (Stage::Module, _) => Stage::HotAdd,
            (Stage::HotAdd, Ok(_)) => Stage::Allocate,
            (Stage::HotAdd, Err(_)) => Stage::Done(
                Err(String::from_str("zram-control not available (kernel lacks zram support)")),
            ),
            (Stage::Allocate, Ok(text)) => {
                let c: Vec<char> = chars_of(text.as_str());
                let id: String = string_of(trimmed(c.as_slice()));
                if plain {
                    Stage::Size(id)
                } else {
                    Stage::Algorithm(id)
                }
            },
            (Stage::Allocate, Err(e)) => Stage::Done(Err(e)),
            (Stage::Algorithm(id), Ok(_)) => Stage::Size(id),
            (Stage::Algorithm(id), Err(e)) => Stage::Rollback(id, e),
            (Stage::Size(id), Ok(_)) => Stage::Format(id),
            (Stage::Size(id), Err(e)) => Stage::Rollback(id, e),
            (Stage::Format(id), Ok(_)) => Stage::Activate(id),
            (Stage::Format(id), Err(e)) => Stage::Rollback(id, e),
            (Stage::Activate(id), Ok(_)) => Stage::Done(Ok(joined("/dev/zram", id.as_str()))),
            (Stage::Activate(id), Err(e)) => Stage::Rollback(id, e),
            (Stage::Rollback(_, e), _) => Stage::Done(Err(e)),
            (Stage::Done(r), _) => Stage::Done(r),
        };
        ZramSetup {
            size_mb: self.size_mb,
            algorithm: self.algorithm,
            priority: self.priority,
            stage,
        }
    }
}

/// How far the removal of a device has come.
#[derive(Debug)]
pub enum DownStage {
    /// Stop the device being a swap area.
    Deactivate,
    /// See whether the kernel still has the device.
    Probe,
    /// Reset the device.
    Reset,
    /// Remove the device.
    Remove,
    /// The device is gone, or there is an error.
    Done(Result<(), String>),
}

/// A stage of the removal, as the contracts see it.
pub enum DownPhase {
    Deactivate,
    Probe,
    Reset,
    Remove,
    Done(Result<(), Seq<char>>),
}

impl View for DownStage {
    type V = DownPhase;

    open spec fn view(&self) -> DownPhase {
        match *self {
            DownStage::Deactivate => DownPhase::Deactivate,
            DownStage::Probe => DownPhase::Probe,
            DownStage::Reset => DownPhase::Reset,
            DownStage::Remove => DownPhase::Remove,
            DownStage::Done(Ok(_)) => DownPhase::Done(Ok(())),
            DownStage::Done(Err(e)) => DownPhase::Done(Err(e@)),
        }
    }
}

/// The step that a phase of the removal asks for.
pub open spec fn down_deed(id: Seq<char>, p: DownPhase) -> Option<Deed> {
    match p {
        DownPhase::Deactivate => Some(deactivate_deed(device(id))),
        DownPhase::Probe => Some(Deed::Probe(directory(id))),
        DownPhase::Reset => Some(Deed::Write(directory(id) + "/reset"@, "1"@)),
        DownPhase::Remove => Some(Deed::Write("/sys/class/zram-control/hot_remove"@, id)),
        DownPhase::Done(_) => None,
    }
}

/// The phase of the removal after a step. That the device was no swap area does
/// not matter, nor that the kernel has it no more.
pub open spec fn down_next(p: DownPhase, o: Result<Seq<char>, Seq<char>>) -> DownPhase {
    match (p, o) {
        (DownPhase::Deactivate, _) => DownPhase::Probe,
        (DownPhase::Probe, Ok(_)) => DownPhase::Reset,
        (DownPhase::Probe, Err(_)) => DownPhase::Done(Ok(())),
        (DownPhase::Reset, Ok(_)) => DownPhase::Remove,
        (DownPhase::Reset, Err(e)) => DownPhase::Done(Err(e)),
        (DownPhase::Remove, Ok(_)) => DownPhase::Done(Ok(())),
        (DownPhase::Remove, Err(e)) => DownPhase::Done(Err(e)),
        (DownPhase::Done(r), _) => DownPhase::Done(r),
    }
}

/// The removal of a ZRAM device.
#[derive(Debug)]
pub struct ZramTeardown {
    /// The number of the device.
    pub id: String,
    pub stage: DownStage,
}

/// What was asked for cannot be done.
#[derive(Debug)]
pub struct InvalidInput {
    pub message: String,
}

/// Begins to disable a ZRAM swap device and to remove it.
pub fn zram_teardown(dev: &str) -> (r: Result<ZramTeardown, InvalidInput>)
    ensures
        r is Ok <==> begins(dev@, "/dev/zram"@),
        r matches Ok(t) ==> device(t.id@) == dev@ && t.stage@ == DownPhase::Deactivate,
        r matches Err(e) ==> e.message@ == "not a zram device: "@ + dev@,
{
    match without_front(dev, "/dev/zram") {
        Some(id) => {
            proof {
                let f = "/dev/zram"@;
                assert(dev@.take(f.len() as int) + dev@.skip(f.len() as int) == dev@);
            }
            Ok(ZramTeardown { id, stage: DownStage::Deactivate })
        },
        None => Err(InvalidInput { message: joined("not a zram device: ", dev) }),
    }
}

impl ZramTeardown {
    /// The step to take next; none once there is a result.
    pub fn action(&self) -> (r: Option<Action>)
        ensures
            r is Some <==> !(self.stage@ is Done),
            r matches Some(a) ==> down_deed(self.id@, self.stage@) == Some(a@),
    {
        match &self.stage {
            DownStage::Deactivate => Some(
                swapoff(joined("/dev/zram", self.id.as_str()).as_str()),
            ),
            DownStage::Probe => Some(Action::Probe(joined("/sys/block/zram", self.id.as_str()))),
            DownStage::Reset => {
                let dir: String = joined("/sys/block/zram", self.id.as_str());
                Some(Action::Write(joined(dir.as_str(), "/reset"), String::from_str("1")))
            },
            DownStage::Remove => Some(
                Action::Write(
                    String::from_str("/sys/class/zram-control/hot_remove"),
                    self.id.clone(),
                ),
            ),
            DownStage::Done(_) => None,
        }
    }

    /// Goes on, given what came of the step.
    pub fn advance(self, o: Outcome) -> (r: ZramTeardown)
        ensures
            r.id@ == self.id@,
            r.stage@ == down_next(self.stage@, outcome(o)),
    {
        let stage: DownStage = match (self.stage, o) {
            (DownStage::Deactivate, _) => DownStage::Probe,
            (DownStage::Probe, Ok(_)) => DownStage::Reset,
            (DownStage::Probe, Err(_)) => DownStage::Done(Ok(())),
            (DownStage::Reset, Ok(_)) => DownStage::Remove,
            (DownStage::Reset, Err(e)) => DownStage::Done(Err(e)),
            (DownStage::Remove, Ok(_)) => DownStage::Done(Ok(())),
            (DownStage::Remove, Err(e)) => DownStage::Done(Err(e)),
            (DownStage::Done(r), _) => DownStage::Done(r),
        };
        ZramTeardown { id: self.id, stage }
    }
}

} // verus!
