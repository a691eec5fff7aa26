//! Messages of the daemon.

use crate::double::Double;
use crate::literal::fixed;
use crate::numeral::{align_left, align_right, left_aligned, right_aligned};
use vstd::prelude::*;

verus! {

/// How serious a message is.
#[derive(Clone, Copy, Debug, PartialEq, Eq, Structural)]
pub enum Level {
    Info,
    Warn,
    Error,
}

impl Level {
    /// The name of the level.
    pub open spec fn label(self) -> Seq<char> {
        match self {
            Level::Info => "INFO"@,
            Level::Warn => "WARN"@,
            Level::Error => "ERROR"@,
        }
    }

    /// The name of the level.
    pub fn name(self) -> (r: String)
        ensures
            r@ == self.label(),
    {
        match self {
            Level::Info => String::from_str("INFO"),
            Level::Warn => String::from_str("WARN"),
            Level::Error => String::from_str("ERROR"),
        }
    }
}

/// A message and its level.
#[derive(Debug)]
pub struct Message {
    pub level: Level,
    pub text: String,
}

/// A message, as the contracts see it.
pub struct Note {
    pub level: Level,
    pub text: Seq<char>,
}

impl View for Message {
    type V = Note;

    open spec fn view(&self) -> Note {
        Note { level: self.level, text: self.text@ }
    }
}

/// The note at the level for what went well.
pub open spec fn info(text: Seq<char>) -> Note {
    Note { level: Level::Info, text }
}

/// The note at the level for what did not go well.
pub open spec fn warning(text: Seq<char>) -> Note {
    Note { level: Level::Warn, text }
}

/// A line of the log.
pub open spec fn stamped(elapsed: Double, level: Level, text: Seq<char>) -> Seq<char> {
    "["@ + right_aligned(fixed(elapsed, 1), 8) + "s] ["@ + left_aligned(level.label(), 5) + "] "@
        + text
}

/// A line of the log: the seconds since the start, the level and the message.
pub fn log_line(elapsed: Double, level: Level, text: &str) -> (r: String)
    ensures
        r@ == stamped(elapsed, level, text@),
{
    let mut out: String = String::from_str("[");
    out.append(align_right(elapsed.to_fixed(1).as_str(), 8).as_str());
    out.append("s] [");
    out.append(align_left(level.name().as_str(), 5).as_str());
    out.append("] ");
    out.append(text);
    out
}

} // verus!
