//! Decisions of the control loop.
//!
//! The loop that reads the control source runs outside the library: it hands
//! each outcome of a read to [`next_action`] and performs what comes back.
use vstd::prelude::*;
use crate::control_line::{control_value, parse_control_line};

verus! {

/// What one read of the control source gave.
pub enum ReadOutcome<'a> {
    /// A line of text, with or without its terminator.
    Line(&'a [u8]),
    /// The read waited its full time and nothing came.
    TimedOut,
    /// The source is exhausted.
    Ended,
}

/// What the control loop does next.
#[derive(Clone, Copy, Debug, PartialEq, Eq, Structural)]
pub enum ControlAction {
    /// Map this raw control value to a frequency and send it.
    Send(u16),
    /// Nothing to send; read the next line.
    Skip,
    /// Leave the loop.
    Stop,
}

pub open spec fn action_for(read: ReadOutcome) -> ControlAction {
    match read {
        ReadOutcome::Line(line) => match control_value(line@) {
            Some(raw) => ControlAction::Send(raw),
            None => ControlAction::Skip,
        },
        ReadOutcome::TimedOut => ControlAction::Skip,
        ReadOutcome::Ended => ControlAction::Stop,
    }
}

/// A line that carries a control value is sent on; a line that does not, or
/// a read that timed out, is skipped without ending the loop; the end of
/// input ends it.
pub fn next_action(read: ReadOutcome) -> (r: ControlAction)
    ensures
        r == action_for(read),
{
    match read {
        ReadOutcome::Line(line) => match parse_control_line(line) {
            Some(raw) => ControlAction::Send(raw),
            None => ControlAction::Skip,
        },
        ReadOutcome::TimedOut => ControlAction::Skip,
        ReadOutcome::Ended => ControlAction::Stop,
    }
}

} // verus!
