//! The ways in which an operation of the engine can fail.

use vstd::prelude::*;

verus! {

/// The failures that the engine reports.
#[derive(Clone, Copy, Debug, PartialEq, Eq, Structural, Hash)]
pub enum EngineError {
    /// A diff was asked for from a generation that lies after its target.
    InvalidRange,
    /// A diff was applied to a grid that does not hold what the diff starts from.
    DiffMismatch,
    /// A request arrived in a form, or at a moment, in which the service cannot take it.
    ProtocolViolation,
    /// Every sender has let go of the channel.
    DeadChannel,
    /// A write was aimed at a position outside the grid.
    OutOfRangePosition,
}

impl EngineError {
    /// The text that goes with each failure.
    pub open spec fn spec_message(&self) -> &'static str {
        match self {
            EngineError::InvalidRange => "Base generation should be smaller than target generation.",
            EngineError::DiffMismatch => "The grid does not hold the cells that the diff starts from.",
            EngineError::ProtocolViolation => {
                "The received HistoryRequest is incompatible with the MailType it's included in."
            },
            EngineError::DeadChannel => "All senders have released the channel.",
            EngineError::OutOfRangePosition => "The position lies outside the grid.",
        }
    }

    /// A sentence for the user that says what failed.
    pub fn message(&self) -> (text: &'static str)
        ensures
            text == self.spec_message(),
    {
        match self {
            EngineError::InvalidRange => "Base generation should be smaller than target generation.",
            EngineError::DiffMismatch => "The grid does not hold the cells that the diff starts from.",
            EngineError::ProtocolViolation => {
                "The received HistoryRequest is incompatible with the MailType it's included in."
            },
            EngineError::DeadChannel => "All senders have released the channel.",
            EngineError::OutOfRangePosition => "The position lies outside the grid.",
        }
    }
}

} // verus!
