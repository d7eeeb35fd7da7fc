//! What a job is asked for: the span of time whose blocks are looked at.

use vstd::prelude::*;
use crate::locate::BLOCK_PERIOD;

verus! {

/// The span of a job, in one of its two forms.
#[derive(Clone, Copy, Debug, PartialEq, Eq, Structural)]
pub enum JobInput {
    /// The blocks between two timestamps, both included.
    Window { from_timestamp: u64, to_timestamp: u64 },
    /// The blocks of the given number of block periods up to a timestamp.
    Lookback { timestamp: u64, blocks: u64 },
}

impl JobInput {
    /// The first and the last timestamp of the span. A lookback reaches
    /// back by one block period for each block, and no further than the
    /// timestamp zero.
    pub open spec fn span(self) -> (u64, u64) {
        match self {
            JobInput::Window { from_timestamp, to_timestamp } => (from_timestamp, to_timestamp),
            JobInput::Lookback { timestamp, blocks } => if blocks * BLOCK_PERIOD <= timestamp {
                ((timestamp - blocks * BLOCK_PERIOD) as u64, timestamp)
            } else {
                (0, timestamp)
            },
        }
    }

    /// The first and the last timestamp of the span.
    pub fn window(&self) -> (span: (u64, u64))
        ensures
            span == self.span(),
    {
        match *self {
            JobInput::Window { from_timestamp, to_timestamp } => (from_timestamp, to_timestamp),
            JobInput::Lookback { timestamp, blocks } => {
                if blocks <= timestamp / BLOCK_PERIOD {
                    (timestamp - blocks * BLOCK_PERIOD, timestamp)
                } else {
                    (0, timestamp)
                }
            },
        }
    }
}

} // verus!
