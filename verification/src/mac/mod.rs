//! Medium access control state.

use vstd::prelude::*;

pub mod csma;

verus! {

/// States of the CSMA/CA sender.
#[derive(Debug, Clone, Copy, PartialEq, Eq, Structural)]
pub enum CSMAState {
    /// No data to send.
    Idle,
    /// Sensing the channel.
    Sensing,
    /// Backing off with the given counter of slots.
    Backoff(usize),
    /// Backoff paused (channel busy) with the given counter.
    BackoffPaused(usize),
    /// Transmitting a frame.
    Transmitting,
    /// Waiting for DIFS.
    WaitingForDIFS,
    /// Waiting for an acknowledgement.
    WaitingForAck,
}

} // verus!
