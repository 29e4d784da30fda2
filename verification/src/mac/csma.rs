//! CSMA/CA decisions: the sender's state machine (sensing, DIFS, backoff,
//! transmission, ACK wait) and the receiver's handling of data frames
//! (delivery without duplicates, an ACK for every data frame). Waiting,
//! sensing and playing audio are left to the caller, which reports what it
//! observed as an event.

use vstd::prelude::*;
use std::collections::HashSet;
use crate::mac::CSMAState;
use crate::phy::frame::{Frame, FrameType, FrameView};

verus! {

broadcast use vstd::std_specs::hash::group_hash_axioms;

/// Size of the contention window at a retransmission stage: `cw_min`
/// doubled per stage, capped at `cw_max`.
pub open spec fn window_size(stage: u16, cw_min: u16, cw_max: u16) -> int {
    if cw_min * 2 * stage <= cw_max {
        cw_min * 2 * stage
    } else {
        cw_max as int
    }
}

/// Contention window at `stage` (`cw_min * 2 * stage`, capped at `cw_max`).
pub fn contention_window(stage: u16, cw_min: u16, cw_max: u16) -> (cw: usize)
    requires
        cw_min * 2 <= u16::MAX,
        cw_min * 2 * stage <= u16::MAX,
    ensures
        cw == window_size(stage, cw_min, cw_max),
{
    let w: u16 = cw_min * 2 * stage;
    if w <= cw_max {
        w as usize
    } else {
        cw_max as usize
    }
}

/// Draws a backoff counter with `rand::random_range(0..=cw)`: a random
/// value of the range, so at most `cw`; the range is never empty, so the
/// call does not panic. Which value comes is left open.
#[verifier::external_body]
fn random_backoff(cw: usize) -> (k: usize)
    ensures
        k <= cw,
{
    rand::random_range(0..=cw)
}

/// What the sender observed in its current state.
#[derive(Debug, Clone, Copy, PartialEq, Eq, Structural)]
pub enum SenderEvent {
    /// The channel reading after the state's wait: busy, idle, or `None`
    /// when too few samples were recorded to tell.
    Channel(Option<bool>),
    /// The frame has been played.
    Transmitted,
    /// No ACK came within the timeout.
    AckTimeout,
    /// The ACK for the frame came.
    AckReceived,
}

/// Limits of the sender's contention procedure.
#[derive(Debug, Clone, Copy)]
pub struct CsmaParams {
    /// Contention window unit.
    pub cw_min: u16,
    /// Largest contention window.
    pub cw_max: u16,
    /// Highest retransmission stage.
    pub max_stage: u16,
    /// Whether a transmitted frame waits for an ACK.
    pub await_ack: bool,
}

/// The window stays within 16 bits at every stage up to the highest.
pub open spec fn params_ok(p: CsmaParams) -> bool {
    p.cw_min * 2 <= u16::MAX && p.cw_min * 2 * p.max_stage <= u16::MAX
}

/// A decision of the sender.
pub struct CsmaTransition {
    /// The next state.
    pub state: CSMAState,
    /// The retransmission stage.
    pub stage: u16,
    /// Whether the recorded samples are to be cleared.
    pub clear_recording: bool,
    /// Whether the frame is done with (acknowledged, or sent when no ACK
    /// is awaited).
    pub finished: bool,
}

/// Same state and stage, nothing cleared, not finished.
pub open spec fn stay(state: CSMAState, stage: u16) -> CsmaTransition {
    CsmaTransition { state, stage, clear_recording: false, finished: false }
}

/// The sender's decision in `state` at `stage` on `event`, where a new
/// backoff draws the counter `draw`.
/// - Sensing: idle goes on to DIFS, busy keeps sensing; both clear the
///   recording.
/// - DIFS: idle starts a backoff, busy returns to sensing (both clear).
/// - Backoff: a zero counter transmits; else an idle slot counts down
///   (clearing), a busy slot pauses.
/// - Paused backoff: idle resumes, busy stays paused (both clear).
/// - Transmitting: once played, wait for the ACK or finish.
/// - ACK wait: the ACK finishes; a timeout raises the stage (up to the
///   highest) and starts a backoff.
/// A channel reading of `None`, and any other event, changes nothing.
pub open spec fn csma_next(state: CSMAState, stage: u16, event: SenderEvent, p: CsmaParams, draw: usize) -> CsmaTransition {
    match state {
        CSMAState::Sensing => match event {
            SenderEvent::Channel(Some(true)) => CsmaTransition {
                state: CSMAState::Sensing,
                stage,
                clear_recording: true,
                finished: false,
            },
            SenderEvent::Channel(Some(false)) => CsmaTransition {
                state: CSMAState::WaitingForDIFS,
                stage,
                clear_recording: true,
                finished: false,
            },
            _ => stay(state, stage),
        },
        CSMAState::WaitingForDIFS => match event {
            SenderEvent::Channel(Some(false)) => CsmaTransition {
                state: CSMAState::Backoff(draw),
                stage,
                clear_recording: true,
                finished: false,
            },
            SenderEvent::Channel(Some(true)) => CsmaTransition {
                state: CSMAState::Sensing,
                stage,
                clear_recording: true,
                finished: false,
            },
            _ => stay(state, stage),
        },
        CSMAState::Backoff(counter) => if counter == 0 {
            stay(CSMAState::Transmitting, stage)
        } else {
            match event {
                SenderEvent::Channel(Some(true)) => stay(CSMAState::BackoffPaused(counter), stage),
                SenderEvent::Channel(Some(false)) => CsmaTransition {
                    state: CSMAState::Backoff((counter - 1) as usize),
                    stage,
                    clear_recording: true,
                    finished: false,
                },
                _ => stay(state, stage),
            }
        },
        CSMAState::BackoffPaused(counter) => match event {
            SenderEvent::Channel(Some(true)) => CsmaTransition {
                state: CSMAState::BackoffPaused(counter),
                stage,
                clear_recording: true,
                finished: false,
            },
            SenderEvent::Channel(Some(false)) => CsmaTransition {
                state: CSMAState::Backoff(counter),
                stage,
                clear_recording: true,
                finished: false,
            },
            _ => stay(state, stage),
        },
        CSMAState::Transmitting => match event {
            SenderEvent::Transmitted => if p.await_ack {
                stay(CSMAState::WaitingForAck, stage)
            } else {
                CsmaTransition {
                    state: CSMAState::Transmitting,
                    stage,
                    clear_recording: false,
                    finished: true,
                }
            },
            _ => stay(state, stage),
        },
        CSMAState::WaitingForAck => match event {
            SenderEvent::AckReceived => CsmaTransition {
                state: CSMAState::WaitingForAck,
                stage,
                clear_recording: false,
                finished: true,
            },
            SenderEvent::AckTimeout => stay(CSMAState::Backoff(draw), raised_stage(stage, p.max_stage)),
            _ => stay(state, stage),
        },
        CSMAState::Idle => stay(state, stage),
    }
}

/// The stage after an ACK timeout: one more, capped at `max_stage`.
pub open spec fn raised_stage(stage: u16, max_stage: u16) -> u16 {
    if stage + 1 <= max_stage {
        (stage + 1) as u16
    } else {
        max_stage
    }
}

/// Whether `event` in `state` starts a new backoff.
pub open spec fn starts_backoff(state: CSMAState, event: SenderEvent) -> bool {
    (state is WaitingForDIFS && event == SenderEvent::Channel(Some(false))) || (state is WaitingForAck
        && event == SenderEvent::AckTimeout)
}

/// The sender's decision for a given backoff draw (see `csma_next`).
pub fn next_csma_state(state: CSMAState, stage: u16, event: SenderEvent, p: CsmaParams, draw: usize) -> (t: CsmaTransition)
    requires
        stage <= p.max_stage,
    ensures
        t == csma_next(state, stage, event, p, draw),
{
    match state {
        CSMAState::Sensing => match event {
            SenderEvent::Channel(Some(true)) => CsmaTransition {
                state: CSMAState::Sensing,
                stage,
                clear_recording: true,
                finished: false,
            },
            SenderEvent::Channel(Some(false)) => CsmaTransition {
                state: CSMAState::WaitingForDIFS,
                stage,
                clear_recording: true,
                finished: false,
            },
            _ => CsmaTransition { state, stage, clear_recording: false, finished: false },
        },
        CSMAState::WaitingForDIFS => match event {
            SenderEvent::Channel(Some(false)) => CsmaTransition {
                state: CSMAState::Backoff(draw),
                stage,
                clear_recording: true,
                finished: false,
            },
            SenderEvent::Channel(Some(true)) => CsmaTransition {
                state: CSMAState::Sensing,
                stage,
                clear_recording: true,
                finished: false,
            },
            _ => CsmaTransition { state, stage, clear_recording: false, finished: false },
        },
        CSMAState::Backoff(counter) => {
            if counter == 0 {
                CsmaTransition {
                    state: CSMAState::Transmitting,
                    stage,
                    clear_recording: false,
                    finished: false,
                }
            } else {
                match event {
                    SenderEvent::Channel(Some(true)) => CsmaTransition {
                        state: CSMAState::BackoffPaused(counter),
                        stage,
                        clear_recording: false,
                        finished: false,
                    },
                    SenderEvent::Channel(Some(false)) => CsmaTransition {
                        state: CSMAState::Backoff(counter - 1),
                        stage,
                        clear_recording: true,
                        finished: false,
                    },
                    _ => CsmaTransition { state, stage, clear_recording: false, finished: false },
                }
            }
        },
        CSMAState::BackoffPaused(counter) => match event {
            SenderEvent::Channel(Some(true)) => CsmaTransition {
                state: CSMAState::BackoffPaused(counter),
                stage,
                clear_recording: true,
                finished: false,
            },
            SenderEvent::Channel(Some(false)) => CsmaTransition {
                state: CSMAState::Backoff(counter),
                stage,
                clear_recording: true,
                finished: false,
            },
            _ => CsmaTransition { state, stage, clear_recording: false, finished: false },
        },
        CSMAState::Transmitting => match event {
            SenderEvent::Transmitted => {
                if p.await_ack {
                    CsmaTransition {
                        state: CSMAState::WaitingForAck,
                        stage,
                        clear_recording: false,
                        finished: false,
                    }
                } else {
                    CsmaTransition {
                        state: CSMAState::Transmitting,
                        stage,
                        clear_recording: false,
                        finished: true,
                    }
                }
            },
            _ => CsmaTransition { state, stage, clear_recording: false, finished: false },
        },
        CSMAState::WaitingForAck => match event {
            SenderEvent::AckReceived => CsmaTransition {
                state: CSMAState::WaitingForAck,
                stage,
                clear_recording: false,
                finished: true,
            },
            SenderEvent::AckTimeout => {
                let next_stage = if stage < p.max_stage {
                    stage + 1
                } else {
                    p.max_stage
                };
                CsmaTransition {
                    state: CSMAState::Backoff(draw),
                    stage: next_stage,
                    clear_recording: false,
                    finished: false,
                }
            },
            _ => CsmaTransition { state, stage, clear_recording: false, finished: false },
        },
        CSMAState::Idle => CsmaTransition { state, stage, clear_recording: false, finished: false },
    }
}

/// The sender's decision in `state` at `stage` on `event`. A new backoff
/// draws its counter at random from the contention window of the stage it
/// is taken at; the decision is `csma_next` for that draw.
pub fn csma_step(state: CSMAState, stage: u16, event: SenderEvent, p: CsmaParams) -> (t: CsmaTransition)
    requires
        params_ok(p),
        stage <= p.max_stage,
        !(state is Idle),
    ensures
        exists|k: usize|
            k <= window_size(csma_next(state, stage, event, p, 0).stage, p.cw_min, p.cw_max) && t
                == #[trigger] csma_next(state, stage, event, p, k),
        t.stage <= p.max_stage,
{
    let next_stage = match state {
        CSMAState::WaitingForAck => match event {
            SenderEvent::AckTimeout => {
                if stage < p.max_stage {
                    stage + 1
                } else {
                    p.max_stage
                }
            },
            _ => stage,
        },
        _ => stage,
    };
    assert(next_stage == csma_next(state, stage, event, p, 0).stage);
    proof {
        vstd::arithmetic::mul::lemma_mul_inequality(next_stage as int, p.max_stage as int, p.cw_min * 2);
        vstd::arithmetic::mul::lemma_mul_is_commutative(next_stage as int, p.cw_min * 2);
        vstd::arithmetic::mul::lemma_mul_is_commutative(p.max_stage as int, p.cw_min * 2);
    }
    let cw = contention_window(next_stage, p.cw_min, p.cw_max);
    let draw = random_backoff(cw);
    let t = next_csma_state(state, stage, event, p, draw);
    assert(draw <= window_size(csma_next(state, stage, event, p, 0).stage, p.cw_min, p.cw_max)
        && t == csma_next(state, stage, event, p, draw));
    t
}

/// The sender's invariant: the stage is within its cap, and a backoff
/// counter (running or paused) is within the contention window of the
/// stage.
pub open spec fn sender_ok(state: CSMAState, stage: u16, p: CsmaParams) -> bool {
    &&& stage <= p.max_stage
    &&& match state {
        CSMAState::Backoff(c) => c <= window_size(stage, p.cw_min, p.cw_max),
        CSMAState::BackoffPaused(c) => c <= window_size(stage, p.cw_min, p.cw_max),
        _ => true,
    }
}

/// Every decision keeps the sender's invariant, whatever the random draw
/// within the window: the stage never passes its cap, and no backoff
/// counter leaves the contention window of its stage.
pub proof fn lemma_csma_keeps_invariant(state: CSMAState, stage: u16, event: SenderEvent, p: CsmaParams, draw: usize)
    requires
        sender_ok(state, stage, p),
        draw <= window_size(csma_next(state, stage, event, p, 0).stage, p.cw_min, p.cw_max),
    ensures
        sender_ok(
            csma_next(state, stage, event, p, draw).state,
            csma_next(state, stage, event, p, draw).stage,
            p,
        ),
{
}

/// A backoff only ends in a transmission after counting down on idle
/// slots: from a counter `c > 0`, an idle slot lowers it by one and a busy
/// slot pauses it with `c` kept; a zero counter transmits.
pub proof fn lemma_backoff_counts_down(c: usize, stage: u16, p: CsmaParams, draw: usize)
    ensures
        c > 0 ==> csma_next(CSMAState::Backoff(c), stage, SenderEvent::Channel(Some(false)), p, draw).state
            == CSMAState::Backoff((c - 1) as usize),
        c > 0 ==> csma_next(CSMAState::Backoff(c), stage, SenderEvent::Channel(Some(true)), p, draw).state
            == CSMAState::BackoffPaused(c),
        c == 0 ==> csma_next(CSMAState::Backoff(c), stage, SenderEvent::Channel(None), p, draw).state
            == CSMAState::Transmitting,
{
}

/// Whether `frame` acknowledges the data frame with sequence `sequence`.
pub fn is_ack_for(frame: &Frame, sequence: u8) -> (b: bool)
    ensures
        b == (frame@.frame_type == FrameType::Ack && frame@.sequence == sequence),
{
    frame.frame_type == FrameType::Ack && frame.sequence == sequence
}

/// The receiving side of the link: which data sequence numbers it has
/// already delivered.
pub struct CsmaReceiver {
    received_sequences: HashSet<u8>,
    local_addr: u8,
    remote_addr: u8,
}

/// What receiving `frame` does when the sequence numbers in `received`
/// have been delivered: the sequence numbers delivered afterwards, and the
/// data delivered, if any. A data frame is delivered when its sequence
/// number is new; other frames change nothing.
pub open spec fn receive(received: Set<u8>, frame: FrameView) -> (Set<u8>, Option<Seq<u8>>) {
    if frame.frame_type == FrameType::Data && !received.contains(frame.sequence) {
        (received.insert(frame.sequence), Some(frame.data))
    } else {
        (received, None)
    }
}

/// Receiving `frames` in order from `received`: the sequence numbers
/// delivered afterwards, and those of the frames delivered, in order.
pub open spec fn receive_all(received: Set<u8>, frames: Seq<FrameView>) -> (Set<u8>, Seq<u8>)
    decreases frames.len(),
{
    if frames.len() == 0 {
        (received, Seq::empty())
    } else {
        let before = receive_all(received, frames.drop_last());
        let f = frames.last();
        let after = receive(before.0, f);
        (after.0, if after.1 is Some {
            before.1.push(f.sequence)
        } else {
            before.1
        })
    }
}

/// What the receiver does with a frame.
pub struct ReceiveDecision {
    /// Data to deliver (a data frame not seen before).
    pub deliver: Option<Vec<u8>>,
    /// The ACK to send (for every data frame).
    pub ack: Option<Frame>,
}

impl CsmaReceiver {
    /// A receiver at `local_addr` acknowledging to `remote_addr`, with
    /// nothing received yet.
    pub fn new(local_addr: u8, remote_addr: u8) -> (r: Self)
        ensures
            r.received() == Set::<u8>::empty(),
            r.local() == local_addr,
            r.remote() == remote_addr,
    {
        Self { received_sequences: HashSet::new(), local_addr, remote_addr }
    }

    /// Sequence numbers delivered so far.
    pub closed spec fn received(&self) -> Set<u8> {
        self.received_sequences@
    }

    pub closed spec fn local(&self) -> u8 {
        self.local_addr
    }

    pub closed spec fn remote(&self) -> u8 {
        self.remote_addr
    }

    /// Handle a decoded frame. A data frame is delivered when its sequence
    /// number is new, and acknowledged in any case (a lost ACK makes the
    /// sender repeat the frame); other frames are ignored.
    pub fn on_frame(&mut self, frame: Frame) -> (d: ReceiveDecision)
        ensures
            final(self).local() == old(self).local(),
            final(self).remote() == old(self).remote(),
            frame@.frame_type == FrameType::Data ==> {
                &&& final(self).received() == old(self).received().insert(frame@.sequence)
                &&& match d.deliver {
                    Some(v) => !old(self).received().contains(frame@.sequence) && v@ == frame@.data,
                    None => old(self).received().contains(frame@.sequence),
                }
                &&& d.ack matches Some(a) && a@ == (FrameView {
                    frame_type: FrameType::Ack,
                    sequence: frame@.sequence,
                    src: old(self).local(),
                    dst: old(self).remote(),
                    data: Seq::<u8>::empty(),
                })
            },
            frame@.frame_type != FrameType::Data ==> final(self).received() == old(self).received()
                && d.deliver is None && d.ack is None,
            final(self).received() == receive(old(self).received(), frame@).0,
            receive(old(self).received(), frame@).1 == (match d.deliver {
                Some(v) => Some(v@),
                None => None::<Seq<u8>>,
            }),
    {
        if frame.frame_type == FrameType::Data {
            let sequence = frame.sequence;
            let deliver = if !self.received_sequences.contains(&sequence) {
                self.received_sequences.insert(sequence);
                Some(frame.data)
            } else {
                None
            };
            let ack = Frame::new_ack(sequence, self.local_addr, self.remote_addr);
            ReceiveDecision { deliver, ack: Some(ack) }
        } else {
            ReceiveDecision { deliver: None, ack: None }
        }
    }

    /// Number of distinct data frames delivered.
    pub fn received_count(&self) -> (n: usize)
        ensures
            n == self.received().len(),
    {
        self.received_sequences.len()
    }
}

/// A data frame is delivered at most once: over any run of frames, no
/// sequence number is delivered twice, none that had been delivered before
/// the run is delivered again, and afterwards the receiver holds exactly
/// the earlier sequence numbers and those it delivered.
pub proof fn lemma_no_duplicate_delivery(received: Set<u8>, frames: Seq<FrameView>)
    ensures
        receive_all(received, frames).1.no_duplicates(),
        forall|i: int|
            0 <= i < receive_all(received, frames).1.len() ==> !received.contains(
                #[trigger] receive_all(received, frames).1[i],
            ),
        forall|x: u8|
            #[trigger] receive_all(received, frames).0.contains(x) <==> (received.contains(x)
                || receive_all(received, frames).1.contains(x)),
    decreases frames.len(),
{
    if frames.len() > 0 {
        let rest = frames.drop_last();
        lemma_no_duplicate_delivery(received, rest);
        let before = receive_all(received, rest);
        let f = frames.last();
        let after = receive(before.0, f);
        if after.1 is Some {
            let ds = before.1.push(f.sequence);
            assert(ds[ds.len() - 1] == f.sequence);
            assert forall|x: u8| #[trigger] ds.contains(x) <==> (before.1.contains(x) || x == f.sequence) by {
                if before.1.contains(x) {
                    let i = choose|i: int| 0 <= i < before.1.len() && before.1[i] == x;
                    assert(ds[i] == x);
                }
                if ds.contains(x) && x != f.sequence {
                    let i = choose|i: int| 0 <= i < ds.len() && ds[i] == x;
                    assert(before.1[i] == x);
                }
            }
        }
    }
}

} // verus!
