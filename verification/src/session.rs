//! The per-connection session control: the decision core of the loop that
//! multiplexes inbound transport frames, hub-delivered broadcasts, and the
//! heartbeat timer for one connection.
//!
//! The loop itself performs transport work and so lives outside the
//! verified library; every decision it takes — what to send back, when to
//! refresh the liveness timestamp, and when to terminate with which close
//! reason — is taken here, one event at a time, with an exact contract.

use crate::CLIENT_TIMEOUT_MS;
use vstd::prelude::*;

verus! {

/// The close information carried by a close frame: a code and an optional
/// description, as supplied by the peer.
pub struct CloseInfo {
    pub code: u16,
    pub description: Option<String>,
}

/// One inbound transport frame, after reassembly of any fragmented input.
pub enum Frame {
    Ping(Vec<u8>),
    Pong(Vec<u8>),
    Text(String),
    Binary(Vec<u8>),
    Close(Option<CloseInfo>),
}

/// One event the session loop can wake up on: an inbound frame, a frame-level
/// protocol error, the end of the inbound stream, a broadcast payload
/// delivered by the hub, the heartbeat tick, or the delivery queue closing.
pub enum SessionEvent {
    Client(Frame),
    ClientError,
    StreamEnd,
    Participant(String),
    Heartbeat,
    QueueClosed,
}

/// What the loop must do before waiting for the next event.
pub enum SessionAction {
    SendPong(Vec<u8>),
    SendPing,
    ForwardText(String),
}

/// The outcome of one decision: keep looping (with at most one action to
/// perform first), or terminate with the given close reason.
pub enum SessionStep {
    Continue(Option<SessionAction>),
    Terminate(Option<CloseInfo>),
}

/// Whether an event counts as a liveness signal: only the ping and pong
/// control frames refresh the liveness timestamp.
pub open spec fn is_liveness_signal(ev: SessionEvent) -> bool {
    ||| ev matches SessionEvent::Client(Frame::Ping(_))
    ||| ev matches SessionEvent::Client(Frame::Pong(_))
}

/// The liveness timestamp after processing one event at time `now`.
pub open spec fn spec_signal_after(last: u64, ev: SessionEvent, now: u64) -> u64 {
    if is_liveness_signal(ev) {
        now
    } else {
        last
    }
}

/// A heartbeat tick at time `now` evicts the connection when the last
/// liveness signal lies further back than the timeout window.
pub open spec fn heartbeat_times_out(last: u64, now: u64) -> bool {
    now - last > CLIENT_TIMEOUT_MS
}

/// The control state of one session: when the last liveness signal was
/// observed, in milliseconds of a monotonic clock.
pub struct SessionCtl {
    last_heartbeat: u64,
}

impl SessionCtl {
    /// When the last liveness signal was observed.
    pub closed spec fn last_signal(&self) -> u64 {
        self.last_heartbeat
    }

    /// A session that has just connected at time `now_ms` counts the
    /// connection itself as the first liveness signal.
    pub fn new(now_ms: u64) -> (s: SessionCtl)
        ensures
            s.last_signal() == now_ms,
    {
        SessionCtl { last_heartbeat: now_ms }
    }

    /// Decide what one event means for this session at time `now_ms`:
    /// ping refreshes liveness and is answered with a pong; pong refreshes
    /// liveness; client text is not forwarded anywhere; unexpected binary
    /// payloads are ignored; a close frame terminates with the peer's
    /// reason; a protocol error, the stream ending, or the delivery queue
    /// closing terminate with no reason; a hub-delivered payload is
    /// forwarded verbatim; the heartbeat tick evicts a connection whose
    /// liveness signal is older than the timeout window and otherwise
    /// answers with a proactive ping.
    pub fn on_event(&mut self, ev: SessionEvent, now_ms: u64) -> (step: SessionStep)
        requires
            old(self).last_signal() <= now_ms,
        ensures
            final(self).last_signal() == spec_signal_after(old(self).last_signal(), ev, now_ms),
            match ev {
                SessionEvent::Client(frame) => match frame {
                    Frame::Ping(bytes) => step == SessionStep::Continue(
                        Some(SessionAction::SendPong(bytes)),
                    ),
                    Frame::Pong(_) => step == SessionStep::Continue(None::<SessionAction>),
                    Frame::Text(_) => step == SessionStep::Continue(None::<SessionAction>),
                    Frame::Binary(_) => step == SessionStep::Continue(None::<SessionAction>),
                    Frame::Close(reason) => step == SessionStep::Terminate(reason),
                },
                SessionEvent::ClientError => step == SessionStep::Terminate(None::<CloseInfo>),
                SessionEvent::StreamEnd => step == SessionStep::Terminate(None::<CloseInfo>),
                SessionEvent::Participant(text) => step == SessionStep::Continue(
                    Some(SessionAction::ForwardText(text)),
                ),
                SessionEvent::Heartbeat => if heartbeat_times_out(
                    old(self).last_signal(),
                    now_ms,
                ) {
                    step == SessionStep::Terminate(None::<CloseInfo>)
                } else {
                    step == SessionStep::Continue(Some(SessionAction::SendPing))
                },
                SessionEvent::QueueClosed => step == SessionStep::Terminate(None::<CloseInfo>),
            },
    {
        match ev {
            SessionEvent::Client(frame) => match frame {
                Frame::Ping(bytes) => {
                    self.last_heartbeat = now_ms;
                    SessionStep::Continue(Some(SessionAction::SendPong(bytes)))
                },
                Frame::Pong(_) => {
                    self.last_heartbeat = now_ms;
                    SessionStep::Continue(None)
                },
                Frame::Text(_text) => {
                    // text sent by the client travels through a separate
                    // request channel, not through this transport
                    SessionStep::Continue(None)
                },
                Frame::Binary(_bin) => SessionStep::Continue(None),
                Frame::Close(reason) => SessionStep::Terminate(reason),
            },
            SessionEvent::ClientError => SessionStep::Terminate(None),
            SessionEvent::StreamEnd => SessionStep::Terminate(None),
            SessionEvent::Participant(text) => SessionStep::Continue(
                Some(SessionAction::ForwardText(text)),
            ),
            SessionEvent::Heartbeat => {
                if now_ms - self.last_heartbeat > CLIENT_TIMEOUT_MS {
                    SessionStep::Terminate(None)
                } else {
                    SessionStep::Continue(Some(SessionAction::SendPing))
                }
            },
            SessionEvent::QueueClosed => SessionStep::Terminate(None),
        }
    }
}

/// The liveness timestamp after a whole sequence of timed events.
pub open spec fn spec_signal_run(last: u64, evs: Seq<(SessionEvent, u64)>) -> u64
    decreases evs.len(),
{
    if evs.len() == 0 {
        last
    } else {
        spec_signal_run(spec_signal_after(last, evs.first().0, evs.first().1), evs.drop_first())
    }
}

/// Heartbeat eviction: if no event since the last liveness signal at time
/// `last` is itself a liveness signal, the timestamp still reads `last`,
/// and a heartbeat tick at any time beyond the timeout window after `last`
/// evicts the connection — by `on_event`'s contract, with no close reason.
pub proof fn lemma_timeout_eviction(last: u64, evs: Seq<(SessionEvent, u64)>, now: u64)
    requires
        forall|k: int| 0 <= k < evs.len() ==> !is_liveness_signal((#[trigger] evs[k]).0),
        now - last > CLIENT_TIMEOUT_MS,
    ensures
        spec_signal_run(last, evs) == last,
        heartbeat_times_out(spec_signal_run(last, evs), now),
    decreases evs.len(),
{
    if evs.len() != 0 {
        assert(!is_liveness_signal(evs[0].0));
        lemma_timeout_eviction(last, evs.drop_first(), now);
    }
}

} // verus!
