//! The per-connection state machine.
//!
//! A connection handler waits on three event sources at once: a line from
//! the socket, the heartbeat timer, and the shutdown notification. The
//! decisions are all here, as one verified step function from state and
//! event to the next state and the write to attempt; the waiting and the
//! writing themselves live with the caller, which reports write failures,
//! read failures and end-of-stream back in as events.

use vstd::prelude::*;
use crate::ascii::{spec_trim_end, trim_end};
use crate::dispatch::{process_command, sem_line, spec_line_is_list, full_list_reply};
use crate::store::Store;

verus! {

/// The heartbeat period, in seconds.
pub const HEARTBEAT_PERIOD_SECS: u64 = 120;

/// The expiry sweeper's period, in seconds.
pub const SWEEP_PERIOD_SECS: u64 = 60;

/// Connection lifecycle. `Closing` lasts exactly one step: the best-effort
/// write of the termination line after a shutdown notification; any
/// further event closes the connection for good.
#[derive(Clone, Copy, PartialEq, Eq, Structural, Debug)]
pub enum ConnState {
    Active,
    Closing,
    Closed,
}

/// What the waiting caller observed.
pub enum ConnEvent {
    /// One line read from the socket, its trailing newline still attached
    /// or already gone; the machine strips trailing whitespace itself.
    LineArrived(Vec<u8>),
    /// The peer closed its end of the stream.
    EndOfStream,
    /// A read failed.
    ReadFailed,
    /// A previous write failed.
    WriteFailed,
    /// The heartbeat timer fired.
    HeartbeatDue,
    /// The one-shot shutdown broadcast was observed.
    ShutdownNotified,
}

/// What the caller must do next. Only `WriteTerm` is best-effort: its
/// failure need not be reported back.
#[derive(Debug, PartialEq, Eq)]
pub enum ConnAction {
    /// Wait for the next event.
    Idle,
    /// Write this reply to the peer.
    WriteReply(Vec<u8>),
    /// Write the heartbeat line.
    WriteHeartbeat,
    /// Write the termination line, then treat the connection as closed,
    /// ignoring failure.
    WriteTerm,
}

/// A received line is ignored when nothing is left after trimming.
pub open spec fn spec_line_ignored(l: Seq<u8>) -> bool {
    spec_trim_end(l).len() == 0
}

/// One step of the connection state machine.
///
/// While `Active`: an empty line is ignored; a non-empty line is answered
/// by the dispatcher, the store changing exactly as the interpreter says;
/// the heartbeat fires a heartbeat write; end-of-stream, a read failure or
/// a write failure closes the connection at once; the shutdown
/// notification moves to `Closing` with a best-effort termination write,
/// so every open connection that observes shutdown is shown the
/// termination line. An in-flight command is always answered before
/// shutdown is honoured, because events are taken up one at a time. Only a
/// non-empty line while `Active` touches the store.
pub fn conn_step(state: ConnState, ev: &ConnEvent, store: &mut Store, now: u64) -> (r: (
    ConnState,
    ConnAction,
))
    requires
        old(store).inv(),
    ensures
        final(store).inv(),
        !(state is Active && ev is LineArrived) ==> final(store)@ == old(store)@ && (r.1
            is Idle || r.1 is WriteHeartbeat || r.1 is WriteTerm),
        state is Closing ==> r.0 is Closed && r.1 is Idle,
        state is Closed ==> r.0 is Closed && r.1 is Idle,
        state is Active ==> match ev {
            ConnEvent::LineArrived(l) => {
                let t = spec_trim_end(l@);
                if spec_line_ignored(l@) {
                    r.0 is Active && r.1 is Idle && final(store)@ == old(store)@
                } else {
                    r.0 is Active && (r.1 matches ConnAction::WriteReply(rep) && (
                    if spec_line_is_list(t) {
                        final(store)@ == old(store)@ && rep@ == full_list_reply(
                            old(store).entries_view(),
                        )
                    } else {
                        rep@ == sem_line(old(store)@, t, now).0 && final(store)@ == sem_line(
                            old(store)@,
                            t,
                            now,
                        ).1
                    }))
                }
            },
            ConnEvent::EndOfStream => r.0 is Closed && r.1 is Idle,
            ConnEvent::ReadFailed => r.0 is Closed && r.1 is Idle,
            ConnEvent::WriteFailed => r.0 is Closed && r.1 is Idle,
            ConnEvent::HeartbeatDue => r.0 is Active && r.1 is WriteHeartbeat,
            ConnEvent::ShutdownNotified => r.0 is Closing && r.1 is WriteTerm,
        },
{
    match state {
        ConnState::Active => match ev {
            ConnEvent::LineArrived(l) => {
                let t = trim_end(l.as_slice());
                if t.len() == 0 {
                    (ConnState::Active, ConnAction::Idle)
                } else {
                    let rep = process_command(store, t, now);
                    (ConnState::Active, ConnAction::WriteReply(rep))
                }
            },
            ConnEvent::EndOfStream => (ConnState::Closed, ConnAction::Idle),
            ConnEvent::ReadFailed => (ConnState::Closed, ConnAction::Idle),
            ConnEvent::WriteFailed => (ConnState::Closed, ConnAction::Idle),
            ConnEvent::HeartbeatDue => (ConnState::Active, ConnAction::WriteHeartbeat),
            ConnEvent::ShutdownNotified => (ConnState::Closing, ConnAction::WriteTerm),
        },
        ConnState::Closing => (ConnState::Closed, ConnAction::Idle),
        ConnState::Closed => (ConnState::Closed, ConnAction::Idle),
    }
}

} // verus!
