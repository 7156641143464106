//! The WebSocket-variant worker's decisions: what to do with each
//! message read from a peer, which out-messages to write, when the
//! poll loop sweeps, and how accept tokens are minted.

use vstd::prelude::*;
use crate::types::{InfoHash, PeerAddr};

verus! {

/// Poll iterations between two inactivity sweeps.
pub const SWEEP_INTERVAL: u64 = 128;

/// Whether this poll iteration runs the sweep: every
/// `SWEEP_INTERVAL`-th one, the first included.
pub fn should_sweep(iter_counter: u64) -> (r: bool)
    ensures
        r == (iter_counter % SWEEP_INTERVAL == 0),
{
    iter_counter % SWEEP_INTERVAL == 0
}

/// The deadline a touched connection stays valid until, saturating
/// at the largest representable instant.
pub fn deadline(now: u64, max_connection_age: u64) -> (r: u64)
    ensures
        now + max_connection_age <= u64::MAX ==> r == now + max_connection_age,
        now + max_connection_age > u64::MAX ==> r == u64::MAX,
{
    if now <= u64::MAX - max_connection_age {
        now + max_connection_age
    } else {
        u64::MAX
    }
}

/// Mint the poll token for the next accepted stream: a wrapping
/// counter that skips the values reserved for the listener and the
/// channel.
pub fn next_token(counter: usize) -> (r: usize)
    ensures
        counter == usize::MAX || counter == 0 ==> r == 2,
        counter != usize::MAX && counter != 0 ==> r == counter + 1,
        r >= 2,
{
    let bumped = counter.wrapping_add(1);
    if bumped < 2 {
        2
    } else {
        bumped
    }
}

/// One application message read from an established WebSocket, as
/// far as the worker's decision goes: the external protocol codec
/// either produced an announce for some swarm, some other
/// well-formed request, or nothing.
pub enum WsInMessage {
    Announce(InfoHash),
    OtherRequest,
    Malformed,
}

/// What the read loop met on an established connection.
pub enum WsReadEvent {
    Message(WsInMessage),
    /// Nothing more to read now.
    WouldBlock,
    /// The peer closed the WebSocket.
    Closed,
    /// Any other read error.
    Error,
}

/// What the worker does with one read event.
#[derive(Clone, Copy, Debug, PartialEq, Eq, Structural)]
pub enum WsReadAction {
    /// Hand the message to the request workers' channel and read on.
    Forward,
    /// Queue a local `"Info hash not allowed"` error response for the
    /// peer and read on.
    RejectNotAllowed,
    /// Queue a local `"Error parsing message"` error response for the
    /// peer and read on.
    RejectMalformed,
    /// Stop reading this connection for now; it stays in the table.
    StopReading,
    /// Drop the connection from the table and stop reading it.
    RemoveAndStop,
}

/// The read-loop decision: a well-formed message is forwarded —
/// except an announce whose info-hash the access-list predicate
/// rejects, which is answered locally; a malformed message is
/// answered locally too; running dry stops the loop; a closed or
/// failed socket removes the connection. The access-list itself is an
/// outside predicate: its verdict arrives as `announce_allowed`.
pub fn ws_read_step(event: &WsReadEvent, announce_allowed: bool) -> (a: WsReadAction)
    ensures
        match event {
            WsReadEvent::Message(m) => match m {
                WsInMessage::Announce(_) => a == (if announce_allowed {
                    WsReadAction::Forward
                } else {
                    WsReadAction::RejectNotAllowed
                }),
                WsInMessage::OtherRequest => a == WsReadAction::Forward,
                WsInMessage::Malformed => a == WsReadAction::RejectMalformed,
            },
            WsReadEvent::WouldBlock => a == WsReadAction::StopReading,
            WsReadEvent::Closed => a == WsReadAction::RemoveAndStop,
            WsReadEvent::Error => a == WsReadAction::RemoveAndStop,
        },
{
    match event {
        WsReadEvent::Message(m) => match m {
            WsInMessage::Announce(_) => {
                if announce_allowed {
                    WsReadAction::Forward
                } else {
                    WsReadAction::RejectNotAllowed
                }
            },
            WsInMessage::OtherRequest => WsReadAction::Forward,
            WsInMessage::Malformed => WsReadAction::RejectMalformed,
        },
        WsReadEvent::WouldBlock => WsReadAction::StopReading,
        WsReadEvent::Closed => WsReadAction::RemoveAndStop,
        WsReadEvent::Error => WsReadAction::RemoveAndStop,
    }
}

/// Where an out-message may go.
#[derive(Clone, Copy, Debug, PartialEq, Eq, Structural)]
pub enum WsWriteCheck {
    /// The connection is established and is the message's peer:
    /// write.
    Write,
    /// No established connection behind the entry (still shaking
    /// hands, or gone): the message is dropped, the entry kept.
    Skip,
    /// The established connection's peer is not the message's: a
    /// stale entry or a routing bug. The message is never delivered,
    /// and the connection is torn down — a peer-address mismatch is a
    /// fatal connection error.
    Mismatch,
}

/// The write-side consistency check: a message is written only to an
/// established connection whose peer address is the message's own; a
/// mismatch is fatal for the connection.
pub fn ws_write_check(established: bool, conn_peer: &PeerAddr, msg_peer: &PeerAddr) -> (a:
    WsWriteCheck)
    ensures
        a is Write <==> (established && conn_peer == msg_peer),
        a is Skip <==> !established,
        a is Mismatch <==> (established && conn_peer != msg_peer),
{
    if !established {
        WsWriteCheck::Skip
    } else if *conn_peer == *msg_peer {
        WsWriteCheck::Write
    } else {
        WsWriteCheck::Mismatch
    }
}

/// How a write attempt ended.
pub enum WsWriteResult {
    Written,
    /// Back-pressured; try again on a later poll.
    WouldBlock,
    Closed,
    Failed,
}

/// After a write: a closed or failed socket drops the connection;
/// success and back-pressure keep it.
pub fn ws_after_write(r: &WsWriteResult) -> (remove: bool)
    ensures
        remove == (r matches WsWriteResult::Closed || r matches WsWriteResult::Failed),
{
    match r {
        WsWriteResult::Written => false,
        WsWriteResult::WouldBlock => false,
        WsWriteResult::Closed => true,
        WsWriteResult::Failed => true,
    }
}

} // verus!
