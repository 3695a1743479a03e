use vstd::prelude::*;
use crate::message::{ProtocolMessage, TransportEvent};
use crate::node::NodeMessage;

verus! {

/// Largest frame payload a node reads, in bytes.
pub const MAX_FRAME: usize = 16 * 1024 * 1024;

/// Why a frame cannot be written or read.
#[derive(Debug, PartialEq, Eq, Structural)]
pub enum FrameError {
    /// The payload length does not fit the four-byte length prefix.
    TooBigToSend,
    /// The announced length is over `MAX_FRAME`.
    TooBigToRead,
}

/// The length prefix of a frame: the payload length as a big-endian `u32`.
pub fn frame_header(payload_len: usize) -> (res: Result<[u8; 4], FrameError>)
    ensures
        payload_len > u32::MAX ==> res == Err::<[u8; 4], FrameError>(FrameError::TooBigToSend),
        payload_len <= u32::MAX ==> (res matches Ok(h) && h@ == crate::block::be_u32(
            payload_len as u32,
        )),
{
    if payload_len > u32::MAX as usize {
        return Err(FrameError::TooBigToSend);
    }
    let len = payload_len as u32;
    let h = [(len >> 24u32) as u8, (len >> 16u32) as u8, (len >> 8u32) as u8, len as u8];
    assert(h@ =~= crate::block::be_u32(len));
    Ok(h)
}

/// The payload length a frame announces, refused over `MAX_FRAME`.
pub fn frame_length(header: [u8; 4]) -> (res: Result<usize, FrameError>)
    ensures
        ({
            let len = header@[0] * 0x1000000 + header@[1] * 0x10000 + header@[2] * 0x100
                + header@[3];
            &&& len > MAX_FRAME ==> res == Err::<usize, FrameError>(FrameError::TooBigToRead)
            &&& len <= MAX_FRAME ==> res == Ok::<usize, FrameError>(len as usize)
        }),
{
    let len: u64 = (header[0] as u64) * 0x1000000 + (header[1] as u64) * 0x10000 + (header[2] as u64)
        * 0x100 + (header[3] as u64);
    if len > MAX_FRAME as u64 {
        return Err(FrameError::TooBigToRead);
    }
    Ok(len as usize)
}

/// The peer id a connection announces: its first message must be `Hello`.
pub fn hello_peer_id(msg: &ProtocolMessage) -> (res: Option<u32>)
    ensures
        match msg {
            ProtocolMessage::Hello { peer_id, .. } => res == Some(*peer_id),
            _ => res is None,
        },
{
    match msg {
        ProtocolMessage::Hello { peer_id, .. } => Some(*peer_id),
        _ => None,
    }
}

/// How an outbound handshake ended.
#[derive(Debug, PartialEq, Eq, Structural)]
pub enum AckCheck {
    /// The peer acknowledged with the expected id.
    Accepted,
    /// The answer was no `HelloAck`.
    NotAck,
    /// The peer acknowledged with another id.
    Mismatch(u32),
}

/// Checks the answer to an outbound `Hello` against the expected peer id.
pub fn check_ack(msg: &ProtocolMessage, expected_peer_id: u32) -> (res: AckCheck)
    ensures
        match msg {
            ProtocolMessage::HelloAck { peer_id } => if *peer_id == expected_peer_id {
                res == AckCheck::Accepted
            } else {
                res == AckCheck::Mismatch(*peer_id)
            },
            _ => res == AckCheck::NotAck,
        },
{
    match msg {
        ProtocolMessage::HelloAck { peer_id } => {
            if *peer_id == expected_peer_id {
                AckCheck::Accepted
            } else {
                AckCheck::Mismatch(*peer_id)
            }
        },
        _ => AckCheck::NotAck,
    }
}

/// The instruction for the node that a transport event stands for.
pub fn node_message_from_event(ev: TransportEvent) -> (res: NodeMessage)
    ensures
        match ev {
            TransportEvent::PeerConnected { peer_id, sender } => res == (NodeMessage::AddPeer {
                peer_id,
                sender,
            }),
            TransportEvent::PeerDisconnected { peer_id } => res == (NodeMessage::RemovePeer {
                peer_id,
            }),
            TransportEvent::Message { peer_id, msg } => res == (NodeMessage::Net { peer_id, msg }),
        },
{
    match ev {
        TransportEvent::PeerConnected { peer_id, sender } => NodeMessage::AddPeer { peer_id, sender },
        TransportEvent::PeerDisconnected { peer_id } => NodeMessage::RemovePeer { peer_id },
        TransportEvent::Message { peer_id, msg } => NodeMessage::Net { peer_id, msg },
    }
}

/// First wait before reconnecting to a peer, in milliseconds.
pub const RECONNECT_BASE_MS: u64 = 200;

/// Longest wait before reconnecting to a peer, in milliseconds.
pub const RECONNECT_MAX_MS: u64 = 5_000;

/// The wait before the next attempt after `failures` failed ones in a row:
/// 200 ms, doubling with each failure, at most 5 s.
pub open spec fn backoff_ms(failures: nat) -> nat
    decreases failures,
{
    if failures == 0 {
        RECONNECT_BASE_MS as nat
    } else {
        let d = 2 * backoff_ms((failures - 1) as nat);
        if d < RECONNECT_MAX_MS {
            d
        } else {
            RECONNECT_MAX_MS as nat
        }
    }
}

/// Once the wait reaches its cap it stays there.
proof fn lemma_backoff_stays_capped(k: nat, j: nat)
    requires
        backoff_ms(k) == RECONNECT_MAX_MS,
    ensures
        backoff_ms(k + j) == RECONNECT_MAX_MS,
    decreases j,
{
    if j > 0 {
        lemma_backoff_stays_capped(k, (j - 1) as nat);
        assert(backoff_ms(k + j) == backoff_ms((k + j - 1) as nat) * 2 || backoff_ms(k + j)
            == RECONNECT_MAX_MS);
    }
}

/// The wait before reconnecting after `failures` failed attempts in a row.
pub fn reconnect_delay_ms(failures: u32) -> (res: u64)
    ensures
        res == backoff_ms(failures as nat),
{
    let mut d: u64 = RECONNECT_BASE_MS;
    let mut i: u32 = 0;
    while i < failures
        invariant
            0 <= i <= failures,
            d == backoff_ms(i as nat),
            d <= RECONNECT_MAX_MS,
        decreases failures - i,
    {
        if d == RECONNECT_MAX_MS {
            proof {
                lemma_backoff_stays_capped(i as nat, (failures - i) as nat);
            }
            return d;
        }
        d = if 2 * d < RECONNECT_MAX_MS {
            2 * d
        } else {
            RECONNECT_MAX_MS
        };
        i = i + 1;
    }
    d
}

/// Where an outbound connection stands: how many attempts failed in a row.
#[derive(Debug, PartialEq, Eq, Structural)]
pub struct ReconnectState {
    pub failures: u32,
}

/// What happened to an outbound connection.
#[derive(Debug, PartialEq, Eq, Structural)]
pub enum ConnectEvent {
    /// The TCP connection could not be made, or the handshake could not be
    /// written or read.
    ConnectFailed,
    /// The TCP connection is up.
    Connected,
    /// The peer answered `HelloAck` with the expected id.
    AckAccepted,
    /// The peer answered `HelloAck` with another id.
    AckMismatch(u32),
    /// The peer answered with something other than `HelloAck`.
    NotAck,
    /// A working connection went down.
    Closed,
}

/// What to do next with an outbound connection.
#[derive(Debug, PartialEq, Eq, Structural)]
pub enum ConnectAction {
    /// Wait this many milliseconds, then try to connect again.
    Sleep(u64),
    /// Send `Hello` and wait for the answer.
    SendHello,
    /// Start exchanging messages with the peer.
    StartPeer,
}

/// The reconnect policy of an outbound connection: a failed attempt waits
/// `backoff_ms` of the failures so far and counts one more failure (up to
/// `u32::MAX`); a connection that is up sends `Hello`; an accepted
/// acknowledgment starts the peer and clears the failures.
pub fn reconnect_step(s: ReconnectState, ev: ConnectEvent) -> (res: (ReconnectState, ConnectAction))
    ensures
        match ev {
            ConnectEvent::Connected => res == (s, ConnectAction::SendHello),
            ConnectEvent::AckAccepted => res == (ReconnectState { failures: 0 }, ConnectAction::StartPeer),
            _ => {
                &&& res.0.failures == (if s.failures == u32::MAX {
                    u32::MAX
                } else {
                    (s.failures + 1) as u32
                })
                &&& res.1 == ConnectAction::Sleep(backoff_ms(s.failures as nat) as u64)
            },
        },
{
    match ev {
        ConnectEvent::Connected => (s, ConnectAction::SendHello),
        ConnectEvent::AckAccepted => (ReconnectState { failures: 0 }, ConnectAction::StartPeer),
        _ => {
            let delay = reconnect_delay_ms(s.failures);
            let failures = s.failures.saturating_add(1);
            (ReconnectState { failures }, ConnectAction::Sleep(delay))
        },
    }
}

/// How a handshake answer turns into a connection event.
pub fn ack_event(check: AckCheck) -> (res: ConnectEvent)
    ensures
        match check {
            AckCheck::Accepted => res == ConnectEvent::AckAccepted,
            AckCheck::NotAck => res == ConnectEvent::NotAck,
            AckCheck::Mismatch(id) => res == ConnectEvent::AckMismatch(id),
        },
{
    match check {
        AckCheck::Accepted => ConnectEvent::AckAccepted,
        AckCheck::NotAck => ConnectEvent::NotAck,
        AckCheck::Mismatch(id) => ConnectEvent::AckMismatch(id),
    }
}

} // verus!
