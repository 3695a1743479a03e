use std::sync::mpsc::channel;

use poa_chain::message::{ProtocolMessage, TransportEvent};
use poa_chain::node::NodeMessage;
use poa_chain::transport::{
    ack_event, check_ack, frame_header, frame_length, hello_peer_id, node_message_from_event, reconnect_delay_ms,
    reconnect_step, AckCheck, ConnectAction, ConnectEvent, FrameError, ReconnectState, MAX_FRAME,
};

#[test]
fn frame_header_is_big_endian_length() {
    assert_eq!(frame_header(0), Ok([0, 0, 0, 0]));
    assert_eq!(frame_header(0x01020304), Ok([1, 2, 3, 4]));
    assert_eq!(frame_header(u32::MAX as usize), Ok([0xff; 4]));
}

#[test]
fn frame_header_refuses_lengths_over_u32() {
    if usize::BITS > 32 {
        assert_eq!(frame_header(u32::MAX as usize + 1), Err(FrameError::TooBigToSend));
    }
}

#[test]
fn frame_length_reads_the_prefix() {
    assert_eq!(frame_length([0, 0, 1, 0]), Ok(256));
    assert_eq!(frame_length([1, 0, 0, 0]), Ok(MAX_FRAME));
    assert_eq!(frame_length([1, 0, 0, 1]), Err(FrameError::TooBigToRead));
    assert_eq!(frame_length([0xff; 4]), Err(FrameError::TooBigToRead));
}

#[test]
fn frame_length_undoes_frame_header() {
    for n in [0usize, 1, 255, 256, 65_537, MAX_FRAME] {
        assert_eq!(frame_length(frame_header(n).unwrap()), Ok(n));
    }
}

#[test]
fn hello_gives_the_peer_id() {
    assert_eq!(hello_peer_id(&ProtocolMessage::Hello { peer_id: 12, pubkey: [0u8; 32] }), Some(12));
    assert_eq!(hello_peer_id(&ProtocolMessage::HelloAck { peer_id: 12 }), None);
    assert_eq!(hello_peer_id(&ProtocolMessage::GetStatus), None);
}

#[test]
fn ack_is_checked_against_the_expected_id() {
    assert_eq!(check_ack(&ProtocolMessage::HelloAck { peer_id: 3 }, 3), AckCheck::Accepted);
    assert_eq!(check_ack(&ProtocolMessage::HelloAck { peer_id: 4 }, 3), AckCheck::Mismatch(4));
    assert_eq!(check_ack(&ProtocolMessage::Hello { peer_id: 3, pubkey: [0u8; 32] }, 3), AckCheck::NotAck);
}

#[test]
fn transport_events_become_node_messages() {
    let (tx, _rx) = channel();
    assert!(matches!(
        node_message_from_event(TransportEvent::PeerConnected { peer_id: 5, sender: tx }),
        NodeMessage::AddPeer { peer_id: 5, .. }
    ));
    assert!(matches!(
        node_message_from_event(TransportEvent::PeerDisconnected { peer_id: 6 }),
        NodeMessage::RemovePeer { peer_id: 6 }
    ));
    assert!(matches!(
        node_message_from_event(TransportEvent::Message { peer_id: 7, msg: ProtocolMessage::GetStatus }),
        NodeMessage::Net { peer_id: 7, msg: ProtocolMessage::GetStatus }
    ));
}

#[test]
fn cloned_messages_keep_their_content() {
    let m = ProtocolMessage::GetBlocks { start: 3, limit: 9 };
    assert!(matches!(m.clone(), ProtocolMessage::GetBlocks { start: 3, limit: 9 }));
    let s = ProtocolMessage::Status { height: 2, last_block_hash: [7u8; 32] };
    assert!(matches!(s.clone(), ProtocolMessage::Status { height: 2, last_block_hash } if last_block_hash == [7u8; 32]));
}

#[test]
fn reconnect_delay_doubles_up_to_five_seconds() {
    let delays: Vec<u64> = (0..7).map(reconnect_delay_ms).collect();
    assert_eq!(delays, vec![200, 400, 800, 1_600, 3_200, 5_000, 5_000]);
    assert_eq!(reconnect_delay_ms(1_000), 5_000);
    assert_eq!(reconnect_delay_ms(u32::MAX), 5_000);
}

#[test]
fn reconnect_policy_backs_off_and_resets_on_accept() {
    let s0 = ReconnectState { failures: 0 };
    let (s1, a1) = reconnect_step(s0, ConnectEvent::ConnectFailed);
    assert_eq!((s1.failures, a1), (1, ConnectAction::Sleep(200)));
    let (s2, a2) = reconnect_step(s1, ConnectEvent::ConnectFailed);
    assert_eq!((s2.failures, a2), (2, ConnectAction::Sleep(400)));
    let (s3, a3) = reconnect_step(s2, ConnectEvent::Connected);
    assert_eq!((s3.failures, a3), (2, ConnectAction::SendHello));
    let (s4, a4) = reconnect_step(s3, ConnectEvent::AckMismatch(9));
    assert_eq!((s4.failures, a4), (3, ConnectAction::Sleep(800)));
    let (s5, a5) = reconnect_step(s4, ConnectEvent::NotAck);
    assert_eq!((s5.failures, a5), (4, ConnectAction::Sleep(1_600)));
    let (s6, a6) = reconnect_step(s5, ConnectEvent::AckAccepted);
    assert_eq!((s6.failures, a6), (0, ConnectAction::StartPeer));
    let (s7, a7) = reconnect_step(s6, ConnectEvent::Closed);
    assert_eq!((s7.failures, a7), (1, ConnectAction::Sleep(200)));
    let (s8, _) = reconnect_step(ReconnectState { failures: u32::MAX }, ConnectEvent::ConnectFailed);
    assert_eq!(s8.failures, u32::MAX);
}

#[test]
fn handshake_answers_become_connect_events() {
    assert_eq!(ack_event(AckCheck::Accepted), ConnectEvent::AckAccepted);
    assert_eq!(ack_event(AckCheck::NotAck), ConnectEvent::NotAck);
    assert_eq!(ack_event(AckCheck::Mismatch(4)), ConnectEvent::AckMismatch(4));
}
