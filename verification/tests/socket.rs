use socketio_core::error::Error;
use socketio_core::packet::{Frame, FrameKind, Packet, PacketId};
use socketio_core::socket::{Socket, Step};

fn packet(packet_type: PacketId, id: Option<i32>, attachment_count: usize) -> Packet {
    Packet {
        packet_type,
        nsp: "/".to_owned(),
        data: None,
        id,
        attachment_count,
        attachments: None,
    }
}

fn frame(kind: FrameKind, data: &[u8]) -> Frame {
    Frame { kind, data: data.to_vec() }
}

#[test]
fn send_refused_while_session_not_connected() {
    let s = Socket::new();
    let r = s.prepare_send(true, packet(PacketId::Event, None, 0), b"2[\"x\"]".to_vec());
    assert_eq!(r, Err(Error::IllegalActionBeforeOpen));
}

#[test]
fn send_refused_while_transport_not_live() {
    let mut s = Socket::new();
    s.on_connect_success();
    let r = s.prepare_send(false, packet(PacketId::Event, None, 0), b"2[\"x\"]".to_vec());
    assert_eq!(r, Err(Error::IllegalActionBeforeOpen));
}

#[test]
fn send_emits_header_then_attachments_in_order() {
    let mut s = Socket::new();
    s.on_connect_success();
    let mut p = packet(PacketId::BinaryEvent, None, 2);
    p.attachments = Some(vec![vec![1u8, 2], vec![3u8]]);
    let frames = s.prepare_send(true, p, b"51-[\"x\"]".to_vec()).unwrap();
    assert_eq!(frames.len(), 3);
    assert_eq!(frames[0], frame(FrameKind::Message, b"51-[\"x\"]"));
    assert_eq!(frames[1], frame(FrameKind::MessageBinary, &[1, 2]));
    assert_eq!(frames[2], frame(FrameKind::MessageBinary, &[3]));
}

#[test]
fn send_without_attachments_is_one_header_frame() {
    let mut s = Socket::new();
    s.on_connect_success();
    let frames = s.prepare_send(true, packet(PacketId::Event, Some(4), 0), b"2[\"y\"]".to_vec()).unwrap();
    assert_eq!(frames, vec![frame(FrameKind::Message, b"2[\"y\"]")]);
}

#[test]
fn send_moves_no_session_state() {
    let mut s = Socket::new();
    s.on_connect_success();
    let _ = s.prepare_send(true, packet(PacketId::Disconnect, Some(9), 0), b"1".to_vec()).unwrap();
    assert!(s.is_connected());
    assert_eq!(s.last_ack_id(), -1);
}

#[test]
fn reassembly_collects_attachments_in_arrival_order() {
    let mut s = Socket::new();
    let r = s.begin_packet(packet(PacketId::BinaryEvent, Some(3), 2));
    assert!(matches!(r, Step::Awaiting));
    assert!(s.is_reassembling());
    let r = s.handle_frame(frame(FrameKind::MessageBinary, &[0xaa])).unwrap();
    assert!(matches!(r, Step::Awaiting));
    let r = s.handle_frame(frame(FrameKind::Message, &[0xbb, 0xcc])).unwrap();
    match r {
        Step::Yielded(p) => {
            assert_eq!(p.packet_type, PacketId::BinaryEvent);
            assert_eq!(p.attachments, Some(vec![vec![0xaa], vec![0xbb, 0xcc]]));
        }
        other => panic!("expected a yielded packet, got {:?}", other),
    }
    assert!(!s.is_reassembling());
    assert_eq!(s.last_ack_id(), 3);
}

#[test]
fn reassembly_fails_on_control_frame_and_drops_packet() {
    let mut s = Socket::new();
    s.on_connect_success();
    let _ = s.begin_packet(packet(PacketId::BinaryEvent, Some(5), 2));
    let r = s.handle_frame(frame(FrameKind::Message, &[1]));
    assert!(matches!(r, Ok(Step::Awaiting)));
    let r = s.handle_frame(frame(FrameKind::Noop, &[]));
    assert_eq!(r, Err(Error::InvalidAttachmentPacketType(FrameKind::Noop)));
    assert!(!s.is_reassembling());
    // The dropped packet was never translated: connection flag and ack id
    // are untouched.
    assert!(s.is_connected());
    assert_eq!(s.last_ack_id(), -1);
}

#[test]
fn disconnect_resets_state_and_is_idempotent() {
    let mut s = Socket::new();
    s.on_connect_success();
    let _ = s.begin_packet(packet(PacketId::Event, Some(12), 0));
    assert_eq!(s.last_ack_id(), 12);
    s.disconnect();
    assert!(!s.is_connected());
    assert_eq!(s.last_ack_id(), -1);
    s.disconnect();
    assert!(!s.is_connected());
    assert_eq!(s.last_ack_id(), -1);
}

#[test]
fn disconnect_resets_state_from_fresh_session() {
    let mut s = Socket::new();
    s.disconnect();
    assert!(!s.is_connected());
    assert_eq!(s.last_ack_id(), -1);
}

#[test]
fn connect_packet_opens_session() {
    let mut s = Socket::new();
    let r = s.begin_packet(packet(PacketId::Connect, None, 0));
    assert!(matches!(r, Step::Yielded(_)));
    assert!(s.is_connected());
}

#[test]
fn connect_error_packet_closes_session() {
    let mut s = Socket::new();
    s.on_connect_success();
    let _ = s.begin_packet(packet(PacketId::ConnectError, None, 0));
    assert!(!s.is_connected());
}

#[test]
fn disconnect_packet_closes_session() {
    let mut s = Socket::new();
    s.on_connect_success();
    let _ = s.begin_packet(packet(PacketId::Disconnect, None, 0));
    assert!(!s.is_connected());
}

#[test]
fn other_packet_types_leave_connection_untouched() {
    let mut s = Socket::new();
    for t in [PacketId::Event, PacketId::Ack, PacketId::BinaryEvent, PacketId::BinaryAck] {
        let _ = s.begin_packet(packet(t, None, 0));
        assert!(!s.is_connected(), "{:?} must not open the session", t);
    }
    s.on_connect_success();
    for t in [PacketId::Event, PacketId::Ack, PacketId::BinaryEvent, PacketId::BinaryAck] {
        let _ = s.begin_packet(packet(t, None, 0));
        assert!(s.is_connected(), "{:?} must not close the session", t);
    }
}

#[test]
fn ack_id_follows_each_translated_packet() {
    let mut s = Socket::new();
    assert_eq!(s.last_ack_id(), -1);
    let _ = s.begin_packet(packet(PacketId::Event, Some(7), 0));
    assert_eq!(s.last_ack_id(), 7);
    let _ = s.begin_packet(packet(PacketId::Ack, Some(7), 0));
    assert_eq!(s.last_ack_id(), 7);
    let _ = s.begin_packet(packet(PacketId::Event, None, 0));
    assert_eq!(s.last_ack_id(), -1);
}

#[test]
fn control_frames_are_skipped_and_message_frames_need_decoding() {
    let mut s = Socket::new();
    for kind in [
        FrameKind::Open,
        FrameKind::Close,
        FrameKind::Ping,
        FrameKind::Pong,
        FrameKind::Upgrade,
        FrameKind::Noop,
    ] {
        let r = s.handle_frame(frame(kind, &[9])).unwrap();
        assert!(matches!(r, Step::Skipped), "{:?} must be skipped", kind);
    }
    let r = s.handle_frame(frame(FrameKind::Message, b"0{}")).unwrap();
    match r {
        Step::NeedsDecode(payload) => assert_eq!(payload, b"0{}".to_vec()),
        other => panic!("expected a decode request, got {:?}", other),
    }
}

#[test]
fn event_after_connect_keeps_session_open_and_tracks_id() {
    let mut s = Socket::new();
    s.on_connect_success();
    assert!(s.is_connected());
    let r = s.handle_frame(frame(FrameKind::Message, b"2/,7[\"e\"]")).unwrap();
    assert!(matches!(r, Step::NeedsDecode(_)));
    let r = s.begin_packet(packet(PacketId::Event, Some(7), 0));
    match r {
        Step::Yielded(p) => assert_eq!(p.id, Some(7)),
        other => panic!("expected a yielded packet, got {:?}", other),
    }
    assert_eq!(s.last_ack_id(), 7);
    assert!(s.is_connected());
}

#[test]
fn stream_end_while_idle_is_orderly() {
    let mut s = Socket::new();
    assert_eq!(s.on_stream_end(), Ok(()));
    s.on_connect_success();
    assert_eq!(s.on_stream_end(), Ok(()));
    assert!(s.is_connected());
}

#[test]
fn stream_end_mid_reassembly_is_an_incomplete_packet() {
    let mut s = Socket::new();
    s.on_connect_success();
    let _ = s.begin_packet(packet(PacketId::BinaryEvent, Some(2), 2));
    let r = s.handle_frame(frame(FrameKind::MessageBinary, &[1, 2, 3])).unwrap();
    assert!(matches!(r, Step::Awaiting));
    assert_eq!(s.on_stream_end(), Err(Error::IncompletePacket));
    // The packet was never yielded and never translated.
    assert!(!s.is_reassembling());
    assert_eq!(s.last_ack_id(), -1);
    assert!(s.is_connected());
}

#[test]
fn single_attachment_packet_completes_on_first_frame() {
    let mut s = Socket::new();
    let _ = s.begin_packet(packet(PacketId::BinaryAck, Some(1), 1));
    let r = s.handle_frame(frame(FrameKind::MessageBinary, &[])).unwrap();
    match r {
        Step::Yielded(p) => {
            assert_eq!(p.packet_type, PacketId::BinaryAck);
            assert_eq!(p.attachments, Some(vec![vec![]]));
        }
        other => panic!("expected a yielded packet, got {:?}", other),
    }
    assert_eq!(s.last_ack_id(), 1);
}

#[test]
fn largest_attachment_count_keeps_awaiting() {
    let mut s = Socket::new();
    let r = s.begin_packet(packet(PacketId::BinaryEvent, None, usize::MAX));
    assert_eq!(r, Step::Awaiting);
    let r = s.handle_frame(frame(FrameKind::Message, &[1])).unwrap();
    assert_eq!(r, Step::Awaiting);
    assert!(s.is_reassembling());
}

#[test]
fn fresh_session_state() {
    let s = Socket::new();
    assert!(!s.is_connected());
    assert_eq!(s.last_ack_id(), -1);
    assert!(!s.is_reassembling());
}
