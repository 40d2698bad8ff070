use rqs_lib::weave::{
    conn_confirm, conn_request_packet_size, max_payload, PeerPacketAction, WeaveSession,
};

#[test]
fn conn_request_recognised_and_size_clamped() {
    assert_eq!(conn_request_packet_size(&[]), None);
    assert_eq!(conn_request_packet_size(&[0x00, 0, 0, 0, 0, 0x01, 0x00]), None);
    assert_eq!(conn_request_packet_size(&[0x81, 0, 0, 0, 0, 0x01, 0x00]), None);
    assert_eq!(conn_request_packet_size(&[0x80]), Some(100));
    assert_eq!(conn_request_packet_size(&[0x80, 0, 1, 0, 1, 0x00]), Some(100));
    assert_eq!(conn_request_packet_size(&[0x80, 0, 1, 0, 1, 0x00, 185]), Some(185));
    assert_eq!(conn_request_packet_size(&[0x80, 0, 1, 0, 1, 0x02, 0x58]), Some(509));
    assert_eq!(conn_request_packet_size(&[0x80, 0, 1, 0, 1, 0x00, 10]), Some(20));
    assert_eq!(conn_request_packet_size(&[0xf0, 0, 1, 0, 1, 0x01, 0xfd]), Some(509));
    assert_eq!(conn_request_packet_size(&[0xf0, 0, 1, 0, 1, 0x01, 0xfc]), Some(508));
}

#[test]
fn conn_confirm_bytes() {
    assert_eq!(conn_confirm(185), vec![0x81, 0, 1, 0, 185]);
    assert_eq!(conn_confirm(509), vec![0x81, 0, 1, 1, 0xfd]);
}

#[test]
fn max_payload_is_size_less_header() {
    assert_eq!(max_payload(185), 184);
    assert_eq!(max_payload(20), 19);
    assert_eq!(max_payload(0), 19);
    assert_eq!(max_payload(509), 508);
}

fn feed(rx: &mut WeaveSession, pkts: &[Vec<u8>]) -> Vec<PeerPacketAction> {
    pkts.iter().map(|p| rx.on_peer_packet(p)).collect()
}

#[test]
fn entry_roundtrip_through_packets() {
    let mut tx = WeaveSession::new(20);
    let mut rx = WeaveSession::new(20);
    let mut entry = vec![0, 0, 0, 36];
    entry.extend((0u8..36).collect::<Vec<u8>>());
    let pkts = tx.on_inbound_bytes(&entry);
    // 3 + 40 message bytes in payloads of at most 19.
    assert_eq!(pkts.len(), 3);
    assert_eq!(pkts[0].len(), 20);
    assert_eq!(pkts[1].len(), 20);
    assert_eq!(pkts[2].len(), 6);
    assert_eq!(pkts[0][0], 0x18);
    assert_eq!(pkts[1][0], 0x20);
    assert_eq!(pkts[2][0], 0x34);
    assert_eq!(&pkts[0][1..4], &[0xfc, 0x9f, 0x5e]);
    let acts = feed(&mut rx, &pkts);
    assert!(matches!(acts[0], PeerPacketAction::Ignore));
    assert!(matches!(acts[1], PeerPacketAction::Ignore));
    match &acts[2] {
        PeerPacketAction::Forward(v) => assert_eq!(v, &entry),
        _ => panic!("expected a forwarded entry"),
    }
}

#[test]
fn single_packet_entry() {
    let mut tx = WeaveSession::new(185);
    let pkts = tx.on_inbound_bytes(&[0, 0, 0, 2, 7, 8]);
    assert_eq!(pkts, vec![vec![0x1c, 0xfc, 0x9f, 0x5e, 0, 0, 0, 2, 7, 8]]);
}

#[test]
fn incomplete_entry_waits_for_more_bytes() {
    let mut tx = WeaveSession::new(185);
    assert!(tx.on_inbound_bytes(&[0, 0]).is_empty());
    assert!(tx.on_inbound_bytes(&[0, 3, 1]).is_empty());
    let pkts = tx.on_inbound_bytes(&[2, 3, 0, 0]);
    assert_eq!(pkts, vec![vec![0x1c, 0xfc, 0x9f, 0x5e, 0, 0, 0, 3, 1, 2, 3]]);
    // The two trailing bytes start the next entry.
    let pkts = tx.on_inbound_bytes(&[0, 1, 9]);
    assert_eq!(pkts, vec![vec![0x2c, 0xfc, 0x9f, 0x5e, 0, 0, 0, 1, 9]]);
}

#[test]
fn several_entries_in_one_write_and_counter_wraps() {
    let mut tx = WeaveSession::new(185);
    let mut bytes = Vec::new();
    for i in 0..9u8 {
        bytes.extend_from_slice(&[0, 0, 0, 1, i]);
    }
    let pkts = tx.on_inbound_bytes(&bytes);
    assert_eq!(pkts.len(), 9);
    let counters: Vec<u8> = pkts.iter().map(|p| (p[0] & 0x70) >> 4).collect();
    assert_eq!(counters, vec![1, 2, 3, 4, 5, 6, 7, 0, 1]);
    assert!(pkts.iter().all(|p| p[0] & 0x0c == 0x0c && p[0] & 0x80 == 0));
}

#[test]
fn zero_length_entry() {
    let mut tx = WeaveSession::new(185);
    let pkts = tx.on_inbound_bytes(&[0, 0, 0, 0]);
    assert_eq!(pkts, vec![vec![0x1c, 0xfc, 0x9f, 0x5e, 0, 0, 0, 0]]);
}

#[test]
fn peer_control_packets() {
    let mut rx = WeaveSession::new(185);
    assert!(matches!(rx.on_peer_packet(&[]), PeerPacketAction::Ignore));
    assert!(matches!(rx.on_peer_packet(&[0x82]), PeerPacketAction::Close));
    assert!(matches!(rx.on_peer_packet(&[0x92, 1]), PeerPacketAction::Close));
    assert!(matches!(rx.on_peer_packet(&[0x80, 0, 1]), PeerPacketAction::Ignore));
    assert!(matches!(rx.on_peer_packet(&[0x81]), PeerPacketAction::Ignore));
}

#[test]
fn peer_socket_control_frames() {
    let mut rx = WeaveSession::new(185);
    assert!(matches!(rx.on_peer_packet(&[0x0c, 0, 0, 0, 8, 2]), PeerPacketAction::Close));
    assert!(matches!(rx.on_peer_packet(&[0x0c, 0, 0, 0, 8, 1]), PeerPacketAction::Ignore));
    assert!(matches!(rx.on_peer_packet(&[0x0c, 0, 0, 0, 9, 2]), PeerPacketAction::Ignore));
    assert!(matches!(rx.on_peer_packet(&[0x0c, 0, 0, 0]), PeerPacketAction::Ignore));
    // Messages under three bytes are dropped.
    assert!(matches!(rx.on_peer_packet(&[0x0c, 1, 2]), PeerPacketAction::Ignore));
}

#[test]
fn peer_data_reassembled_across_packets() {
    let mut rx = WeaveSession::new(185);
    assert!(matches!(rx.on_peer_packet(&[0x08, 0xfc, 0x9f]), PeerPacketAction::Ignore));
    assert!(matches!(rx.on_peer_packet(&[0x10, 0x5e, 0, 0]), PeerPacketAction::Ignore));
    match rx.on_peer_packet(&[0x24, 0, 2, 5, 6]) {
        PeerPacketAction::Forward(v) => assert_eq!(v, vec![0, 0, 0, 2, 5, 6]),
        _ => panic!("expected a forwarded message"),
    }
    // The buffer starts over after a complete message.
    match rx.on_peer_packet(&[0x0c, 1, 1, 1, 42]) {
        PeerPacketAction::Forward(v) => assert_eq!(v, vec![42]),
        _ => panic!("expected a forwarded message"),
    }
    // A control packet in the middle of a message leaves the buffer alone.
    assert!(matches!(rx.on_peer_packet(&[0x08, 1, 1]), PeerPacketAction::Ignore));
    assert!(matches!(rx.on_peer_packet(&[0x80]), PeerPacketAction::Ignore));
    match rx.on_peer_packet(&[0x04, 1, 7]) {
        PeerPacketAction::Forward(v) => assert_eq!(v, vec![7]),
        _ => panic!("expected a forwarded message"),
    }
}

#[test]
fn counters_run_on_across_writes() {
    let mut tx = WeaveSession::new(20);
    let mut all = Vec::new();
    // A 40-byte record takes 3 packets, a 1-byte record 1 packet.
    let mut big = vec![0, 0, 0, 36];
    big.extend([7u8; 36]);
    for _ in 0..3 {
        all.extend(tx.on_inbound_bytes(&big));
        all.extend(tx.on_inbound_bytes(&[0, 0, 0, 1, 5]));
    }
    assert_eq!(all.len(), 12);
    for (k, p) in all.iter().enumerate() {
        assert_eq!((p[0] >> 4) & 0x07, ((k + 1) % 8) as u8);
    }
}

#[test]
fn packet_count_is_ceiling() {
    // 3 + 35 = 38 bytes in payloads of 19: exactly 2 packets.
    let mut tx = WeaveSession::new(20);
    let mut rec = vec![0, 0, 0, 31];
    rec.extend([1u8; 31]);
    let pkts = tx.on_inbound_bytes(&rec);
    assert_eq!(pkts.len(), 2);
    let payload: Vec<u8> = pkts.iter().flat_map(|p| p[1..].to_vec()).collect();
    let mut expect = vec![0xfc, 0x9f, 0x5e];
    expect.extend(&rec);
    assert_eq!(payload, expect);
}
