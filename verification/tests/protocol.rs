//! Wire formats of control and data packets.

use javs::protocol::{ControlPacket, DataPacketV2, OpCode, PacketError};

#[test]
fn parse_hard_reset() {
    // op=7 (HARD_RESET_CLIENT_V2), key_id=0
    let mut buf = vec![7 << 3];
    buf.extend_from_slice(&0x1122_3344_5566_7788u64.to_be_bytes()); // session id
    buf.push(0); // ack count
    buf.extend_from_slice(&0u32.to_be_bytes()); // packet id 0
    let pkt = ControlPacket::parse(&buf).unwrap();
    assert_eq!(pkt.op, OpCode::ControlHardResetClientV2);
    assert_eq!(pkt.session_id, 0x1122_3344_5566_7788);
    assert_eq!(pkt.packet_id, Some(0));
    assert!(pkt.acks.is_empty());
}

#[test]
fn round_trip_control() {
    let p = ControlPacket {
        op: OpCode::ControlV1,
        key_id: 0,
        session_id: 42,
        acks: vec![1, 2],
        remote_session_id: Some(99),
        packet_id: Some(7),
        payload: vec![0xDE, 0xAD, 0xBE, 0xEF],
    };
    let encoded = p.encode();
    let parsed = ControlPacket::parse(&encoded).unwrap();
    assert_eq!(parsed.session_id, 42);
    assert_eq!(parsed.acks, vec![1, 2]);
    assert_eq!(parsed.remote_session_id, Some(99));
    assert_eq!(parsed.packet_id, Some(7));
    assert_eq!(parsed.payload, vec![0xDE, 0xAD, 0xBE, 0xEF]);
}

#[test]
fn data_v2_parse() {
    let mut buf = vec![OpCode::DataV2.to_u8() << 3];
    buf.extend_from_slice(&[0x00, 0x12, 0x34]); // peer_id = 0x001234
    buf.extend_from_slice(&7u32.to_be_bytes()); // packet_id = 7
    buf.extend_from_slice(&[1, 2, 3, 4]);
    let d = DataPacketV2::parse(&buf).unwrap();
    assert_eq!(d.peer_id, 0x1234);
    assert_eq!(d.packet_id, 7);
    assert_eq!(d.ciphertext, &[1, 2, 3, 4]);
}

#[test]
fn control_encoding_is_exact() {
    let p = ControlPacket {
        op: OpCode::ControlV1,
        key_id: 3,
        session_id: 0x0102_0304_0506_0708,
        acks: vec![0xA1A2_A3A4],
        remote_session_id: Some(0x1112_1314_1516_1718),
        packet_id: Some(0x0A0B_0C0D),
        payload: vec![0xEE],
    };
    assert_eq!(
        p.encode(),
        vec![
            (4 << 3) | 3,
            1, 2, 3, 4, 5, 6, 7, 8,
            1,
            0xA1, 0xA2, 0xA3, 0xA4,
            0x11, 0x12, 0x13, 0x14, 0x15, 0x16, 0x17, 0x18,
            0x0A, 0x0B, 0x0C, 0x0D,
            0xEE,
        ]
    );
}

#[test]
fn acks_without_a_session_are_sent_with_session_zero() {
    let p = ControlPacket {
        op: OpCode::AckV1,
        key_id: 9,
        session_id: 1,
        acks: vec![5],
        remote_session_id: None,
        packet_id: None,
        payload: vec![],
    };
    let bytes = p.encode();
    assert_eq!(bytes[0], (5 << 3) | 1);
    let back = ControlPacket::parse(&bytes).unwrap();
    assert_eq!(back.key_id, 1);
    assert_eq!(back.remote_session_id, Some(0));
    assert_eq!(back.packet_id, None);
}

#[test]
fn parsed_packets_encode_to_the_parsed_bytes() {
    let mut buf = vec![(3 << 3) | 5];
    buf.extend_from_slice(&77u64.to_be_bytes());
    buf.push(2);
    buf.extend_from_slice(&1u32.to_be_bytes());
    buf.extend_from_slice(&0xFFFF_FFFFu32.to_be_bytes());
    buf.extend_from_slice(&88u64.to_be_bytes());
    buf.extend_from_slice(&6u32.to_be_bytes());
    buf.extend_from_slice(b"payload");
    let pkt = ControlPacket::parse(&buf).unwrap();
    assert_eq!(pkt.op, OpCode::ControlSoftResetV1);
    assert_eq!(pkt.key_id, 5);
    assert_eq!(pkt.acks, vec![1, 0xFFFF_FFFF]);
    assert_eq!(pkt.encode(), buf);
}

#[test]
fn every_way_a_control_packet_can_be_wrong() {
    let err = |b: &[u8]| ControlPacket::parse(b).unwrap_err();
    assert_eq!(err(&[]), PacketError::Empty);
    assert_eq!(err(&[0]), PacketError::UnknownOpcode(0));
    assert_eq!(err(&[12 << 3]), PacketError::UnknownOpcode(12));
    assert_eq!(err(&[6 << 3]), PacketError::NotControl(OpCode::DataV1));
    assert_eq!(err(&[9 << 3]), PacketError::NotControl(OpCode::DataV2));
    assert_eq!(err(&[4 << 3, 0, 0, 0, 0, 0, 0, 0]), PacketError::MissingSessionId);
    let mut buf = vec![4 << 3];
    buf.extend_from_slice(&[0; 8]);
    assert_eq!(err(&buf), PacketError::MissingAckCount);
    buf.push(1);
    assert_eq!(err(&buf), PacketError::TruncatedAcks);
    buf.extend_from_slice(&[0; 4]);
    assert_eq!(err(&buf), PacketError::MissingRemoteSessionId);
    buf.extend_from_slice(&[0; 8]);
    assert_eq!(err(&buf), PacketError::MissingPacketId);
    buf.extend_from_slice(&[0; 4]);
    assert!(ControlPacket::parse(&buf).is_ok());
}

#[test]
fn opcodes_and_their_numbers() {
    for v in 1..=11u8 {
        let op = OpCode::from_u8(v).unwrap();
        assert_eq!(op.to_u8(), v);
        assert_eq!(op.is_data(), v == 6 || v == 9);
        assert_eq!(op.is_control(), !op.is_data());
    }
    assert_eq!(OpCode::from_u8(255), Err(PacketError::UnknownOpcode(255)));
}

#[test]
fn every_way_a_data_packet_can_be_wrong() {
    assert_eq!(
        DataPacketV2::parse(&[9 << 3, 0, 0, 0, 0, 0, 0]).unwrap_err(),
        PacketError::DataTooShort
    );
    assert_eq!(
        DataPacketV2::parse(&[6 << 3, 0, 0, 0, 0, 0, 0, 0]).unwrap_err(),
        PacketError::NotDataV2(6)
    );
    let d = DataPacketV2::parse(&[(9 << 3) | 7, 0xFF, 0xFF, 0xFF, 1, 2, 3, 4]).unwrap();
    assert_eq!(d.key_id, 7);
    assert_eq!(d.peer_id, 0xFF_FFFF);
    assert_eq!(d.packet_id, 0x0102_0304);
    assert!(d.ciphertext.is_empty());
}
