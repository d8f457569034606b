//! The tls-auth envelope.

use javs::protocol::{ControlPacket, OpCode};
use javs::static_key::STATIC_KEY_LEN;
use javs::tls_auth::{TlsAuthError, TlsAuthKey, HEADER_LEN, HMAC_LEN};


fn fake_static_key() -> [u8; STATIC_KEY_LEN] {
    let mut k = [0u8; STATIC_KEY_LEN];
    for (i, b) in k.iter_mut().enumerate() {
        *b = i as u8;
    }
    k
}

fn sample_inner() -> Vec<u8> {
    // Synthetic inner packet: op=0x38 (ControlV1<<3), 8 bytes session id,
    // then body bytes.
    let mut v = vec![0x38];
    v.extend_from_slice(&0x0102030405060708u64.to_be_bytes());
    v.extend_from_slice(b"hello-control-packet-body");
    v
}

#[test]
fn direction_0_round_trip() {
    let km = fake_static_key();
    let server = TlsAuthKey::from_static_key_server(&km, 0).unwrap();
    let inner = sample_inner();
    let wire = server.wrap(&inner, 42, 1_700_000_000).unwrap();
    let (back, pid) = server.unwrap(&wire).unwrap();
    assert_eq!(back, inner);
    assert_eq!(pid, 42);
}

#[test]
fn direction_1_peer_round_trip() {
    let km = fake_static_key();
    let server = TlsAuthKey::from_static_key_server(&km, 1).unwrap();
    // The client mirrors the server: its out_key is the server's in_key
    // and vice versa.
    let client = TlsAuthKey {
        out_key: server.in_key,
        in_key: server.out_key,
    };
    let inner = sample_inner();

    // server -> client
    let wire = server.wrap(&inner, 7, 1_234_567_890).unwrap();
    let (back, pid) = client.unwrap(&wire).unwrap();
    assert_eq!(back, inner);
    assert_eq!(pid, 7);

    // client -> server
    let wire = client.wrap(&inner, 11, 1_234_567_891).unwrap();
    let (back, pid) = server.unwrap(&wire).unwrap();
    assert_eq!(back, inner);
    assert_eq!(pid, 11);
}

#[test]
fn rejects_tampered_hmac() {
    let km = fake_static_key();
    let key = TlsAuthKey::from_static_key_server(&km, 0).unwrap();
    let inner = sample_inner();
    let mut wire = key.wrap(&inner, 1, 0).unwrap();
    let hmac_byte = HEADER_LEN + 5;
    wire[hmac_byte] ^= 0x01;
    assert!(key.unwrap(&wire).is_err());
}

#[test]
fn rejects_tampered_body() {
    let km = fake_static_key();
    let key = TlsAuthKey::from_static_key_server(&km, 0).unwrap();
    let inner = sample_inner();
    let mut wire = key.wrap(&inner, 1, 0).unwrap();
    // last byte of payload
    let last = wire.len() - 1;
    wire[last] ^= 0x80;
    assert!(key.unwrap(&wire).is_err());
}

#[test]
fn tls_auth_rejects_too_short() {
    let km = fake_static_key();
    let key = TlsAuthKey::from_static_key_server(&km, 0).unwrap();
    let short = vec![0u8; HEADER_LEN + HMAC_LEN]; // missing replay header
    assert!(key.unwrap(&short).is_err());
}

#[test]
fn rejects_unknown_direction() {
    let km = fake_static_key();
    assert!(TlsAuthKey::from_static_key_server(&km, 2).is_err());
}

/// End-to-end check: take a real `ControlPacket`, encode it, wrap it
/// with tls-auth, hand the wire bytes to the "peer" key (mirror of the
/// server), unwrap, and verify the resulting bytes parse back to the
/// same fields. Catches mistakes at the boundary between the auth layer
/// and the existing `ControlPacket` parser.
#[test]
fn tls_auth_round_trip_through_control_packet() {
    let km = fake_static_key();
    let server = TlsAuthKey::from_static_key_server(&km, 1).unwrap();
    let peer = TlsAuthKey {
        out_key: server.in_key,
        in_key: server.out_key,
    };

    let original = ControlPacket {
        op: OpCode::ControlV1,
        key_id: 3,
        session_id: 0xDEAD_BEEF_CAFE_F00D,
        acks: vec![1, 2, 3],
        remote_session_id: Some(0x1122_3344_5566_7788),
        packet_id: Some(0x4242),
        payload: b"some-tls-bytes-here".to_vec(),
    };
    let inner = original.encode();
    let wire = server.wrap(&inner, 99, 1_700_000_000).unwrap();
    let (back, pid) = peer.unwrap(&wire).unwrap();
    assert_eq!(pid, 99);
    let parsed = ControlPacket::parse(&back).unwrap();
    assert_eq!(parsed.op, original.op);
    assert_eq!(parsed.key_id, original.key_id);
    assert_eq!(parsed.session_id, original.session_id);
    assert_eq!(parsed.acks, original.acks);
    assert_eq!(parsed.remote_session_id, original.remote_session_id);
    assert_eq!(parsed.packet_id, original.packet_id);
    assert_eq!(parsed.payload, original.payload);
}

#[test]
fn wrapped_bytes_are_the_known_ones() {
    let key = TlsAuthKey::from_static_key_server(&fake_static_key(), 0).unwrap();
    let inner = sample_inner();
    let mut expected = inner[..9].to_vec();
    expected.extend_from_slice(
        &hex::decode("68afe5ffe6ce1bd1e55f5fe0bf48866e39c26739f93112cc71d3c17f8ccac2b8").unwrap(),
    );
    expected.extend_from_slice(&42u32.to_be_bytes());
    expected.extend_from_slice(&1_700_000_000u32.to_be_bytes());
    expected.extend_from_slice(&inner[9..]);
    assert_eq!(key.wrap(&inner, 42, 1_700_000_000).unwrap(), expected);
}

#[test]
fn keys_come_from_the_slots_of_the_direction() {
    let km = fake_static_key();
    let same = TlsAuthKey::from_static_key_server(&km, 0).unwrap();
    assert_eq!(same.out_key[..], km[64..128]);
    assert_eq!(same.in_key[..], km[64..128]);
    let split = TlsAuthKey::from_static_key_server(&km, 1).unwrap();
    assert_eq!(split.out_key[..], km[192..256]);
    assert_eq!(split.in_key[..], km[64..128]);
    assert_eq!(
        TlsAuthKey::from_static_key_server(&km, 2).err(),
        Some(TlsAuthError::InvalidDirection(2))
    );
}

#[test]
fn auth_errors_say_what_is_wrong() {
    let key = TlsAuthKey::from_static_key_server(&fake_static_key(), 0).unwrap();
    assert_eq!(key.wrap(&[0; 8], 1, 1), Err(TlsAuthError::InnerTooShort(8)));
    assert_eq!(key.unwrap(&[0; 48]), Err(TlsAuthError::PacketTooShort(48)));
    assert_eq!(key.unwrap(&[0; 49]), Err(TlsAuthError::HmacMismatch));
    let wire = key.wrap(&[7; 9], 1, 1).unwrap();
    assert_eq!(wire.len(), 49);
    assert_eq!(key.unwrap(&wire), Ok((vec![7; 9], 1)));
}
