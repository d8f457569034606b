//! The tls-crypt envelope.

use javs::protocol::{ControlPacket, OpCode};
use javs::static_key::STATIC_KEY_LEN;
use javs::tls_crypt::{TlsCryptError, TlsCryptKey, HEADER_LEN, TAG_LEN};


fn fake_static_key() -> [u8; STATIC_KEY_LEN] {
    let mut k = [0u8; STATIC_KEY_LEN];
    for (i, b) in k.iter_mut().enumerate() {
        *b = i as u8;
    }
    k
}

fn sample_inner() -> Vec<u8> {
    let mut v = vec![0x38u8]; // op = ControlV1 << 3
    v.extend_from_slice(&0x0102030405060708u64.to_be_bytes());
    v.extend_from_slice(b"hello-tls-crypt-control-body");
    v
}

/// The server can wrap its own packet and unwrap it back — the
/// `dec_*` keys are decoupled from `enc_*`, so this only catches
/// internal-consistency bugs.
#[test]
fn self_unwrap_with_swapped_keys() {
    let km = fake_static_key();
    let server = TlsCryptKey::from_static_key_server(&km);
    // For self-test, build a "peer" that mirrors the server (out↔in
    // swapped). That's what a tls-crypt client would do.
    let peer = TlsCryptKey {
        enc_cipher_key: server.dec_cipher_key,
        enc_hmac_key: server.dec_hmac_key,
        dec_cipher_key: server.enc_cipher_key,
        dec_hmac_key: server.enc_hmac_key,
    };
    let inner = sample_inner();
    let wire = server.wrap(&inner, 42, 1_700_000_000).unwrap();
    let (back, pid) = peer.unwrap(&wire).unwrap();
    assert_eq!(back, inner);
    assert_eq!(pid, 42);

    // Round-trip the other direction too.
    let wire = peer.wrap(&inner, 7, 1_234_567_890).unwrap();
    let (back, pid) = server.unwrap(&wire).unwrap();
    assert_eq!(back, inner);
    assert_eq!(pid, 7);
}

#[test]
fn ciphertext_actually_encrypts() {
    let km = fake_static_key();
    let server = TlsCryptKey::from_static_key_server(&km);
    let inner = sample_inner();
    let wire = server.wrap(&inner, 1, 0).unwrap();
    // The body part of the wire should differ from the plaintext body.
    let wire_body = &wire[HEADER_LEN + TAG_LEN..];
    let plain_body = &inner[9..];
    assert_eq!(wire_body.len(), plain_body.len());
    assert_ne!(
        wire_body, plain_body,
        "ciphertext should not equal plaintext"
    );
}

#[test]
fn rejects_tampered_tag() {
    let km = fake_static_key();
    let server = TlsCryptKey::from_static_key_server(&km);
    let peer = TlsCryptKey {
        enc_cipher_key: server.dec_cipher_key,
        enc_hmac_key: server.dec_hmac_key,
        dec_cipher_key: server.enc_cipher_key,
        dec_hmac_key: server.enc_hmac_key,
    };
    let inner = sample_inner();
    let mut wire = server.wrap(&inner, 1, 0).unwrap();
    // Flip a byte inside the tag region.
    wire[HEADER_LEN + 5] ^= 0x01;
    assert!(peer.unwrap(&wire).is_err());
}

#[test]
fn rejects_tampered_ciphertext() {
    let km = fake_static_key();
    let server = TlsCryptKey::from_static_key_server(&km);
    let peer = TlsCryptKey {
        enc_cipher_key: server.dec_cipher_key,
        enc_hmac_key: server.dec_hmac_key,
        dec_cipher_key: server.enc_cipher_key,
        dec_hmac_key: server.enc_hmac_key,
    };
    let inner = sample_inner();
    let mut wire = server.wrap(&inner, 1, 0).unwrap();
    let last = wire.len() - 1;
    wire[last] ^= 0x80;
    assert!(peer.unwrap(&wire).is_err());
}

#[test]
fn tls_crypt_rejects_too_short() {
    let km = fake_static_key();
    let key = TlsCryptKey::from_static_key_server(&km);
    let short = vec![0u8; HEADER_LEN + TAG_LEN - 1];
    assert!(key.unwrap(&short).is_err());
}

/// End-to-end: wrap a real ControlPacket, unwrap, parse — verifies the
/// envelope plays nicely with the existing wire codec.
#[test]
fn tls_crypt_round_trip_through_control_packet() {
    let km = fake_static_key();
    let server = TlsCryptKey::from_static_key_server(&km);
    let peer = TlsCryptKey {
        enc_cipher_key: server.dec_cipher_key,
        enc_hmac_key: server.dec_hmac_key,
        dec_cipher_key: server.enc_cipher_key,
        dec_hmac_key: server.enc_hmac_key,
    };

    let original = ControlPacket {
        op: OpCode::ControlV1,
        key_id: 2,
        session_id: 0xDEAD_BEEF_CAFE_F00D,
        acks: vec![10, 11],
        remote_session_id: Some(0x1122_3344_5566_7788),
        packet_id: Some(0x4242),
        payload: b"encrypted-tls-handshake-bytes".to_vec(),
    };
    let inner = original.encode();
    let wire = server.wrap(&inner, 99, 1_700_000_000).unwrap();
    let (back, pid) = peer.unwrap(&wire).unwrap();
    assert_eq!(pid, 99);
    let parsed = ControlPacket::parse(&back).unwrap();
    assert_eq!(parsed.op, original.op);
    assert_eq!(parsed.key_id, original.key_id);
    assert_eq!(parsed.session_id, original.session_id);
    assert_eq!(parsed.acks, original.acks);
    assert_eq!(parsed.remote_session_id, original.remote_session_id);
    assert_eq!(parsed.packet_id, original.packet_id);
    assert_eq!(parsed.payload, original.payload);
}

#[test]
fn encrypted_bytes_are_the_known_ones() {
    let key = TlsCryptKey::from_static_key_server(&fake_static_key());
    let inner = sample_inner();
    let mut expected = inner[..9].to_vec();
    expected.extend_from_slice(&42u32.to_be_bytes());
    expected.extend_from_slice(&1_700_000_000u32.to_be_bytes());
    expected.extend_from_slice(
        &hex::decode("7786d09aa6291f2453e25e2f6793853d2057520b7dcaadb0dff14dce196424e4").unwrap(),
    );
    expected.extend_from_slice(
        &hex::decode("76f1899a474c8abb9ff3902af2e03bb71b77579215d798dabf47b9e6").unwrap(),
    );
    assert_eq!(key.wrap(&inner, 42, 1_700_000_000).unwrap(), expected);
}

#[test]
fn crypt_keys_come_from_their_slots() {
    let km = fake_static_key();
    let key = TlsCryptKey::from_static_key_server(&km);
    assert_eq!(key.enc_cipher_key[..], km[0..32]);
    assert_eq!(key.enc_hmac_key[..], km[64..96]);
    assert_eq!(key.dec_cipher_key[..], km[128..160]);
    assert_eq!(key.dec_hmac_key[..], km[192..224]);
}

#[test]
fn crypt_errors_say_what_is_wrong() {
    let key = TlsCryptKey::from_static_key_server(&fake_static_key());
    assert_eq!(key.wrap(&[0; 8], 1, 1), Err(TlsCryptError::InnerTooShort(8)));
    assert_eq!(key.unwrap(&[0; 48]), Err(TlsCryptError::PacketTooShort(48)));
    assert_eq!(key.unwrap(&[0; 49]), Err(TlsCryptError::HmacMismatch));
}
