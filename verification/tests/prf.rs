//! Key derivation.

use javs::prf::{derive_openvpn_key_data, p_hash, tls10_prf, PrfHash};

/// Both peers compute the same `key_data` blob given identical inputs.
/// Catches accidental input-order / endianness bugs in the inner seed.
#[test]
fn key_derivation_deterministic() {
    let pre_master = [0x42u8; 48];
    let c_r1 = [0x11u8; 32];
    let s_r1 = [0x22u8; 32];
    let c_r2 = [0x33u8; 32];
    let s_r2 = [0x44u8; 32];
    let c_sid = [0xAAu8; 8];
    let s_sid = [0xBBu8; 8];
    let a = derive_openvpn_key_data(&pre_master, &c_r1, &s_r1, &c_r2, &s_r2, &c_sid, &s_sid);
    let b = derive_openvpn_key_data(&pre_master, &c_r1, &s_r1, &c_r2, &s_r2, &c_sid, &s_sid);
    assert_eq!(a, b);
    // Sanity: key_data isn't all zero.
    assert!(a.iter().any(|&b| b != 0));
}

/// Changing the client session id changes the resulting key_data
/// (proves the session_ids are actually mixed into the key_expansion seed).
#[test]
fn key_derivation_uses_session_ids() {
    let pm = [0x42u8; 48];
    let c_r1 = [0x11u8; 32];
    let s_r1 = [0x22u8; 32];
    let c_r2 = [0x33u8; 32];
    let s_r2 = [0x44u8; 32];
    let s_sid = [0xBBu8; 8];
    let a = derive_openvpn_key_data(&pm, &c_r1, &s_r1, &c_r2, &s_r2, &[0u8; 8], &s_sid);
    let b = derive_openvpn_key_data(&pm, &c_r1, &s_r1, &c_r2, &s_r2, &[1u8; 8], &s_sid);
    assert_ne!(a, b);
}

/// The bytes that a string of hex digits denotes.
fn hex(s: &str) -> Vec<u8> {
    hex::decode(s).unwrap()
}

#[test]
fn key_data_has_known_bytes() {
    let kd = derive_openvpn_key_data(
        &[0x42u8; 48],
        &[0x11u8; 32],
        &[0x22u8; 32],
        &[0x33u8; 32],
        &[0x44u8; 32],
        &[0xAAu8; 8],
        &[0xBBu8; 8],
    );
    assert_eq!(kd[..16].to_vec(), hex("c0bfbfc88c0628c1809a6730bf80511d"));
    assert_eq!(kd[240..].to_vec(), hex("37868a2b33e27e64dcd52510616e7f73"));
}

#[test]
fn prf_of_a_secret_of_odd_length() {
    let mut out = [0u8; 50];
    tls10_prf(b"abcde", b"label", b"seed", &mut out);
    assert_eq!(
        out.to_vec(),
        hex("8afeb45509ed5b5775fc52cdb079e10d47db21ca1ce9d8d74207353a6a15ab98744d36bdb3212e8a8144ff2f2c08b94573d1")
    );
    let mut none = [0u8; 0];
    tls10_prf(b"", b"", b"", &mut none);
}

#[test]
fn hash_streams_have_known_bytes() {
    assert_eq!(
        p_hash(PrfHash::Md5, b"key", b"seed", 20),
        hex("d6f8c4f4d186b86513f30b2afb6b0348bf6ed5f5")
    );
    assert_eq!(
        p_hash(PrfHash::Sha1, b"key", b"seed", 24),
        hex("580f5f798f26f7214228a11a6f3bc2481822bccbab4dec41")
    );
    assert!(p_hash(PrfHash::Sha1, b"key", b"seed", 0).is_empty());
}
