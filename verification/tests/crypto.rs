//! Data-channel encryption.

use aes_gcm::aead::{Aead, Payload};
use aes_gcm::aead::generic_array::GenericArray;
use aes_gcm::{Aes256Gcm, KeyInit};
use javs::crypto::{CryptoError, DataCipher, IMPLICIT_IV_SIZE, KEYMAT_LEN, KEY_SIZE, SLOT, TAG_SIZE};

#[test]
fn round_trip() {
    // Build keymat with deliberately different bytes per 64-byte slot so
    // the test catches offset bugs.
    let mut km = [0u8; KEYMAT_LEN];
    for i in 0..KEYMAT_LEN {
        km[i] = (i / SLOT) as u8 * 0x11 + (i % SLOT) as u8;
    }
    let c = DataCipher::from_keymat_server(&km);
    let aad = [0u8; 8];
    let pt = b"hello tunnel";
    let ct = c.seal(0, &aad, pt).unwrap();
    assert_eq!(ct.len(), pt.len() + TAG_SIZE);
}

#[test]
fn server_and_peer_can_round_trip() {
    // Pretend the client computed the *same* key material; build the
    // client's view by swapping the enc/dec slots and verify open(seal()).
    let mut km = [0u8; KEYMAT_LEN];
    for (i, b) in km.iter_mut().enumerate() {
        *b = i as u8;
    }
    let server = DataCipher::from_keymat_server(&km);

    // Manually build the "client's" cipher: its enc_key = client.cipher,
    // its dec_key = server.cipher (i.e. mirror image of the server side).
    struct Peer {
        enc: [u8; KEY_SIZE],
        enc_iv: [u8; IMPLICIT_IV_SIZE],
        dec: [u8; KEY_SIZE],
        dec_iv: [u8; IMPLICIT_IV_SIZE],
    }
    let mut peer = Peer {
        enc: [0; KEY_SIZE],
        enc_iv: [0; IMPLICIT_IV_SIZE],
        dec: [0; KEY_SIZE],
        dec_iv: [0; IMPLICIT_IV_SIZE],
    };
    // Peer (client) mirror: encrypt uses keys[0].cipher + keys[0].hmac,
    // decrypt uses keys[1].cipher + keys[1].hmac.
    peer.enc.copy_from_slice(&km[0..KEY_SIZE]);
    peer.enc_iv
        .copy_from_slice(&km[SLOT..SLOT + IMPLICIT_IV_SIZE]);
    peer.dec.copy_from_slice(&km[SLOT * 2..SLOT * 2 + KEY_SIZE]);
    peer.dec_iv
        .copy_from_slice(&km[SLOT * 3..SLOT * 3 + IMPLICIT_IV_SIZE]);

    // Server seals → peer opens. seal() emits OpenVPN's wire layout
    // (`tag || ciphertext`), so the peer flips it back to the aes-gcm
    // crate's `ciphertext || tag` order before calling decrypt.
    let aad = [0xAA; 8];
    let pt = b"hello from server";
    let wire = server.seal(42, &aad, pt).unwrap();
    let (tag, ct) = wire.split_at(TAG_SIZE);
    let mut ct_then_tag = Vec::with_capacity(wire.len());
    ct_then_tag.extend_from_slice(ct);
    ct_then_tag.extend_from_slice(tag);
    let cipher = Aes256Gcm::new(GenericArray::from_slice(&peer.dec));
    let mut nonce = [0u8; 12];
    nonce[0..4].copy_from_slice(&42u32.to_be_bytes());
    nonce[4..12].copy_from_slice(&peer.dec_iv);
    let opened = cipher
        .decrypt(
            GenericArray::from_slice(&nonce),
            Payload {
                msg: &ct_then_tag,
                aad: &aad,
            },
        )
        .unwrap();
    assert_eq!(opened, pt);

    // Peer seals → server opens.
    let cipher = Aes256Gcm::new(GenericArray::from_slice(&peer.enc));
    let mut nonce = [0u8; 12];
    nonce[0..4].copy_from_slice(&7u32.to_be_bytes());
    nonce[4..12].copy_from_slice(&peer.enc_iv);
    let sealed = cipher
        .encrypt(
            GenericArray::from_slice(&nonce),
            Payload {
                msg: b"hello from client",
                aad: &aad,
            },
        )
        .unwrap();
    let split = sealed.len() - TAG_SIZE;
    let mut wire = sealed[split..].to_vec();
    wire.extend_from_slice(&sealed[..split]);
    assert_eq!(server.open(7, &aad, &wire).unwrap(), b"hello from client");
}

/// The key material that the other end reads as `km` with its halves swapped.
fn mirror(km: &[u8; KEYMAT_LEN]) -> [u8; KEYMAT_LEN] {
    let mut out = [0u8; KEYMAT_LEN];
    out[..128].copy_from_slice(&km[128..]);
    out[128..].copy_from_slice(&km[..128]);
    out
}

#[test]
fn mirrored_cipher_opens_what_was_sealed() {
    let mut km = [0u8; KEYMAT_LEN];
    for (i, b) in km.iter_mut().enumerate() {
        *b = (i * 7) as u8;
    }
    let server = DataCipher::from_keymat_server(&km);
    let client = DataCipher::from_keymat_server(&mirror(&km));
    let wire = server.seal(9, b"header..", b"").unwrap();
    assert_eq!(wire.len(), TAG_SIZE);
    assert_eq!(client.open(9, b"header..", &wire).unwrap(), b"");
    let wire = client.seal(1, b"", b"payload").unwrap();
    assert_ne!(&wire[TAG_SIZE..], b"payload");
    assert_eq!(server.open(1, b"", &wire).unwrap(), b"payload");
}

#[test]
fn open_refuses_what_does_not_authenticate() {
    let km = [0x5Au8; KEYMAT_LEN];
    let c = DataCipher::from_keymat_server(&km);
    let wire = c.seal(3, b"aad", b"data").unwrap();
    assert_eq!(c.open(3, b"aad", &wire).unwrap(), b"data");
    assert_eq!(c.open(4, b"aad", &wire), Err(CryptoError::NotAuthentic));
    assert_eq!(c.open(3, b"aaa", &wire), Err(CryptoError::NotAuthentic));
    let mut bad = wire.clone();
    bad[0] ^= 1;
    assert_eq!(c.open(3, b"aad", &bad), Err(CryptoError::NotAuthentic));
    assert_eq!(c.open(3, b"aad", &wire[..15]), Err(CryptoError::ShorterThanTag));
}

#[test]
fn sealed_bytes_are_the_known_ones() {
    // The all-zero vectors of the GCM specification, with the tag in front.
    let c = DataCipher::from_keymat_server(&[0u8; KEYMAT_LEN]);
    assert_eq!(
        c.seal(0, b"", &[0u8; 16]).unwrap(),
        hex::decode("d0d1c8a799996bf0265b98b5d48ab919cea7403d4d606b6e074ec5d3baf39d18").unwrap()
    );
    assert_eq!(
        c.seal(0, b"", b"").unwrap(),
        hex::decode("530f8afbc74536b9a963b4f1c4cb738b").unwrap()
    );
}
