//! Data-channel encryption (AES-256-GCM).
//!
//! The key material is written verbatim into two key structures, each a cipher
//! slot and a digest slot of 64 bytes: `keys[0].cipher | keys[0].hmac |
//! keys[1].cipher | keys[1].hmac`. AES-256-GCM takes its 32-byte key from the
//! start of a cipher slot and its 8-byte implicit IV from the start of the
//! digest slot beside it. The client encrypts with `keys[0]`, the server with
//! `keys[1]`.

use vstd::prelude::*;

use aes_gcm::aead::{Aead, Payload};
use aes_gcm::KeyInit;

use crate::codec::{
    array_at, be_bytes, lemma_be_bytes_len, lemma_be_value_digits, lemma_bytes_of_value,
    push_bytes, push_u32,
};

verus! {

/// Length of an AES-256 key.
pub const KEY_SIZE: usize = 32;

/// Length of the implicit IV: the 12-byte nonce without the packet id.
pub const IMPLICIT_IV_SIZE: usize = 8;

/// Length of the authentication tag.
pub const TAG_SIZE: usize = 16;

/// Length of the key material that a [`DataCipher`] is made from.
pub const KEYMAT_LEN: usize = 256;

/// Length of one slot in the key material.
pub const SLOT: usize = 64;

/// The longest message, and the longest associated data, that AES-GCM takes.
pub const GCM_MAX_LEN: u64 = 0x10_0000_0000;

/// Why a data packet could not be sealed or opened.
#[derive(Debug, Clone, Copy, PartialEq, Eq, Structural)]
pub enum CryptoError {
    /// The plaintext or the associated data is too long for the cipher.
    TooLong,
    /// The packet is shorter than its authentication tag.
    ShorterThanTag,
    /// The packet does not authenticate under this key.
    NotAuthentic,
}

/// The opaque error of the AEAD interface.
#[verifier::external_type_specification]
#[verifier::external_body]
pub struct ExAeadError(aes_gcm::Error);

/// AES-256-GCM encryption: the ciphertext of `message`, then the tag.
pub uninterp spec fn aes256_gcm_seal(
    key: Seq<u8>,
    nonce: Seq<u8>,
    aad: Seq<u8>,
    message: Seq<u8>,
) -> Seq<u8>;

/// AES-256-GCM decryption of a ciphertext followed by its tag: the message, or
/// nothing if the tag does not fit.
pub uninterp spec fn aes256_gcm_open(
    key: Seq<u8>,
    nonce: Seq<u8>,
    aad: Seq<u8>,
    sealed: Seq<u8>,
) -> Option<Seq<u8>>;

/// Calls `aes_gcm::Aes256Gcm::encrypt` (`aead::Aead`). It fails exactly if the
/// message or the associated data is longer than 2^36 bytes. The result is
/// named; it is 16 bytes longer than the message, and decrypting it with the
/// same key, nonce and associated data gives the message back. The length
/// bound leaves out messages whose result cannot be allocated.
#[verifier::external_body]
fn gcm_encrypt(key: &[u8; KEY_SIZE], nonce: &[u8; 12], aad: &[u8], message: &[u8]) -> (r: Result<
    Vec<u8>,
    aes_gcm::Error,
>)
    requires
        message@.len() + TAG_SIZE <= isize::MAX,
    ensures
        (r is Ok) == (message@.len() <= GCM_MAX_LEN && aad@.len() <= GCM_MAX_LEN),
        match r {
            Ok(sealed) => sealed@ == aes256_gcm_seal(key@, nonce@, aad@, message@) && sealed@.len()
                == message@.len() + TAG_SIZE && aes256_gcm_open(key@, nonce@, aad@, sealed@)
                == Some(message@),
            Err(_) => true,
        },
{
    aes_gcm::Aes256Gcm::new(key.into()).encrypt(nonce.into(), Payload { msg: message, aad })
}

/// Calls `aes_gcm::Aes256Gcm::decrypt` (`aead::Aead`) on a ciphertext followed
/// by its tag. The result is named; a message is 16 bytes shorter than what it
/// was decrypted from.
#[verifier::external_body]
fn gcm_decrypt(key: &[u8; KEY_SIZE], nonce: &[u8; 12], aad: &[u8], sealed: &[u8]) -> (r: Result<
    Vec<u8>,
    aes_gcm::Error,
>)
    ensures
        match r {
            Ok(message) => aes256_gcm_open(key@, nonce@, aad@, sealed@) == Some(message@)
                && message@.len() + TAG_SIZE == sealed@.len(),
            Err(_) => aes256_gcm_open(key@, nonce@, aad@, sealed@) is None,
        },
{
    aes_gcm::Aes256Gcm::new(key.into()).decrypt(nonce.into(), Payload { msg: sealed, aad })
}

/// The keys of one data channel, seen from one end.
pub struct DataCipher {
    enc_key: [u8; KEY_SIZE],
    dec_key: [u8; KEY_SIZE],
    enc_iv: [u8; IMPLICIT_IV_SIZE],
    dec_iv: [u8; IMPLICIT_IV_SIZE],
}

/// What a [`DataCipher`] holds.
#[verifier::ext_equal]
pub ghost struct CipherView {
    pub enc_key: Seq<u8>,
    pub dec_key: Seq<u8>,
    pub enc_iv: Seq<u8>,
    pub dec_iv: Seq<u8>,
}

/// Whether a plaintext and associated data of these lengths can be sealed.
pub open spec fn sealable(aad_len: nat, len: nat) -> bool {
    len <= GCM_MAX_LEN && aad_len <= GCM_MAX_LEN && len + TAG_SIZE <= isize::MAX
}

/// The nonce of a packet: its id, then the implicit IV.
pub open spec fn nonce_of(packet_id: u32, iv: Seq<u8>) -> Seq<u8> {
    be_bytes(packet_id as nat, 4) + iv
}

/// The wire order of a sealed message: its tag, then its ciphertext.
pub open spec fn tag_first(sealed: Seq<u8>) -> Seq<u8> {
    let split = sealed.len() - TAG_SIZE;
    sealed.subrange(split, sealed.len() as int) + sealed.subrange(0, split)
}

/// The inverse of [`tag_first`].
pub open spec fn tag_last(wire: Seq<u8>) -> Seq<u8> {
    wire.subrange(TAG_SIZE as int, wire.len() as int) + wire.subrange(0, TAG_SIZE as int)
}

/// [`tag_last`] undoes [`tag_first`].
proof fn lemma_tag_order(sealed: Seq<u8>)
    requires
        sealed.len() >= TAG_SIZE,
    ensures
        tag_last(tag_first(sealed)) == sealed,
        tag_first(sealed).len() == sealed.len(),
{
    assert(tag_last(tag_first(sealed)) =~= sealed);
}

impl CipherView {
    /// The server's end of the channel that `km` keys.
    pub open spec fn of_server(km: Seq<u8>) -> CipherView {
        CipherView {
            enc_key: km.subrange(2 * SLOT, 2 * SLOT + KEY_SIZE),
            dec_key: km.subrange(0, KEY_SIZE as int),
            enc_iv: km.subrange(3 * SLOT, 3 * SLOT + IMPLICIT_IV_SIZE),
            dec_iv: km.subrange(SLOT as int, SLOT + IMPLICIT_IV_SIZE),
        }
    }

    /// Whether `self` decrypts with what `other` encrypts with.
    pub open spec fn receives_from(self, other: CipherView) -> bool {
        self.dec_key == other.enc_key && self.dec_iv == other.enc_iv
    }

    /// What this end sends for `plaintext`.
    pub open spec fn sealed(self, packet_id: u32, aad: Seq<u8>, plaintext: Seq<u8>) -> Result<
        Seq<u8>,
        CryptoError,
    > {
        if sealable(aad.len(), plaintext.len()) {
            Ok(
                tag_first(
                    aes256_gcm_seal(
                        self.enc_key,
                        nonce_of(packet_id, self.enc_iv),
                        aad,
                        plaintext,
                    ),
                ),
            )
        } else {
            Err(CryptoError::TooLong)
        }
    }

    /// What this end reads from `wire`.
    pub open spec fn opened(self, packet_id: u32, aad: Seq<u8>, wire: Seq<u8>) -> Result<
        Seq<u8>,
        CryptoError,
    > {
        if wire.len() < TAG_SIZE {
            Err(CryptoError::ShorterThanTag)
        } else {
            match aes256_gcm_open(
                self.dec_key,
                nonce_of(packet_id, self.dec_iv),
                aad,
                tag_last(wire),
            ) {
                Some(plaintext) => Ok(plaintext),
                None => Err(CryptoError::NotAuthentic),
            }
        }
    }
}

impl View for DataCipher {
    type V = CipherView;

    closed spec fn view(&self) -> CipherView {
        CipherView {
            enc_key: self.enc_key@,
            dec_key: self.dec_key@,
            enc_iv: self.enc_iv@,
            dec_iv: self.dec_iv@,
        }
    }
}

/// The nonce of a packet: its id, then the implicit IV.
fn nonce(packet_id: u32, iv: &[u8; IMPLICIT_IV_SIZE]) -> (r: [u8; 12])
    ensures
        r@ == nonce_of(packet_id, iv@),
{
    proof {
        lemma_be_bytes_len(packet_id as nat, 4);
    }
    let mut bytes: Vec<u8> = Vec::new();
    push_u32(&mut bytes, packet_id);
    push_bytes(&mut bytes, iv.as_slice());
    assert(bytes@ =~= nonce_of(packet_id, iv@));
    assert(bytes@.subrange(0, 12) =~= bytes@);
    array_at(bytes.as_slice(), 0)
}

impl DataCipher {
    /// The server's end of the channel that `km` keys.
    pub fn from_keymat_server(km: &[u8; KEYMAT_LEN]) -> (r: Self)
        ensures
            r@ == CipherView::of_server(km@),
    {
        let km = km.as_slice();
        DataCipher {
            enc_key: array_at(km, 2 * SLOT),
            dec_key: array_at(km, 0),
            enc_iv: array_at(km, 3 * SLOT),
            dec_iv: array_at(km, SLOT),
        }
    }

    /// Seals an IP packet. `aad` is the header that the packet travels with.
    /// The result is in wire order: the tag, then the ciphertext. Every cipher
    /// that receives from this one opens it to the same packet.
    pub fn seal(&self, packet_id: u32, aad: &[u8], plaintext: &[u8]) -> (r: Result<
        Vec<u8>,
        CryptoError,
    >)
        ensures
            match r {
                Ok(wire) => self@.sealed(packet_id, aad@, plaintext@) == Ok::<
                    Seq<u8>,
                    CryptoError,
                >(wire@) && wire@.len() == plaintext@.len() + TAG_SIZE,
                Err(e) => self@.sealed(packet_id, aad@, plaintext@) == Err::<Seq<u8>, CryptoError>(
                    e,
                ),
            },
            r matches Ok(wire) ==> forall|peer: CipherView|
                peer.receives_from(self@) ==> #[trigger] peer.opened(packet_id, aad@, wire@)
                    == Ok::<Seq<u8>, CryptoError>(plaintext@),
    {
        let len: usize = plaintext.len();
        if len > isize::MAX as usize - TAG_SIZE {
            return Err(CryptoError::TooLong);
        }
        let nonce = nonce(packet_id, &self.enc_iv);
        match gcm_encrypt(&self.enc_key, &nonce, aad, plaintext) {
            Err(_) => Err(CryptoError::TooLong),
            Ok(sealed) => {
                let split: usize = sealed.len() - TAG_SIZE;
                let mut wire: Vec<u8> = Vec::new();
                push_bytes(&mut wire, &sealed.as_slice()[split..sealed.len()]);
                push_bytes(&mut wire, &sealed.as_slice()[0..split]);
                proof {
                    assert(wire@ =~= tag_first(sealed@));
                    lemma_tag_order(sealed@);
                }
                Ok(wire)
            },
        }
    }

    /// Opens a packet in wire order: the tag, then the ciphertext.
    pub fn open(&self, packet_id: u32, aad: &[u8], wire: &[u8]) -> (r: Result<
        Vec<u8>,
        CryptoError,
    >)
        ensures
            match r {
                Ok(plaintext) => self@.opened(packet_id, aad@, wire@) == Ok::<
                    Seq<u8>,
                    CryptoError,
                >(plaintext@) && plaintext@.len() + TAG_SIZE == wire@.len(),
                Err(e) => self@.opened(packet_id, aad@, wire@) == Err::<Seq<u8>, CryptoError>(e),
            },
    {
        let len: usize = wire.len();
        if len < TAG_SIZE {
            return Err(CryptoError::ShorterThanTag);
        }
        let mut sealed: Vec<u8> = Vec::new();
        push_bytes(&mut sealed, &wire[TAG_SIZE..len]);
        push_bytes(&mut sealed, &wire[0..TAG_SIZE]);
        assert(sealed@ =~= tag_last(wire@));
        let nonce = nonce(packet_id, &self.dec_iv);
        match gcm_decrypt(&self.dec_key, &nonce, aad, sealed.as_slice()) {
            Ok(plaintext) => Ok(plaintext),
            Err(_) => Err(CryptoError::NotAuthentic),
        }
    }
}

/// The server's end takes its keys from their places in the key material: it
/// opens with the first cipher slot and the digest slot behind it, which the
/// client seals with, and seals with the other two. Only the first 32 and 8
/// bytes of a slot count.
pub proof fn law_server_keys(km: Seq<u8>, i: int)
    requires
        km.len() == 256,
    ensures
        ({
            let c = CipherView::of_server(km);
            &&& c.dec_key.len() == 32 && c.enc_key.len() == 32
            &&& c.dec_iv.len() == 8 && c.enc_iv.len() == 8
            &&& 0 <= i < 32 ==> c.dec_key[i] == km[i] && c.enc_key[i] == km[128 + i]
            &&& 0 <= i < 8 ==> c.dec_iv[i] == km[64 + i] && c.enc_iv[i] == km[192 + i]
        }),
{
}

/// What the two ends of a channel put on the wire. `nonce` is the twelve bytes
/// of a packet: four of its id, most significant first, then the eight of the
/// implicit IV. A packet is the sixteen bytes of the tag in front of the
/// ciphertext; what is shorter than a tag is refused, and so is what does not
/// authenticate together with its header.
pub proof fn law_wire_form(
    c: CipherView,
    packet_id: u32,
    aad: Seq<u8>,
    plaintext: Seq<u8>,
    wire: Seq<u8>,
    enc_nonce: Seq<u8>,
    dec_nonce: Seq<u8>,
)
    requires
        c.enc_iv.len() == 8,
        c.dec_iv.len() == 8,
        enc_nonce.len() == 12,
        dec_nonce.len() == 12,
        packet_id == enc_nonce[0] * 0x100_0000 + enc_nonce[1] * 0x1_0000 + enc_nonce[2] * 0x100
            + enc_nonce[3],
        packet_id == dec_nonce[0] * 0x100_0000 + dec_nonce[1] * 0x1_0000 + dec_nonce[2] * 0x100
            + dec_nonce[3],
        enc_nonce.skip(4) == c.enc_iv,
        dec_nonce.skip(4) == c.dec_iv,
    ensures
        ({
            let sealed = aes256_gcm_seal(c.enc_key, enc_nonce, aad, plaintext);
            plaintext.len() <= 0x10_0000_0000 && aad.len() <= 0x10_0000_0000 && plaintext.len() + 16
                <= isize::MAX && sealed.len() == plaintext.len() + 16 ==> (c.sealed(
                packet_id,
                aad,
                plaintext,
            ) matches Ok(out) && out.len() == sealed.len() && out.take(16) == sealed.skip(
                plaintext.len() as int,
            ) && out.skip(16) == sealed.take(plaintext.len() as int))
        }),
        plaintext.len() > 0x10_0000_0000 || aad.len() > 0x10_0000_0000 || plaintext.len() + 16
            > isize::MAX ==> c.sealed(packet_id, aad, plaintext) == Err::<Seq<u8>, CryptoError>(
            CryptoError::TooLong,
        ),
        wire.len() < 16 ==> c.opened(packet_id, aad, wire) == Err::<Seq<u8>, CryptoError>(
            CryptoError::ShorterThanTag,
        ),
        wire.len() >= 16 ==> c.opened(packet_id, aad, wire) == (match aes256_gcm_open(
            c.dec_key,
            dec_nonce,
            aad,
            wire.skip(16) + wire.take(16),
        ) {
            Some(message) => Ok::<Seq<u8>, CryptoError>(message),
            None => Err::<Seq<u8>, CryptoError>(CryptoError::NotAuthentic),
        }),
{
    lemma_nonce(packet_id, c.enc_iv, enc_nonce);
    lemma_nonce(packet_id, c.dec_iv, dec_nonce);
    let sealed = aes256_gcm_seal(c.enc_key, enc_nonce, aad, plaintext);
    if sealed.len() == plaintext.len() + 16 {
        let out = tag_first(sealed);
        assert(out.take(16) =~= sealed.skip(plaintext.len() as int));
        assert(out.skip(16) =~= sealed.take(plaintext.len() as int));
    }
    if wire.len() >= 16 {
        assert(tag_last(wire) =~= wire.skip(16) + wire.take(16));
    }
}

/// The twelve bytes of a nonce, from its digits.
proof fn lemma_nonce(packet_id: u32, iv: Seq<u8>, nonce: Seq<u8>)
    requires
        nonce.len() == 12,
        packet_id == nonce[0] * 0x100_0000 + nonce[1] * 0x1_0000 + nonce[2] * 0x100 + nonce[3],
        nonce.skip(4) == iv,
    ensures
        nonce == nonce_of(packet_id, iv),
{
    let id = nonce.take(4);
    lemma_be_value_digits(id);
    lemma_bytes_of_value(id);
    assert(nonce =~= id + nonce.skip(4));
}

} // verus!
