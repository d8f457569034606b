//! The `--tls-crypt` envelope: control packets are authenticated as with
//! tls-auth and encrypted too, which hides the TLS handshake from observers.
//!
//! ```text
//! header = op (1) || session_id (8) || packet_id (4) || net_time (4)
//! tag    = HMAC-SHA-256(Ka, header || plaintext)
//! ciph   = AES-256-CTR(Ke, tag[0..16], plaintext)
//! wire   = header || tag || ciph
//! ```

use vstd::prelude::*;

use aes::cipher::{KeyIvInit, StreamCipher};

use crate::codec::{
    array_at, be_bytes, be_value, lemma_be_bytes_len, lemma_be_limits, lemma_be_value_bound,
    lemma_be_value_digits, lemma_bytes_of_value, lemma_value_of_bytes, push_bytes, push_u32,
    read_u32, to_vec,
};
use crate::mac::{hmac_sha256, hmac_sha256_of, hmac_sha256_verify};
use crate::static_key::STATIC_KEY_LEN;

verus! {

/// Length of the tag.
pub const TAG_LEN: usize = 32;

/// Length of the packet id with its time stamp.
pub const PACKET_ID_LEN: usize = 8;

/// Length of the header: op, session id, packet id.
pub const HEADER_LEN: usize = PREFIX_LEN + PACKET_ID_LEN;

/// Length of a key.
pub const KEY_LEN: usize = 32;

/// Length of one slot of a static key.
pub const SLOT: usize = 64;

/// Length of op and session id, which stand in front of an inner packet.
pub const PREFIX_LEN: usize = 9;

/// Length of an envelope around an empty body.
pub const MIN_LEN: usize = HEADER_LEN + TAG_LEN;

/// Why a control packet could not be wrapped or unwrapped.
#[derive(Debug, Clone, Copy, PartialEq, Eq, Structural)]
pub enum TlsCryptError {
    /// An inner packet, of this length, without a session id.
    InnerTooShort(usize),
    /// A packet, of this length, that cannot hold an envelope.
    PacketTooShort(usize),
    /// The tag does not fit the packet.
    HmacMismatch,
}

/// The keys of one end of the control channel: a cipher key and an HMAC key
/// for each direction.
pub struct TlsCryptKey {
    pub enc_cipher_key: [u8; KEY_LEN],
    pub enc_hmac_key: [u8; KEY_LEN],
    pub dec_cipher_key: [u8; KEY_LEN],
    pub dec_hmac_key: [u8; KEY_LEN],
}

/// Byte `i` of the AES-256-CTR key stream.
pub uninterp spec fn aes256_ctr_byte(key: Seq<u8>, iv: Seq<u8>, i: int) -> u8;

/// `data` with the key stream applied.
pub open spec fn ctr(key: Seq<u8>, iv: Seq<u8>, data: Seq<u8>) -> Seq<u8> {
    Seq::new(data.len(), |i: int| data[i] ^ aes256_ctr_byte(key, iv, i))
}

/// Calls `apply_keystream` (`cipher::StreamCipher`) of a fresh
/// `ctr::Ctr128BE::<aes::Aes256>`: every byte is combined by XOR with the byte
/// of the key stream at its position. The key stream is named; it depends on
/// the key, the IV and the position alone.
#[verifier::external_body]
fn apply_keystream(key: &[u8; KEY_LEN], iv: &[u8; 16], data: &mut Vec<u8>)
    ensures
        final(data)@.len() == old(data)@.len(),
        forall|i: int|
            0 <= i < old(data)@.len() ==> #[trigger] final(data)@[i] == old(data)@[i]
                ^ aes256_ctr_byte(key@, iv@, i),
{
    ctr::Ctr128BE::<aes::Aes256>::new(key.into(), iv.into()).apply_keystream(data.as_mut_slice());
}

/// Applying a key stream twice changes nothing.
pub proof fn law_ctr_involutive(key: Seq<u8>, iv: Seq<u8>, data: Seq<u8>)
    ensures
        ctr(key, iv, ctr(key, iv, data)) == data,
{
    assert forall|i: int| 0 <= i < data.len() implies ctr(key, iv, ctr(key, iv, data))[i]
        == data[i] by {
        let d = data[i];
        let k = aes256_ctr_byte(key, iv, i);
        assert((d ^ k) ^ k == d) by (bit_vector);
    }
    assert(ctr(key, iv, ctr(key, iv, data)) =~= data);
}

/// A copy of `data` with the key stream applied.
fn ctr_vec(key: &[u8; KEY_LEN], iv: &[u8; 16], data: &[u8]) -> (r: Vec<u8>)
    ensures
        r@ == ctr(key@, iv@, data@),
{
    let mut r: Vec<u8> = to_vec(data);
    apply_keystream(key, iv, &mut r);
    assert(r@ =~= ctr(key@, iv@, data@));
    r
}

impl TlsCryptKey {
    /// The header of the envelope around `inner`.
    pub open spec fn header(inner: Seq<u8>, packet_id: u32, timestamp: u32) -> Seq<u8> {
        inner.subrange(0, PREFIX_LEN as int) + be_bytes(packet_id as nat, 4) + be_bytes(
            timestamp as nat,
            4,
        )
    }

    /// The bytes on the wire for an inner control packet.
    pub open spec fn wrapped(self, inner: Seq<u8>, packet_id: u32, timestamp: u32) -> Result<
        Seq<u8>,
        TlsCryptError,
    > {
        if inner.len() < PREFIX_LEN {
            Err(TlsCryptError::InnerTooShort(inner.len() as usize))
        } else {
            let body = inner.subrange(PREFIX_LEN as int, inner.len() as int);
            let header = Self::header(inner, packet_id, timestamp);
            let tag = hmac_sha256_of(self.enc_hmac_key@, header + body)@;
            Ok(header + tag + ctr(self.enc_cipher_key@, tag.subrange(0, 16), body))
        }
    }

    /// The inner packet and the packet id that a packet on the wire carries.
    pub open spec fn unwrapped(self, pkt: Seq<u8>) -> Result<(Seq<u8>, u32), TlsCryptError> {
        if pkt.len() < MIN_LEN {
            Err(TlsCryptError::PacketTooShort(pkt.len() as usize))
        } else {
            let header = pkt.subrange(0, HEADER_LEN as int);
            let tag = pkt.subrange(HEADER_LEN as int, MIN_LEN as int);
            let body = ctr(
                self.dec_cipher_key@,
                tag.subrange(0, 16),
                pkt.subrange(MIN_LEN as int, pkt.len() as int),
            );
            if tag != hmac_sha256_of(self.dec_hmac_key@, header + body)@ {
                Err(TlsCryptError::HmacMismatch)
            } else {
                Ok((pkt.subrange(0, PREFIX_LEN as int) + body, be_value(pkt.subrange(9, 13)) as u32))
            }
        }
    }

    /// Whether `self` decrypts and checks with what `other` encrypts and signs
    /// with.
    pub open spec fn receives_from(self, other: TlsCryptKey) -> bool {
        self.dec_cipher_key@ == other.enc_cipher_key@ && self.dec_hmac_key@ == other.enc_hmac_key@
    }

    /// The keys of a server from a static key: the cipher key and the HMAC key
    /// outbound, and the same inbound.
    pub open spec fn server_keys(km: Seq<u8>) -> ((Seq<u8>, Seq<u8>), (Seq<u8>, Seq<u8>)) {
        (
            (km.subrange(0, 32), km.subrange(64, 96)),
            (km.subrange(128, 160), km.subrange(192, 224)),
        )
    }

    /// Server-side keys from a static key: the first two slots outbound, the
    /// other two inbound.
    pub fn from_static_key_server(km: &[u8; STATIC_KEY_LEN]) -> (r: Self)
        ensures
            r.enc_cipher_key@ == km@.subrange(0, 32),
            r.enc_hmac_key@ == km@.subrange(64, 96),
            r.dec_cipher_key@ == km@.subrange(128, 160),
            r.dec_hmac_key@ == km@.subrange(192, 224),
            Self::server_keys(km@) == (
                (r.enc_cipher_key@, r.enc_hmac_key@),
                (r.dec_cipher_key@, r.dec_hmac_key@),
            ),
    {
        let km = km.as_slice();
        TlsCryptKey {
            enc_cipher_key: array_at(km, 0),
            enc_hmac_key: array_at(km, SLOT),
            dec_cipher_key: array_at(km, 2 * SLOT),
            dec_hmac_key: array_at(km, 3 * SLOT),
        }
    }

    /// Wraps an encoded control packet (`op || session_id || body`). The body
    /// is encrypted; the header is authenticated only.
    pub fn wrap(&self, inner: &[u8], packet_id: u32, timestamp: u32) -> (r: Result<
        Vec<u8>,
        TlsCryptError,
    >)
        ensures
            match r {
                Ok(wire) => self.wrapped(inner@, packet_id, timestamp) == Ok::<
                    Seq<u8>,
                    TlsCryptError,
                >(wire@),
                Err(e) => self.wrapped(inner@, packet_id, timestamp) == Err::<
                    Seq<u8>,
                    TlsCryptError,
                >(e),
            },
    {
        let len: usize = inner.len();
        if len < PREFIX_LEN {
            return Err(TlsCryptError::InnerTooShort(len));
        }
        let body = &inner[PREFIX_LEN..len];
        let mut out: Vec<u8> = Vec::new();
        push_bytes(&mut out, &inner[0..PREFIX_LEN]);
        push_u32(&mut out, packet_id);
        push_u32(&mut out, timestamp);
        let ghost header = out@;
        assert(header =~= Self::header(inner@, packet_id, timestamp));
        let mut signed: Vec<u8> = to_vec(out.as_slice());
        push_bytes(&mut signed, body);
        let tag = hmac_sha256(self.enc_hmac_key.as_slice(), signed.as_slice());
        let iv: [u8; 16] = array_at(tag.as_slice(), 0);
        let ciphertext: Vec<u8> = ctr_vec(&self.enc_cipher_key, &iv, body);
        push_bytes(&mut out, tag.as_slice());
        push_bytes(&mut out, ciphertext.as_slice());
        Ok(out)
    }

    /// Decrypts and checks an inbound packet; gives the inner packet
    /// (`op || session_id || body`) with its packet id.
    pub fn unwrap(&self, pkt: &[u8]) -> (r: Result<(Vec<u8>, u32), TlsCryptError>)
        ensures
            match r {
                Ok((inner, pid)) => self.unwrapped(pkt@) == Ok::<(Seq<u8>, u32), TlsCryptError>(
                    (inner@, pid),
                ),
                Err(e) => self.unwrapped(pkt@) == Err::<(Seq<u8>, u32), TlsCryptError>(e),
            },
    {
        let len: usize = pkt.len();
        if len < MIN_LEN {
            return Err(TlsCryptError::PacketTooShort(len));
        }
        let header = &pkt[0..HEADER_LEN];
        let packet_id: u32 = read_u32(pkt, 9);
        let tag = &pkt[HEADER_LEN..MIN_LEN];
        let iv: [u8; 16] = array_at(tag, 0);
        // The tag covers the plaintext, so decrypting comes first.
        let plaintext: Vec<u8> = ctr_vec(&self.dec_cipher_key, &iv, &pkt[MIN_LEN..len]);
        let mut signed: Vec<u8> = to_vec(header);
        push_bytes(&mut signed, plaintext.as_slice());
        if !hmac_sha256_verify(self.dec_hmac_key.as_slice(), signed.as_slice(), tag) {
            return Err(TlsCryptError::HmacMismatch);
        }
        let mut inner: Vec<u8> = to_vec(&pkt[0..PREFIX_LEN]);
        push_bytes(&mut inner, plaintext.as_slice());
        Ok((inner, packet_id))
    }
}

/// What one end wraps, an end that receives from it unwraps to the same inner
/// packet and packet id.
pub proof fn law_round_trip(
    sender: TlsCryptKey,
    receiver: TlsCryptKey,
    inner: Seq<u8>,
    packet_id: u32,
    timestamp: u32,
)
    requires
        receiver.receives_from(sender),
        inner.len() >= PREFIX_LEN,
    ensures
        receiver.unwrapped(sender.wrapped(inner, packet_id, timestamp)->Ok_0) == Ok::<
            (Seq<u8>, u32),
            TlsCryptError,
        >((inner, packet_id)),
{
    let wire = sender.wrapped(inner, packet_id, timestamp)->Ok_0;
    let body = inner.subrange(PREFIX_LEN as int, inner.len() as int);
    let header = TlsCryptKey::header(inner, packet_id, timestamp);
    let tag = hmac_sha256_of(sender.enc_hmac_key@, header + body)@;
    lemma_be_limits();
    lemma_be_bytes_len(packet_id as nat, 4);
    lemma_be_bytes_len(timestamp as nat, 4);
    lemma_value_of_bytes(packet_id as nat, 4);
    law_ctr_involutive(sender.enc_cipher_key@, tag.subrange(0, 16), body);
    assert(wire.subrange(0, HEADER_LEN as int) =~= header);
    assert(wire.subrange(HEADER_LEN as int, MIN_LEN as int) =~= tag);
    assert(wire.subrange(MIN_LEN as int, wire.len() as int) =~= ctr(
        sender.enc_cipher_key@,
        tag.subrange(0, 16),
        body,
    ));
    assert(wire.subrange(9, 13) =~= be_bytes(packet_id as nat, 4));
    assert(wire.subrange(0, PREFIX_LEN as int) + body =~= inner);
}

/// A packet that unwraps is the wrapping, under the receiver's inbound keys,
/// of what it unwraps to: nothing but the holder of the keys makes one.
pub proof fn law_unwrapped_was_wrapped(receiver: TlsCryptKey, sender: TlsCryptKey, pkt: Seq<u8>)
    requires
        receiver.receives_from(sender),
        receiver.unwrapped(pkt) is Ok,
    ensures
        exists|timestamp: u32|
            #[trigger] sender.wrapped(
                receiver.unwrapped(pkt)->Ok_0.0,
                receiver.unwrapped(pkt)->Ok_0.1,
                timestamp,
            ) == Ok::<Seq<u8>, TlsCryptError>(pkt),
{
    let (inner, pid) = receiver.unwrapped(pkt)->Ok_0;
    let timestamp = be_value(pkt.subrange(13, 17)) as u32;
    let tag = pkt.subrange(HEADER_LEN as int, MIN_LEN as int);
    let sealed = pkt.subrange(MIN_LEN as int, pkt.len() as int);
    let body = ctr(receiver.dec_cipher_key@, tag.subrange(0, 16), sealed);
    lemma_be_limits();
    lemma_be_value_bound(pkt.subrange(9, 13));
    lemma_be_value_bound(pkt.subrange(13, 17));
    lemma_bytes_of_value(pkt.subrange(9, 13));
    lemma_bytes_of_value(pkt.subrange(13, 17));
    law_ctr_involutive(receiver.dec_cipher_key@, tag.subrange(0, 16), sealed);
    assert(inner.subrange(PREFIX_LEN as int, inner.len() as int) =~= body);
    assert(TlsCryptKey::header(inner, pid, timestamp) =~= pkt.subrange(0, HEADER_LEN as int));
    assert(sender.wrapped(inner, pid, timestamp)->Ok_0 =~= pkt);
}

/// Where the parts of an envelope stand, and what its tag covers. In front
/// stand the kind and the session id of the inner packet, then the packet id
/// and the time in four bytes each, most significant first, 32 bytes of tag,
/// and what is left of the inner packet, encrypted. The tag is the
/// HMAC-SHA-256 of all that stands in front of it and of the plaintext; its
/// first sixteen bytes are the IV.
pub proof fn law_envelope_layout(key: TlsCryptKey, inner: Seq<u8>, packet_id: u32, timestamp: u32)
    ensures
        inner.len() < 9 ==> key.wrapped(inner, packet_id, timestamp) == Err::<
            Seq<u8>,
            TlsCryptError,
        >(TlsCryptError::InnerTooShort(inner.len() as usize)),
        inner.len() >= 9 ==> (key.wrapped(inner, packet_id, timestamp) matches Ok(wire) && {
            &&& wire.len() == inner.len() + 40
            &&& wire.take(9) == inner.take(9)
            &&& packet_id == wire[9] * 0x100_0000 + wire[10] * 0x1_0000 + wire[11] * 0x100
                + wire[12]
            &&& timestamp == wire[13] * 0x100_0000 + wire[14] * 0x1_0000 + wire[15] * 0x100
                + wire[16]
            &&& wire.subrange(17, 49) == hmac_sha256_of(
                key.enc_hmac_key@,
                wire.take(17) + inner.skip(9),
            )@
            &&& forall|i: int|
                49 <= i < wire.len() ==> #[trigger] wire[i] == inner[i - 40] ^ aes256_ctr_byte(
                    key.enc_cipher_key@,
                    wire.subrange(17, 33),
                    i - 49,
                )
        }),
{
    if inner.len() >= 9 {
        let wire = key.wrapped(inner, packet_id, timestamp)->Ok_0;
        let header = TlsCryptKey::header(inner, packet_id, timestamp);
        let body = inner.subrange(9, inner.len() as int);
        let tag = hmac_sha256_of(key.enc_hmac_key@, header + body)@;
        lemma_be_limits();
        lemma_be_bytes_len(packet_id as nat, 4);
        lemma_be_bytes_len(timestamp as nat, 4);
        lemma_value_of_bytes(packet_id as nat, 4);
        lemma_value_of_bytes(timestamp as nat, 4);
        assert(wire.take(9) =~= inner.take(9));
        assert(wire.take(17) =~= header);
        assert(inner.skip(9) =~= body);
        assert(wire.subrange(9, 13) =~= be_bytes(packet_id as nat, 4));
        assert(wire.subrange(13, 17) =~= be_bytes(timestamp as nat, 4));
        lemma_be_value_digits(wire.subrange(9, 13));
        lemma_be_value_digits(wire.subrange(13, 17));
        assert(wire.subrange(17, 49) =~= tag);
        assert(wire.subrange(17, 33) =~= tag.subrange(0, 16));
    }
}

/// What is taken off a packet: the same parts, if the tag is that of the
/// inbound keys, and nothing otherwise. `body` is the plaintext.
pub proof fn law_unwrap_layout(key: TlsCryptKey, pkt: Seq<u8>, body: Seq<u8>)
    requires
        pkt.len() >= 49 ==> body.len() == pkt.len() - 49,
        pkt.len() >= 49 ==> forall|i: int|
            0 <= i < body.len() ==> #[trigger] body[i] == pkt[i + 49] ^ aes256_ctr_byte(
                key.dec_cipher_key@,
                pkt.subrange(17, 33),
                i,
            ),
    ensures
        pkt.len() < 49 ==> key.unwrapped(pkt) == Err::<(Seq<u8>, u32), TlsCryptError>(
            TlsCryptError::PacketTooShort(pkt.len() as usize),
        ),
        pkt.len() >= 49 ==> ({
            let pid = pkt[9] * 0x100_0000 + pkt[10] * 0x1_0000 + pkt[11] * 0x100 + pkt[12];
            key.unwrapped(pkt) == if pkt.subrange(17, 49) == hmac_sha256_of(
                key.dec_hmac_key@,
                pkt.take(17) + body,
            )@ {
                Ok::<(Seq<u8>, u32), TlsCryptError>((pkt.take(9) + body, pid as u32))
            } else {
                Err::<(Seq<u8>, u32), TlsCryptError>(TlsCryptError::HmacMismatch)
            }
        }),
{
    if pkt.len() >= 49 {
        lemma_be_limits();
        lemma_be_value_bound(pkt.subrange(9, 13));
        lemma_be_value_digits(pkt.subrange(9, 13));
        assert(pkt.subrange(0, 17) =~= pkt.take(17));
        assert(pkt.subrange(0, 9) =~= pkt.take(9));
        assert(pkt.subrange(17, 49).subrange(0, 16) =~= pkt.subrange(17, 33));
        assert(body =~= ctr(
            key.dec_cipher_key@,
            pkt.subrange(17, 33),
            pkt.subrange(49, pkt.len() as int),
        ));
    }
}

/// A server encrypts with the first slot of the static key and signs with the
/// second; it decrypts with the third and checks with the fourth. Only the
/// first 32 bytes of a slot count.
pub proof fn law_static_key_slots(km: Seq<u8>, i: int)
    requires
        km.len() == 256,
        0 <= i < 32,
    ensures
        ({
            let ((enc, sign), (dec, check)) = TlsCryptKey::server_keys(km);
            &&& enc.len() == 32 && sign.len() == 32 && dec.len() == 32 && check.len() == 32
            &&& enc[i] == km[i]
            &&& sign[i] == km[64 + i]
            &&& dec[i] == km[128 + i]
            &&& check[i] == km[192 + i]
        }),
{
}

} // verus!
