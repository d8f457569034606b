//! The `--tls-auth` envelope: an HMAC-SHA-256 and a replay header on every
//! control packet, so that packets of strangers are dropped before they reach
//! the TLS state machine.
//!
//! ```text
//!  op (1) | session_id (8) | HMAC (32) | replay_pid (4) | net_time (4) | body...
//! ```
//!
//! The HMAC covers `replay_pid || net_time || op || session_id || body`, where
//! `body` is what follows the session id in the inner control packet.

use vstd::prelude::*;

use crate::codec::{
    array_at, be_bytes, be_value, lemma_be_bytes_len, lemma_be_limits, lemma_be_value_bound,
    lemma_be_value_digits, lemma_bytes_of_value, lemma_value_of_bytes, push_bytes, push_u32,
    read_u32,
};
use crate::mac::{hmac_sha256, hmac_sha256_of, hmac_sha256_verify};
use crate::static_key::STATIC_KEY_LEN;

verus! {

/// Length of the tag.
pub const HMAC_LEN: usize = 32;

/// Length of one slot of a static key.
pub const SLOT_LEN: usize = 64;

/// Length of what stands in front of the tag: op and session id.
pub const HEADER_LEN: usize = 9;

/// Length of the replay header that follows the tag.
pub const REPLAY_HEADER_LEN: usize = 8;

/// Length of an envelope around an empty body.
pub const MIN_LEN: usize = HEADER_LEN + HMAC_LEN + REPLAY_HEADER_LEN;

/// Why a control packet could not be wrapped or unwrapped.
#[derive(Debug, Clone, Copy, PartialEq, Eq, Structural)]
pub enum TlsAuthError {
    /// A key direction other than 0 and 1.
    InvalidDirection(u8),
    /// An inner packet, of this length, without a session id.
    InnerTooShort(usize),
    /// A packet, of this length, that cannot hold an envelope.
    PacketTooShort(usize),
    /// The tag does not fit the packet.
    HmacMismatch,
}

/// The HMAC keys of one end of the control channel.
pub struct TlsAuthKey {
    pub out_key: [u8; SLOT_LEN],
    pub in_key: [u8; SLOT_LEN],
}

/// What the tag of a packet covers.
pub open spec fn hmac_input(
    op: u8,
    session_id: Seq<u8>,
    replay_pid: u32,
    timestamp: u32,
    body: Seq<u8>,
) -> Seq<u8> {
    be_bytes(replay_pid as nat, 4) + be_bytes(timestamp as nat, 4) + seq![op] + session_id + body
}

impl TlsAuthKey {
    /// The bytes on the wire for an inner control packet.
    pub open spec fn wrapped(self, inner: Seq<u8>, replay_pid: u32, timestamp: u32) -> Result<
        Seq<u8>,
        TlsAuthError,
    > {
        if inner.len() < HEADER_LEN {
            Err(TlsAuthError::InnerTooShort(inner.len() as usize))
        } else {
            let session_id = inner.subrange(1, HEADER_LEN as int);
            let body = inner.subrange(HEADER_LEN as int, inner.len() as int);
            let tag = hmac_sha256_of(
                self.out_key@,
                hmac_input(inner[0], session_id, replay_pid, timestamp, body),
            );
            Ok(
                seq![inner[0]] + session_id + tag@ + be_bytes(replay_pid as nat, 4) + be_bytes(
                    timestamp as nat,
                    4,
                ) + body,
            )
        }
    }

    /// The inner packet and the replay id that a packet on the wire carries.
    pub open spec fn unwrapped(self, pkt: Seq<u8>) -> Result<(Seq<u8>, u32), TlsAuthError> {
        if pkt.len() < MIN_LEN {
            Err(TlsAuthError::PacketTooShort(pkt.len() as usize))
        } else {
            let session_id = pkt.subrange(1, HEADER_LEN as int);
            let tag = pkt.subrange(HEADER_LEN as int, HEADER_LEN + HMAC_LEN);
            let replay_pid = be_value(pkt.subrange(41, 45)) as u32;
            let timestamp = be_value(pkt.subrange(45, 49)) as u32;
            let body = pkt.subrange(MIN_LEN as int, pkt.len() as int);
            let input = hmac_input(pkt[0], session_id, replay_pid, timestamp, body);
            if tag != hmac_sha256_of(self.in_key@, input)@ {
                Err(TlsAuthError::HmacMismatch)
            } else {
                Ok((seq![pkt[0]] + session_id + body, replay_pid))
            }
        }
    }

    /// The outbound and the inbound key of a server, from a static key and the
    /// key direction; there are no others than 0 and 1.
    pub open spec fn server_keys(km: Seq<u8>, direction: u8) -> Option<(Seq<u8>, Seq<u8>)> {
        if direction == 0 {
            Some((km.subrange(64, 128), km.subrange(64, 128)))
        } else if direction == 1 {
            Some((km.subrange(192, 256), km.subrange(64, 128)))
        } else {
            None
        }
    }

    /// Server-side keys from a static key.
    ///
    /// `direction` is OpenVPN's `key-direction`: with 0 both ways use the
    /// second slot; with 1 outbound packets use the fourth slot and inbound
    /// ones the second.
    pub fn from_static_key_server(km: &[u8; STATIC_KEY_LEN], direction: u8) -> (r: Result<
        Self,
        TlsAuthError,
    >)
        ensures
            match r {
                Ok(key) => direction <= 1 && key.in_key@ == km@.subrange(64, 128) && key.out_key@
                    == (if direction == 0 {
                    km@.subrange(64, 128)
                } else {
                    km@.subrange(192, 256)
                }),
                Err(e) => direction > 1 && e == TlsAuthError::InvalidDirection(direction),
            },
            match r {
                Ok(key) => Self::server_keys(km@, direction) == Some((key.out_key@, key.in_key@)),
                Err(_) => Self::server_keys(km@, direction) is None,
            },
    {
        let out_at: usize = match direction {
            0 => SLOT_LEN,
            1 => 3 * SLOT_LEN,
            _ => return Err(TlsAuthError::InvalidDirection(direction)),
        };
        let km = km.as_slice();
        Ok(TlsAuthKey { out_key: array_at(km, out_at), in_key: array_at(km, SLOT_LEN) })
    }

    /// Wraps an encoded control packet (`op || session_id || body`).
    pub fn wrap(&self, inner: &[u8], replay_pid: u32, timestamp: u32) -> (r: Result<
        Vec<u8>,
        TlsAuthError,
    >)
        ensures
            match r {
                Ok(wire) => self.wrapped(inner@, replay_pid, timestamp) == Ok::<
                    Seq<u8>,
                    TlsAuthError,
                >(wire@),
                Err(e) => self.wrapped(inner@, replay_pid, timestamp) == Err::<
                    Seq<u8>,
                    TlsAuthError,
                >(e),
            },
    {
        let len: usize = inner.len();
        if len < HEADER_LEN {
            return Err(TlsAuthError::InnerTooShort(len));
        }
        let op: u8 = inner[0];
        let session_id = &inner[1..HEADER_LEN];
        let body = &inner[HEADER_LEN..len];
        let tag = compute_hmac(
            self.out_key.as_slice(),
            op,
            session_id,
            replay_pid,
            timestamp,
            body,
        );
        let mut out: Vec<u8> = Vec::new();
        out.push(op);
        push_bytes(&mut out, session_id);
        push_bytes(&mut out, tag.as_slice());
        push_u32(&mut out, replay_pid);
        push_u32(&mut out, timestamp);
        push_bytes(&mut out, body);
        assert(out@ =~= self.wrapped(inner@, replay_pid, timestamp)->Ok_0);
        Ok(out)
    }

    /// Checks the tag of an inbound packet and gives the inner packet
    /// (`op || session_id || body`) with its replay id.
    pub fn unwrap(&self, pkt: &[u8]) -> (r: Result<(Vec<u8>, u32), TlsAuthError>)
        ensures
            match r {
                Ok((inner, pid)) => self.unwrapped(pkt@) == Ok::<(Seq<u8>, u32), TlsAuthError>(
                    (inner@, pid),
                ),
                Err(e) => self.unwrapped(pkt@) == Err::<(Seq<u8>, u32), TlsAuthError>(e),
            },
    {
        let len: usize = pkt.len();
        if len < MIN_LEN {
            return Err(TlsAuthError::PacketTooShort(len));
        }
        let op: u8 = pkt[0];
        let session_id = &pkt[1..HEADER_LEN];
        let tag = &pkt[HEADER_LEN..HEADER_LEN + HMAC_LEN];
        let replay_pid: u32 = read_u32(pkt, 41);
        let timestamp: u32 = read_u32(pkt, 45);
        let body = &pkt[MIN_LEN..len];
        let input: Vec<u8> = compose_hmac_input(op, session_id, replay_pid, timestamp, body);
        if !hmac_sha256_verify(self.in_key.as_slice(), input.as_slice(), tag) {
            return Err(TlsAuthError::HmacMismatch);
        }
        let mut inner: Vec<u8> = Vec::new();
        inner.push(op);
        push_bytes(&mut inner, session_id);
        push_bytes(&mut inner, body);
        assert(inner@ =~= seq![pkt@[0]] + session_id@ + body@);
        Ok((inner, replay_pid))
    }
}

/// What the tag of a packet covers.
pub fn compose_hmac_input(
    op: u8,
    session_id: &[u8],
    replay_pid: u32,
    timestamp: u32,
    body: &[u8],
) -> (v: Vec<u8>)
    ensures
        v@ == hmac_input(op, session_id@, replay_pid, timestamp, body@),
{
    let mut v: Vec<u8> = Vec::new();
    push_u32(&mut v, replay_pid);
    push_u32(&mut v, timestamp);
    v.push(op);
    push_bytes(&mut v, session_id);
    push_bytes(&mut v, body);
    assert(v@ =~= hmac_input(op, session_id@, replay_pid, timestamp, body@));
    v
}

/// The tag of a packet.
pub fn compute_hmac(
    key: &[u8],
    op: u8,
    session_id: &[u8],
    replay_pid: u32,
    timestamp: u32,
    body: &[u8],
) -> (tag: [u8; HMAC_LEN])
    ensures
        tag@ == hmac_sha256_of(
            key@,
            hmac_input(op, session_id@, replay_pid, timestamp, body@),
        )@,
{
    let input: Vec<u8> = compose_hmac_input(op, session_id, replay_pid, timestamp, body);
    hmac_sha256(key, input.as_slice())
}

/// What one end wraps, an end whose inbound key is the first one's outbound
/// key unwraps to the same inner packet and replay id.
pub proof fn law_round_trip(
    sender: TlsAuthKey,
    receiver: TlsAuthKey,
    inner: Seq<u8>,
    replay_pid: u32,
    timestamp: u32,
)
    requires
        receiver.in_key@ == sender.out_key@,
        inner.len() >= HEADER_LEN,
    ensures
        receiver.unwrapped(sender.wrapped(inner, replay_pid, timestamp)->Ok_0) == Ok::<
            (Seq<u8>, u32),
            TlsAuthError,
        >((inner, replay_pid)),
{
    let wire = sender.wrapped(inner, replay_pid, timestamp)->Ok_0;
    let session_id = inner.subrange(1, HEADER_LEN as int);
    let body = inner.subrange(HEADER_LEN as int, inner.len() as int);
    let tag = hmac_sha256_of(
        sender.out_key@,
        hmac_input(inner[0], session_id, replay_pid, timestamp, body),
    );
    lemma_be_limits();
    lemma_be_bytes_len(replay_pid as nat, 4);
    lemma_be_bytes_len(timestamp as nat, 4);
    lemma_value_of_bytes(replay_pid as nat, 4);
    lemma_value_of_bytes(timestamp as nat, 4);
    assert(wire.subrange(1, HEADER_LEN as int) =~= session_id);
    assert(wire.subrange(HEADER_LEN as int, HEADER_LEN + HMAC_LEN) =~= tag@);
    assert(wire.subrange(41, 45) =~= be_bytes(replay_pid as nat, 4));
    assert(wire.subrange(45, 49) =~= be_bytes(timestamp as nat, 4));
    assert(wire.subrange(MIN_LEN as int, wire.len() as int) =~= body);
    assert(seq![inner[0]] + session_id + body =~= inner);
}

/// A packet that unwraps is the wrapping, under the receiver's inbound key, of
/// what it unwraps to: nothing but the holder of the key makes one.
pub proof fn law_unwrapped_was_wrapped(receiver: TlsAuthKey, sender: TlsAuthKey, pkt: Seq<u8>)
    requires
        receiver.in_key@ == sender.out_key@,
        receiver.unwrapped(pkt) is Ok,
    ensures
        exists|timestamp: u32|
            #[trigger] sender.wrapped(
                receiver.unwrapped(pkt)->Ok_0.0,
                receiver.unwrapped(pkt)->Ok_0.1,
                timestamp,
            ) == Ok::<Seq<u8>, TlsAuthError>(pkt),
{
    let (inner, pid) = receiver.unwrapped(pkt)->Ok_0;
    let timestamp = be_value(pkt.subrange(45, 49)) as u32;
    let session_id = pkt.subrange(1, HEADER_LEN as int);
    let body = pkt.subrange(MIN_LEN as int, pkt.len() as int);
    lemma_be_limits();
    lemma_be_value_bound(pkt.subrange(41, 45));
    lemma_be_value_bound(pkt.subrange(45, 49));
    lemma_bytes_of_value(pkt.subrange(41, 45));
    lemma_bytes_of_value(pkt.subrange(45, 49));
    assert(inner.subrange(1, HEADER_LEN as int) =~= session_id);
    assert(inner.subrange(HEADER_LEN as int, inner.len() as int) =~= body);
    assert(sender.wrapped(inner, pid, timestamp)->Ok_0 =~= pkt);
}

/// Where the parts of an envelope stand, and what its tag covers. In front
/// stand the kind and the session id of the inner packet, then 32 bytes of
/// tag, the replay id and the time in four bytes each, most significant first,
/// and what is left of the inner packet. The tag is the HMAC-SHA-256, under
/// the outbound key, of the replay id, the time and the whole inner packet.
pub proof fn law_envelope_layout(key: TlsAuthKey, inner: Seq<u8>, replay_pid: u32, timestamp: u32)
    ensures
        inner.len() < 9 ==> key.wrapped(inner, replay_pid, timestamp) == Err::<
            Seq<u8>,
            TlsAuthError,
        >(TlsAuthError::InnerTooShort(inner.len() as usize)),
        inner.len() >= 9 ==> (key.wrapped(inner, replay_pid, timestamp) matches Ok(wire) && {
            &&& wire.len() == inner.len() + 40
            &&& wire.take(9) == inner.take(9)
            &&& replay_pid == wire[41] * 0x100_0000 + wire[42] * 0x1_0000 + wire[43] * 0x100
                + wire[44]
            &&& timestamp == wire[45] * 0x100_0000 + wire[46] * 0x1_0000 + wire[47] * 0x100
                + wire[48]
            &&& wire.skip(49) == inner.skip(9)
            &&& wire.subrange(9, 41) == hmac_sha256_of(
                key.out_key@,
                wire.subrange(41, 49) + inner,
            )@
        }),
{
    if inner.len() >= 9 {
        let wire = key.wrapped(inner, replay_pid, timestamp)->Ok_0;
        let session_id = inner.subrange(1, 9);
        let body = inner.subrange(9, inner.len() as int);
        lemma_be_limits();
        lemma_be_bytes_len(replay_pid as nat, 4);
        lemma_be_bytes_len(timestamp as nat, 4);
        lemma_value_of_bytes(replay_pid as nat, 4);
        lemma_value_of_bytes(timestamp as nat, 4);
        assert(wire.take(9) =~= inner.take(9));
        assert(wire.skip(49) =~= inner.skip(9));
        assert(wire.subrange(41, 45) =~= be_bytes(replay_pid as nat, 4));
        assert(wire.subrange(45, 49) =~= be_bytes(timestamp as nat, 4));
        lemma_be_value_digits(wire.subrange(41, 45));
        lemma_be_value_digits(wire.subrange(45, 49));
        assert(hmac_input(inner[0], session_id, replay_pid, timestamp, body) =~= wire.subrange(
            41,
            49,
        ) + inner);
        assert(wire.subrange(9, 41) =~= hmac_sha256_of(
            key.out_key@,
            hmac_input(inner[0], session_id, replay_pid, timestamp, body),
        )@);
    }
}

/// What is taken off a packet: the same parts, if the tag is that of the
/// inbound key, and nothing otherwise.
pub proof fn law_unwrap_layout(key: TlsAuthKey, pkt: Seq<u8>)
    ensures
        pkt.len() < 49 ==> key.unwrapped(pkt) == Err::<(Seq<u8>, u32), TlsAuthError>(
            TlsAuthError::PacketTooShort(pkt.len() as usize),
        ),
        pkt.len() >= 49 ==> ({
            let inner = pkt.take(9) + pkt.skip(49);
            let pid = pkt[41] * 0x100_0000 + pkt[42] * 0x1_0000 + pkt[43] * 0x100 + pkt[44];
            key.unwrapped(pkt) == if pkt.subrange(9, 41) == hmac_sha256_of(
                key.in_key@,
                pkt.subrange(41, 49) + inner,
            )@ {
                Ok::<(Seq<u8>, u32), TlsAuthError>((inner, pid as u32))
            } else {
                Err::<(Seq<u8>, u32), TlsAuthError>(TlsAuthError::HmacMismatch)
            }
        }),
{
    if pkt.len() >= 49 {
        let inner = pkt.take(9) + pkt.skip(49);
        let session_id = pkt.subrange(1, 9);
        let body = pkt.subrange(49, pkt.len() as int);
        lemma_be_limits();
        lemma_be_value_bound(pkt.subrange(41, 45));
        lemma_be_value_bound(pkt.subrange(45, 49));
        lemma_bytes_of_value(pkt.subrange(41, 45));
        lemma_bytes_of_value(pkt.subrange(45, 49));
        lemma_be_value_digits(pkt.subrange(41, 45));
        assert(seq![pkt[0]] + session_id + body =~= inner);
        let pid = be_value(pkt.subrange(41, 45)) as u32;
        let ts = be_value(pkt.subrange(45, 49)) as u32;
        assert(hmac_input(pkt[0], session_id, pid, ts, body) =~= pkt.subrange(41, 49) + inner);
    }
}

/// A server checks with the second slot of the static key, whatever the
/// direction; it signs with the same one in direction 0, so that both ways use
/// one key, and with the fourth one in direction 1. There is no other
/// direction.
pub proof fn law_static_key_slots(km: Seq<u8>, direction: u8, i: int)
    requires
        km.len() == 256,
        0 <= i < 64,
    ensures
        TlsAuthKey::server_keys(km, direction) is Some <==> direction == 0 || direction == 1,
        TlsAuthKey::server_keys(km, direction) matches Some((outward, inward)) ==> {
            &&& outward.len() == 64 && inward.len() == 64
            &&& inward[i] == km[64 + i]
            &&& direction == 0 ==> outward[i] == km[64 + i]
            &&& direction == 1 ==> outward[i] == km[192 + i]
        },
{
}

} // verus!
