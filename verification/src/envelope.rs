//! The envelope around control packets: none, tls-auth or tls-crypt.

use vstd::prelude::*;

use crate::codec::to_vec;
use crate::mac::hmac_sha256_of;
use crate::protocol::{control_bytes, control_of, law_parse_of_encode, ControlView, PacketError};
use crate::session::{
    after_timer, byte_lists, next_replay_id, resent, Session, SessionView, CONTROL_BASE_RTO,
};
use crate::static_key::STATIC_KEY_LEN;
use crate::tls_auth::{TlsAuthError, TlsAuthKey};
use crate::tls_crypt::{TlsCryptError, TlsCryptKey};

verus! {

/// How control packets are protected.
pub enum ControlEnvelope {
    /// They travel as they are.
    Plain,
    TlsAuth(TlsAuthKey),
    TlsCrypt(TlsCryptKey),
}

/// Why a control packet could not be wrapped or unwrapped.
#[derive(Debug, Clone, Copy, PartialEq, Eq, Structural)]
pub enum EnvelopeError {
    TlsAuth(TlsAuthError),
    TlsCrypt(TlsCryptError),
}

/// Calls `elapsed` of `std::time::UNIX_EPOCH`: the seconds since then, or
/// nothing if the clock is set to before. Nothing is claimed of the time.
#[verifier::external_body]
fn unix_seconds() -> (r: Option<u64>) {
    std::time::UNIX_EPOCH.elapsed().ok().map(|d| d.as_secs())
}

/// Seconds since the Unix epoch as they go into an envelope: the low-order 32
/// bits, or 0 for a time before the epoch.
pub fn timestamp_of(seconds: Option<u64>) -> (ts: u32)
    ensures
        ts == (match seconds {
            Some(s) => s % 0x1_0000_0000,
            None => 0,
        }),
        ts == stamp_of(seconds),
{
    match seconds {
        Some(s) => (s % 0x1_0000_0000) as u32,
        None => 0,
    }
}

/// The current time as it goes into an envelope.
pub fn unix_timestamp_u32() -> (ts: u32) {
    timestamp_of(unix_seconds())
}

impl ControlEnvelope {
    /// The bytes on the wire for an inner control packet.
    pub open spec fn wrapped(self, inner: Seq<u8>, pid: u32, ts: u32) -> Result<
        Seq<u8>,
        EnvelopeError,
    > {
        match self {
            ControlEnvelope::Plain => Ok(inner),
            ControlEnvelope::TlsAuth(key) => match key.wrapped(inner, pid, ts) {
                Ok(wire) => Ok(wire),
                Err(e) => Err(EnvelopeError::TlsAuth(e)),
            },
            ControlEnvelope::TlsCrypt(key) => match key.wrapped(inner, pid, ts) {
                Ok(wire) => Ok(wire),
                Err(e) => Err(EnvelopeError::TlsCrypt(e)),
            },
        }
    }

    /// The inner packet, and the replay id if there is an envelope, of a
    /// packet on the wire.
    pub open spec fn unwrapped(self, pkt: Seq<u8>) -> Result<
        (Seq<u8>, Option<u32>),
        EnvelopeError,
    > {
        match self {
            ControlEnvelope::Plain => Ok((pkt, None)),
            ControlEnvelope::TlsAuth(key) => match key.unwrapped(pkt) {
                Ok((inner, pid)) => Ok((inner, Some(pid))),
                Err(e) => Err(EnvelopeError::TlsAuth(e)),
            },
            ControlEnvelope::TlsCrypt(key) => match key.unwrapped(pkt) {
                Ok((inner, pid)) => Ok((inner, Some(pid))),
                Err(e) => Err(EnvelopeError::TlsCrypt(e)),
            },
        }
    }

    /// The session after a packet was wrapped: an envelope spends a replay id.
    pub open spec fn after_wrap(self, s: SessionView) -> SessionView {
        if self is Plain {
            s
        } else {
            s.after_replay_id()
        }
    }

    /// The replay id that follows after `n` packets were wrapped.
    pub open spec fn replay_id_after(self, pid: u32, n: nat) -> u32
        decreases n,
    {
        if n == 0 || self is Plain {
            pid
        } else {
            next_replay_id(self.replay_id_after(pid, (n - 1) as nat))
        }
    }

    /// The bytes on the wire for several inner packets in turn, at the given
    /// times. A packet that cannot be wrapped is left out.
    pub open spec fn wrapped_all(self, inners: Seq<Seq<u8>>, pid: u32, ts: Seq<u32>) -> Seq<Seq<u8>>
        decreases inners.len(),
    {
        if inners.len() == 0 {
            Seq::empty()
        } else {
            let n = (inners.len() - 1) as nat;
            let before = self.wrapped_all(inners.drop_last(), pid, ts);
            match self.wrapped(inners.last(), self.replay_id_after(pid, n), ts[n as int]) {
                Ok(wire) => before.push(wire),
                Err(_) => before,
            }
        }
    }

    /// Whether `self` unwraps with what `other` wraps with.
    pub open spec fn receives_from(self, other: ControlEnvelope) -> bool {
        match (self, other) {
            (ControlEnvelope::Plain, ControlEnvelope::Plain) => true,
            (ControlEnvelope::TlsAuth(a), ControlEnvelope::TlsAuth(b)) => a.in_key@ == b.out_key@,
            (ControlEnvelope::TlsCrypt(a), ControlEnvelope::TlsCrypt(b)) => a.receives_from(b),
            _ => false,
        }
    }

    /// Whether this is the envelope of a server with the given static keys,
    /// each present if configured.
    pub open spec fn made_of(
        self,
        tls_crypt: Option<Seq<u8>>,
        tls_auth: Option<Seq<u8>>,
        direction: u8,
    ) -> bool {
        match self {
            ControlEnvelope::TlsCrypt(key) => tls_crypt is Some && TlsCryptKey::server_keys(
                tls_crypt->0,
            ) == (
                (key.enc_cipher_key@, key.enc_hmac_key@),
                (key.dec_cipher_key@, key.dec_hmac_key@),
            ),
            ControlEnvelope::TlsAuth(key) => tls_crypt is None && tls_auth is Some
                && TlsAuthKey::server_keys(tls_auth->0, direction) == Some(
                (key.out_key@, key.in_key@),
            ),
            ControlEnvelope::Plain => tls_crypt is None && tls_auth is None,
        }
    }

    /// The envelope of a server with the given static keys, each present if
    /// configured. tls-crypt wins over tls-auth, being the stronger of the
    /// two; `direction` belongs to tls-auth.
    pub fn from_static_keys(
        tls_crypt: Option<&[u8; STATIC_KEY_LEN]>,
        tls_auth: Option<&[u8; STATIC_KEY_LEN]>,
        direction: u8,
    ) -> (r: Result<Self, TlsAuthError>)
        ensures
            match r {
                Ok(ControlEnvelope::TlsCrypt(key)) => {
                    let km = tls_crypt->0;
                    tls_crypt is Some && key.enc_cipher_key@ == km@.subrange(0, 32) && key.enc_hmac_key@
                    == km@.subrange(64, 96) && key.dec_cipher_key@ == km@.subrange(128, 160)
                    && key.dec_hmac_key@ == km@.subrange(192, 224)
                },
                Ok(ControlEnvelope::TlsAuth(key)) => {
                    let km = tls_auth->0;
                    tls_crypt is None && tls_auth is Some && direction <= 1 && key.in_key@ == km@.subrange(64, 128) && key.out_key@ == (
                if direction == 0 {
                    km@.subrange(64, 128)
                } else {
                    km@.subrange(192, 256)
                })
                },
                Ok(ControlEnvelope::Plain) => tls_crypt is None && tls_auth is None,
                Err(e) => tls_crypt is None && tls_auth is Some && direction > 1 && e
                    == TlsAuthError::InvalidDirection(direction),
            },
            r matches Ok(env) ==> env.made_of(
                (match tls_crypt {
                    Some(km) => Some(km@),
                    None => None,
                }),
                (match tls_auth {
                    Some(km) => Some(km@),
                    None => None,
                }),
                direction,
            ),
    {
        if let Some(km) = tls_crypt {
            return Ok(ControlEnvelope::TlsCrypt(TlsCryptKey::from_static_key_server(km)));
        }
        match tls_auth {
            Some(km) => match TlsAuthKey::from_static_key_server(km, direction) {
                Ok(key) => Ok(ControlEnvelope::TlsAuth(key)),
                Err(e) => Err(e),
            },
            None => Ok(ControlEnvelope::Plain),
        }
    }

    /// Wraps an encoded control packet, stamped with the current time.
    pub fn wrap_for_wire(&self, sess: &mut Session, inner: &[u8]) -> (r: Result<
        Vec<u8>,
        EnvelopeError,
    >)
        ensures
            final(sess)@ == self.after_wrap(old(sess)@),
            exists|ts: u32|
                match r {
                    Ok(wire) => #[trigger] self.wrapped(inner@, old(sess)@.tls_auth_pid_out, ts)
                        == Ok::<Seq<u8>, EnvelopeError>(wire@),
                    Err(e) => self.wrapped(inner@, old(sess)@.tls_auth_pid_out, ts) == Err::<
                        Seq<u8>,
                        EnvelopeError,
                    >(e),
                },
    {
        let ts: u32 = unix_timestamp_u32();
        self.wrap_at(sess, inner, ts)
    }

    /// Wraps an encoded control packet, stamped with the given time.
    pub fn wrap_at(&self, sess: &mut Session, inner: &[u8], ts: u32) -> (r: Result<
        Vec<u8>,
        EnvelopeError,
    >)
        ensures
            final(sess)@ == self.after_wrap(old(sess)@),
            match r {
                Ok(wire) => self.wrapped(inner@, old(sess)@.tls_auth_pid_out, ts) == Ok::<
                    Seq<u8>,
                    EnvelopeError,
                >(wire@),
                Err(e) => self.wrapped(inner@, old(sess)@.tls_auth_pid_out, ts) == Err::<
                    Seq<u8>,
                    EnvelopeError,
                >(e),
            },
    {
        match self {
            ControlEnvelope::TlsCrypt(key) => {
                let pid: u32 = sess.next_tls_auth_pid();
                match key.wrap(inner, pid, ts) {
                    Ok(wire) => Ok(wire),
                    Err(e) => Err(EnvelopeError::TlsCrypt(e)),
                }
            },
            ControlEnvelope::TlsAuth(key) => {
                let pid: u32 = sess.next_tls_auth_pid();
                match key.wrap(inner, pid, ts) {
                    Ok(wire) => Ok(wire),
                    Err(e) => Err(EnvelopeError::TlsAuth(e)),
                }
            },
            ControlEnvelope::Plain => Ok(to_vec(inner)),
        }
    }

    /// Takes the envelope off an inbound control packet: the inner packet and
    /// its replay id, or nothing of both if there is no envelope and the
    /// packet is the inner one.
    pub fn unwrap_control(&self, pkt: &[u8]) -> (r: Result<
        (Option<Vec<u8>>, Option<u32>),
        EnvelopeError,
    >)
        ensures
            match r {
                Ok((inner, pid)) => self.unwrapped(pkt@) == Ok::<
                    (Seq<u8>, Option<u32>),
                    EnvelopeError,
                >(
                    (
                        match inner {
                            Some(bytes) => bytes@,
                            None => pkt@,
                        },
                        pid,
                    ),
                ) && (inner is None <==> self is Plain) && (pid is None <==> self is Plain),
                Err(e) => self.unwrapped(pkt@) == Err::<(Seq<u8>, Option<u32>), EnvelopeError>(e),
            },
    {
        match self {
            ControlEnvelope::TlsCrypt(key) => match key.unwrap(pkt) {
                Ok((inner, pid)) => Ok((Some(inner), Some(pid))),
                Err(e) => Err(EnvelopeError::TlsCrypt(e)),
            },
            ControlEnvelope::TlsAuth(key) => match key.unwrap(pkt) {
                Ok((inner, pid)) => Ok((Some(inner), Some(pid))),
                Err(e) => Err(EnvelopeError::TlsAuth(e)),
            },
            ControlEnvelope::Plain => Ok((None, None)),
        }
    }

    /// The packets that a session has to send again at `now`, each wrapped
    /// afresh so that the receiver sees no duplicate replay id.
    pub fn retransmit(&self, sess: &mut Session, now: u64) -> (out: Vec<Vec<u8>>)
        ensures
            exists|ts: Seq<u32>|
                byte_lists(out@) == #[trigger] self.wrapped_all(
                    resent(old(sess)@.unacked, now, CONTROL_BASE_RTO),
                    old(sess)@.tls_auth_pid_out,
                    ts,
                ),
            final(sess)@ == (SessionView {
                unacked: after_timer(old(sess)@.unacked, now, CONTROL_BASE_RTO),
                tls_auth_pid_out: self.replay_id_after(
                    old(sess)@.tls_auth_pid_out,
                    resent(old(sess)@.unacked, now, CONTROL_BASE_RTO).len(),
                ),
                ..old(sess)@
            }),
    {
        let ghost pid = sess@.tls_auth_pid_out;
        let inners: Vec<Vec<u8>> = sess.stale_unacked(now, CONTROL_BASE_RTO);
        let ghost all = byte_lists(inners@);
        let ghost base = sess@;
        let ghost mut times: Seq<u32> = Seq::empty();
        let mut out: Vec<Vec<u8>> = Vec::new();
        let mut i: usize = 0;
        assert(all.take(0) =~= Seq::<Seq<u8>>::empty());
        assert(byte_lists(out@) =~= self.wrapped_all(all.take(0), pid, times));
        while i < inners.len()
            invariant
                i <= inners@.len(),
                all == byte_lists(inners@),
                base.tls_auth_pid_out == pid,
                times.len() == i,
                sess@ == (SessionView {
                    tls_auth_pid_out: self.replay_id_after(pid, i as nat),
                    ..base
                }),
                byte_lists(out@) == self.wrapped_all(all.take(i as int), pid, times),
            decreases inners@.len() - i,
        {
            let ghost before = out@;
            let ts: u32 = unix_timestamp_u32();
            let wrapped = self.wrap_at(sess, inners[i].as_slice(), ts);
            proof {
                let next = all.take(i + 1);
                assert(next.drop_last() =~= all.take(i as int));
                assert(next.last() == inners@[i as int]@);
                lemma_wrapped_all_times(*self, all.take(i as int), pid, times, times.push(ts));
                times = times.push(ts);
            }
            if let Ok(wire) = wrapped {
                out.push(wire);
                assert(byte_lists(out@) =~= byte_lists(before).push(wire@));
            }
            i += 1;
        }
        assert(all.take(i as int) =~= all);
        out
    }
}

/// Only the times of the packets count.
proof fn lemma_wrapped_all_times(
    env: ControlEnvelope,
    inners: Seq<Seq<u8>>,
    pid: u32,
    a: Seq<u32>,
    b: Seq<u32>,
)
    requires
        forall|i: int| 0 <= i < inners.len() ==> a[i] == b[i],
    ensures
        env.wrapped_all(inners, pid, a) == env.wrapped_all(inners, pid, b),
    decreases inners.len(),
{
    if inners.len() > 0 {
        lemma_wrapped_all_times(env, inners.drop_last(), pid, a, b);
    }
}

/// What one end wraps, an end that receives from it unwraps to the same inner
/// packet, with the replay id if there is an envelope.
pub proof fn law_round_trip(
    sender: ControlEnvelope,
    receiver: ControlEnvelope,
    inner: Seq<u8>,
    pid: u32,
    ts: u32,
)
    requires
        receiver.receives_from(sender),
        inner.len() >= 9,
    ensures
        sender.wrapped(inner, pid, ts) is Ok,
        receiver.unwrapped(sender.wrapped(inner, pid, ts)->Ok_0) == Ok::<
            (Seq<u8>, Option<u32>),
            EnvelopeError,
        >(
            (
                inner,
                if sender is Plain {
                    None
                } else {
                    Some(pid)
                },
            ),
        ),
{
    match (receiver, sender) {
        (ControlEnvelope::TlsAuth(a), ControlEnvelope::TlsAuth(b)) => {
            crate::tls_auth::law_round_trip(b, a, inner, pid, ts);
        },
        (ControlEnvelope::TlsCrypt(a), ControlEnvelope::TlsCrypt(b)) => {
            crate::tls_crypt::law_round_trip(b, a, inner, pid, ts);
        },
        _ => {},
    }
}

/// A control packet reaches the other end as it was: encoded, wrapped,
/// unwrapped and parsed it is the same packet.
pub proof fn law_control_packet_arrives(
    sender: ControlEnvelope,
    receiver: ControlEnvelope,
    p: ControlView,
    pid: u32,
    ts: u32,
)
    requires
        receiver.receives_from(sender),
        p.well_formed(),
    ensures
        sender.wrapped(control_bytes(p), pid, ts) is Ok,
        receiver.unwrapped(sender.wrapped(control_bytes(p), pid, ts)->Ok_0) is Ok,
        control_of(
            (receiver.unwrapped(sender.wrapped(control_bytes(p), pid, ts)->Ok_0)->Ok_0).0,
        ) == Ok::<ControlView, PacketError>(p),
{
    crate::codec::lemma_be_bytes_len(p.session_id as nat, 8);
    law_round_trip(sender, receiver, control_bytes(p), pid, ts);
    law_parse_of_encode(p);
}

/// Without an envelope replay ids are not spent; with one, each packet spends
/// one, and none of them is 0.
pub proof fn law_replay_ids_spent(env: ControlEnvelope, pid: u32, n: nat)
    requires
        pid != 0,
    ensures
        env is Plain ==> env.replay_id_after(pid, n) == pid,
        env.replay_id_after(pid, n) != 0,
        !(env is Plain) && pid + n <= u32::MAX ==> env.replay_id_after(pid, n) == pid + n,
    decreases n,
{
    if n > 0 {
        law_replay_ids_spent(env, pid, (n - 1) as nat);
    }
}

/// A tls-crypt key is used whenever there is one, and a tls-auth key only
/// without it; without either packets travel as they are. What the keys are
/// used for is told by the packets: with tls-crypt the tag of a packet is that
/// of the second slot, and with tls-auth that of the fourth slot in direction
/// 1 and of the second in direction 0.
pub proof fn law_which_envelope(
    env: ControlEnvelope,
    tls_crypt: Option<Seq<u8>>,
    tls_auth: Option<Seq<u8>>,
    direction: u8,
    inner: Seq<u8>,
    pid: u32,
    ts: u32,
)
    requires
        env.made_of(tls_crypt, tls_auth, direction),
        inner.len() >= 9,
    ensures
        env is TlsCrypt <==> tls_crypt is Some,
        env is TlsAuth <==> tls_crypt is None && tls_auth is Some,
        env is Plain <==> tls_crypt is None && tls_auth is None,
        env is Plain ==> env.wrapped(inner, pid, ts) == Ok::<Seq<u8>, EnvelopeError>(inner),
        tls_crypt matches Some(km) ==> (env.wrapped(inner, pid, ts) matches Ok(wire)
            && wire.subrange(17, 49) == hmac_sha256_of(
            km.subrange(64, 96),
            wire.take(17) + inner.skip(9),
        )@),
        env is TlsAuth ==> (env.wrapped(inner, pid, ts) matches Ok(wire) && wire.subrange(9, 41)
            == hmac_sha256_of(
            if direction == 1 {
                tls_auth->0.subrange(192, 256)
            } else {
                tls_auth->0.subrange(64, 128)
            },
            wire.subrange(41, 49) + inner,
        )@),
{
    match env {
        ControlEnvelope::TlsCrypt(key) => {
            crate::tls_crypt::law_envelope_layout(key, inner, pid, ts);
        },
        ControlEnvelope::TlsAuth(key) => {
            crate::tls_auth::law_envelope_layout(key, inner, pid, ts);
        },
        ControlEnvelope::Plain => {},
    }
}

/// An envelope spends a replay id for each packet and changes nothing else of
/// the session; without one nothing changes.
pub proof fn law_wrapping_spends(env: ControlEnvelope, s: SessionView)
    ensures
        env is Plain ==> env.after_wrap(s) == s,
        !(env is Plain) ==> env.after_wrap(s) == (SessionView {
            tls_auth_pid_out: if s.tls_auth_pid_out == u32::MAX {
                1
            } else {
                (s.tls_auth_pid_out + 1) as u32
            },
            ..s
        }),
        !(env is Plain) ==> env.replay_id_after(s.tls_auth_pid_out, 1) == env.after_wrap(
            s,
        ).tls_auth_pid_out,
{
    reveal_with_fuel(ControlEnvelope::replay_id_after, 2);
}

/// Packets that are sent again arrive, all of them and in order, each under a
/// replay id of its own: the `i`-th unwraps to the `i`-th inner packet.
pub proof fn law_retransmits_arrive(
    sender: ControlEnvelope,
    receiver: ControlEnvelope,
    inners: Seq<Seq<u8>>,
    pid: u32,
    ts: Seq<u32>,
    i: int,
)
    requires
        receiver.receives_from(sender),
        forall|j: int| 0 <= j < inners.len() ==> (#[trigger] inners[j]).len() >= 9,
        pid != 0,
        pid + inners.len() <= u32::MAX,
        0 <= i < inners.len(),
    ensures
        sender.wrapped_all(inners, pid, ts).len() == inners.len(),
        receiver.unwrapped(sender.wrapped_all(inners, pid, ts)[i]) == Ok::<
            (Seq<u8>, Option<u32>),
            EnvelopeError,
        >(
            (
                inners[i],
                if sender is Plain {
                    None
                } else {
                    Some((pid + i) as u32)
                },
            ),
        ),
    decreases inners.len(),
{
    let n = (inners.len() - 1) as nat;
    let init = inners.drop_last();
    assert forall|j: int| 0 <= j < init.len() implies (#[trigger] init[j]).len() >= 9 by {
        assert(init[j] == inners[j]);
    }
    assert(inners[n as int].len() >= 9);
    law_replay_ids_spent(sender, pid, n);
    law_round_trip(
        sender,
        receiver,
        inners.last(),
        sender.replay_id_after(pid, n),
        ts[n as int],
    );
    if n > 0 {
        if i < n {
            law_retransmits_arrive(sender, receiver, init, pid, ts, i);
        } else {
            law_retransmits_arrive(sender, receiver, init, pid, ts, 0);
        }
    }
}

/// Seconds since the Unix epoch as they go into an envelope.
pub open spec fn stamp_of(seconds: Option<u64>) -> u32 {
    match seconds {
        Some(s) => (s % 0x1_0000_0000) as u32,
        None => 0,
    }
}

/// A time stamp is the number of seconds for as long as 32 bits hold it, and
/// then goes on with their low-order bits; before the epoch it is 0.
pub proof fn law_time_stamp(s: u64)
    ensures
        s < 0x1_0000_0000 ==> stamp_of(Some(s)) == s,
        s < u64::MAX && stamp_of(Some(s)) < u32::MAX ==> stamp_of(Some((s + 1) as u64)) == stamp_of(
            Some(s),
        ) + 1,
        s < u64::MAX && stamp_of(Some(s)) == u32::MAX ==> stamp_of(Some((s + 1) as u64)) == 0,
        stamp_of(None) == 0,
{
}

/// There is no way round an envelope: what does not carry the tag of the
/// inbound key is refused, whatever it says, and what is accepted carries a
/// replay id. Without an envelope every packet is taken as it is.
pub proof fn law_no_way_round(env: ControlEnvelope, pkt: Seq<u8>)
    ensures
        env is Plain ==> env.unwrapped(pkt) == Ok::<(Seq<u8>, Option<u32>), EnvelopeError>(
            (pkt, None),
        ),
        env matches ControlEnvelope::TlsAuth(key) ==> (env.unwrapped(pkt) matches Ok((inner, pid))
            ==> pkt.len() >= 49 && inner == pkt.take(9) + pkt.skip(49) && pid is Some
            && pkt.subrange(9, 41) == hmac_sha256_of(
            key.in_key@,
            pkt.subrange(41, 49) + pkt.take(9) + pkt.skip(49),
        )@),
        env matches ControlEnvelope::TlsCrypt(key) ==> (env.unwrapped(pkt) matches Ok((inner, pid))
            ==> pkt.len() >= 49 && inner.len() == pkt.len() - 40 && pid is Some && pkt.take(9)
            == inner.take(9) && pkt.subrange(17, 49) == hmac_sha256_of(
            key.dec_hmac_key@,
            pkt.take(17) + inner.skip(9),
        )@),
        env matches ControlEnvelope::TlsAuth(key) ==> (key.unwrapped(pkt) matches Err(e)
            ==> env.unwrapped(pkt) == Err::<(Seq<u8>, Option<u32>), EnvelopeError>(
            EnvelopeError::TlsAuth(e),
        )),
        env matches ControlEnvelope::TlsCrypt(key) ==> (key.unwrapped(pkt) matches Err(e)
            ==> env.unwrapped(pkt) == Err::<(Seq<u8>, Option<u32>), EnvelopeError>(
            EnvelopeError::TlsCrypt(e),
        )),
{
    match env {
        ControlEnvelope::TlsAuth(key) => {
            crate::tls_auth::law_unwrap_layout(key, pkt);
            if pkt.len() >= 49 {
                assert(pkt.subrange(41, 49) + (pkt.take(9) + pkt.skip(49)) =~= pkt.subrange(41, 49)
                    + pkt.take(9) + pkt.skip(49));
            }
        },
        ControlEnvelope::TlsCrypt(key) => {
            if pkt.len() >= 49 {
                let body = crate::tls_crypt::ctr(
                    key.dec_cipher_key@,
                    pkt.subrange(17, 33),
                    pkt.skip(49),
                );
                crate::tls_crypt::law_unwrap_layout(key, pkt, body);
                assert((pkt.take(9) + body).take(9) =~= pkt.take(9));
                assert((pkt.take(9) + body).skip(9) =~= body);
            } else {
                crate::tls_crypt::law_unwrap_layout(key, pkt, Seq::empty());
            }
        },
        ControlEnvelope::Plain => {},
    }
}

} // verus!
