//! What the server does with packets and on its timers: dispatch, admission,
//! the control channel's bookkeeping, and what is sent when.

use vstd::prelude::*;

use crate::codec::{be_value, copy_range, lemma_be_bytes_len, read_u64, to_vec};
use crate::control_plane::ServerError;
use crate::envelope::{ControlEnvelope, EnvelopeError};
use crate::protocol::{
    control_bytes, data_bytes, data_of, first_byte, law_data_parse_of_encode, lemma_codes,
    opcode_of, ControlPacket, ControlView, DataPacketV2, DataView, OpCode, SessionId, PING_PAYLOAD,
};
use crate::random::random_bytes;
use crate::session::{
    byte_lists, without_acked, Session, SessionError, SessionView, State, UnackedView,
    MAX_TLS_PAYLOAD_PER_CONTROL,
};
use crate::tls::{
    only_queued, queued_in_part, same_input, tls_accepts, tls_delivered, tls_pending,
    tls_plaintext, tls_queued, tls_sent, TlsError, TlsSession, TlsView,
};

verus! {

/// What a datagram is, by its first byte.
#[derive(Debug, Clone, Copy, PartialEq, Eq, Structural)]
pub enum Inbound {
    /// Nothing, or of no known kind.
    Unknown,
    /// For the data channel.
    Data,
    /// For the control channel.
    Control,
}

/// What a datagram is.
pub open spec fn inbound_of(pkt: Seq<u8>) -> Inbound {
    if pkt.len() == 0 {
        Inbound::Unknown
    } else {
        match opcode_of(pkt[0] / 8) {
            None => Inbound::Unknown,
            Some(op) => if op.carries_data() {
                Inbound::Data
            } else {
                Inbound::Control
            },
        }
    }
}

/// Decides which channel a datagram is for.
pub fn dispatch(pkt: &[u8]) -> (r: Inbound)
    ensures
        r == inbound_of(pkt@),
{
    if pkt.len() == 0 {
        return Inbound::Unknown;
    }
    match OpCode::from_u8(pkt[0] / 8) {
        Err(_) => {
            proof {
                if let Some(op) = opcode_of(pkt@[0] / 8) {
                    lemma_codes(op, op);
                }
            }
            Inbound::Unknown
        },
        Ok(op) => {
            proof {
                lemma_codes(op, op);
            }
            if op.is_data() {
                Inbound::Data
            } else {
                Inbound::Control
            }
        },
    }
}

/// The peer that a data packet claims to come from; its session is to open it.
pub fn route_data(pkt: &[u8]) -> (r: Option<u32>)
    ensures
        r == (match data_of(pkt@) {
            Ok(data) => Some(data.peer_id),
            Err(_) => None,
        }),
        r == claimed_peer(pkt@),
{
    match DataPacketV2::parse(pkt) {
        Ok(data) => Some(data.peer_id),
        Err(_) => None,
    }
}

/// What a control packet means to the table of sessions.
#[derive(Debug, Clone, Copy, PartialEq, Eq, Structural)]
pub enum Admission {
    /// A client that has no session asks for one.
    Open,
    /// The sender has a session.
    Known,
    /// The sender has no session and does not ask for one.
    Stranger,
}

/// Whether a packet of this kind asks for a session.
pub open spec fn asks_for_session(op: OpCode) -> bool {
    op is ControlHardResetClientV1 || op is ControlHardResetClientV2
        || op is ControlHardResetClientV3
}

/// Decides what a control packet means; `known` says whether its sender has a
/// session.
pub fn admission(op: OpCode, known: bool) -> (r: Admission)
    ensures
        r == if known {
            Admission::Known
        } else if asks_for_session(op) {
            Admission::Open
        } else {
            Admission::Stranger
        },
        r == admission_of(op, known),
{
    if known {
        return Admission::Known;
    }
    match op {
        OpCode::ControlHardResetClientV1
        | OpCode::ControlHardResetClientV2
        | OpCode::ControlHardResetClientV3 => Admission::Open,
        _ => Admission::Stranger,
    }
}

/// The id of the peer that is the `counter`-th one: 24 bits.
pub fn peer_id_of(counter: u32) -> (r: u32)
    ensures
        r == counter % 0x100_0000,
        r == peer_id_at(counter),
{
    counter % 0x100_0000
}

/// A session id from eight bytes.
pub fn session_id_of(bytes: &[u8; 8]) -> (r: SessionId)
    ensures
        r as nat == be_value(bytes@),
{
    let s = bytes.as_slice();
    assert(s@.subrange(0, 8) =~= bytes@);
    read_u64(s, 0)
}

/// A session id drawn at random.
pub fn random_session_id() -> (r: SessionId) {
    let bytes: [u8; 8] = random_bytes();
    session_id_of(&bytes)
}

/// The session of a client that has just asked for it.
pub open spec fn opened(s: SessionView, ctrl: ControlView, replay_pid: Option<u32>) -> SessionView {
    SessionView {
        client_session_id: ctrl.session_id,
        state: State::Handshaking,
        tls_auth_replay: match replay_pid {
            Some(pid) => s.tls_auth_replay.after(pid),
            None => s.tls_auth_replay,
        },
        ..s
    }
}

/// The id of the packet, or 0 if it has none.
pub open spec fn id_or_zero(ctrl: ControlView) -> u32 {
    match ctrl.packet_id {
        Some(pid) => pid,
        None => 0,
    }
}

/// Opens a session for a client that asked for it, and gives the answer. The
/// replay id of the client's packet is the first that its window sees.
pub fn open_session(sess: &mut Session, ctrl: &ControlPacket, replay_pid: Option<u32>) -> (reply:
    ControlPacket)
    ensures
        final(sess)@ == opened(old(sess)@, ctrl@, replay_pid).after_packet_id(),
        reply@ == opened(old(sess)@, ctrl@, replay_pid).acking_control(
            OpCode::ControlHardResetServerV2,
            0,
            id_or_zero(ctrl@),
        ),
        (final(sess)@, reply@) == session_opened(old(sess)@, ctrl@, replay_pid),
{
    sess.client_session_id = ctrl.session_id;
    sess.state = State::Handshaking;
    if let Some(pid) = replay_pid {
        sess.tls_auth_replay.check_and_set(pid);
    }
    let ack_pid: u32 = match ctrl.packet_id {
        Some(pid) => pid,
        None => 0,
    };
    sess.make_hard_reset_reply(ack_pid)
}

/// What a control packet of a known client asks for, once its bookkeeping is
/// done.
#[derive(Debug, Clone, Copy, PartialEq, Eq, Structural)]
pub enum ControlAction {
    /// Nothing.
    Nothing,
    /// Its payload goes to the main TLS connection.
    FeedMain,
    /// Its payload goes to the TLS connection of the rekey.
    FeedRekey,
    /// A rekey under this key id; the packet with this id is acknowledged.
    StartRekey(u8, u32),
}

/// What a control packet asks for.
pub open spec fn action_of(s: SessionView, ctrl: ControlView) -> ControlAction {
    if ctrl.op is ControlV1 {
        if s.rekey matches Some(rk) && rk.key_id == ctrl.key_id {
            ControlAction::FeedRekey
        } else {
            ControlAction::FeedMain
        }
    } else if ctrl.op is ControlSoftResetV1 && s.rekey is None && s.state == State::Established {
        ControlAction::StartRekey(ctrl.key_id, id_or_zero(ctrl))
    } else {
        ControlAction::Nothing
    }
}

/// The session after the bookkeeping for a control packet that is no replay:
/// its acknowledgements count, and its own id is to be acknowledged.
pub open spec fn after_bookkeeping(
    s: SessionView,
    ctrl: ControlView,
    replay_pid: Option<u32>,
    now: u64,
) -> SessionView {
    let noted = SessionView {
        last_seen: now,
        tls_auth_replay: match replay_pid {
            Some(pid) => s.tls_auth_replay.after(pid),
            None => s.tls_auth_replay,
        },
        unacked: without_acked(s.unacked, ctrl.acks),
        ..s
    };
    match ctrl.packet_id {
        Some(pid) => noted.after_received(pid, now),
        None => noted,
    }
}

/// Whether the replay window of a session turns a packet away.
pub open spec fn is_replay(s: SessionView, replay_pid: Option<u32>) -> bool {
    match replay_pid {
        Some(pid) => !s.tls_auth_replay.accepts(pid),
        None => false,
    }
}

/// Takes a control packet of a known client: does its bookkeeping, and decides
/// what it asks for. A replay changes nothing but the time of the last packet.
pub fn receive_control(
    sess: &mut Session,
    ctrl: &ControlPacket,
    replay_pid: Option<u32>,
    now: u64,
) -> (r: Result<ControlAction, ServerError>)
    requires
        old(sess)@.well_formed(),
    ensures
        final(sess)@.well_formed(),
        match r {
            Ok(action) => !is_replay(old(sess)@, replay_pid) && final(sess)@ == after_bookkeeping(
                old(sess)@,
                ctrl@,
                replay_pid,
                now,
            ) && action == action_of(final(sess)@, ctrl@),
            Err(e) => is_replay(old(sess)@, replay_pid) && e == ServerError::ReplayRejected(
                replay_pid->0,
            ) && final(sess)@ == (SessionView { last_seen: now, ..old(sess)@ }),
        },
        (final(sess)@, r) == control_received(old(sess)@, ctrl@, replay_pid, now),
{
    sess.last_seen = now;
    if let Some(pid) = replay_pid {
        proof {
            crate::replay::law_window_invariant(sess@.tls_auth_replay, seq![pid]);
            assert(seq![pid].drop_last() =~= Seq::<u32>::empty());
            reveal_with_fuel(crate::replay::WindowView::after_all, 2);
        }
        if !sess.tls_auth_replay.check_and_set(pid) {
            return Err(ServerError::ReplayRejected(pid));
        }
    }
    sess.process_acks(ctrl.acks.as_slice());
    if let Some(pid) = ctrl.packet_id {
        sess.note_received(pid, now);
    }
    let action: ControlAction = match ctrl.op {
        OpCode::ControlV1 => {
            let for_rekey: bool = match &sess.rekey {
                Some(rk) => rk.key_id == ctrl.key_id,
                None => false,
            };
            if for_rekey {
                ControlAction::FeedRekey
            } else {
                ControlAction::FeedMain
            }
        },
        OpCode::ControlSoftResetV1 => {
            if sess.rekey.is_none() && matches!(sess.state, State::Established) {
                let ack_pid: u32 = match ctrl.packet_id {
                    Some(pid) => pid,
                    None => 0,
                };
                ControlAction::StartRekey(ctrl.key_id, ack_pid)
            } else {
                ControlAction::Nothing
            }
        },
        _ => ControlAction::Nothing,
    };
    Ok(action)
}

/// A control packet on its way to the wire.
pub struct Outgoing {
    /// The bytes to send.
    pub wire: Vec<u8>,
    /// Its id, if it is to be acknowledged.
    pub packet_id: Option<u32>,
    /// The packet without its envelope, to be wrapped afresh for a retransmit.
    pub encoded: Vec<u8>,
}

/// Whether `out` is the packet `p`, wrapped with the next replay id of the
/// session at some time.
pub open spec fn carries(
    env: ControlEnvelope,
    s: SessionView,
    p: ControlView,
    out: Outgoing,
) -> bool {
    &&& out.packet_id == p.packet_id
    &&& out.encoded@ == control_bytes(p)
    &&& exists|ts: u32|
        #[trigger] env.wrapped(control_bytes(p), s.tls_auth_pid_out, ts) == Ok::<
            Seq<u8>,
            EnvelopeError,
        >(out.wire@)
}

/// Encodes and wraps a control packet. Every packet is long enough to be
/// wrapped.
pub fn prepare(env: &ControlEnvelope, sess: &mut Session, pkt: &ControlPacket) -> (r: Result<
    Outgoing,
    EnvelopeError,
>)
    ensures
        final(sess)@ == env.after_wrap(old(sess)@),
        r is Ok,
        carries(*env, old(sess)@, pkt@, r->Ok_0),
{
    let encoded: Vec<u8> = pkt.encode();
    proof {
        lemma_be_bytes_len(pkt@.session_id as nat, 8);
    }
    match env.wrap_for_wire(sess, encoded.as_slice()) {
        Ok(wire) => Ok(Outgoing { wire, packet_id: pkt.packet_id, encoded }),
        Err(e) => Err(e),
    }
}

/// The session after a prepared packet was put on the wire.
pub open spec fn after_outgoing(s: SessionView, out: Outgoing, now: u64) -> SessionView {
    match out.packet_id {
        Some(pid) => s.after_sent(pid, out.encoded@, now),
        None => s,
    }
}

/// Remembers a prepared packet that was put on the wire, if it is to be
/// acknowledged.
pub fn record_outgoing(sess: &mut Session, out: Outgoing, now: u64)
    ensures
        final(sess)@ == after_outgoing(old(sess)@, out, now),
{
    if let Some(pid) = out.packet_id {
        sess.record_sent(pid, out.encoded, now);
    }
}

/// The pieces of `s`, of `n` bytes each but for the last one.
pub open spec fn pieces(s: Seq<u8>, n: nat) -> Seq<Seq<u8>>
    decreases s.len(),
    when n > 0
{
    if s.len() == 0 {
        Seq::empty()
    } else if s.len() <= n {
        seq![s]
    } else {
        seq![s.take(n as int)] + pieces(s.skip(n as int), n)
    }
}

/// The concatenation of `parts`.
pub open spec fn joined(parts: Seq<Seq<u8>>) -> Seq<u8>
    decreases parts.len(),
{
    if parts.len() == 0 {
        Seq::empty()
    } else {
        parts[0] + joined(parts.drop_first())
    }
}

/// TLS bytes are cut without loss: the pieces, put together, are the bytes,
/// and each is small enough for a control packet and not empty.
pub proof fn law_pieces(s: Seq<u8>, n: nat)
    requires
        n > 0,
    ensures
        joined(pieces(s, n)) == s,
        forall|i: int| 0 <= i < pieces(s, n).len() ==> 0 < (#[trigger] pieces(s, n)[i]).len() <= n,
    decreases s.len(),
{
    let all = pieces(s, n);
    if s.len() == 0 {
        assert(joined(all) =~= s);
    } else if s.len() <= n {
        assert(all.drop_first() =~= Seq::<Seq<u8>>::empty());
        reveal_with_fuel(joined, 2);
        assert(joined(all) =~= s);
    } else {
        law_pieces(s.skip(n as int), n);
        assert(all.drop_first() =~= pieces(s.skip(n as int), n));
        assert(joined(all) =~= s);
        assert forall|i: int| 0 <= i < all.len() implies 0 < (#[trigger] all[i]).len() <= n by {
            if i > 0 {
                assert(all[i] == pieces(s.skip(n as int), n)[i - 1]);
            }
        }
    }
}

/// Cuts TLS bytes into the payloads of control packets.
pub fn chunks(out: &[u8]) -> (r: Vec<Vec<u8>>)
    ensures
        byte_lists(r@) == pieces(out@, MAX_TLS_PAYLOAD_PER_CONTROL as nat),
{
    let n: usize = MAX_TLS_PAYLOAD_PER_CONTROL;
    let len: usize = out.len();
    let mut r: Vec<Vec<u8>> = Vec::new();
    let mut at: usize = 0;
    proof {
        assert(out@.skip(0) =~= out@);
        assert(byte_lists(r@) =~= Seq::<Seq<u8>>::empty());
        assert(byte_lists(r@) + pieces(out@.skip(0), n as nat) =~= pieces(out@, n as nat));
    }
    while at < len
        invariant
            at <= len == out@.len(),
            n == MAX_TLS_PAYLOAD_PER_CONTROL,
            byte_lists(r@) + pieces(out@.skip(at as int), n as nat) == pieces(out@, n as nat),
        decreases len - at,
    {
        let end: usize = if len - at <= n {
            len
        } else {
            at + n
        };
        let ghost before = byte_lists(r@);
        let ghost rest = out@.skip(at as int);
        let piece: Vec<u8> = copy_range(out, at, end);
        r.push(piece);
        proof {
            assert(byte_lists(r@) =~= before.push(piece@));
            assert(out@.skip(end as int) =~= rest.skip(end - at));
            if len - at <= n {
                assert(piece@ =~= rest);
                assert(out@.skip(end as int) =~= Seq::<u8>::empty());
                assert(before + seq![rest] =~= before.push(piece@) + Seq::<Seq<u8>>::empty());
            } else {
                assert(piece@ =~= rest.take(n as int));
                let tail = pieces(rest.skip(n as int), n as nat);
                assert(before + (seq![piece@] + tail) =~= before.push(piece@) + tail);
            }
        }
        at = end;
    }
    proof {
        assert(out@.skip(at as int) =~= Seq::<u8>::empty());
        assert(byte_lists(r@) + Seq::<Seq<u8>>::empty() =~= byte_lists(r@));
    }
    r
}

/// What there is to send on a control channel.
pub enum Flush {
    /// Nothing.
    Nothing,
    /// Acknowledgements alone.
    Ack,
    /// Payloads for control packets with this key id.
    Payloads(u8, Vec<Vec<u8>>),
}

/// Whether `plan` says what there is to send: the TLS bytes `out`, cut into
/// payloads, with the key id in use; without any, acknowledgements, if some
/// are pending.
pub open spec fn flushes(s: SessionView, out: Seq<u8>, plan: Flush) -> bool {
    match plan {
        Flush::Payloads(key_id, parts) => out.len() > 0 && key_id == s.sending_key_id()
            && byte_lists(parts@) == pieces(out, MAX_TLS_PAYLOAD_PER_CONTROL as nat),
        Flush::Ack => out.len() == 0 && s.pending_acks.len() > 0,
        Flush::Nothing => out.len() == 0 && s.pending_acks.len() == 0,
    }
}

/// Decides what to do with the TLS bytes that are pending for a client.
pub fn plan_flush(sess: &Session, out: &[u8]) -> (plan: Flush)
    requires
        sess@.well_formed(),
    ensures
        flushes(sess@, out@, plan),
{
    if out.len() > 0 {
        let key_id: u8 = sending_key_id(sess);
        Flush::Payloads(key_id, chunks(out))
    } else if sess.pending_acks.len() > 0 {
        Flush::Ack
    } else {
        Flush::Nothing
    }
}

/// The id of the keys that data is sent with; 0 before there are any.
fn sending_key_id(sess: &Session) -> (r: u8)
    requires
        sess@.well_formed(),
    ensures
        r == sess@.sending_key_id(),
{
    match sess.active_slot() {
        Some(slot) => slot.key_id,
        None => 0,
    }
}

/// Drains the TLS bytes that are pending for a client, and decides what to do
/// with them. What they are is for the TLS implementation to say.
pub fn flush_outgoing(sess: &mut Session) -> (plan: Flush)
    requires
        old(sess)@.well_formed(),
    ensures
        final(sess)@ == (SessionView {
            tls: TlsView { conn: final(sess)@.tls.conn, ..old(sess)@.tls },
            ..old(sess)@
        }),
        same_input(final(sess)@.tls.conn, old(sess)@.tls.conn),
        tls_queued(final(sess)@.tls.conn) == tls_queued(old(sess)@.tls.conn),
        tls_delivered(final(sess)@.tls.conn) == tls_delivered(old(sess)@.tls.conn),
        tls_plaintext(final(sess)@.tls.conn) == tls_plaintext(old(sess)@.tls.conn),
        flushes(old(sess)@, tls_pending(old(sess)@.tls.conn), plan),
        tls_sent(final(sess)@.tls.conn) == tls_sent(old(sess)@.tls.conn) + tls_pending(
            old(sess)@.tls.conn,
        ),
{
    let out: Vec<u8> = sess.tls.take_outgoing();
    plan_flush(sess, out.as_slice())
}

/// Drains the TLS bytes that are pending for a client in a rekey: the key id
/// of the rekey and the payloads, if there are any.
pub fn flush_rekey_outgoing(sess: &mut Session) -> (r: Option<(u8, Vec<Vec<u8>>)>)
    ensures
        match old(sess)@.rekey {
            None => final(sess)@ == old(sess)@ && r is None,
            Some(rk) => final(sess)@.rekey is Some && final(sess)@ == (SessionView {
                rekey: Some(
                    crate::session::RekeyView {
                        tls: TlsView { conn: final(sess)@.rekey->0.tls.conn, ..rk.tls },
                        ..rk
                    },
                ),
                ..old(sess)@
            }) && same_input(final(sess)@.rekey->0.tls.conn, rk.tls.conn) && tls_queued(
                final(sess)@.rekey->0.tls.conn,
            ) == tls_queued(rk.tls.conn) && tls_delivered(final(sess)@.rekey->0.tls.conn)
                == tls_delivered(rk.tls.conn) && tls_plaintext(final(sess)@.rekey->0.tls.conn)
                == tls_plaintext(rk.tls.conn) && tls_sent(final(sess)@.rekey->0.tls.conn)
                == tls_sent(rk.tls.conn) + tls_pending(rk.tls.conn) && match r {
                Some((key_id, parts)) => tls_pending(rk.tls.conn).len() > 0 && key_id == rk.key_id
                    && byte_lists(parts@) == pieces(
                    tls_pending(rk.tls.conn),
                    MAX_TLS_PAYLOAD_PER_CONTROL as nat,
                ),
                None => tls_pending(rk.tls.conn).len() == 0,
            } && rekey_flushes(rk, r),
        },
{
    match &mut sess.rekey {
        None => None,
        Some(rk) => {
            let out: Vec<u8> = rk.tls.take_outgoing();
            let key_id: u8 = rk.key_id;
            if out.len() == 0 {
                None
            } else {
                Some((key_id, chunks(out.as_slice())))
            }
        },
    }
}

/// Makes, encodes and wraps the next control packet with TLS payload.
pub fn prepare_control(
    env: &ControlEnvelope,
    sess: &mut Session,
    key_id: u8,
    payload: Vec<u8>,
) -> (r: Result<Outgoing, EnvelopeError>)
    ensures
        final(sess)@ == env.after_wrap(old(sess)@.after_control()),
        r is Ok,
        carries(*env, old(sess)@, old(sess)@.control(key_id, payload@), r->Ok_0),
{
    let pkt = sess.make_control(key_id, payload);
    prepare(env, sess, &pkt)
}

/// Makes, encodes and wraps a packet that acknowledges what is pending.
pub fn prepare_ack(env: &ControlEnvelope, sess: &mut Session) -> (r: Result<
    Outgoing,
    EnvelopeError,
>)
    requires
        old(sess)@.well_formed(),
    ensures
        final(sess)@ == env.after_wrap(
            SessionView { pending_acks: Seq::empty(), ..old(sess)@ },
        ),
        r is Ok,
        carries(
            *env,
            old(sess)@,
            old(sess)@.pure_ack(old(sess)@.sending_key_id(), old(sess)@.pending_acks),
            r->Ok_0,
        ),
        carries(*env, old(sess)@, pending_ack(old(sess)@), r->Ok_0),
{
    let key_id: u8 = sending_key_id(sess);
    let pids: Vec<u32> = sess.take_pending_acks();
    let pkt = sess.make_ack(key_id, pids);
    prepare(env, sess, &pkt)
}

/// Starts the rekey that a client asked for, and prepares the answer. The
/// server's random values are drawn here.
pub fn answer_soft_reset(
    env: &ControlEnvelope,
    sess: &mut Session,
    key_id: u8,
    ack_pid: u32,
    tls: TlsSession,
) -> (r: Result<Outgoing, EnvelopeError>)
    ensures
        final(sess)@.rekey is Some,
        final(sess)@ == env.after_wrap(
            old(sess)@.rekeying(
                key_id,
                tls@,
                final(sess)@.rekey->0.server_random1,
                final(sess)@.rekey->0.server_random2,
            ).after_packet_id(),
        ),
        r is Ok,
        carries(
            *env,
            old(sess)@,
            old(sess)@.acking_control(OpCode::ControlSoftResetV1, key_id, ack_pid),
            r->Ok_0,
        ),
        ({
            let (after, answer) = soft_reset_answered(
                old(sess)@,
                key_id,
                ack_pid,
                tls@,
                final(sess)@.rekey->0.server_random1,
                final(sess)@.rekey->0.server_random2,
            );
            final(sess)@ == env.after_wrap(after) && carries(*env, old(sess)@, answer, r->Ok_0)
        }),
{
    sess.start_rekey(key_id, tls);
    let pkt = sess.make_soft_reset_reply(key_id, ack_pid);
    prepare(env, sess, &pkt)
}

/// Starts a rekey of the server's own accord, and prepares the request. The
/// clock for the next one starts at once, so that none is started before this
/// one had its chance.
pub fn begin_rekey(
    env: &ControlEnvelope,
    sess: &mut Session,
    key_id: u8,
    tls: TlsSession,
    now: u64,
) -> (r: Result<Outgoing, EnvelopeError>)
    ensures
        final(sess)@.rekey is Some,
        final(sess)@ == env.after_wrap(
            (SessionView {
                last_rekey_at: now,
                ..old(sess)@.rekeying(
                    key_id,
                    tls@,
                    final(sess)@.rekey->0.server_random1,
                    final(sess)@.rekey->0.server_random2,
                )
            }).after_packet_id(),
        ),
        r is Ok,
        carries(
            *env,
            old(sess)@,
            old(sess)@.bare_control(OpCode::ControlSoftResetV1, key_id),
            r->Ok_0,
        ),
        ({
            let (after, request) = rekey_begun(
                old(sess)@,
                key_id,
                tls@,
                final(sess)@.rekey->0.server_random1,
                final(sess)@.rekey->0.server_random2,
                now,
            );
            final(sess)@ == env.after_wrap(after) && carries(*env, old(sess)@, request, r->Ok_0)
        }),
{
    sess.start_rekey(key_id, tls);
    sess.last_rekey_at = now;
    let pkt = sess.make_soft_reset_init(key_id);
    prepare(env, sess, &pkt)
}

/// Whether at least `seconds` have passed from one time to another. A time
/// that is not later counts as no time passed.
pub open spec fn passed(from: u64, to: u64, seconds: u32) -> bool {
    (if to >= from {
        to - from
    } else {
        0
    }) >= seconds * 1_000_000_000
}

/// Whether at least `seconds` have passed from one time to another.
fn has_passed(from: u64, to: u64, seconds: u32) -> (r: bool)
    ensures
        r == passed(from, to, seconds),
{
    let elapsed: u64 = if to >= from {
        to - from
    } else {
        0
    };
    elapsed >= seconds as u64 * 1_000_000_000
}

/// Whether a client is to be dropped because nothing has come from it for
/// `timeout` seconds.
pub fn idle_expired(sess: &Session, now: u64, timeout: u32) -> (r: bool)
    ensures
        r == passed(sess@.last_seen, now, timeout),
        r == is_idle(sess@, now, timeout),
{
    has_passed(sess.last_seen, now, timeout)
}

/// The key id of a rekey that the server has to start: every `interval`
/// seconds on an established session that has none under way; never with an
/// interval of 0.
pub open spec fn due_rekey(s: SessionView, now: u64, interval: u32) -> Option<u8> {
    if interval > 0 && s.state == State::Established && s.rekey is None && passed(
        s.last_rekey_at,
        now,
        interval,
    ) {
        Some(((s.sending_key_id() + 1) % 8) as u8)
    } else {
        None
    }
}

/// The key id of a rekey that the server has to start now.
pub fn rekey_due(sess: &Session, now: u64, interval: u32) -> (r: Option<u8>)
    requires
        sess@.well_formed(),
    ensures
        r == due_rekey(sess@, now, interval),
{
    if interval > 0 && matches!(sess.state, State::Established) && sess.rekey.is_none()
        && has_passed(sess.last_rekey_at, now, interval) {
        let key_id: u8 = sending_key_id(sess);
        Some((key_id % 8 + 1) % 8)
    } else {
        None
    }
}

/// The key id of a rekey that the server starts fits its three bits and is not
/// the one in use.
pub proof fn law_rekey_takes_another_id(s: SessionView, now: u64, interval: u32)
    ensures
        due_rekey(s, now, interval) matches Some(key_id) ==> key_id < 8 && key_id != s.sending_key_id(),
{
}

/// Once a rekey has started or ended, the server starts none before the
/// interval is over.
pub proof fn law_rekeys_are_apart(s: SessionView, now: u64, later: u64, interval: u32)
    requires
        s.last_rekey_at == now,
        later < now + interval * 1_000_000_000,
    ensures
        due_rekey(s, later, interval) is None,
{
}

/// Seconds between pings: the configured ones, at least one.
pub fn ping_interval(seconds: u32) -> (r: u32)
    ensures
        r == if seconds == 0 {
            1
        } else {
            seconds
        },
        r == ping_every(seconds),
{
    if seconds == 0 {
        1
    } else {
        seconds
    }
}

/// The ping for a client, sealed as the next data packet; `None` for one whose
/// session is not established or has no keys.
pub fn ping_packet(sess: &mut Session) -> (r: Option<Result<Vec<u8>, SessionError>>)
    requires
        old(sess)@.well_formed(),
    ensures
        r is Some <==> old(sess)@.state == State::Established && old(sess)@.sending() is Some,
        r is Some <==> is_pinged(old(sess)@),
        match r {
            None => final(sess)@ == old(sess)@,
            Some(Ok(pkt)) => final(sess)@ == old(sess)@.after_data_packet() && old(
                sess,
            )@.data_packet(PING_PAYLOAD@) == Ok::<Seq<u8>, SessionError>(pkt@),
            Some(Err(e)) => final(sess)@ == old(sess)@.after_data_packet() && old(
                sess,
            )@.data_packet(PING_PAYLOAD@) == Err::<Seq<u8>, SessionError>(e),
        },
{
    if !matches!(sess.state, State::Established) || sess.active_slot().is_none() {
        return None;
    }
    Some(sess.build_data_packet(PING_PAYLOAD.as_slice()))
}

/// An IP packet for a client, sealed as the next data packet; `None` for a
/// client whose session has no keys.
pub fn tunnel_packet(sess: &mut Session, ip_pkt: &[u8]) -> (r: Option<
    Result<Vec<u8>, SessionError>,
>)
    requires
        old(sess)@.well_formed(),
    ensures
        r is Some <==> old(sess)@.sending() is Some,
        match r {
            None => final(sess)@ == old(sess)@,
            Some(Ok(pkt)) => final(sess)@ == old(sess)@.after_data_packet() && old(
                sess,
            )@.data_packet(ip_pkt@) == Ok::<Seq<u8>, SessionError>(pkt@),
            Some(Err(e)) => final(sess)@ == old(sess)@.after_data_packet() && old(
                sess,
            )@.data_packet(ip_pkt@) == Err::<Seq<u8>, SessionError>(e),
        },
{
    if sess.active_slot().is_none() {
        return None;
    }
    Some(sess.build_data_packet(ip_pkt))
}

/// The bytes of the message that asks a client to reconnect after a second.
pub open spec fn restart_bytes() -> Seq<u8> {
    vstd::utf8::encode_utf8("RESTART,1"@).push(0u8)
}

/// Queues the message that asks a client to reconnect, if its session is
/// established; whether it was queued.
pub fn queue_restart(sess: &mut Session) -> (r: Result<bool, TlsError>)
    ensures
        final(sess)@ == (SessionView {
            tls: TlsView { conn: final(sess)@.tls.conn, ..old(sess)@.tls },
            ..old(sess)@
        }),
        only_queued(old(sess)@.tls.conn, final(sess)@.tls.conn),
        match r {
            Ok(true) => old(sess)@.state == State::Established && tls_accepts(
                old(sess)@.tls.conn,
                restart_bytes().len(),
            ) && tls_queued(final(sess)@.tls.conn) == tls_queued(old(sess)@.tls.conn)
                + restart_bytes(),
            Ok(false) => old(sess)@.state != State::Established && final(sess)@ == old(sess)@,
            Err(e) => old(sess)@.state == State::Established && !tls_accepts(
                old(sess)@.tls.conn,
                restart_bytes().len(),
            ) && e == TlsError::WriteAll && queued_in_part(
                tls_queued(old(sess)@.tls.conn),
                restart_bytes(),
                final(sess)@.tls.conn,
            ),
        },
{
    if !matches!(sess.state, State::Established) {
        return Ok(false);
    }
    let mut msg: Vec<u8> = to_vec("RESTART,1".as_bytes());
    msg.push(0);
    match sess.tls.send_plaintext(msg.as_slice()) {
        Ok(()) => Ok(true),
        Err(e) => Err(e),
    }
}

/// A control packet is acknowledged and remembered as it should be: what a
/// client has received, it acknowledges, and the server then forgets it.
pub proof fn law_acknowledged_is_forgotten(
    s: SessionView,
    out: Outgoing,
    ctrl: ControlView,
    replay_pid: Option<u32>,
    sent: u64,
    now: u64,
)
    requires
        out.packet_id is Some,
        ctrl.acks.contains(out.packet_id->0),
    ensures
        forall|i: int|
            0 <= i < after_bookkeeping(
                after_outgoing(s, out, sent),
                ctrl,
                replay_pid,
                now,
            ).unacked.len() ==> (#[trigger] after_bookkeeping(
                after_outgoing(s, out, sent),
                ctrl,
                replay_pid,
                now,
            ).unacked[i]).packet_id != out.packet_id->0,
{
    let t = after_outgoing(s, out, sent);
    let left = after_bookkeeping(t, ctrl, replay_pid, now).unacked;
    assert forall|i: int| 0 <= i < left.len() implies (#[trigger] left[i]).packet_id
        != out.packet_id->0 by {
        crate::session::law_acks(t.unacked, ctrl.acks, left[i]);
        assert(left.contains(left[i]));
    }
}

/// No control packet in an envelope is taken twice: once a replay id was
/// accepted, it is turned away for ever, whatever arrives in between.
pub proof fn law_control_not_replayed(
    s: SessionView,
    ctrl: ControlView,
    pid: u32,
    now: u64,
    between: Seq<u32>,
)
    requires
        s.well_formed(),
    ensures
        !after_bookkeeping(s, ctrl, Some(pid), now).tls_auth_replay.after_all(between).accepts(pid),
{
    crate::replay::law_no_replay(s.tls_auth_replay, pid, between);
}

/// A client that is heard of stays: after a control packet that is no replay,
/// or a data packet that opens, it is not dropped before the timeout is over.
pub proof fn law_heard_clients_stay(
    s: SessionView,
    ctrl: ControlView,
    replay_pid: Option<u32>,
    pkt: Seq<u8>,
    now: u64,
    later: u64,
    timeout: u32,
)
    requires
        now <= later < now + timeout * 1_000_000_000,
    ensures
        !passed(after_bookkeeping(s, ctrl, replay_pid, now).last_seen, later, timeout),
        s.opened_data(pkt) is Ok ==> !passed(s.after_data(pkt, now).last_seen, later, timeout),
{
}

/// Packets reach the channel that they are for: a control packet is dispatched
/// as such in whatever envelope, and so is a data packet, which is routed to
/// the peer whose id it carries.
pub proof fn law_packets_reach_their_channel(
    env: ControlEnvelope,
    p: ControlView,
    pid: u32,
    ts: u32,
    data: DataView,
)
    requires
        !p.op.carries_data(),
        data.key_id < 8,
        data.peer_id < 0x100_0000,
    ensures
        env.wrapped(control_bytes(p), pid, ts) matches Ok(wire) && inbound_of(wire)
            == Inbound::Control,
        inbound_of(data_bytes(data)) == Inbound::Data,
        data_of(data_bytes(data)) matches Ok(read) && read.peer_id == data.peer_id,
{
    let inner = control_bytes(p);
    lemma_be_bytes_len(p.session_id as nat, 8);
    lemma_codes(p.op, p.op);
    assert(inner[0] == first_byte(p.op, p.key_id));
    assert(inner[0] / 8 == p.op.code());
    let wire = env.wrapped(inner, pid, ts)->Ok_0;
    assert(wire[0] == inner[0]);
    lemma_codes(OpCode::DataV2, OpCode::DataV2);
    law_data_parse_of_encode(data);
}

/// A datagram is told by the upper five bits of its first byte: 6 and 9 are
/// data, the other numbers from 1 to 11 are control, and anything else is
/// neither; what follows makes no difference.
pub proof fn law_dispatch(first: u8, rest: Seq<u8>)
    ensures
        inbound_of(seq![first] + rest) == if first >> 3 == 6 || first >> 3 == 9 {
            Inbound::Data
        } else if 1 <= first >> 3 <= 11 {
            Inbound::Control
        } else {
            Inbound::Unknown
        },
        inbound_of(Seq::empty()) == Inbound::Unknown,
{
    let pkt = seq![first] + rest;
    assert(pkt[0] == first);
    assert(first >> 3 == first / 8) by (bit_vector);
    crate::protocol::law_control_refusals(pkt);
    if let Some(op) = opcode_of(first / 8) {
        lemma_codes(op, op);
        assert(op.code() == first / 8);
    }
}

/// What a control packet means to the table of sessions.
pub open spec fn admission_of(op: OpCode, known: bool) -> Admission {
    if known {
        Admission::Known
    } else if asks_for_session(op) {
        Admission::Open
    } else {
        Admission::Stranger
    }
}

/// Whoever has a session is known by it, whatever is sent. A stranger gets one
/// for a hard reset of a client, in any of its three forms, and for nothing
/// else.
pub proof fn law_admission(op: OpCode, known: bool)
    ensures
        admission_of(op, true) == Admission::Known,
        admission_of(op, false) == Admission::Open <==> op.code() == 1 || op.code() == 7
            || op.code() == 10,
        admission_of(op, false) == Admission::Open || admission_of(op, false)
            == Admission::Stranger,
{
}

/// A client's hard reset opens its session: the answer is a hard reset of the
/// server under key id 0 that acknowledges the client's packet and names both
/// sessions; the handshake is due, and the replay id of the packet is spent.
pub proof fn law_session_opens(s: SessionView, ctrl: ControlView, pid: u32, id: u32)
    requires
        s.tls_auth_replay.well_formed(),
    ensures
        ({
            let t = opened(s, ctrl, Some(pid));
            let plain = opened(s, ctrl, None);
            let reply = t.acking_control(OpCode::ControlHardResetServerV2, 0, id_or_zero(ctrl));
            &&& t.client_session_id == ctrl.session_id && t.state is Handshaking
            &&& t == (SessionView { tls_auth_replay: t.tls_auth_replay, ..plain })
            &&& plain == (SessionView {
                client_session_id: ctrl.session_id,
                state: State::Handshaking,
                ..s
            })
            &&& !t.tls_auth_replay.accepts(pid)
            &&& ctrl.packet_id == Some(id) ==> reply.acks.len() == 1 && reply.acks[0] == id
            &&& ctrl.packet_id is None ==> reply.acks.len() == 1 && reply.acks[0] == 0
            &&& reply.remote_session_id == Some(ctrl.session_id) && reply.session_id
                == s.server_session_id
            &&& reply.op.code() == 8 && reply.key_id == 0 && reply.packet_id == Some(
                s.next_packet_id,
            ) && reply.payload.len() == 0
        }),
{
    crate::replay::law_no_replay(s.tls_auth_replay, pid, Seq::empty());
}

/// While a rekey is under way, wherever it stands, every packet of TLS bytes
/// under its key id is for the rekey's connection, and every one under another
/// key id for the main one; without a rekey all are for the main one. Nothing
/// else of the session, of the packet or of the rekey makes a difference, and
/// no other kind of packet is for either.
pub proof fn law_tls_bytes_reach_their_connection(s: SessionView, ctrl: ControlView)
    ensures
        ctrl.op is ControlV1 ==> (action_of(s, ctrl) == ControlAction::FeedRekey <==> s.rekey is Some
            && s.rekey->0.key_id == ctrl.key_id),
        ctrl.op is ControlV1 ==> (action_of(s, ctrl) == ControlAction::FeedMain <==> s.rekey is None
            || s.rekey->0.key_id != ctrl.key_id),
        !(ctrl.op is ControlV1) ==> action_of(s, ctrl) != ControlAction::FeedMain && action_of(
            s,
            ctrl,
        ) != ControlAction::FeedRekey,
{
}

/// A soft reset of the client starts a rekey under the id that it names, and
/// is acknowledged, on every established session that has none under way; on
/// any other it is ignored, and no other packet starts one.
pub proof fn law_soft_reset_starts_rekey(s: SessionView, ctrl: ControlView, pid: u32)
    ensures
        ctrl.op is ControlSoftResetV1 && s.rekey is None && s.state is Established
            && ctrl.packet_id == Some(pid) ==> action_of(s, ctrl) == ControlAction::StartRekey(
            ctrl.key_id,
            pid,
        ),
        ctrl.op is ControlSoftResetV1 && (s.rekey is Some || !(s.state is Established))
            ==> action_of(s, ctrl) == ControlAction::Nothing,
        action_of(s, ctrl) is StartRekey ==> ctrl.op is ControlSoftResetV1,
        !(ctrl.op is ControlV1) && !(ctrl.op is ControlSoftResetV1) ==> action_of(s, ctrl)
            == ControlAction::Nothing,
{
}

/// The bookkeeping of a control packet leaves a rekey, the keys, the state and
/// both connections alone, so that it does not change where the packet goes;
/// the client was heard of, its acknowledgements count, and its own id is to be
/// acknowledged unless it was received before.
pub proof fn law_bookkeeping(
    s: SessionView,
    ctrl: ControlView,
    replay_pid: Option<u32>,
    now: u64,
    u: UnackedView,
)
    ensures
        ({
            let t = after_bookkeeping(s, ctrl, replay_pid, now);
            &&& t == (SessionView {
                last_seen: now,
                tls_auth_replay: t.tls_auth_replay,
                unacked: t.unacked,
                received_pids: t.received_pids,
                pending_acks: t.pending_acks,
                ..s
            })
            &&& action_of(t, ctrl) == action_of(s, ctrl)
            &&& t.unacked.contains(u) <==> s.unacked.contains(u) && !ctrl.acks.contains(
                u.packet_id,
            )
            &&& replay_pid is None ==> t.tls_auth_replay == s.tls_auth_replay
            &&& replay_pid matches Some(id) ==> t.tls_auth_replay == s.tls_auth_replay.after(id)
            &&& ctrl.packet_id is None ==> t.received_pids == s.received_pids && t.pending_acks
                == s.pending_acks
            &&& ctrl.packet_id matches Some(id) ==> t.received_pids.contains(id) && t.pending_acks
                == if s.received_pids.contains(id) {
                s.pending_acks
            } else {
                s.pending_acks.push(id)
            }
            &&& is_replay(s, replay_pid) <==> replay_pid is Some && !s.tls_auth_replay.accepts(
                replay_pid->0,
            )
        }),
{
    crate::session::law_acks(s.unacked, ctrl.acks, u);
}

/// What was prepared arrives: an end that receives from the envelope unwraps
/// it, with the replay id of the session, to the bytes that were kept for a
/// retransmit, and reads the packet from them.
pub proof fn law_prepared_arrives(
    env: ControlEnvelope,
    receiver: ControlEnvelope,
    s: SessionView,
    p: ControlView,
    out: Outgoing,
)
    requires
        receiver.receives_from(env),
        p.well_formed(),
        carries(env, s, p, out),
    ensures
        out.packet_id == p.packet_id,
        receiver.unwrapped(out.wire@) == Ok::<(Seq<u8>, Option<u32>), EnvelopeError>(
            (
                out.encoded@,
                if env is Plain {
                    None
                } else {
                    Some(s.tls_auth_pid_out)
                },
            ),
        ),
        crate::protocol::control_of(out.encoded@) == Ok::<
            ControlView,
            crate::protocol::PacketError,
        >(p),
{
    lemma_be_bytes_len(p.session_id as nat, 8);
    let ts = choose|ts: u32|
        #[trigger] env.wrapped(control_bytes(p), s.tls_auth_pid_out, ts) == Ok::<
            Seq<u8>,
            EnvelopeError,
        >(out.wire@);
    crate::envelope::law_round_trip(env, receiver, control_bytes(p), s.tls_auth_pid_out, ts);
    crate::protocol::law_parse_of_encode(p);
}

/// A prepared packet is remembered if it has an id, as its inner bytes, so that
/// it can be wrapped afresh; an acknowledgement alone is not.
pub proof fn law_prepared_is_remembered(s: SessionView, out: Outgoing, now: u64)
    ensures
        out.packet_id is None ==> after_outgoing(s, out, now) == s,
        out.packet_id matches Some(id) ==> {
            let t = after_outgoing(s, out, now);
            t.unacked.len() == s.unacked.len() + 1 && t.unacked.last().encoded == out.encoded@
                && t.unacked.last().packet_id == id && t.unacked.last().sent_at == now
        },
{
}

/// TLS bytes are cut into payloads of 1100 bytes, but for the last one, which
/// has what is left; so no more payloads are sent than needed.
pub proof fn law_payloads_are_full(s: Seq<u8>, i: int)
    requires
        0 <= i < pieces(s, MAX_TLS_PAYLOAD_PER_CONTROL as nat).len() - 1,
    ensures
        pieces(s, MAX_TLS_PAYLOAD_PER_CONTROL as nat)[i] == s.subrange(1100 * i, 1100 * i + 1100),
        1100 * i + 1100 < s.len(),
    decreases s.len(),
{
    let n = MAX_TLS_PAYLOAD_PER_CONTROL as nat;
    let all = pieces(s, n);
    let rest = s.skip(n as int);
    if i == 0 {
        assert(s.take(1100) =~= s.subrange(0, 1100));
    } else {
        assert(all[i] == pieces(rest, n)[i - 1]);
        law_payloads_are_full(rest, i - 1);
        assert(rest.subrange(1100 * (i - 1), 1100 * (i - 1) + 1100) =~= s.subrange(
            1100 * i,
            1100 * i + 1100,
        ));
    }
}

/// What is sent on a control channel: all TLS bytes that are pending, none lost
/// and in order, under the key id in use; without any, the acknowledgements
/// that are due, if there are some.
pub proof fn law_flush(s: SessionView, out: Seq<u8>, plan: Flush)
    requires
        flushes(s, out, plan),
    ensures
        out.len() > 0 <==> plan is Payloads,
        plan matches Flush::Payloads(key_id, parts) ==> joined(byte_lists(parts@)) == out && key_id
            == (match s.slots[s.active] {
            Some(slot) => slot.key_id,
            None => 0,
        }),
        plan is Ack <==> out.len() == 0 && s.pending_acks.len() > 0,
        plan is Nothing <==> out.len() == 0 && s.pending_acks.len() == 0,
{
    law_pieces(out, MAX_TLS_PAYLOAD_PER_CONTROL as nat);
}

/// Time passes in nanoseconds, and a clock that has gone back counts as no time
/// passed.
pub proof fn law_time_passes(from: u64, to: u64, seconds: u32)
    ensures
        from <= to ==> (passed(from, to, seconds) <==> from + seconds * 1_000_000_000 <= to),
        to < from ==> (passed(from, to, seconds) <==> seconds == 0),
{
}

/// The server starts a rekey on every established session that has none under
/// way once the interval is over, and on no other, under the key id that
/// follows the one in use, with 0 after 7; never with an interval of 0.
pub proof fn law_rekey_is_due(s: SessionView, now: u64, interval: u32)
    requires
        s.last_rekey_at <= now,
    ensures
        due_rekey(s, now, interval) is Some <==> interval > 0 && s.state is Established
            && s.rekey is None && s.last_rekey_at + interval * 1_000_000_000 <= now,
        due_rekey(s, now, interval) matches Some(key_id) ==> (s.slots[s.active] is None ==> key_id
            == 1) && (s.slots[s.active] matches Some(slot) ==> (slot.key_id < 7 ==> key_id
            == slot.key_id + 1) && (slot.key_id == 7 ==> key_id == 0)),
{
}

/// The message that asks a client to reconnect: `RESTART,1` and a NUL.
pub proof fn law_restart_message()
    ensures
        crate::control_channel::ascii_of(restart_bytes()) == Some(("RESTART,1"@, 10int)),
{
    let text = "RESTART,1"@;
    reveal_strlit("RESTART,1");
    vstd::utf8::is_ascii_chars_encode_utf8(text);
    let bytes = vstd::utf8::encode_utf8(text);
    assert forall|i: int| 0 <= i < bytes.len() implies bytes[i] != 0u8 by {
        assert(bytes[i] == text[i] as u8);
    }
    crate::control_channel::law_ascii_round_trip(text, Seq::empty());
    assert(bytes.push(0u8) + Seq::<u8>::empty() =~= bytes.push(0u8));
}

/// A client that has completed the handshake of a rekey and sends its packet
/// under the rekey's key id ends the rekey: the packet is for the rekey's
/// connection, and once the server's answer is sent, data is sent with keys of
/// that id, while the keys in use until then, under their own id, still open
/// what arrives late. `s` is the session with the packet's bytes arrived.
pub proof fn law_rekey_completes(s: SessionView, ctrl: ControlView, now: u64)
    requires
        s.well_formed(),
        s.rekey is Some,
        s.rekey->0.state is KeyExchange,
        ctrl.op is ControlV1,
        ctrl.key_id == s.rekey->0.key_id,
        crate::control_channel::client_key_of(s.rekey->0.tls.plaintext) matches Ok(Some(_)),
        s.sending() is Some,
        s.sending()->0.key_id != ctrl.key_id,
    ensures
        action_of(s, ctrl) == ControlAction::FeedRekey,
        crate::control_plane::rekey_step(s).1 is Replied,
        ({
            let t = crate::control_plane::rekey_finished(
                crate::control_plane::rekey_step(s).0,
                now,
            );
            &&& t.rekey is None
            &&& t.sending() matches Some(slot) && slot.key_id == ctrl.key_id
            &&& t.slots[s.active] == s.slots[s.active]
        }),
{
    crate::control_plane::law_rekey_switches_keys(s, now);
}

/// What taking a control packet of a known client comes to: the session after
/// it, and what it asks for.
pub open spec fn control_received(
    s: SessionView,
    ctrl: ControlView,
    replay_pid: Option<u32>,
    now: u64,
) -> (SessionView, Result<ControlAction, ServerError>) {
    if is_replay(s, replay_pid) {
        (
            SessionView { last_seen: now, ..s },
            Err(ServerError::ReplayRejected(replay_pid->0)),
        )
    } else {
        let t = after_bookkeeping(s, ctrl, replay_pid, now);
        (t, Ok(action_of(t, ctrl)))
    }
}

/// A control packet of a known client is refused exactly if its envelope's
/// replay id was seen or is too old; it then changes nothing but the time of
/// the last packet. Any other one, a packet received before among them, has its
/// acknowledgements taken and goes where its kind and key id say.
pub proof fn law_control_is_received(
    s: SessionView,
    ctrl: ControlView,
    replay_pid: Option<u32>,
    now: u64,
    u: UnackedView,
)
    ensures
        ({
            let (t, r) = control_received(s, ctrl, replay_pid, now);
            &&& r is Err <==> replay_pid is Some && !s.tls_auth_replay.accepts(replay_pid->0)
            &&& r is Err ==> t == (SessionView { last_seen: now, ..s }) && r == Err::<
                ControlAction,
                ServerError,
            >(ServerError::ReplayRejected(replay_pid->0))
            &&& r is Ok ==> t.last_seen == now && (t.unacked.contains(u) <==> s.unacked.contains(u)
                && !ctrl.acks.contains(u.packet_id)) && t.rekey == s.rekey && t.state == s.state
                && t.slots == s.slots && t.tls == s.tls
            &&& r is Ok && ctrl.packet_id is Some ==> t.received_pids.contains(ctrl.packet_id->0)
            &&& r is Ok && ctrl.op is ControlV1 ==> r == Ok::<ControlAction, ServerError>(
                if s.rekey is Some && s.rekey->0.key_id == ctrl.key_id {
                    ControlAction::FeedRekey
                } else {
                    ControlAction::FeedMain
                },
            )
        }),
{
    law_bookkeeping(s, ctrl, replay_pid, now, u);
}

/// The session of a client that asked for it, and the answer.
pub open spec fn session_opened(s: SessionView, ctrl: ControlView, replay_pid: Option<u32>) -> (
    SessionView,
    ControlView,
) {
    let t = opened(s, ctrl, replay_pid);
    (
        t.after_packet_id(),
        t.acking_control(OpCode::ControlHardResetServerV2, 0, id_or_zero(ctrl)),
    )
}

/// The answer to a client that asks for a session is a hard reset of the
/// server, under key id 0, with the session's first unused packet id, which it
/// spends; it acknowledges the client's packet.
pub proof fn law_hard_reset_is_answered(
    s: SessionView,
    ctrl: ControlView,
    replay_pid: Option<u32>,
    id: u32,
)
    requires
        ctrl.packet_id == Some(id),
        s.next_packet_id < u32::MAX,
    ensures
        ({
            let (t, reply) = session_opened(s, ctrl, replay_pid);
            &&& t.next_packet_id == s.next_packet_id + 1 && t.state is Handshaking
            &&& t.client_session_id == ctrl.session_id
            &&& reply.op.code() == 8 && reply.key_id == 0 && reply.packet_id == Some(
                s.next_packet_id,
            )
            &&& reply.acks == seq![id] && reply.remote_session_id == Some(ctrl.session_id)
            &&& reply.session_id == s.server_session_id && reply.well_formed()
        }),
{
}

/// The packet that acknowledges what is pending.
pub open spec fn pending_ack(s: SessionView) -> ControlView {
    s.pure_ack(s.sending_key_id(), s.pending_acks)
}

/// An acknowledgement alone names all that is pending, in order, under the key
/// id in use, and has no id of its own.
pub proof fn law_acknowledgement_alone(s: SessionView)
    ensures
        ({
            let p = pending_ack(s);
            &&& p.op.code() == 5 && p.acks == s.pending_acks && p.packet_id is None
                && p.payload.len() == 0
            &&& p.session_id == s.server_session_id && p.remote_session_id == Some(
                s.client_session_id,
            )
            &&& p.key_id == (match s.slots[s.active] {
                Some(slot) => slot.key_id,
                None => 0,
            })
            &&& 0 < s.pending_acks.len() < 256 && p.key_id < 8 ==> p.well_formed()
        }),
{
}

/// The session after a soft reset of the client was answered, without the
/// envelope, and the answer.
pub open spec fn soft_reset_answered(
    s: SessionView,
    key_id: u8,
    ack_pid: u32,
    tls: TlsView,
    random1: Seq<u8>,
    random2: Seq<u8>,
) -> (SessionView, ControlView) {
    (
        s.rekeying(key_id, tls, random1, random2).after_packet_id(),
        s.acking_control(OpCode::ControlSoftResetV1, key_id, ack_pid),
    )
}

/// The session after the server has begun a rekey, without the envelope, and
/// its request.
pub open spec fn rekey_begun(
    s: SessionView,
    key_id: u8,
    tls: TlsView,
    random1: Seq<u8>,
    random2: Seq<u8>,
    now: u64,
) -> (SessionView, ControlView) {
    (
        (SessionView { last_rekey_at: now, ..s.rekeying(key_id, tls, random1, random2) })
            .after_packet_id(),
        s.bare_control(OpCode::ControlSoftResetV1, key_id),
    )
}

/// A rekey begins with a soft reset under its key id from either side. The
/// server's answer acknowledges the client's; its own request acknowledges
/// nothing, and starts the clock. The packet id is spent, the rekey is at its
/// handshake, and the keys, the state and the main connection stay.
pub proof fn law_rekey_begins(
    s: SessionView,
    key_id: u8,
    ack_pid: u32,
    tls: TlsView,
    random1: Seq<u8>,
    random2: Seq<u8>,
    now: u64,
)
    ensures
        ({
            let (t, p) = soft_reset_answered(s, key_id, ack_pid, tls, random1, random2);
            &&& p.op.code() == 3 && p.key_id == key_id && p.acks == seq![ack_pid] && p.packet_id
                == Some(s.next_packet_id)
            &&& p.remote_session_id == Some(s.client_session_id)
            &&& t == (SessionView { rekey: t.rekey, next_packet_id: t.next_packet_id, ..s })
            &&& s.next_packet_id < u32::MAX ==> t.next_packet_id == s.next_packet_id + 1
            &&& t.rekey matches Some(rk) && rk.key_id == key_id && rk.state is Handshaking
                && !rk.key_method_sent && rk.tls == tls
        }),
        ({
            let (t, p) = rekey_begun(s, key_id, tls, random1, random2, now);
            &&& p.op.code() == 3 && p.key_id == key_id && p.acks.len() == 0 && p.packet_id == Some(
                s.next_packet_id,
            )
            &&& t == (SessionView {
                rekey: t.rekey,
                next_packet_id: t.next_packet_id,
                last_rekey_at: now,
                ..s
            })
            &&& s.next_packet_id < u32::MAX ==> t.next_packet_id == s.next_packet_id + 1
            &&& t.rekey matches Some(rk) && rk.key_id == key_id && rk.state is Handshaking
                && !rk.key_method_sent && rk.tls == tls
        }),
{
}

/// Whether `r` says what there is to send in a rekey: the TLS bytes that are
/// pending on its connection, cut into payloads, with its key id.
pub open spec fn rekey_flushes(
    rk: crate::session::RekeyView,
    r: Option<(u8, Vec<Vec<u8>>)>,
) -> bool {
    match r {
        Some((key_id, parts)) => tls_pending(rk.tls.conn).len() > 0 && key_id == rk.key_id
            && byte_lists(parts@) == pieces(
            tls_pending(rk.tls.conn),
            MAX_TLS_PAYLOAD_PER_CONTROL as nat,
        ),
        None => tls_pending(rk.tls.conn).len() == 0,
    }
}

/// All TLS bytes of a rekey are sent, in order, under its own key id.
pub proof fn law_rekey_flush(rk: crate::session::RekeyView, r: Option<(u8, Vec<Vec<u8>>)>)
    requires
        rekey_flushes(rk, r),
    ensures
        r is Some <==> tls_pending(rk.tls.conn).len() > 0,
        r matches Some((key_id, parts)) ==> key_id == rk.key_id && joined(byte_lists(parts@))
            == tls_pending(rk.tls.conn),
{
    law_pieces(tls_pending(rk.tls.conn), MAX_TLS_PAYLOAD_PER_CONTROL as nat);
}

/// The id of the peer that is the `counter`-th one.
pub open spec fn peer_id_at(counter: u32) -> u32 {
    counter % 0x100_0000
}

/// Peer ids fit the three bytes that they have on the wire; two clients have
/// the same only if as many as fit there lie between them.
pub proof fn law_peer_ids(a: u32, b: u32)
    ensures
        peer_id_at(a) < 0x100_0000,
        a < 0x100_0000 ==> peer_id_at(a) == a,
        a < b < a + 0x100_0000 ==> peer_id_at(a) != peer_id_at(b),
{
}

/// Seconds between pings.
pub open spec fn ping_every(seconds: u32) -> u32 {
    if seconds == 0 {
        1
    } else {
        seconds
    }
}

/// Pings come as often as configured, and never without a pause.
pub proof fn law_ping_interval(seconds: u32)
    ensures
        seconds > 0 ==> ping_every(seconds) == seconds,
        ping_every(0) == 1,
{
}

/// Whether a client is pinged.
pub open spec fn is_pinged(s: SessionView) -> bool {
    s.state == State::Established && s.sending() is Some
}

/// Every established session that has keys to send with is pinged, and no
/// other, with the sixteen bytes that the protocol has for it.
pub proof fn law_ping(s: SessionView)
    ensures
        is_pinged(s) <==> s.state is Established && s.slots[s.active] is Some,
        PING_PAYLOAD@ == seq![
            0x2au8,
            0x18,
            0x7b,
            0xf3,
            0x64,
            0x1e,
            0xb4,
            0xcb,
            0x07,
            0xed,
            0x2d,
            0x0a,
            0x98,
            0x1f,
            0xc7,
            0x48,
        ],
{
    assert(PING_PAYLOAD@ =~= seq![
        0x2au8,
        0x18,
        0x7b,
        0xf3,
        0x64,
        0x1e,
        0xb4,
        0xcb,
        0x07,
        0xed,
        0x2d,
        0x0a,
        0x98,
        0x1f,
        0xc7,
        0x48,
    ]);
}

/// The peer that a data packet claims to come from.
pub open spec fn claimed_peer(pkt: Seq<u8>) -> Option<u32> {
    match data_of(pkt) {
        Ok(data) => Some(data.peer_id),
        Err(_) => None,
    }
}

/// A data packet is for the session whose peer id stands in its bytes 1 to 3,
/// most significant first, whatever its key id; no other packet claims one.
pub proof fn law_claimed_peer(pkt: Seq<u8>)
    ensures
        claimed_peer(pkt) == if pkt.len() >= 8 && pkt[0] >> 3 == 9 {
            Some((pkt[1] * 0x1_0000 + pkt[2] * 0x100 + pkt[3]) as u32)
        } else {
            None
        },
{
    crate::protocol::law_data_layout(pkt);
}

/// Whether a client is to be dropped because nothing has come from it for
/// `timeout` seconds.
pub open spec fn is_idle(s: SessionView, now: u64, timeout: u32) -> bool {
    passed(s.last_seen, now, timeout)
}

/// A client is dropped once the timeout has passed since it was last heard of,
/// to the nanosecond, and not before.
pub proof fn law_idle(s: SessionView, now: u64, timeout: u32)
    requires
        s.last_seen <= now,
    ensures
        is_idle(s, now, timeout) <==> s.last_seen + timeout * 1_000_000_000 <= now,
{
}

} // verus!
