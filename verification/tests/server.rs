//! Dispatch, admission, envelopes and timers.

use std::sync::Arc;

use javs::control_plane::ServerError;
use javs::crypto::{DataCipher, KEYMAT_LEN};
use javs::envelope::{timestamp_of, unix_timestamp_u32, ControlEnvelope, EnvelopeError};
use javs::protocol::{ControlPacket, OpCode};
use javs::replay::ReplayWindow;
use javs::server::{
    admission, answer_soft_reset, begin_rekey, chunks, dispatch, flush_outgoing,
    flush_rekey_outgoing, idle_expired, open_session, peer_id_of, ping_interval, ping_packet,
    plan_flush, prepare, prepare_ack, prepare_control, queue_restart, random_session_id,
    receive_control, record_outgoing, rekey_due, route_data, session_id_of, tunnel_packet,
    Admission, ControlAction, Flush, Inbound,
};
use javs::session::{KeySlot, Session, State, CONTROL_BASE_RTO, MAX_TLS_PAYLOAD_PER_CONTROL};
use javs::tls::{TlsError, TlsSession};
use javs::tls_auth::TlsAuthError;
use javs::tls_crypt::TlsCryptError;
use rustls::crypto::ring::default_provider;
use rustls::server::ResolvesServerCertUsingSni;

const SECOND: u64 = 1_000_000_000;

fn tls() -> TlsSession {
    let cfg = rustls::ServerConfig::builder_with_provider(Arc::new(default_provider()))
        .with_safe_default_protocol_versions()
        .unwrap()
        .with_no_client_auth()
        .with_cert_resolver(Arc::new(ResolvesServerCertUsingSni::new()));
    TlsSession::new(Arc::new(cfg)).unwrap()
}

fn session() -> Session {
    Session::with_randoms(0x1122, tls(), 3, [1; 32], [2; 32], 0)
}

fn keyed(key_id: u8) -> Session {
    let mut s = session();
    s.state = State::Established;
    s.slots[0] = Some(KeySlot {
        key_id,
        cipher: DataCipher::from_keymat_server(&[7; KEYMAT_LEN]),
        data_pid_out: 1,
        replay: ReplayWindow::new(),
    });
    s
}

fn control(op: OpCode, key_id: u8, acks: Vec<u32>, packet_id: Option<u32>) -> ControlPacket {
    let remote_session_id = if acks.is_empty() { None } else { Some(0x1122) };
    ControlPacket {
        op,
        key_id,
        session_id: 0x99,
        acks,
        remote_session_id,
        packet_id,
        payload: Vec::new(),
    }
}

#[test]
fn datagrams_are_dispatched_by_their_first_byte() {
    assert_eq!(dispatch(&[]), Inbound::Unknown);
    assert_eq!(dispatch(&[0]), Inbound::Unknown);
    assert_eq!(dispatch(&[31 << 3]), Inbound::Unknown);
    assert_eq!(dispatch(&[9 << 3 | 5]), Inbound::Data);
    assert_eq!(dispatch(&[6 << 3]), Inbound::Data);
    assert_eq!(dispatch(&[4 << 3 | 1, 2, 3]), Inbound::Control);
    assert_eq!(dispatch(&[7 << 3]), Inbound::Control);
    let mut pkt = vec![9 << 3 | 1, 0xAA, 0xBB, 0xCC];
    pkt.extend_from_slice(&[0; 40]);
    assert_eq!(route_data(&pkt), Some(0xAABBCC));
    assert_eq!(route_data(&pkt[..3]), None);
    pkt[0] = 6 << 3;
    assert_eq!(route_data(&pkt), None);
}

#[test]
fn only_hard_resets_open_sessions() {
    for op in [
        OpCode::ControlHardResetClientV1,
        OpCode::ControlHardResetClientV2,
        OpCode::ControlHardResetClientV3,
    ] {
        assert_eq!(admission(op, false), Admission::Open);
        assert_eq!(admission(op, true), Admission::Known);
    }
    assert_eq!(admission(OpCode::ControlV1, false), Admission::Stranger);
    assert_eq!(admission(OpCode::AckV1, true), Admission::Known);
    assert_eq!(admission(OpCode::ControlHardResetServerV2, false), Admission::Stranger);
}

#[test]
fn peer_and_session_ids() {
    assert_eq!(peer_id_of(1), 1);
    assert_eq!(peer_id_of(0x0200_0005), 5);
    assert_eq!(session_id_of(&[1, 2, 3, 4, 5, 6, 7, 8]), 0x0102_0304_0506_0708);
    assert_ne!(random_session_id(), random_session_id());
}

#[test]
fn the_hard_reset_is_answered() {
    let mut s = session();
    let ctrl = control(OpCode::ControlHardResetClientV2, 0, vec![], Some(6));
    let reply = open_session(&mut s, &ctrl, Some(1));
    assert_eq!((s.state, s.client_session_id), (State::Handshaking, 0x99));
    assert_eq!(reply.op, OpCode::ControlHardResetServerV2);
    assert_eq!((reply.acks, reply.remote_session_id), (vec![6], Some(0x99)));
    assert_eq!(reply.packet_id, Some(0));
    // The replay id that came with it is spent.
    let again = control(OpCode::ControlV1, 0, vec![], Some(7));
    assert_eq!(
        receive_control(&mut s, &again, Some(1), 9),
        Err(ServerError::ReplayRejected(1))
    );
    assert_eq!((s.last_seen, s.pending_acks.len()), (9, 0));
    assert_eq!(receive_control(&mut s, &again, Some(2), 10), Ok(ControlAction::FeedMain));
    assert_eq!(s.pending_acks, vec![7]);
}

#[test]
fn control_packets_are_booked_and_routed() {
    let mut s = keyed(0);
    s.record_sent(0, vec![1], 0);
    s.record_sent(1, vec![2], 0);
    let ack = control(OpCode::AckV1, 0, vec![0], None);
    assert_eq!(receive_control(&mut s, &ack, None, 5), Ok(ControlAction::Nothing));
    assert_eq!((s.unacked.len(), s.unacked[0].packet_id, s.last_seen), (1, 1, 5));
    let soft = control(OpCode::ControlSoftResetV1, 3, vec![], Some(4));
    assert_eq!(receive_control(&mut s, &soft, None, 6), Ok(ControlAction::StartRekey(3, 4)));
    s.start_rekey(3, tls());
    assert_eq!(receive_control(&mut s, &soft, None, 7), Ok(ControlAction::Nothing));
    let data = control(OpCode::ControlV1, 3, vec![], Some(5));
    assert_eq!(receive_control(&mut s, &data, None, 8), Ok(ControlAction::FeedRekey));
    let data = control(OpCode::ControlV1, 0, vec![], Some(6));
    assert_eq!(receive_control(&mut s, &data, None, 8), Ok(ControlAction::FeedMain));
    // Each id is to be acknowledged once.
    assert_eq!(s.pending_acks, vec![4, 5, 6]);
    let mut s = session();
    assert_eq!(receive_control(&mut s, &soft, None, 1), Ok(ControlAction::Nothing));
}

#[test]
fn payloads_fit_control_packets() {
    let n = MAX_TLS_PAYLOAD_PER_CONTROL;
    assert!(chunks(&[]).is_empty());
    let bytes: Vec<u8> = (0..2 * n + 5).map(|i| i as u8).collect();
    let parts = chunks(&bytes);
    let lens: Vec<usize> = parts.iter().map(Vec::len).collect();
    assert_eq!(lens, vec![n, n, 5]);
    assert_eq!(parts.concat(), bytes);
    assert_eq!(chunks(&bytes[..n]).len(), 1);
}

#[test]
fn acknowledgements_go_out_alone_if_nothing_else_does() {
    let mut s = keyed(2);
    assert!(matches!(flush_outgoing(&mut s), Flush::Nothing));
    s.note_received(8, 0);
    assert!(matches!(flush_outgoing(&mut s), Flush::Ack));
    let out = prepare_ack(&ControlEnvelope::Plain, &mut s).unwrap();
    let pkt = ControlPacket::parse(&out.wire).unwrap();
    assert_eq!((pkt.op, pkt.key_id, pkt.acks), (OpCode::AckV1, 2, vec![8]));
    assert_eq!(out.packet_id, None);
    record_outgoing(&mut s, out, 0);
    assert!(s.unacked.is_empty() && s.pending_acks.is_empty());
    s.note_received(9, 0);
    match plan_flush(&s, &[5; 10]) {
        Flush::Payloads(key_id, parts) => assert_eq!((key_id, parts), (2, vec![vec![5; 10]])),
        _ => panic!("expected payloads"),
    }
    assert!(flush_rekey_outgoing(&mut s).is_none());
    s.start_rekey(3, tls());
    assert!(flush_rekey_outgoing(&mut s).is_none());
}

#[test]
fn sent_packets_are_remembered_without_their_envelope() {
    let mut s = keyed(0);
    s.note_received(4, 0);
    let env = ControlEnvelope::from_static_keys(None, Some(&[5; 256]), 0).unwrap();
    let out = prepare_control(&env, &mut s, 0, b"tls".to_vec()).unwrap();
    assert_eq!(out.packet_id, Some(0));
    assert_ne!(out.wire, out.encoded);
    let (inner, pid) = env.unwrap_control(&out.wire).unwrap();
    assert_eq!((inner.as_ref(), pid), (Some(&out.encoded), Some(1)));
    let pkt = ControlPacket::parse(&out.encoded).unwrap();
    assert_eq!((pkt.payload, pkt.acks), (b"tls".to_vec(), vec![4]));
    record_outgoing(&mut s, out, 12);
    assert_eq!((s.unacked.len(), s.unacked[0].sent_at, s.tls_auth_pid_out), (1, 12, 2));
    // What the client acknowledges is forgotten.
    let ack = control(OpCode::AckV1, 0, vec![0], None);
    receive_control(&mut s, &ack, None, 13).unwrap();
    assert!(s.unacked.is_empty());
}

#[test]
fn rekeys_are_announced() {
    let mut s = keyed(0);
    s.client_session_id = 0x99;
    let out = answer_soft_reset(&ControlEnvelope::Plain, &mut s, 5, 8, tls()).unwrap();
    let pkt = ControlPacket::parse(&out.wire).unwrap();
    assert_eq!((pkt.op, pkt.key_id, pkt.acks), (OpCode::ControlSoftResetV1, 5, vec![8]));
    assert_eq!(s.rekey.as_ref().unwrap().key_id, 5);
    assert_eq!(s.last_rekey_at, 0);
    let mut s = keyed(0);
    let out = begin_rekey(&ControlEnvelope::Plain, &mut s, 6, tls(), 40).unwrap();
    let pkt = ControlPacket::parse(&out.wire).unwrap();
    assert_eq!((pkt.op, pkt.key_id, pkt.acks.len()), (OpCode::ControlSoftResetV1, 6, 0));
    assert_eq!((s.rekey.as_ref().unwrap().key_id, s.last_rekey_at), (6, 40));
}

#[test]
fn rekeys_are_due_in_time() {
    let mut s = keyed(7);
    assert_eq!(rekey_due(&s, 10 * SECOND - 1, 10), None);
    assert_eq!(rekey_due(&s, 10 * SECOND, 10), Some(0));
    assert_eq!(rekey_due(&s, 10 * SECOND, 0), None);
    s.slots[0].as_mut().unwrap().key_id = 3;
    assert_eq!(rekey_due(&s, 11 * SECOND, 10), Some(4));
    s.last_rekey_at = 5 * SECOND;
    assert_eq!(rekey_due(&s, 11 * SECOND, 10), None);
    assert_eq!(rekey_due(&s, SECOND, 10), None);
    s.last_rekey_at = 0;
    s.start_rekey(4, tls());
    assert_eq!(rekey_due(&s, 11 * SECOND, 10), None);
    s.rekey = None;
    s.state = State::PushPending;
    assert_eq!(rekey_due(&s, 11 * SECOND, 10), None);
    s.state = State::Established;
    s.slots[0] = None;
    assert_eq!(rekey_due(&s, 11 * SECOND, 10), Some(1));
}

#[test]
fn silent_clients_expire() {
    let mut s = session();
    s.last_seen = 4 * SECOND;
    assert!(!idle_expired(&s, 63 * SECOND, 60));
    assert!(idle_expired(&s, 64 * SECOND, 60));
    assert!(!idle_expired(&s, 0, 60));
    assert!(idle_expired(&s, 0, 0));
    // A packet in time starts the clock anew.
    let ack = control(OpCode::AckV1, 0, vec![], None);
    receive_control(&mut s, &ack, None, 63 * SECOND).unwrap();
    assert!(!idle_expired(&s, 122 * SECOND, 60));
    assert!(idle_expired(&s, 123 * SECOND, 60));
}

#[test]
fn pings_and_tunnel_packets() {
    assert_eq!((ping_interval(0), ping_interval(1), ping_interval(10)), (1, 1, 10));
    let mut s = session();
    assert!(ping_packet(&mut s).is_none());
    assert!(tunnel_packet(&mut s, b"ip").is_none());
    let mut s = keyed(1);
    let ping = ping_packet(&mut s).unwrap().unwrap();
    assert_eq!((ping.len(), ping[0]), (8 + 16 + 16, 9 << 3 | 1));
    assert_eq!((dispatch(&ping), route_data(&ping)), (Inbound::Data, Some(3)));
    let pkt = tunnel_packet(&mut s, b"ip").unwrap().unwrap();
    assert_eq!(pkt[4..8], [0, 0, 0, 2]);
    s.state = State::Closed;
    assert!(ping_packet(&mut s).is_none());
    assert!(tunnel_packet(&mut s, b"ip").is_some());
}

#[test]
fn restarts_are_for_established_sessions() {
    let mut s = session();
    assert_eq!(queue_restart(&mut s), Ok(false));
    s.state = State::Established;
    assert_eq!(queue_restart(&mut s), Ok(true));
    // A connection whose buffer is full takes no more.
    assert_eq!(s.tls.send_plaintext(&vec![0; 1 << 20]), Err(TlsError::WriteAll));
    assert_eq!(queue_restart(&mut s), Err(TlsError::WriteAll));
    assert_eq!(s.tls.send_plaintext(&[]), Ok(()));
}

#[test]
fn connections_need_a_usable_configuration() {
    let mut cfg = rustls::ServerConfig::builder_with_provider(Arc::new(default_provider()))
        .with_safe_default_protocol_versions()
        .unwrap()
        .with_no_client_auth()
        .with_cert_resolver(Arc::new(ResolvesServerCertUsingSni::new()));
    assert!(TlsSession::new(Arc::new(cfg.clone())).is_ok());
    cfg.max_fragment_size = Some(1);
    assert_eq!(TlsSession::new(Arc::new(cfg)).err(), Some(TlsError::NewConnection));
}

#[test]
fn envelopes_by_static_key() {
    let km = [9u8; 256];
    assert!(matches!(
        ControlEnvelope::from_static_keys(None, None, 7),
        Ok(ControlEnvelope::Plain)
    ));
    assert!(matches!(
        ControlEnvelope::from_static_keys(Some(&km), Some(&km), 7),
        Ok(ControlEnvelope::TlsCrypt(_))
    ));
    assert_eq!(
        ControlEnvelope::from_static_keys(None, Some(&km), 7).err(),
        Some(TlsAuthError::InvalidDirection(7))
    );
    assert_eq!(ControlEnvelope::Plain.unwrap_control(b"x"), Ok((None, None)));
}

#[test]
fn control_packets_travel_in_envelopes() {
    // The same static key in both halves: each end opens what it sends.
    let km = [9u8; 256];
    for env in [
        ControlEnvelope::from_static_keys(None, Some(&km), 1).unwrap(),
        ControlEnvelope::from_static_keys(Some(&km), None, 1).unwrap(),
    ] {
        let mut s = session();
        let pkt = s.make_control(1, b"hello".to_vec());
        for pid in 1..3u32 {
            let out = prepare(&env, &mut s, &pkt).unwrap();
            assert_eq!(dispatch(&out.wire), Inbound::Control);
            let (inner, got) = env.unwrap_control(&out.wire).unwrap();
            assert_eq!(got, Some(pid));
            assert_eq!(ControlPacket::parse(&inner.unwrap()).unwrap().payload, b"hello");
            let mut forged = out.wire;
            let last = forged.len() - 1;
            forged[last] ^= 1;
            assert!(env.unwrap_control(&forged).is_err());
        }
        // The time is part of what is wrapped.
        let a = env.wrap_at(&mut s, &pkt.encode(), 1).unwrap();
        s.tls_auth_pid_out -= 1;
        let b = env.wrap_at(&mut s, &pkt.encode(), 2).unwrap();
        assert_ne!(a, b);
    }
}

#[test]
fn packets_too_short_for_an_envelope() {
    let km = [9u8; 256];
    let mut s = session();
    let env = ControlEnvelope::from_static_keys(None, Some(&km), 1).unwrap();
    assert!(matches!(
        env.wrap_for_wire(&mut s, b"short"),
        Err(EnvelopeError::TlsAuth(TlsAuthError::InnerTooShort(5)))
    ));
    let env = ControlEnvelope::from_static_keys(Some(&km), None, 1).unwrap();
    assert!(matches!(
        env.wrap_for_wire(&mut s, b"short"),
        Err(EnvelopeError::TlsCrypt(TlsCryptError::InnerTooShort(5)))
    ));
    assert_eq!(s.tls_auth_pid_out, 3);
}

#[test]
fn retransmits_are_wrapped_afresh() {
    let env = ControlEnvelope::from_static_keys(Some(&[4; 256]), None, 1).unwrap();
    let mut s = session();
    for _ in 0..2 {
        let out = prepare_control(&env, &mut s, 0, b"tls".to_vec()).unwrap();
        record_outgoing(&mut s, out, 0);
    }
    assert!(env.retransmit(&mut s, CONTROL_BASE_RTO - 1).is_empty());
    let wires = env.retransmit(&mut s, CONTROL_BASE_RTO);
    let ids: Vec<Option<u32>> =
        wires.iter().map(|w| env.unwrap_control(w).unwrap().1).collect();
    assert_eq!(ids, vec![Some(3), Some(4)]);
    assert_eq!(s.tls_auth_pid_out, 5);
    let mut s = session();
    s.record_sent(0, b"raw".to_vec(), 0);
    let wires = ControlEnvelope::Plain.retransmit(&mut s, CONTROL_BASE_RTO);
    assert_eq!((wires, s.tls_auth_pid_out), (vec![b"raw".to_vec()], 1));
}

#[test]
fn timestamps() {
    assert_eq!(timestamp_of(None), 0);
    assert_eq!(timestamp_of(Some(77)), 77);
    assert_eq!(timestamp_of(Some(0x1_0000_0005)), 5);
    // A day in 2020.
    assert!(unix_timestamp_u32() > 1_577_000_000);
}
