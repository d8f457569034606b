//! Per-client state: control-channel bookkeeping and the data channel.

use std::sync::Arc;

use javs::addr::IpAddress;
use javs::crypto::{CryptoError, DataCipher, KEYMAT_LEN};
use javs::prf::derive_openvpn_key_data;
use javs::protocol::{OpCode, PacketError, PING_PAYLOAD};
use javs::replay::ReplayWindow;
use javs::session::{
    DataError, DataEvent, KeySlot, RekeyState, Session, SessionError, State, CONTROL_BASE_RTO,
    CONTROL_MAX_ATTEMPTS,
};
use javs::tls::TlsSession;
use rustls::crypto::ring::default_provider;
use rustls::server::ResolvesServerCertUsingSni;

const SECOND: u64 = 1_000_000_000;

/// A TLS connection that will never complete a handshake.
fn idle_tls() -> TlsSession {
    let cfg = rustls::ServerConfig::builder_with_provider(Arc::new(default_provider()))
        .with_safe_default_protocol_versions()
        .unwrap()
        .with_no_client_auth()
        .with_cert_resolver(Arc::new(ResolvesServerCertUsingSni::new()));
    TlsSession::new(Arc::new(cfg)).unwrap()
}

fn session(peer_id: u32) -> Session {
    Session::with_randoms(0x1122, idle_tls(), peer_id, [1; 32], [2; 32], 5)
}

fn keymat(seed: u8) -> [u8; KEYMAT_LEN] {
    let mut km = [0u8; KEYMAT_LEN];
    for (i, b) in km.iter_mut().enumerate() {
        *b = (i as u8).wrapping_mul(7).wrapping_add(seed);
    }
    km
}

/// The key material as the other end sees it.
fn mirrored(km: &[u8; KEYMAT_LEN]) -> [u8; KEYMAT_LEN] {
    let mut out = [0u8; KEYMAT_LEN];
    out[..128].copy_from_slice(&km[128..]);
    out[128..].copy_from_slice(&km[..128]);
    out
}

fn slot(key_id: u8, km: &[u8; KEYMAT_LEN]) -> KeySlot {
    KeySlot {
        key_id,
        cipher: DataCipher::from_keymat_server(km),
        data_pid_out: 1,
        replay: ReplayWindow::new(),
    }
}

#[test]
fn a_new_session_has_seen_nothing() {
    let s = session(9);
    assert_eq!(s.state, State::WaitingHardReset);
    assert_eq!((s.server_session_id, s.client_session_id, s.peer_id), (0x1122, 0, 9));
    assert_eq!((s.next_packet_id, s.tls_auth_pid_out, s.active_slot_idx), (0, 1, 0));
    assert!(s.pending_acks.is_empty() && s.received_pids.is_empty() && s.unacked.is_empty());
    assert!(s.active_slot().is_none() && s.rekey.is_none());
    assert_eq!((s.last_seen, s.last_rekey_at), (5, 5));
    assert_eq!((s.server_random1, s.server_random2), ([1; 32], [2; 32]));
    // Random values are drawn afresh for every session.
    let a = Session::new(1, idle_tls(), 1, 0);
    let b = Session::new(1, idle_tls(), 1, 0);
    assert_ne!(a.server_random1, b.server_random1);
    assert_ne!(a.server_random1, a.server_random2);
    assert_ne!(a.server_random2, [0; 32]);
}

#[test]
fn control_packets_are_numbered_and_carry_acks() {
    let mut s = session(1);
    s.client_session_id = 0x77;
    let reset = s.make_hard_reset_reply(4);
    assert_eq!(reset.op, OpCode::ControlHardResetServerV2);
    assert_eq!((reset.key_id, reset.session_id), (0, 0x1122));
    assert_eq!((reset.packet_id, reset.remote_session_id), (Some(0), Some(0x77)));
    assert_eq!(reset.acks, vec![4]);
    let plain = s.make_control(3, b"tls".to_vec());
    assert_eq!((plain.op, plain.key_id, plain.packet_id), (OpCode::ControlV1, 3, Some(1)));
    assert_eq!((plain.acks.len(), plain.remote_session_id), (0, None));
    assert_eq!(plain.payload, b"tls");
    s.note_received(8, 6);
    s.note_received(9, 7);
    s.note_received(8, 8);
    assert_eq!(s.last_seen, 8);
    let acking = s.make_control(3, Vec::new());
    assert_eq!((acking.acks, acking.remote_session_id), (vec![8, 9], Some(0x77)));
    assert!(s.pending_acks.is_empty());
    let soft = s.make_soft_reset_reply(5, 10);
    assert_eq!((soft.op, soft.key_id, soft.packet_id), (OpCode::ControlSoftResetV1, 5, Some(3)));
    assert_eq!(soft.acks, vec![10]);
    let init = s.make_soft_reset_init(6);
    assert_eq!((init.op, init.key_id, init.packet_id), (OpCode::ControlSoftResetV1, 6, Some(4)));
    assert_eq!((init.acks.len(), init.remote_session_id), (0, None));
    let ack = s.make_ack(2, vec![1, 2]);
    assert_eq!((ack.op, ack.key_id, ack.packet_id), (OpCode::AckV1, 2, None));
    assert_eq!((ack.acks, ack.remote_session_id), (vec![1, 2], Some(0x77)));
    s.note_received(11, 9);
    assert_eq!(s.take_pending_acks(), vec![11]);
    assert_eq!(s.take_pending_acks(), Vec::<u32>::new());
}

#[test]
fn ids_start_over() {
    let mut s = session(1);
    s.next_packet_id = u32::MAX;
    assert_eq!(s.make_soft_reset_init(0).packet_id, Some(u32::MAX));
    assert_eq!(s.make_soft_reset_init(0).packet_id, Some(0));
    assert_eq!(s.next_tls_auth_pid(), 1);
    assert_eq!(s.next_tls_auth_pid(), 2);
    s.tls_auth_pid_out = u32::MAX;
    assert_eq!(s.next_tls_auth_pid(), u32::MAX);
    // No envelope has the replay id 0.
    assert_eq!(s.next_tls_auth_pid(), 1);
}

#[test]
fn acknowledged_packets_are_forgotten() {
    let mut s = session(1);
    for pid in 0..5u32 {
        s.record_sent(pid, vec![pid as u8], 0);
    }
    s.process_acks(&[3, 1, 99]);
    let left: Vec<u32> = s.unacked.iter().map(|u| u.packet_id).collect();
    assert_eq!(left, vec![0, 2, 4]);
    s.process_acks(&[]);
    assert_eq!(s.unacked.len(), 3);
    s.process_acks(&[0, 2, 4]);
    assert!(s.unacked.is_empty());
}

#[test]
fn retransmits_back_off_and_give_up() {
    let mut s = session(1);
    s.record_sent(7, vec![0xAB], 0);
    let rto = CONTROL_BASE_RTO;
    assert!(s.stale_unacked(rto - 1, rto).is_empty());
    let mut now = 0;
    let mut sent = 1;
    // 2, 2, 4, 8, 16 seconds after one another: each attempt is counted before
    // the next wait is worked out.
    for wait in [rto, 2 * rto, 4 * rto, 8 * rto, 16 * rto] {
        assert!(s.stale_unacked(now + wait - 1, rto).is_empty());
        now += wait;
        assert_eq!(s.stale_unacked(now, rto), vec![vec![0xAB]]);
        sent += 1;
        assert_eq!(s.unacked[0].attempts, sent);
        assert_eq!(s.unacked[0].sent_at, now);
    }
    assert_eq!(sent, CONTROL_MAX_ATTEMPTS);
    assert!(s.stale_unacked(now, rto).is_empty());
    assert!(s.unacked.is_empty());
}

#[test]
fn retransmits_go_out_oldest_first() {
    let mut s = session(1);
    s.record_sent(1, vec![1], 0);
    s.record_sent(2, vec![2], 3 * SECOND);
    s.record_sent(3, vec![3], SECOND);
    assert_eq!(s.stale_unacked(3 * SECOND, 2 * SECOND), vec![vec![1], vec![3]]);
    let order: Vec<u32> = s.unacked.iter().map(|u| u.packet_id).collect();
    assert_eq!(order, vec![1, 2, 3]);
}

#[test]
fn slots_during_a_rekey() {
    let mut s = session(1);
    let (old, new) = (keymat(1), keymat(2));
    assert_eq!(s.install_slot(slot(0, &old)), 1);
    assert!(s.active_slot().is_none());
    assert!(s.promote_slot(0));
    assert_eq!(s.active_slot_idx, 1);
    assert_eq!(s.install_slot(slot(5, &new)), 0);
    // Installing does not switch.
    assert_eq!(s.active_slot().unwrap().key_id, 0);
    assert!(s.slot_by_key_id_mut(5).is_some());
    assert!(s.slot_by_key_id_mut(4).is_none());
    assert!(!s.promote_slot(4));
    assert_eq!(s.active_slot().unwrap().key_id, 0);
    assert!(s.promote_slot(5));
    assert_eq!(s.active_slot_mut().unwrap().key_id, 5);
    // The old keys are still there for packets in flight.
    assert!(s.slot_by_key_id_mut(0).is_some());
}

#[test]
fn rekeys_start_on_a_fresh_track() {
    let mut s = session(1);
    s.start_rekey_with(3, idle_tls(), [8; 32], [9; 32]);
    let rk = s.rekey.as_ref().unwrap();
    assert_eq!((rk.key_id, rk.state, rk.key_method_sent), (3, RekeyState::Handshaking, false));
    assert_eq!((rk.server_random1, rk.server_random2), ([8; 32], [9; 32]));
    s.start_rekey(4, idle_tls());
    assert_eq!(s.rekey.as_ref().unwrap().key_id, 4);
    assert_ne!(s.rekey.as_ref().unwrap().server_random1, [8; 32]);
}

#[test]
fn keys_need_all_the_secrets() {
    let mut s = session(1);
    assert_eq!(s.install_prf_slot(0), Err(SessionError::MissingPreMaster));
    s.client_pre_master = Some([3; 48]);
    assert_eq!(s.install_prf_slot(0), Err(SessionError::MissingRandom1));
    s.client_random1 = Some([4; 32]);
    assert_eq!(s.install_prf_slot(0), Err(SessionError::MissingRandom2));
    s.client_random2 = Some([5; 32]);
    assert_eq!(s.install_prf_slot(0), Ok(()));
    assert_eq!(s.active_slot().unwrap().key_id, 0);
    assert_eq!(s.active_slot().unwrap().data_pid_out, 1);
    assert_eq!(s.install_prf_slot(1), Ok(()));
    assert_eq!(s.active_slot().unwrap().key_id, 0);
    assert_eq!(s.slots[1].as_ref().unwrap().key_id, 1);
}

#[test]
fn derived_keys_are_those_of_the_exchange() {
    let mut s = session(0x0A0B0C);
    s.client_session_id = 0x99;
    s.client_pre_master = Some([3; 48]);
    s.client_random1 = Some([4; 32]);
    s.client_random2 = Some([5; 32]);
    s.install_prf_slot(0).unwrap();
    let pkt = s.build_data_packet(b"payload").unwrap();
    let km = derive_openvpn_key_data(
        &[3; 48],
        &[4; 32],
        &[1; 32],
        &[5; 32],
        &[2; 32],
        &0x99u64.to_be_bytes(),
        &0x1122u64.to_be_bytes(),
    );
    assert_eq!(pkt.len(), b"payload".len() + 24);
    assert_eq!(pkt[..8], [0x48, 0x0A, 0x0B, 0x0C, 0, 0, 0, 1]);
    let client = DataCipher::from_keymat_server(&mirrored(&km));
    assert_eq!(client.open(1, &pkt[..8], &pkt[8..]).unwrap(), b"payload");
}

#[test]
fn data_packets_travel_between_sessions() {
    let km = keymat(9);
    let (mut server, mut client) = (session(77), session(77));
    server.install_slot(slot(2, &km));
    server.promote_slot(2);
    client.install_slot(slot(2, &mirrored(&km)));
    let first = server.build_data_packet(b"one").unwrap();
    let second = server.build_data_packet(&PING_PAYLOAD).unwrap();
    assert_ne!(first[8..], second[8..]);
    assert_eq!(client.open_data(&second, 40), Ok(DataEvent::Ping));
    assert_eq!(client.open_data(&first, 41), Ok(DataEvent::Packet(b"one".to_vec())));
    assert_eq!(client.last_seen, 41);
    // Nothing is taken twice, and what is dropped leaves no trace.
    assert_eq!(client.open_data(&first, 42), Err(DataError::Replayed(2, 1)));
    let mut forged = server.build_data_packet(b"three").unwrap();
    let last = forged.len() - 1;
    forged[last] ^= 1;
    assert_eq!(
        client.open_data(&forged, 43),
        Err(DataError::Crypto(CryptoError::NotAuthentic))
    );
    assert_eq!(client.last_seen, 41);
    forged[last] ^= 1;
    assert_eq!(client.open_data(&forged, 44), Ok(DataEvent::Packet(b"three".to_vec())));
    // Every bit of the header is authenticated.
    let mut moved = server.build_data_packet(b"four").unwrap();
    moved[3] ^= 1;
    assert_eq!(
        client.open_data(&moved, 45),
        Err(DataError::Crypto(CryptoError::NotAuthentic))
    );
}

#[test]
fn data_packets_that_are_dropped() {
    let mut s = session(1);
    assert_eq!(s.build_data_packet(b"x"), Err(SessionError::NoActiveSlot));
    assert_eq!(s.open_data(&[0x48; 24], 0), Err(DataError::NoKeySlot(0)));
    assert_eq!(s.open_data(&[0x48; 3], 0), Err(DataError::Packet(PacketError::DataTooShort)));
    assert_eq!(s.open_data(&[0x20; 24], 0), Err(DataError::Packet(PacketError::NotDataV2(4))));
    s.install_slot(slot(0, &keymat(0)));
    assert_eq!(
        s.open_data(&[0x48; 20], 0),
        Err(DataError::Crypto(CryptoError::ShorterThanTag))
    );
}

#[test]
fn old_keys_open_what_is_in_flight() {
    let (old, new) = (keymat(3), keymat(4));
    let (mut server, mut client) = (session(1), session(1));
    client.install_slot(slot(0, &mirrored(&old)));
    client.promote_slot(0);
    server.install_slot(slot(0, &old));
    server.promote_slot(0);
    let late = client.build_data_packet(b"late").unwrap();
    server.install_slot(slot(1, &new));
    server.promote_slot(1);
    client.install_slot(slot(1, &mirrored(&new)));
    client.promote_slot(1);
    let fresh = client.build_data_packet(b"fresh").unwrap();
    assert_eq!(server.open_data(&fresh, 1), Ok(DataEvent::Packet(b"fresh".to_vec())));
    assert_eq!(server.open_data(&late, 2), Ok(DataEvent::Packet(b"late".to_vec())));
}

#[test]
fn common_names_are_adopted() {
    let mut s = session(1);
    s.assigned_ip = Some(IpAddress::V4(1));
    s.adopt_common_name(Some(Some("alice".to_string())));
    assert_eq!((s.state, s.client_cn.as_deref()), (State::KeyExchange, Some("alice")));
    s.adopt_common_name(None);
    assert_eq!(s.client_cn.as_deref(), Some("alice"));
    s.adopt_common_name(Some(None));
    assert_eq!(s.client_cn, None);
    // Without a certificate the handshake leaves the name alone.
    s.client_cn = Some("bob".to_string());
    assert_eq!(s.finalize_keys(), Ok(()));
    assert_eq!(s.client_cn.as_deref(), Some("bob"));
}
