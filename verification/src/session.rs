//! Per-client connection state.
//!
//! Times are nanoseconds on one monotonic clock.

use std::collections::{BTreeSet, VecDeque};

use vstd::prelude::*;

use crate::addr::IpAddress;
use crate::codec::{
    array_at, be_bytes, lemma_be_bytes_digits, lemma_be_bytes_len, lemma_be_bytes_low,
    lemma_be_limits, push_bytes, push_u32, push_u64,
    same_bytes, to_vec,
};
use crate::crypto::{CipherView, CryptoError, DataCipher};
use crate::prf::{derive_openvpn_key_data, key_data};
use crate::protocol::{
    data_header, data_of, first_byte, law_data_parse_of_encode, ControlPacket,
    ControlView, DataPacketV2, DataView, OpCode, PacketError, SessionId, PING_PAYLOAD,
};
use crate::random::random_bytes;
use crate::replay::{ReplayWindow, WindowView};
use crate::tls::{
    extract_common_name, tls_peer_certificate, x509_common_name_of, TlsSession, TlsView,
};

verus! {

/// Most bytes of TLS payload in one control packet; the datagram then fits a
/// path MTU of 1280 bytes.
pub const MAX_TLS_PAYLOAD_PER_CONTROL: usize = 1100;

/// Time before the first retransmit of a control packet; each further attempt
/// doubles it, up to a cap.
pub const CONTROL_BASE_RTO: u64 = 2_000_000_000;

/// How often a control packet is sent before it is given up.
pub const CONTROL_MAX_ATTEMPTS: u32 = 6;

/// Why a session operation failed.
#[derive(Debug, Clone, Copy, PartialEq, Eq, Structural)]
pub enum SessionError {
    /// The client has not sent its pre-master secret.
    MissingPreMaster,
    /// The client has not sent its first random value.
    MissingRandom1,
    /// The client has not sent its second random value.
    MissingRandom2,
    /// There are no data-channel keys to send with.
    NoActiveSlot,
    /// The data cipher refused.
    Crypto(CryptoError),
}

/// Why an inbound data packet is dropped.
#[derive(Debug, Clone, Copy, PartialEq, Eq, Structural)]
pub enum DataError {
    /// It is no data packet.
    Packet(PacketError),
    /// There are no keys of its key id.
    NoKeySlot(u8),
    /// It does not authenticate.
    Crypto(CryptoError),
    /// It authenticates, but its id (with its key id) was seen or is too old.
    Replayed(u8, u32),
}

/// What an inbound data packet is.
#[derive(Debug, PartialEq, Eq)]
pub enum DataEvent {
    /// A keepalive ping.
    Ping,
    /// A packet for the TUN device.
    Packet(Vec<u8>),
}

/// A control packet that was sent and is not acknowledged yet.
#[derive(Debug, Clone)]
pub struct Unacked {
    pub packet_id: u32,
    pub encoded: Vec<u8>,
    pub sent_at: u64,
    pub attempts: u32,
}

/// What an [`Unacked`] holds.
#[verifier::ext_equal]
pub ghost struct UnackedView {
    pub packet_id: u32,
    pub encoded: Seq<u8>,
    pub sent_at: u64,
    pub attempts: u32,
}

impl View for Unacked {
    type V = UnackedView;

    open spec fn view(&self) -> UnackedView {
        UnackedView {
            packet_id: self.packet_id,
            encoded: self.encoded@,
            sent_at: self.sent_at,
            attempts: self.attempts,
        }
    }
}

/// One generation of data-channel keys. Up to two are in use at a time, so
/// that a rekey loses no packets in flight.
pub struct KeySlot {
    /// Three bits, copied into outbound data packets and matched against
    /// inbound ones.
    pub key_id: u8,
    pub cipher: DataCipher,
    /// Id of the next outbound data packet.
    pub data_pid_out: u32,
    /// Replay window for inbound data packets.
    pub replay: ReplayWindow,
}

/// What a [`KeySlot`] holds.
#[verifier::ext_equal]
pub ghost struct KeySlotView {
    pub key_id: u8,
    pub cipher: CipherView,
    pub data_pid_out: u32,
    pub replay: WindowView,
}

impl View for KeySlot {
    type V = KeySlotView;

    open spec fn view(&self) -> KeySlotView {
        KeySlotView {
            key_id: self.key_id,
            cipher: self.cipher@,
            data_pid_out: self.data_pid_out,
            replay: self.replay@,
        }
    }
}

/// Where a rekey stands.
#[derive(Debug, Clone, Copy, PartialEq, Eq, Structural)]
pub enum RekeyState {
    /// The new TLS handshake is in progress.
    Handshaking,
    /// The handshake is done; the client's `key-method 2` packet is due.
    KeyExchange,
}

/// A rekey in progress, beside the main control channel.
pub struct RekeyTrack {
    /// Id of the keys that are being negotiated.
    pub key_id: u8,
    /// TLS context of the rekey.
    pub tls: TlsSession,
    pub state: RekeyState,
    pub server_random1: [u8; 32],
    pub server_random2: [u8; 32],
    /// Whether the server's `key-method 2` packet was queued.
    pub key_method_sent: bool,
}

/// What a [`RekeyTrack`] holds.
#[verifier::ext_equal]
pub ghost struct RekeyView {
    pub key_id: u8,
    pub tls: TlsView,
    pub state: RekeyState,
    pub server_random1: Seq<u8>,
    pub server_random2: Seq<u8>,
    pub key_method_sent: bool,
}

impl View for RekeyTrack {
    type V = RekeyView;

    open spec fn view(&self) -> RekeyView {
        RekeyView {
            key_id: self.key_id,
            tls: self.tls@,
            state: self.state,
            server_random1: self.server_random1@,
            server_random2: self.server_random2@,
            key_method_sent: self.key_method_sent,
        }
    }
}

/// Where a session stands.
#[derive(Debug, Clone, Copy, PartialEq, Eq, Structural)]
pub enum State {
    /// Waiting for the client's hard reset.
    WaitingHardReset,
    /// The TLS handshake is in progress.
    Handshaking,
    /// TLS is up; the client's `key-method 2` packet is due.
    KeyExchange,
    /// The server has answered it; `PUSH_REQUEST` is due.
    PushPending,
    /// The push reply is sent and the data channel is live.
    Established,
    /// The client has announced its exit.
    Closed,
}

/// The state of one client's connection.
pub struct Session {
    pub server_session_id: SessionId,
    pub client_session_id: SessionId,
    pub state: State,
    /// Id of the next control packet.
    pub next_packet_id: u32,
    /// Ids of received control packets that are to be acknowledged.
    pub pending_acks: Vec<u32>,
    /// Ids of all control packets received.
    pub received_pids: BTreeSet<u32>,
    pub tls: TlsSession,
    pub assigned_ip: Option<IpAddress>,
    /// IPv6 address in the tunnel; apart from `assigned_ip`, so that each
    /// route is torn down on its own.
    pub assigned_ip_v6: Option<u128>,
    pub peer_id: u32,
    /// Data-channel keys. During a rekey both are live: the new ones decrypt
    /// at once, and sending switches over when both peers have them.
    pub slots: [Option<KeySlot>; 2],
    /// Index into `slots` of the keys that data is sent with.
    pub active_slot_idx: usize,
    /// Replay id of the next control packet in an envelope. It starts at 1 and
    /// counts retransmits too.
    pub tls_auth_pid_out: u32,
    /// Replay window for the envelopes of inbound control packets.
    pub tls_auth_replay: ReplayWindow,
    pub client_random1: Option<[u8; 32]>,
    pub client_random2: Option<[u8; 32]>,
    pub client_pre_master: Option<[u8; 48]>,
    pub server_random1: [u8; 32],
    pub server_random2: [u8; 32],
    /// Options string that the client announced.
    pub client_options: Option<String>,
    pub client_peer_info: Option<String>,
    /// Common name in the client's certificate.
    pub client_cn: Option<String>,
    /// Control packets that are not acknowledged yet, oldest first.
    pub unacked: VecDeque<Unacked>,
    /// The rekey in progress, if any.
    pub rekey: Option<RekeyTrack>,
    /// When the last rekey began or ended; the session's start before any.
    pub last_rekey_at: u64,
    pub last_seen: u64,
}

/// What a [`Session`] holds.
#[verifier::ext_equal]
pub ghost struct SessionView {
    pub server_session_id: u64,
    pub client_session_id: u64,
    pub state: State,
    pub next_packet_id: u32,
    pub pending_acks: Seq<u32>,
    pub received_pids: Set<u32>,
    pub tls: TlsView,
    pub assigned_ip: Option<IpAddress>,
    pub assigned_ip_v6: Option<u128>,
    pub peer_id: u32,
    pub slots: Seq<Option<KeySlotView>>,
    pub active: int,
    pub tls_auth_pid_out: u32,
    pub tls_auth_replay: WindowView,
    pub client_random1: Option<Seq<u8>>,
    pub client_random2: Option<Seq<u8>>,
    pub client_pre_master: Option<Seq<u8>>,
    pub server_random1: Seq<u8>,
    pub server_random2: Seq<u8>,
    pub client_options: Option<Seq<char>>,
    pub client_peer_info: Option<Seq<char>>,
    pub client_cn: Option<Seq<char>>,
    pub unacked: Seq<UnackedView>,
    pub rekey: Option<RekeyView>,
    pub last_rekey_at: u64,
    pub last_seen: u64,
}

/// The text of an optional string.
pub open spec fn text_view(s: Option<String>) -> Option<Seq<char>> {
    match s {
        Some(s) => Some(s@),
        None => None,
    }
}

/// The bytes of an optional array.
pub open spec fn bytes_view<const N: usize>(a: Option<[u8; N]>) -> Option<Seq<u8>> {
    match a {
        Some(a) => Some(a@),
        None => None,
    }
}

/// The contents of a list of byte strings.
pub open spec fn byte_lists(v: Seq<Vec<u8>>) -> Seq<Seq<u8>> {
    v.map_values(|b: Vec<u8>| b@)
}

/// What an optional slot holds.
pub open spec fn slot_view(s: Option<KeySlot>) -> Option<KeySlotView> {
    match s {
        Some(s) => Some(s@),
        None => None,
    }
}

/// What an optional rekey holds.
pub open spec fn rekey_view(r: Option<RekeyTrack>) -> Option<RekeyView> {
    match r {
        Some(r) => Some(r@),
        None => None,
    }
}

impl View for Session {
    type V = SessionView;

    open spec fn view(&self) -> SessionView {
        SessionView {
            server_session_id: self.server_session_id,
            client_session_id: self.client_session_id,
            state: self.state,
            next_packet_id: self.next_packet_id,
            pending_acks: self.pending_acks@,
            received_pids: self.received_pids@,
            tls: self.tls@,
            assigned_ip: self.assigned_ip,
            assigned_ip_v6: self.assigned_ip_v6,
            peer_id: self.peer_id,
            slots: seq![slot_view(self.slots@[0]), slot_view(self.slots@[1])],
            active: self.active_slot_idx as int,
            tls_auth_pid_out: self.tls_auth_pid_out,
            tls_auth_replay: self.tls_auth_replay@,
            client_random1: bytes_view(self.client_random1),
            client_random2: bytes_view(self.client_random2),
            client_pre_master: bytes_view(self.client_pre_master),
            server_random1: self.server_random1@,
            server_random2: self.server_random2@,
            client_options: text_view(self.client_options),
            client_peer_info: text_view(self.client_peer_info),
            client_cn: text_view(self.client_cn),
            unacked: self.unacked@.map_values(|u: Unacked| u@),
            rekey: rekey_view(self.rekey),
            last_rekey_at: self.last_rekey_at,
            last_seen: self.last_seen,
        }
    }
}

/// The number after `x`, starting over after the largest.
pub open spec fn next_u32(x: u32) -> u32 {
    if x == u32::MAX {
        0
    } else {
        (x + 1) as u32
    }
}

/// The replay id after `x`; 0 is skipped.
pub open spec fn next_replay_id(x: u32) -> u32 {
    if x == u32::MAX {
        1
    } else {
        (x + 1) as u32
    }
}

/// Keys of the id `key_id`, ready for use. The first data packet has the id 1:
/// receivers take 0 for "none yet".
pub open spec fn fresh_slot(key_id: u8, keys: Seq<u8>) -> KeySlotView {
    KeySlotView {
        key_id,
        cipher: CipherView::of_server(keys),
        data_pid_out: 1,
        replay: WindowView::fresh(),
    }
}

impl UnackedView {
    /// How long the packet waits for an acknowledgement: `base_rto` doubled
    /// with every attempt after the first, five times at most.
    pub open spec fn backoff(self, base_rto: u64) -> int {
        if self.attempts <= 1 {
            base_rto as int
        } else if self.attempts == 2 {
            2 * base_rto
        } else if self.attempts == 3 {
            4 * base_rto
        } else if self.attempts == 4 {
            8 * base_rto
        } else if self.attempts == 5 {
            16 * base_rto
        } else {
            32 * base_rto
        }
    }

    /// Whether the packet is worth another attempt at all.
    pub open spec fn alive(self) -> bool {
        self.attempts < CONTROL_MAX_ATTEMPTS
    }

    /// Whether the packet is to be sent again.
    pub open spec fn due(self, now: u64, base_rto: u64) -> bool {
        self.alive() && (if now >= self.sent_at {
            now - self.sent_at
        } else {
            0
        }) >= self.backoff(base_rto)
    }

    /// The packet after the retransmit timer has looked at it.
    pub open spec fn after_timer(self, now: u64, base_rto: u64) -> UnackedView {
        if self.due(now, base_rto) {
            UnackedView { sent_at: now, attempts: (self.attempts + 1) as u32, ..self }
        } else {
            self
        }
    }
}

/// The unacknowledged packets after `acks` arrived: those not acknowledged, in
/// the same order.
pub open spec fn without_acked(unacked: Seq<UnackedView>, acks: Seq<u32>) -> Seq<UnackedView> {
    unacked.filter(|u: UnackedView| !acks.contains(u.packet_id))
}

/// The unacknowledged packets after the retransmit timer: those given up are
/// gone, those sent again have their attempts counted.
pub open spec fn after_timer(unacked: Seq<UnackedView>, now: u64, base_rto: u64) -> Seq<
    UnackedView,
> {
    unacked.filter(|u: UnackedView| u.alive()).map_values(
        |u: UnackedView| u.after_timer(now, base_rto),
    )
}

/// The packets that the retransmit timer sends again, oldest first.
pub open spec fn resent(unacked: Seq<UnackedView>, now: u64, base_rto: u64) -> Seq<Seq<u8>> {
    unacked.filter(|u: UnackedView| u.due(now, base_rto)).map_values(|u: UnackedView| u.encoded)
}

/// What holds of every slot.
pub open spec fn slot_well_formed(s: Option<KeySlotView>) -> bool {
    match s {
        Some(slot) => slot.replay.well_formed(),
        None => true,
    }
}

impl SessionView {
    /// What holds of every session: data is sent with one of the two slots,
    /// replay windows remember what such windows can, and what is to be
    /// acknowledged was received and is listed once.
    pub open spec fn well_formed(self) -> bool {
        &&& 0 <= self.active < 2
        &&& self.slots.len() == 2
        &&& slot_well_formed(self.slots[0])
        &&& slot_well_formed(self.slots[1])
        &&& self.tls_auth_replay.well_formed()
        &&& self.pending_acks.no_duplicates()
        &&& forall|i: int|
            0 <= i < self.pending_acks.len() ==> self.received_pids.contains(
                #[trigger] self.pending_acks[i],
            )
    }

    /// A session that has seen no packet.
    pub open spec fn fresh(
        server_session_id: u64,
        tls: TlsView,
        peer_id: u32,
        random1: Seq<u8>,
        random2: Seq<u8>,
        now: u64,
    ) -> SessionView {
        SessionView {
            server_session_id,
            client_session_id: 0,
            state: State::WaitingHardReset,
            next_packet_id: 0,
            pending_acks: Seq::empty(),
            received_pids: Set::empty(),
            tls,
            assigned_ip: None,
            assigned_ip_v6: None,
            peer_id,
            slots: seq![None, None],
            active: 0,
            tls_auth_pid_out: 1,
            tls_auth_replay: WindowView::fresh(),
            client_random1: None,
            client_random2: None,
            client_pre_master: None,
            server_random1: random1,
            server_random2: random2,
            client_options: None,
            client_peer_info: None,
            client_cn: None,
            unacked: Seq::empty(),
            rekey: None,
            last_rekey_at: now,
            last_seen: now,
        }
    }

    /// The keys that data is sent with.
    pub open spec fn sending(self) -> Option<KeySlotView> {
        self.slots[self.active]
    }

    /// The id of the keys that data is sent with; 0 before there are any.
    pub open spec fn sending_key_id(self) -> u8 {
        match self.sending() {
            Some(slot) => slot.key_id,
            None => 0,
        }
    }

    /// Where the keys of the id `key_id` are; the first place if in both.
    pub open spec fn slot_of(self, key_id: u8) -> Option<int> {
        if self.slots[0] matches Some(slot) && slot.key_id == key_id {
            Some(0)
        } else if self.slots[1] matches Some(slot) && slot.key_id == key_id {
            Some(1)
        } else {
            None
        }
    }

    /// The session with other keys in one place.
    pub open spec fn with_slot(self, i: int, slot: KeySlotView) -> SessionView {
        SessionView { slots: self.slots.update(i, Some(slot)), ..self }
    }

    /// The session with new keys in the place that is not sent with.
    pub open spec fn with_next_slot(self, slot: KeySlotView) -> SessionView {
        self.with_slot(1 - self.active, slot)
    }

    /// The session after data is to be sent with the keys of the id `key_id`.
    pub open spec fn promoted(self, key_id: u8) -> SessionView {
        match self.slot_of(key_id) {
            Some(i) => SessionView { active: i, ..self },
            None => self,
        }
    }

    /// The session with a rekey under way.
    pub open spec fn rekeying(
        self,
        key_id: u8,
        tls: TlsView,
        random1: Seq<u8>,
        random2: Seq<u8>,
    ) -> SessionView {
        SessionView {
            rekey: Some(
                RekeyView {
                    key_id,
                    tls,
                    state: RekeyState::Handshaking,
                    server_random1: random1,
                    server_random2: random2,
                    key_method_sent: false,
                },
            ),
            ..self
        }
    }

    /// The session after a control packet was put on the wire.
    pub open spec fn after_sent(self, packet_id: u32, encoded: Seq<u8>, now: u64) -> SessionView {
        SessionView {
            unacked: self.unacked.push(
                UnackedView { packet_id, encoded, sent_at: now, attempts: 1 },
            ),
            ..self
        }
    }

    /// The session after a packet id was taken.
    pub open spec fn after_packet_id(self) -> SessionView {
        SessionView { next_packet_id: next_u32(self.next_packet_id), ..self }
    }

    /// The session after a replay id was taken.
    pub open spec fn after_replay_id(self) -> SessionView {
        SessionView { tls_auth_pid_out: next_replay_id(self.tls_auth_pid_out), ..self }
    }

    /// The session after a control packet with an id arrived.
    pub open spec fn after_received(self, pid: u32, now: u64) -> SessionView {
        SessionView {
            received_pids: self.received_pids.insert(pid),
            pending_acks: if self.received_pids.contains(pid) {
                self.pending_acks
            } else {
                self.pending_acks.push(pid)
            },
            last_seen: now,
            ..self
        }
    }

    /// The session after the TLS handshake: the outcome of looking for the
    /// common name replaces the one before, unless there was no certificate
    /// to look in.
    pub open spec fn after_handshake(self, cn: Option<Option<Seq<char>>>) -> SessionView {
        SessionView {
            client_cn: match cn {
                Some(cn) => cn,
                None => self.client_cn,
            },
            state: State::KeyExchange,
            ..self
        }
    }

    /// The outcome of looking for the common name in the peer's certificate.
    pub open spec fn peer_common_name(self) -> Option<Option<Seq<char>>> {
        match tls_peer_certificate(self.tls.conn) {
            Some(der) => x509_common_name_of(der),
            None => None,
        }
    }

    /// The key material of the exchange, from the secrets that the client sent
    /// and the given random values of the server.
    pub open spec fn derived(
        self,
        pre_master: Seq<u8>,
        client_random1: Seq<u8>,
        server_random1: Seq<u8>,
        client_random2: Seq<u8>,
        server_random2: Seq<u8>,
    ) -> Seq<u8> {
        key_data(
            pre_master,
            client_random1,
            server_random1,
            client_random2,
            server_random2,
            be_bytes(self.client_session_id as nat, 8),
            be_bytes(self.server_session_id as nat, 8),
        )
    }

    /// The session with the keys of its first exchange.
    pub open spec fn with_prf_slot(self, key_id: u8) -> Result<SessionView, SessionError> {
        if self.client_pre_master is None {
            Err(SessionError::MissingPreMaster)
        } else if self.client_random1 is None {
            Err(SessionError::MissingRandom1)
        } else if self.client_random2 is None {
            Err(SessionError::MissingRandom2)
        } else {
            let slot = fresh_slot(
                key_id,
                self.derived(
                    self.client_pre_master->0,
                    self.client_random1->0,
                    self.server_random1,
                    self.client_random2->0,
                    self.server_random2,
                ),
            );
            Ok(
                if self.sending() is None {
                    SessionView { active: 0, ..self.with_slot(0, slot) }
                } else {
                    self.with_next_slot(slot)
                },
            )
        }
    }

    /// The header of the next data packet.
    pub open spec fn next_data_header(self) -> Seq<u8> {
        data_header(self.sending()->0.key_id, self.peer_id) + be_bytes(
            self.sending()->0.data_pid_out as nat,
            4,
        )
    }

    /// The session after the id of a data packet was taken.
    pub open spec fn after_data_packet(self) -> SessionView {
        match self.sending() {
            Some(slot) => self.with_slot(
                self.active,
                KeySlotView { data_pid_out: next_u32(slot.data_pid_out), ..slot },
            ),
            None => self,
        }
    }

    /// The next data packet, with `plaintext` inside.
    pub open spec fn data_packet(self, plaintext: Seq<u8>) -> Result<Seq<u8>, SessionError> {
        match self.sending() {
            None => Err(SessionError::NoActiveSlot),
            Some(slot) => match slot.cipher.sealed(
                slot.data_pid_out,
                self.next_data_header(),
                plaintext,
            ) {
                Ok(sealed) => Ok(self.next_data_header() + sealed),
                Err(e) => Err(SessionError::Crypto(e)),
            },
        }
    }

    /// What an inbound data packet holds. Its header is authenticated with it,
    /// and its id goes through the replay window of its keys only once it has
    /// authenticated, so that nobody without the keys can spoil the window.
    pub open spec fn opened_data(self, pkt: Seq<u8>) -> Result<Seq<u8>, DataError> {
        match data_of(pkt) {
            Err(e) => Err(DataError::Packet(e)),
            Ok(data) => match self.slot_of(data.key_id) {
                None => Err(DataError::NoKeySlot(data.key_id)),
                Some(i) => match self.slots[i]->0.cipher.opened(
                    data.packet_id,
                    pkt.take(8),
                    data.ciphertext,
                ) {
                    Err(e) => Err(DataError::Crypto(e)),
                    Ok(plaintext) => if self.slots[i]->0.replay.accepts(data.packet_id) {
                        Ok(plaintext)
                    } else {
                        Err(DataError::Replayed(data.key_id, data.packet_id))
                    },
                },
            },
        }
    }

    /// The session after an inbound data packet.
    pub open spec fn after_data(self, pkt: Seq<u8>, now: u64) -> SessionView {
        match self.opened_data(pkt) {
            Err(_) => self,
            Ok(_) => {
                let data = data_of(pkt)->Ok_0;
                let i = self.slot_of(data.key_id)->0;
                let slot = self.slots[i]->0;
                let after = self.with_slot(
                    i,
                    KeySlotView { replay: slot.replay.after(data.packet_id), ..slot },
                );
                SessionView { last_seen: now, ..after }
            },
        }
    }

    /// Whether the session would open a data packet with keys that receive
    /// from `slot`, had it not seen its id.
    pub open spec fn receives_data(self, slot: KeySlotView) -> bool {
        match self.slot_of(slot.key_id % 8) {
            Some(i) => self.slots[i]->0.cipher.receives_from(slot.cipher)
                && self.slots[i]->0.replay.accepts(slot.data_pid_out),
            None => false,
        }
    }

    /// A control packet without acknowledgements and payload.
    pub open spec fn bare_control(self, op: OpCode, key_id: u8) -> ControlView {
        ControlView {
            op,
            key_id,
            session_id: self.server_session_id,
            acks: Seq::empty(),
            remote_session_id: None,
            packet_id: Some(self.next_packet_id),
            payload: Seq::empty(),
        }
    }

    /// A control packet that acknowledges one packet.
    pub open spec fn acking_control(self, op: OpCode, key_id: u8, ack_pid: u32) -> ControlView {
        ControlView {
            acks: seq![ack_pid],
            remote_session_id: Some(self.client_session_id),
            ..self.bare_control(op, key_id)
        }
    }

    /// A packet that acknowledges packets and says nothing else.
    pub open spec fn pure_ack(self, key_id: u8, pids: Seq<u32>) -> ControlView {
        ControlView {
            acks: pids,
            remote_session_id: Some(self.client_session_id),
            packet_id: None,
            ..self.bare_control(OpCode::AckV1, key_id)
        }
    }

    /// The next control packet with TLS payload; it acknowledges whatever is
    /// to be acknowledged.
    pub open spec fn control(self, key_id: u8, payload: Seq<u8>) -> ControlView {
        ControlView {
            acks: self.pending_acks,
            remote_session_id: if self.pending_acks.len() > 0 {
                Some(self.client_session_id)
            } else {
                None
            },
            payload,
            ..self.bare_control(OpCode::ControlV1, key_id)
        }
    }

    /// The session after a control packet with TLS payload was made.
    pub open spec fn after_control(self) -> SessionView {
        SessionView { pending_acks: Seq::empty(), ..self.after_packet_id() }
    }
}

/// A session id in eight bytes.
fn id_bytes(id: SessionId) -> (r: [u8; 8])
    ensures
        r@ == be_bytes(id as nat, 8),
{
    let mut bytes: Vec<u8> = Vec::new();
    push_u64(&mut bytes, id);
    proof {
        lemma_be_bytes_len(id as nat, 8);
        assert(bytes@ =~= be_bytes(id as nat, 8));
        assert(bytes@.subrange(0, 8) =~= bytes@);
    }
    array_at(bytes.as_slice(), 0)
}

/// What a filter keeps of one more item.
proof fn lemma_filter_step<A>(s: Seq<A>, i: int, p: spec_fn(A) -> bool)
    requires
        0 <= i < s.len(),
    ensures
        s.take(i + 1).filter(p) == if p(s[i]) {
            s.take(i).filter(p).push(s[i])
        } else {
            s.take(i).filter(p)
        },
{
    reveal(Seq::filter);
    assert(s.take(i + 1).drop_last() =~= s.take(i));
    assert(s.take(i + 1).last() == s[i]);
}

impl Session {
    /// A session with a client that has sent nothing yet. The server's random
    /// values are drawn here.
    pub fn new(server_session_id: SessionId, tls: TlsSession, peer_id: u32, now: u64) -> (r: Self)
        ensures
            r@ == SessionView::fresh(
                server_session_id,
                tls@,
                peer_id,
                r.server_random1@,
                r.server_random2@,
                now,
            ),
            r@.well_formed(),
    {
        let random1: [u8; 32] = random_bytes();
        let random2: [u8; 32] = random_bytes();
        Session::with_randoms(server_session_id, tls, peer_id, random1, random2, now)
    }

    /// A session with a client that has sent nothing yet, with the given
    /// random values.
    pub fn with_randoms(
        server_session_id: SessionId,
        tls: TlsSession,
        peer_id: u32,
        random1: [u8; 32],
        random2: [u8; 32],
        now: u64,
    ) -> (r: Self)
        ensures
            r@ == SessionView::fresh(server_session_id, tls@, peer_id, random1@, random2@, now),
            r@.well_formed(),
    {
        let r = Session {
            server_session_id,
            client_session_id: 0,
            state: State::WaitingHardReset,
            next_packet_id: 0,
            pending_acks: Vec::new(),
            received_pids: BTreeSet::new(),
            tls,
            assigned_ip: None,
            assigned_ip_v6: None,
            peer_id,
            slots: [None, None],
            active_slot_idx: 0,
            tls_auth_pid_out: 1,
            tls_auth_replay: ReplayWindow::new(),
            client_random1: None,
            client_random2: None,
            client_pre_master: None,
            server_random1: random1,
            server_random2: random2,
            client_options: None,
            client_peer_info: None,
            client_cn: None,
            unacked: VecDeque::new(),
            rekey: None,
            last_rekey_at: now,
            last_seen: now,
        };
        assert(r@.slots =~= seq![None, None]);
        assert(r@.unacked =~= Seq::<UnackedView>::empty());
        r
    }

    /// Starts a rekey on a fresh TLS context under the given key id. The
    /// server's random values are drawn here.
    pub fn start_rekey(&mut self, new_key_id: u8, tls: TlsSession)
        ensures
            final(self)@.rekey is Some,
            final(self)@ == old(self)@.rekeying(
                new_key_id,
                tls@,
                final(self)@.rekey->0.server_random1,
                final(self)@.rekey->0.server_random2,
            ),
    {
        let random1: [u8; 32] = random_bytes();
        let random2: [u8; 32] = random_bytes();
        self.start_rekey_with(new_key_id, tls, random1, random2);
    }

    /// Starts a rekey with the given random values.
    pub fn start_rekey_with(
        &mut self,
        new_key_id: u8,
        tls: TlsSession,
        random1: [u8; 32],
        random2: [u8; 32],
    )
        ensures
            final(self)@ == old(self)@.rekeying(new_key_id, tls@, random1@, random2@),
    {
        self.rekey =
        Some(
            RekeyTrack {
                key_id: new_key_id,
                tls,
                state: RekeyState::Handshaking,
                server_random1: random1,
                server_random2: random2,
                key_method_sent: false,
            },
        );
    }

    /// Where the keys of the id `key_id` are.
    fn slot_index(&self, key_id: u8) -> (r: Option<usize>)
        ensures
            match r {
                Some(i) => self@.slot_of(key_id) == Some(i as int) && i < 2,
                None => self@.slot_of(key_id) is None,
            },
    {
        if let Some(slot) = &self.slots[0] {
            if slot.key_id == key_id {
                return Some(0);
            }
        }
        if let Some(slot) = &self.slots[1] {
            if slot.key_id == key_id {
                return Some(1);
            }
        }
        None
    }

    /// Switches sending to the keys of the id `key_id`. The answer is `false`,
    /// and nothing changes, if there are none.
    pub fn promote_slot(&mut self, key_id: u8) -> (found: bool)
        ensures
            found == (old(self)@.slot_of(key_id) is Some),
            final(self)@ == old(self)@.promoted(key_id),
    {
        match self.slot_index(key_id) {
            Some(i) => {
                self.active_slot_idx = i;
                true
            },
            None => false,
        }
    }

    /// Remembers a control packet that was just put on the wire, for the
    /// retransmit timer and for acknowledgements.
    pub fn record_sent(&mut self, packet_id: u32, encoded: Vec<u8>, now: u64)
        ensures
            final(self)@ == old(self)@.after_sent(packet_id, encoded@, now),
    {
        self.unacked.push_back(Unacked { packet_id, encoded, sent_at: now, attempts: 1 });
        assert(self@.unacked =~= old(self)@.after_sent(packet_id, encoded@, now).unacked);
    }

    /// Forgets the packets that `acks` acknowledge.
    pub fn process_acks(&mut self, acks: &[u32])
        ensures
            final(self)@ == (SessionView {
                unacked: without_acked(old(self)@.unacked, acks@),
                ..old(self)@
            }),
    {
        let ghost all = self@.unacked;
        let ghost keep = |u: UnackedView| !acks@.contains(u.packet_id);
        let mut rest: VecDeque<Unacked> = VecDeque::new();
        std::mem::swap(&mut rest, &mut self.unacked);
        let ghost items = rest@;
        let mut kept: VecDeque<Unacked> = VecDeque::new();
        let ghost mut i: int = 0;
        proof {
            reveal(Seq::filter);
            assert(items.skip(0) =~= items);
            assert(all.take(0) =~= Seq::<UnackedView>::empty());
            assert(kept@.map_values(|u: Unacked| u@) =~= Seq::<UnackedView>::empty());
        }
        while rest.len() > 0
            invariant
                0 <= i <= items.len(),
                rest@ == items.skip(i),
                all == items.map_values(|u: Unacked| u@),
                keep == |u: UnackedView| !acks@.contains(u.packet_id),
                kept@.map_values(|u: Unacked| u@) == all.take(i).filter(keep),
            decreases rest@.len(),
        {
            if let Some(u) = rest.pop_front() {
                let acked: bool = contains_id(acks, u.packet_id);
                proof {
                    lemma_filter_step(all, i, keep);
                    assert(all[i] == u@);
                    assert(items.skip(i).subrange(1, items.skip(i).len() as int) =~= items.skip(
                        i + 1,
                    ));
                }
                let ghost before = kept@;
                if !acked {
                    kept.push_back(u);
                    assert(kept@.map_values(|u: Unacked| u@) =~= before.map_values(
                        |u: Unacked| u@,
                    ).push(u@));
                }
                proof {
                    i = i + 1;
                }
            }
        }
        assert(all.take(i) =~= all);
        self.unacked = kept;
    }

    /// Picks the packets that are due for a retransmit, counts the attempt and
    /// gives their bytes. Packets that had their last attempt are forgotten.
    pub fn stale_unacked(&mut self, now: u64, base_rto: u64) -> (out: Vec<Vec<u8>>)
        ensures
            byte_lists(out@) == resent(old(self)@.unacked, now, base_rto),
            final(self)@ == (SessionView {
                unacked: after_timer(old(self)@.unacked, now, base_rto),
                ..old(self)@
            }),
    {
        let ghost all = self@.unacked;
        let ghost alive = |u: UnackedView| u.alive();
        let ghost due = |u: UnackedView| u.due(now, base_rto);
        let ghost step = |u: UnackedView| u.after_timer(now, base_rto);
        let ghost enc = |u: UnackedView| u.encoded;
        let mut rest: VecDeque<Unacked> = VecDeque::new();
        std::mem::swap(&mut rest, &mut self.unacked);
        let ghost items = rest@;
        let mut kept: VecDeque<Unacked> = VecDeque::new();
        let mut out: Vec<Vec<u8>> = Vec::new();
        let ghost mut i: int = 0;
        proof {
            reveal(Seq::filter);
            assert(items.skip(0) =~= items);
            assert(all.take(0) =~= Seq::<UnackedView>::empty());
            assert(kept@.map_values(|u: Unacked| u@) =~= all.take(0).filter(alive).map_values(step));
            assert(byte_lists(out@) =~= all.take(0).filter(due).map_values(enc));
        }
        while rest.len() > 0
            invariant
                0 <= i <= items.len(),
                rest@ == items.skip(i),
                all == items.map_values(|u: Unacked| u@),
                alive == |u: UnackedView| u.alive(),
                due == |u: UnackedView| u.due(now, base_rto),
                step == |u: UnackedView| u.after_timer(now, base_rto),
                enc == |u: UnackedView| u.encoded,
                kept@.map_values(|u: Unacked| u@) == all.take(i).filter(alive).map_values(step),
                byte_lists(out@) == all.take(i).filter(due).map_values(enc),
            decreases rest@.len(),
        {
            if let Some(u) = rest.pop_front() {
                let mut u = u;
                let ghost was = u@;
                let ghost kept0 = kept@;
                let ghost out0 = out@;
                proof {
                    lemma_filter_step(all, i, alive);
                    lemma_filter_step(all, i, due);
                    assert(all[i] == was);
                    assert(items.skip(i).subrange(1, items.skip(i).len() as int) =~= items.skip(
                        i + 1,
                    ));
                }
                if u.attempts < CONTROL_MAX_ATTEMPTS {
                    let factor: u128 = backoff_factor(u.attempts);
                    let backoff: u128 = base_rto as u128 * factor;
                    let waited: u64 = if now >= u.sent_at {
                        now - u.sent_at
                    } else {
                        0
                    };
                    if waited as u128 >= backoff {
                        u.sent_at = now;
                        u.attempts = u.attempts + 1;
                        out.push(to_vec(u.encoded.as_slice()));
                        assert(due(was));
                        assert(byte_lists(out@) =~= byte_lists(out0).push(was.encoded));
                        assert(all.take(i + 1).filter(due).map_values(enc) =~= all.take(i).filter(
                            due,
                        ).map_values(enc).push(was.encoded));
                    }
                    kept.push_back(u);
                    assert(u@ == step(was));
                    assert(kept@.map_values(|u: Unacked| u@) =~= kept0.map_values(
                        |u: Unacked| u@,
                    ).push(u@));
                    assert(all.take(i + 1).filter(alive).map_values(step) =~= all.take(i).filter(
                        alive,
                    ).map_values(step).push(u@));
                }
                proof {
                    i = i + 1;
                }
            }
        }
        assert(all.take(i) =~= all);
        self.unacked = kept;
        out
    }

    /// The server's answer to a hard reset of the client.
    pub fn make_hard_reset_reply(&mut self, ack_pid: u32) -> (r: ControlPacket)
        ensures
            r@ == old(self)@.acking_control(OpCode::ControlHardResetServerV2, 0, ack_pid),
            final(self)@ == old(self)@.after_packet_id(),
    {
        self.acking_packet(OpCode::ControlHardResetServerV2, 0, ack_pid)
    }

    /// The server's answer to a soft reset of the client: it repeats the key id
    /// that the client picked.
    pub fn make_soft_reset_reply(&mut self, new_key_id: u8, ack_pid: u32) -> (r: ControlPacket)
        ensures
            r@ == old(self)@.acking_control(OpCode::ControlSoftResetV1, new_key_id, ack_pid),
            final(self)@ == old(self)@.after_packet_id(),
    {
        self.acking_packet(OpCode::ControlSoftResetV1, new_key_id, ack_pid)
    }

    /// The next control packet, with one acknowledgement and no payload.
    fn acking_packet(&mut self, op: OpCode, key_id: u8, ack_pid: u32) -> (r: ControlPacket)
        ensures
            r@ == old(self)@.acking_control(op, key_id, ack_pid),
            final(self)@ == old(self)@.after_packet_id(),
    {
        let pid: u32 = self.alloc_packet_id();
        let mut acks: Vec<u32> = Vec::new();
        acks.push(ack_pid);
        let r = ControlPacket {
            op,
            key_id,
            session_id: self.server_session_id,
            acks,
            remote_session_id: Some(self.client_session_id),
            packet_id: Some(pid),
            payload: Vec::new(),
        };
        assert(r@.acks =~= seq![ack_pid]);
        r
    }

    /// The soft reset by which the server asks for a rekey. It acknowledges
    /// nothing.
    pub fn make_soft_reset_init(&mut self, new_key_id: u8) -> (r: ControlPacket)
        ensures
            r@ == old(self)@.bare_control(OpCode::ControlSoftResetV1, new_key_id),
            final(self)@ == old(self)@.after_packet_id(),
    {
        let pid: u32 = self.alloc_packet_id();
        ControlPacket {
            op: OpCode::ControlSoftResetV1,
            key_id: new_key_id,
            session_id: self.server_session_id,
            acks: Vec::new(),
            remote_session_id: None,
            packet_id: Some(pid),
            payload: Vec::new(),
        }
    }

    /// A packet that acknowledges `pids` and says nothing else.
    pub fn make_ack(&mut self, key_id: u8, pids: Vec<u32>) -> (r: ControlPacket)
        ensures
            r@ == old(self)@.pure_ack(key_id, pids@),
            final(self)@ == old(self)@,
    {
        ControlPacket {
            op: OpCode::AckV1,
            key_id,
            session_id: self.server_session_id,
            acks: pids,
            remote_session_id: Some(self.client_session_id),
            packet_id: None,
            payload: Vec::new(),
        }
    }

    /// The next control packet with TLS payload. It takes along whatever is to
    /// be acknowledged.
    pub fn make_control(&mut self, key_id: u8, tls_payload: Vec<u8>) -> (r: ControlPacket)
        ensures
            r@ == old(self)@.control(key_id, tls_payload@),
            final(self)@ == old(self)@.after_control(),
    {
        let pid: u32 = self.alloc_packet_id();
        let acks: Vec<u32> = self.take_pending_acks();
        let remote_session_id: Option<SessionId> = if acks.len() > 0 {
            Some(self.client_session_id)
        } else {
            None
        };
        ControlPacket {
            op: OpCode::ControlV1,
            key_id,
            session_id: self.server_session_id,
            acks,
            remote_session_id,
            packet_id: Some(pid),
            payload: tls_payload,
        }
    }

    /// Takes the ids that are to be acknowledged.
    pub fn take_pending_acks(&mut self) -> (r: Vec<u32>)
        ensures
            r@ == old(self)@.pending_acks,
            final(self)@ == (SessionView { pending_acks: Seq::empty(), ..old(self)@ }),
    {
        let mut acks: Vec<u32> = Vec::new();
        std::mem::swap(&mut acks, &mut self.pending_acks);
        acks
    }

    /// Takes the id of the next control packet.
    fn alloc_packet_id(&mut self) -> (p: u32)
        ensures
            p == old(self)@.next_packet_id,
            final(self)@ == old(self)@.after_packet_id(),
    {
        let p: u32 = self.next_packet_id;
        self.next_packet_id = if p == u32::MAX {
            0
        } else {
            p + 1
        };
        p
    }

    /// Takes the next replay id for an envelope. Every call gives a fresh one,
    /// so that a retransmit is no duplicate to the receiver; 0 is skipped when
    /// the ids start over.
    pub fn next_tls_auth_pid(&mut self) -> (p: u32)
        ensures
            p == old(self)@.tls_auth_pid_out,
            final(self)@ == old(self)@.after_replay_id(),
    {
        let p: u32 = self.tls_auth_pid_out;
        self.tls_auth_pid_out = if p == u32::MAX {
            1
        } else {
            p + 1
        };
        p
    }

    /// Notes the id of a received control packet. It is to be acknowledged
    /// unless it was received before.
    pub fn note_received(&mut self, pid: u32, now: u64)
        ensures
            final(self)@ == old(self)@.after_received(pid, now),
            old(self)@.well_formed() ==> final(self)@.well_formed(),
    {
        broadcast use vstd::std_specs::btree::group_btree_axioms;

        if self.received_pids.insert(pid) {
            self.pending_acks.push(pid);
        }
        self.last_seen = now;
    }

    /// Moves on after the TLS handshake: the common name in the client's
    /// certificate is noted, and the client's `key-method 2` packet is due.
    /// Where the certificate cannot be parsed the common name stays what it
    /// was.
    pub fn finalize_keys(&mut self) -> (r: Result<(), SessionError>)
        ensures
            r is Ok,
            final(self)@ == old(self)@.after_handshake(old(self)@.peer_common_name()),
    {
        let cn: Option<Option<String>> = match self.tls.peer_certificate() {
            Some(der) => match extract_common_name(der.as_slice()) {
                Ok(cn) => Some(cn),
                Err(_) => None,
            },
            None => None,
        };
        self.adopt_common_name(cn);
        Ok(())
    }

    /// Moves on after the TLS handshake with the outcome of looking for the
    /// client's common name.
    pub fn adopt_common_name(&mut self, cn: Option<Option<String>>)
        ensures
            final(self)@ == old(self)@.after_handshake(
                match cn {
                    Some(cn) => Some(text_view(cn)),
                    None => None,
                },
            ),
    {
        if let Some(cn) = cn {
            self.client_cn = cn;
        }
        self.state = State::KeyExchange;
    }

    /// Derives the keys of the exchange and installs them under `key_id`: in
    /// the first place if there are no keys to send with, else beside those.
    pub fn install_prf_slot(&mut self, key_id: u8) -> (r: Result<(), SessionError>)
        requires
            old(self)@.well_formed(),
        ensures
            match r {
                Ok(()) => old(self)@.with_prf_slot(key_id) == Ok::<SessionView, SessionError>(
                    final(self)@,
                ),
                Err(e) => old(self)@.with_prf_slot(key_id) == Err::<SessionView, SessionError>(e)
                    && final(self)@ == old(self)@,
            },
    {
        let pre_master = match self.client_pre_master {
            Some(x) => x,
            None => return Err(SessionError::MissingPreMaster),
        };
        let random1 = match self.client_random1 {
            Some(x) => x,
            None => return Err(SessionError::MissingRandom1),
        };
        let random2 = match self.client_random2 {
            Some(x) => x,
            None => return Err(SessionError::MissingRandom2),
        };
        let server_random1 = self.server_random1;
        let server_random2 = self.server_random2;
        let slot = self.derive_slot(
            key_id,
            &pre_master,
            &random1,
            &server_random1,
            &random2,
            &server_random2,
        );
        if self.active_slot().is_none() {
            self.slots[0] = Some(slot);
            self.active_slot_idx = 0;
            assert(self@.slots =~= old(self)@.slots.update(0, Some(slot@)));
        } else {
            self.install_slot(slot);
        }
        Ok(())
    }

    /// Keys of the id `key_id`, derived from the given secrets and the ids of
    /// this session.
    pub fn derive_slot(
        &self,
        key_id: u8,
        pre_master: &[u8; 48],
        client_random1: &[u8; 32],
        server_random1: &[u8; 32],
        client_random2: &[u8; 32],
        server_random2: &[u8; 32],
    ) -> (slot: KeySlot)
        ensures
            slot@ == fresh_slot(
                key_id,
                self@.derived(
                    pre_master@,
                    client_random1@,
                    server_random1@,
                    client_random2@,
                    server_random2@,
                ),
            ),
    {
        let client_sid = id_bytes(self.client_session_id);
        let server_sid = id_bytes(self.server_session_id);
        let keys = derive_openvpn_key_data(
            pre_master,
            client_random1,
            server_random1,
            client_random2,
            server_random2,
            &client_sid,
            &server_sid,
        );
        KeySlot {
            key_id,
            cipher: DataCipher::from_keymat_server(&keys),
            data_pid_out: 1,
            replay: ReplayWindow::new(),
        }
    }

    /// The keys that data is sent with.
    pub fn active_slot(&self) -> (r: Option<&KeySlot>)
        requires
            self@.well_formed(),
        ensures
            match r {
                Some(slot) => self@.sending() == Some(slot@),
                None => self@.sending() is None,
            },
    {
        self.slots[self.active_slot_idx].as_ref()
    }

    /// The keys that data is sent with, to be changed.
    pub fn active_slot_mut(&mut self) -> (r: Option<&mut KeySlot>)
        requires
            old(self)@.well_formed(),
        ensures
            match r {
                Some(slot) => old(self)@.sending() == Some(slot@) && final(self)@ == old(
                    self,
                )@.with_slot(old(self)@.active, final(slot)@),
                None => old(self)@.sending() is None && final(self)@ == old(self)@,
            },
    {
        let i: usize = self.active_slot_idx;
        self.slots[i].as_mut()
    }

    /// The keys of the id `key_id`, to be changed. Inbound packets that are in
    /// flight during a rekey find the old ones.
    pub fn slot_by_key_id_mut(&mut self, key_id: u8) -> (r: Option<&mut KeySlot>)
        ensures
            match r {
                Some(slot) => old(self)@.slot_of(key_id) is Some && old(self)@.slots[old(
                    self,
                )@.slot_of(key_id)->0] == Some(slot@) && final(self)@ == old(self)@.with_slot(
                    old(self)@.slot_of(key_id)->0,
                    final(slot)@,
                ),
                None => old(self)@.slot_of(key_id) is None && final(self)@ == old(self)@,
            },
    {
        match self.slot_index(key_id) {
            Some(i) => self.slots[i].as_mut(),
            None => None,
        }
    }

    /// Puts new keys in the place that is not sent with, and gives its index.
    pub fn install_slot(&mut self, slot: KeySlot) -> (idx: usize)
        requires
            old(self)@.well_formed(),
        ensures
            idx == 1 - old(self)@.active,
            final(self)@ == old(self)@.with_next_slot(slot@),
    {
        let idx: usize = 1 - self.active_slot_idx;
        self.slots[idx] = Some(slot);
        assert(self@.slots =~= old(self)@.slots.update(idx as int, Some(slot@)));
        idx
    }

    /// Encrypts `plaintext` as the next outbound data packet. The id of the
    /// packet is spent even where the cipher refuses. Whoever receives from
    /// the keys that were used reads the header as it was written and opens
    /// the packet to the same plaintext, unless it has seen the packet's id.
    pub fn build_data_packet(&mut self, plaintext: &[u8]) -> (r: Result<Vec<u8>, SessionError>)
        requires
            old(self)@.well_formed(),
        ensures
            final(self)@ == old(self)@.after_data_packet(),
            match r {
                Ok(pkt) => old(self)@.data_packet(plaintext@) == Ok::<Seq<u8>, SessionError>(pkt@),
                Err(e) => old(self)@.data_packet(plaintext@) == Err::<Seq<u8>, SessionError>(e),
            },
            r matches Ok(pkt) ==> {
                let slot = old(self)@.sending()->0;
                let data = data_of(pkt@);
                &&& data is Ok
                &&& data->Ok_0.key_id == slot.key_id % 8
                &&& data->Ok_0.peer_id == old(self)@.peer_id % 0x100_0000
                &&& data->Ok_0.packet_id == slot.data_pid_out
                &&& pkt@.len() == plaintext@.len() + 24
                &&& forall|peer: CipherView|
                    peer.receives_from(slot.cipher) ==> #[trigger] peer.opened(
                        slot.data_pid_out,
                        pkt@.take(8),
                        data->Ok_0.ciphertext,
                    ) == Ok::<Seq<u8>, CryptoError>(plaintext@)
                &&& forall|peer: SessionView|
                    #[trigger] peer.receives_data(slot) ==> peer.opened_data(pkt@) == Ok::<
                        Seq<u8>,
                        DataError,
                    >(plaintext@)
            },
    {
        let peer_id: u32 = self.peer_id;
        match self.active_slot_mut() {
            None => Err(SessionError::NoActiveSlot),
            Some(slot) => {
                let pid: u32 = slot.data_pid_out;
                slot.data_pid_out =
                if pid == u32::MAX {
                    0
                } else {
                    pid + 1
                };
                let key_id: u8 = slot.key_id;
                let mut out: Vec<u8> = Vec::new();
                out.push(OpCode::DataV2.to_u8() * 8 + key_id % 8);
                out.push((peer_id / 0x1_0000 % 0x100) as u8);
                out.push((peer_id / 0x100 % 0x100) as u8);
                out.push((peer_id % 0x100) as u8);
                push_u32(&mut out, pid);
                proof {
                    lemma_be_bytes_digits(peer_id as nat);
                    assert(out@ =~= old(self)@.next_data_header());
                }
                match slot.cipher.seal(pid, out.as_slice(), plaintext) {
                    Err(e) => Err(SessionError::Crypto(e)),
                    Ok(sealed) => {
                        let ghost header = out@;
                        push_bytes(&mut out, sealed.as_slice());
                        proof {
                            lemma_data_header(key_id, peer_id, pid, sealed@);
                            assert(out@.take(8) =~= header) by {
                                lemma_be_bytes_len(peer_id as nat, 3);
                                lemma_be_bytes_len(pid as nat, 4);
                            }
                        }
                        Ok(out)
                    },
                }
            },
        }
    }
}

impl Session {
    /// Opens an inbound data packet and notes its id. A packet that is dropped
    /// changes nothing.
    pub fn open_data(&mut self, pkt: &[u8], now: u64) -> (r: Result<DataEvent, DataError>)
        ensures
            final(self)@ == old(self)@.after_data(pkt@, now),
            match r {
                Ok(DataEvent::Ping) => old(self)@.opened_data(pkt@) == Ok::<Seq<u8>, DataError>(
                    PING_PAYLOAD@,
                ),
                Ok(DataEvent::Packet(bytes)) => bytes@ != PING_PAYLOAD@ && old(self)@.opened_data(
                    pkt@,
                ) == Ok::<Seq<u8>, DataError>(bytes@),
                Err(e) => old(self)@.opened_data(pkt@) == Err::<Seq<u8>, DataError>(e),
            },
            r matches Ok(event) ==> (event is Ping <==> is_ping(
                old(self)@.opened_data(pkt@)->Ok_0,
            )),
    {
        let data = match DataPacketV2::parse(pkt) {
            Ok(data) => data,
            Err(e) => return Err(DataError::Packet(e)),
        };
        let key_id: u8 = data.key_id;
        let pid: u32 = data.packet_id;
        assert(pkt@.subrange(0, 8) =~= pkt@.take(8));
        let plaintext: Vec<u8> = match self.slot_by_key_id_mut(key_id) {
            None => return Err(DataError::NoKeySlot(key_id)),
            Some(slot) => {
                let plaintext: Vec<u8> = match slot.cipher.open(pid, &pkt[0..8], data.ciphertext) {
                    Ok(plaintext) => plaintext,
                    Err(e) => {
                        assert(old(self)@.with_slot(old(self)@.slot_of(key_id)->0, slot@)
                            =~= old(self)@);
                        return Err(DataError::Crypto(e));
                    },
                };
                if !slot.replay.check_and_set(pid) {
                    assert(old(self)@.with_slot(old(self)@.slot_of(key_id)->0, slot@) =~= old(
                        self,
                    )@);
                    return Err(DataError::Replayed(key_id, pid));
                }
                plaintext
            },
        };
        self.last_seen = now;
        if same_bytes(plaintext.as_slice(), PING_PAYLOAD.as_slice()) {
            Ok(DataEvent::Ping)
        } else {
            Ok(DataEvent::Packet(plaintext))
        }
    }
}

/// A data packet parses to what its header was made of, in the bits that the
/// header has for it.
proof fn lemma_data_header(key_id: u8, peer_id: u32, pid: u32, sealed: Seq<u8>)
    ensures
        data_of(data_header(key_id, peer_id) + be_bytes(pid as nat, 4) + sealed) == Ok::<
            DataView,
            PacketError,
        >(
            DataView {
                key_id: key_id % 8,
                peer_id: peer_id % 0x100_0000,
                packet_id: pid,
                ciphertext: sealed,
            },
        ),
{
    let p = DataView {
        key_id: key_id % 8,
        peer_id: peer_id % 0x100_0000,
        packet_id: pid,
        ciphertext: sealed,
    };
    lemma_be_limits();
    lemma_be_bytes_low(peer_id as nat, 3);
    assert(first_byte(OpCode::DataV2, key_id) == first_byte(OpCode::DataV2, key_id % 8));
    law_data_parse_of_encode(p);
}

/// Two to the power of the attempts before this one, five at most.
fn backoff_factor(attempts: u32) -> (f: u128)
    ensures
        f <= 32,
        forall|u: UnackedView, base: u64|
            u.attempts == attempts ==> #[trigger] u.backoff(base) == base * f,
{
    if attempts <= 1 {
        1
    } else if attempts == 2 {
        2
    } else if attempts == 3 {
        4
    } else if attempts == 4 {
        8
    } else if attempts == 5 {
        16
    } else {
        32
    }
}

/// Whether `ids` holds `id`.
fn contains_id(ids: &[u32], id: u32) -> (r: bool)
    ensures
        r == ids@.contains(id),
{
    let mut i: usize = 0;
    while i < ids.len()
        invariant
            i <= ids@.len(),
            forall|j: int| 0 <= j < i ==> ids@[j] != id,
        decreases ids@.len() - i,
    {
        if ids[i] == id {
            return true;
        }
        i += 1;
    }
    false
}

/// A filter keeps exactly the items that pass it.
proof fn lemma_filter_members<A>(s: Seq<A>, p: spec_fn(A) -> bool, x: A)
    ensures
        s.filter(p).contains(x) <==> s.contains(x) && p(x),
    decreases s.len(),
{
    reveal(Seq::filter);
    if s.len() > 0 {
        let init = s.drop_last();
        lemma_filter_members(init, p, x);
        if s.contains(x) {
            let k = choose|k: int| 0 <= k < s.len() && s[k] == x;
            if k < s.len() - 1 {
                assert(init[k] == x);
            }
        }
        if init.contains(x) {
            let k = choose|k: int| 0 <= k < init.len() && init[k] == x;
            assert(s[k] == x);
        }
        if p(s.last()) {
            let kept = init.filter(p);
            let all = s.filter(p);
            assert(all == kept.push(s.last()));
            assert(all[all.len() - 1] == s.last());
            if kept.contains(x) {
                let k = choose|k: int| 0 <= k < kept.len() && kept[k] == x;
                assert(all[k] == x);
            }
            if all.contains(x) {
                let k = choose|k: int| 0 <= k < all.len() && all[k] == x;
                if k < kept.len() {
                    assert(kept[k] == x);
                }
            }
        }
        assert(s[s.len() - 1] == s.last());
    }
}

/// Acknowledged packets are forgotten, and no others.
pub proof fn law_acks(unacked: Seq<UnackedView>, acks: Seq<u32>, u: UnackedView)
    ensures
        without_acked(unacked, acks).contains(u) <==> unacked.contains(u) && !acks.contains(
            u.packet_id,
        ),
{
    lemma_filter_members(unacked, |u: UnackedView| !acks.contains(u.packet_id), u);
}

/// Whether no packet was sent more often than is allowed.
pub open spec fn attempts_bounded(unacked: Seq<UnackedView>) -> bool {
    forall|i: int|
        0 <= i < unacked.len() ==> 1 <= (#[trigger] unacked[i]).attempts <= CONTROL_MAX_ATTEMPTS
}

/// No control packet is sent more than `CONTROL_MAX_ATTEMPTS` times: sending,
/// acknowledgements and the retransmit timer keep the bound, and the timer
/// leaves alone what has reached it.
pub proof fn law_attempts_bounded(
    s: SessionView,
    packet_id: u32,
    encoded: Seq<u8>,
    acks: Seq<u32>,
    now: u64,
    base_rto: u64,
)
    requires
        attempts_bounded(s.unacked),
    ensures
        attempts_bounded(s.after_sent(packet_id, encoded, now).unacked),
        attempts_bounded(without_acked(s.unacked, acks)),
        attempts_bounded(after_timer(s.unacked, now, base_rto)),
        forall|u: UnackedView|
            u.attempts >= CONTROL_MAX_ATTEMPTS ==> !(#[trigger] u.due(now, base_rto)),
{
    let all = s.unacked;
    let p = |u: UnackedView| !acks.contains(u.packet_id);
    let kept = all.filter(p);
    assert forall|i: int| 0 <= i < kept.len() implies 1 <= (#[trigger] kept[i]).attempts
        <= CONTROL_MAX_ATTEMPTS by {
        lemma_filter_members(all, p, kept[i]);
        let k = choose|k: int| 0 <= k < all.len() && all[k] == kept[i];
        assert(1 <= all[k].attempts <= CONTROL_MAX_ATTEMPTS);
    }
    let q = |u: UnackedView| u.alive();
    let live = all.filter(q);
    let timed = after_timer(all, now, base_rto);
    assert forall|i: int| 0 <= i < timed.len() implies 1 <= (#[trigger] timed[i]).attempts
        <= CONTROL_MAX_ATTEMPTS by {
        lemma_filter_members(all, q, live[i]);
        let k = choose|k: int| 0 <= k < all.len() && all[k] == live[i];
        assert(1 <= all[k].attempts <= CONTROL_MAX_ATTEMPTS);
        assert(q(live[i]));
    }
}

/// The retransmit timer sends nothing that is not waiting for an
/// acknowledgement, and does not send a packet again before its wait, which
/// doubles with every attempt, is over.
pub proof fn law_retransmits(u: UnackedView, now: u64, later: u64, base_rto: u64)
    requires
        u.attempts >= 1,
        u.due(now, base_rto),
        now <= later,
        later - now < 2 * u.backoff(base_rto),
    ensures
        u.after_timer(now, base_rto).backoff(base_rto) == 2 * u.backoff(base_rto),
        !u.after_timer(now, base_rto).due(later, base_rto),
{
}

/// A retransmit repeats a packet that is still waiting, and every packet that
/// is due is repeated.
pub proof fn law_resent(unacked: Seq<UnackedView>, now: u64, base_rto: u64, bytes: Seq<u8>)
    ensures
        resent(unacked, now, base_rto).contains(bytes) <==> exists|i: int|
            0 <= i < unacked.len() && (#[trigger] unacked[i]).due(now, base_rto)
                && unacked[i].encoded == bytes,
{
    let p = |u: UnackedView| u.due(now, base_rto);
    let kept = unacked.filter(p);
    let out = resent(unacked, now, base_rto);
    if out.contains(bytes) {
        let k = choose|k: int| 0 <= k < out.len() && out[k] == bytes;
        lemma_filter_members(unacked, p, kept[k]);
        let i = choose|i: int| 0 <= i < unacked.len() && unacked[i] == kept[k];
        assert(p(unacked[i]));
        assert(unacked[i].encoded == bytes);
    }
    if exists|i: int|
        0 <= i < unacked.len() && (#[trigger] unacked[i]).due(now, base_rto) && unacked[i].encoded
            == bytes {
        let i = choose|i: int|
            0 <= i < unacked.len() && (#[trigger] unacked[i]).due(now, base_rto)
                && unacked[i].encoded == bytes;
        lemma_filter_members(unacked, p, unacked[i]);
        assert(p(unacked[i]));
        let k = choose|k: int| 0 <= k < kept.len() && kept[k] == unacked[i];
        assert(out[k] == bytes);
    }
}

/// A replay id is never 0, and the next one differs from it.
pub proof fn law_replay_ids(x: u32)
    requires
        x != 0,
    ensures
        next_replay_id(x) != 0,
        next_replay_id(x) != x,
        x < u32::MAX ==> next_replay_id(x) > x,
{
}

/// A rekey loses nothing in flight: once new keys are installed and sent with,
/// the keys of before, under their own id, still open what arrives late.
pub proof fn law_rekey_keeps_old_keys(s: SessionView, slot: KeySlotView)
    requires
        s.well_formed(),
        s.sending() is Some,
        s.sending()->0.key_id != slot.key_id,
        slot.replay.well_formed(),
    ensures
        ({
            let t = s.with_next_slot(slot).promoted(slot.key_id);
            &&& t.well_formed()
            &&& t.sending() == Some(slot)
            &&& t.slot_of(s.sending()->0.key_id) == Some(s.active)
            &&& t.slots[s.active] == s.sending()
        }),
{
}

/// While new keys are only installed, data is still sent with the old ones.
pub proof fn law_install_does_not_switch(s: SessionView, slot: KeySlotView)
    requires
        s.well_formed(),
        slot.replay.well_formed(),
    ensures
        s.with_next_slot(slot).well_formed(),
        s.with_next_slot(slot).sending() == s.sending(),
{
}

/// A packet id is acknowledged once however often the packet arrives: after it
/// was noted, noting it again changes nothing but the time.
pub proof fn law_received_once(s: SessionView, pid: u32, now: u64, later: u64)
    ensures
        s.after_received(pid, now).after_received(pid, later) == (SessionView {
            last_seen: later,
            ..s.after_received(pid, now)
        }),
        s.well_formed() ==> s.after_received(pid, now).well_formed(),
{
    assert(s.received_pids.insert(pid).insert(pid) =~= s.received_pids.insert(pid));
}

/// A control packet takes along every pending acknowledgement, and leaves none
/// behind.
pub proof fn law_control_takes_acks(s: SessionView, key_id: u8, payload: Seq<u8>)
    requires
        s.well_formed(),
    ensures
        s.control(key_id, payload).acks == s.pending_acks,
        s.after_control().pending_acks.len() == 0,
        s.after_control().well_formed(),
        s.pending_acks.len() < 256 && key_id < 8 ==> s.control(key_id, payload).well_formed(),
{
}

impl SessionView {
    /// The session after data packets arrived in turn, each at its time.
    pub open spec fn after_packets(self, pkts: Seq<(Seq<u8>, u64)>) -> SessionView
        decreases pkts.len(),
    {
        if pkts.len() == 0 {
            self
        } else {
            self.after_packets(pkts.drop_last()).after_data(pkts.last().0, pkts.last().1)
        }
    }
}

/// Data packets leave the keys where they are; the window of the keys of one
/// id has then seen some of the packets' ids.
proof fn lemma_window_after_packets(
    s: SessionView,
    pkts: Seq<(Seq<u8>, u64)>,
    key_id: u8,
) -> (ids: Seq<u32>)
    requires
        s.slots.len() == 2,
        s.slot_of(key_id) is Some,
    ensures
        s.after_packets(pkts).slots.len() == 2,
        forall|k: u8| #[trigger] s.after_packets(pkts).slot_of(k) == s.slot_of(k),
        s.after_packets(pkts).slots[s.slot_of(key_id)->0]->0.replay
            == s.slots[s.slot_of(key_id)->0]->0.replay.after_all(ids),
    decreases pkts.len(),
{
    if pkts.len() == 0 {
        Seq::empty()
    } else {
        let before = lemma_window_after_packets(s, pkts.drop_last(), key_id);
        let t = s.after_packets(pkts.drop_last());
        let (pkt, now) = pkts.last();
        let i = s.slot_of(key_id)->0;
        assert(t.slot_of(key_id) == Some(i));
        if t.opened_data(pkt) is Ok {
            let data = data_of(pkt)->Ok_0;
            let j = t.slot_of(data.key_id)->0;
            assert forall|k: u8| #[trigger] t.after_data(pkt, now).slot_of(k) == s.slot_of(k) by {
                assert(t.slot_of(k) == s.slot_of(k));
            }
            if i == j {
                assert(before.push(data.packet_id).drop_last() =~= before);
                before.push(data.packet_id)
            } else {
                before
            }
        } else {
            before
        }
    }
}

/// No data packet is accepted twice: once a packet of a key id and packet id
/// was opened, every packet of the same ids is refused, even one that
/// authenticates, whatever arrives in between.
pub proof fn law_data_not_replayed(
    s: SessionView,
    pkt: Seq<u8>,
    now: u64,
    between: Seq<(Seq<u8>, u64)>,
    again: Seq<u8>,
)
    requires
        s.well_formed(),
        s.opened_data(pkt) is Ok,
        data_of(again) is Ok,
        data_of(again)->Ok_0.key_id == data_of(pkt)->Ok_0.key_id,
        data_of(again)->Ok_0.packet_id == data_of(pkt)->Ok_0.packet_id,
    ensures
        s.after_data(pkt, now).after_packets(between).opened_data(again) is Err,
{
    let data = data_of(pkt)->Ok_0;
    let i = s.slot_of(data.key_id)->0;
    let t = s.after_data(pkt, now);
    assert(t.slot_of(data.key_id) == Some(i));
    let ids = lemma_window_after_packets(t, between, data.key_id);
    let u = t.after_packets(between);
    assert(u.slot_of(data.key_id) == t.slot_of(data.key_id));
    crate::replay::law_no_replay(s.slots[i]->0.replay, data.packet_id, ids);
}

/// Whatever happens to a session keeps it well-formed.
pub proof fn law_stays_well_formed(
    s: SessionView,
    pid: u32,
    key_id: u8,
    keys: Seq<u8>,
    encoded: Seq<u8>,
    acks: Seq<u32>,
    pkt: Seq<u8>,
    cn: Option<Option<Seq<char>>>,
    tls: TlsView,
    now: u64,
)
    requires
        s.well_formed(),
    ensures
        s.after_received(pid, now).well_formed(),
        s.after_packet_id().well_formed(),
        s.after_replay_id().well_formed(),
        s.after_control().well_formed(),
        s.after_sent(pid, encoded, now).well_formed(),
        s.after_handshake(cn).well_formed(),
        s.with_next_slot(fresh_slot(key_id, keys)).well_formed(),
        s.with_prf_slot(key_id) matches Ok(t) ==> t.well_formed(),
        s.promoted(key_id).well_formed(),
        s.rekeying(key_id, tls, keys, keys).well_formed(),
        s.after_data_packet().well_formed(),
        s.after_data(pkt, now).well_formed(),
        (SessionView { unacked: without_acked(s.unacked, acks), ..s }).well_formed(),
        (SessionView { tls_auth_replay: s.tls_auth_replay.after(pid), ..s }).well_formed(),
{
    crate::replay::law_window_invariant(s.tls_auth_replay, seq![pid]);
    assert(seq![pid].drop_last() =~= Seq::<u32>::empty());
    reveal_with_fuel(WindowView::after_all, 2);
}

/// Opening data keeps a session well-formed and touches neither the other
/// keys nor which ones are sent with.
pub proof fn law_data_keeps_the_rest(s: SessionView, pkt: Seq<u8>, now: u64)
    requires
        s.well_formed(),
    ensures
        s.after_data(pkt, now).well_formed(),
        s.after_data(pkt, now).active == s.active,
        forall|i: int|
            0 <= i < 2 && (data_of(pkt) is Ok ==> s.slot_of(data_of(pkt)->Ok_0.key_id) != Some(i))
                ==> #[trigger] s.after_data(pkt, now).slots[i] == s.slots[i],
{
}

/// The keys of an exchange come from all that was exchanged, each value in its
/// place, and from both session ids, the client's first. They are installed
/// under the given id, count their packets from 1 and have seen none; the
/// first keys go to the first place and are sent with at once, later ones go
/// beside those in use. Without all of the client's values there are none.
pub proof fn law_exchanged_keys(s: SessionView, key_id: u8, id: u32)
    requires
        s.slots.len() == 2,
        0 <= s.active < 2,
    ensures
        s.with_prf_slot(key_id) is Ok <==> s.client_pre_master is Some && s.client_random1 is Some
            && s.client_random2 is Some,
        s.client_pre_master is None ==> s.with_prf_slot(key_id) == Err::<SessionView, SessionError>(
            SessionError::MissingPreMaster,
        ),
        s.client_pre_master is Some && s.client_random1 is None ==> s.with_prf_slot(key_id) == Err::<
            SessionView,
            SessionError,
        >(SessionError::MissingRandom1),
        s.client_pre_master is Some && s.client_random1 is Some && s.client_random2 is None
            ==> s.with_prf_slot(key_id) == Err::<SessionView, SessionError>(
            SessionError::MissingRandom2,
        ),
        s.with_prf_slot(key_id) matches Ok(t) ==> {
            let km = key_data(
                s.client_pre_master->0,
                s.client_random1->0,
                s.server_random1,
                s.client_random2->0,
                s.server_random2,
                be_bytes(s.client_session_id as nat, 8),
                be_bytes(s.server_session_id as nat, 8),
            );
            let first = s.slots[s.active] is None;
            let i = if first {
                0
            } else {
                1 - s.active
            };
            &&& t == (SessionView { slots: t.slots, active: t.active, ..s })
            &&& t.slots.len() == 2
            &&& t.slots[1 - i] == s.slots[1 - i]
            &&& t.active == if first {
                0
            } else {
                s.active
            }
            &&& t.slots[i] matches Some(slot) && {
                &&& slot.key_id == key_id
                &&& slot.data_pid_out == 1
                &&& slot.replay.accepts(id) <==> id != 0
                &&& slot.cipher.dec_key == km.subrange(0, 32)
                &&& slot.cipher.dec_iv == km.subrange(64, 72)
                &&& slot.cipher.enc_key == km.subrange(128, 160)
                &&& slot.cipher.enc_iv == km.subrange(192, 200)
            }
        },
{
}

/// An outbound data packet, byte by byte: the number 9 with the key id in use
/// in the first one, three bytes of the client's peer id, four of the packet
/// id, most significant first, and what the cipher makes of the plaintext with
/// those eight bytes as the header and that id. Without keys there is none.
/// The id is spent; nothing else changes.
pub proof fn law_outbound_data(s: SessionView, plaintext: Seq<u8>)
    requires
        s.slots.len() == 2,
        0 <= s.active < 2,
    ensures
        s.slots[s.active] is None ==> s.data_packet(plaintext) == Err::<Seq<u8>, SessionError>(
            SessionError::NoActiveSlot,
        ) && s.after_data_packet() == s,
        s.slots[s.active] matches Some(slot) ==> {
            let t = s.after_data_packet();
            &&& t == (SessionView { slots: t.slots, ..s })
            &&& t.slots.len() == 2
            &&& t.slots[1 - s.active] == s.slots[1 - s.active]
            &&& t.slots[s.active] matches Some(after) && after == (KeySlotView {
                data_pid_out: after.data_pid_out,
                ..slot
            }) && (slot.data_pid_out < u32::MAX ==> after.data_pid_out == slot.data_pid_out + 1) && (
            slot.data_pid_out == u32::MAX ==> after.data_pid_out == 0)
        },
        s.slots[s.active] matches Some(slot) ==> (match s.data_packet(plaintext) {
            Ok(pkt) => {
                &&& pkt.len() >= 8
                &&& pkt[0] == 72 + slot.key_id % 8
                &&& pkt[1] * 0x1_0000 + pkt[2] * 0x100 + pkt[3] == s.peer_id % 0x100_0000
                &&& pkt[4] * 0x100_0000 + pkt[5] * 0x1_0000 + pkt[6] * 0x100 + pkt[7]
                    == slot.data_pid_out
                &&& slot.cipher.sealed(slot.data_pid_out, pkt.take(8), plaintext) == Ok::<
                    Seq<u8>,
                    CryptoError,
                >(pkt.skip(8))
            },
            Err(e) => e matches SessionError::Crypto(_) && exists|header: Seq<u8>|
                header.len() == 8 && #[trigger] slot.cipher.sealed(
                    slot.data_pid_out,
                    header,
                    plaintext,
                ) is Err,
        }),
{
    if let Some(slot) = s.slots[s.active] {
        let header = s.next_data_header();
        lemma_be_limits();
        lemma_be_bytes_len(s.peer_id as nat, 3);
        lemma_be_bytes_len(slot.data_pid_out as nat, 4);
        lemma_be_bytes_digits(s.peer_id as nat);
        lemma_be_bytes_digits(slot.data_pid_out as nat);
        let id = s.peer_id;
        assert(id % 0x100_0000 == (id / 0x1_0000 % 0x100) * 0x1_0000 + (id / 0x100 % 0x100) * 0x100
            + id % 0x100);
        assert(header.len() == 8);
        if let Ok(pkt) = s.data_packet(plaintext) {
            let sealed = slot.cipher.sealed(slot.data_pid_out, header, plaintext)->Ok_0;
            assert(pkt == header + sealed);
            assert(pkt.take(8) =~= header);
            assert(pkt.skip(8) =~= sealed);
        } else {
            assert(slot.cipher.sealed(slot.data_pid_out, header, plaintext) is Err);
        }
    }
}

/// An inbound data packet is opened with the keys of the id in its first byte,
/// under the packet id in its bytes 4 to 7, with its first eight bytes as the
/// header, by whichever place has those keys; then its id has to be new to
/// them. It is refused exactly where one of these fails, in this order, and
/// then nothing changes; else those keys have seen its id, the client was heard
/// of, and nothing else changes. `i` is the place of the keys.
pub proof fn law_inbound_data(s: SessionView, pkt: Seq<u8>, now: u64, i: int)
    requires
        s.slots.len() == 2,
        pkt.len() >= 8,
        pkt[0] >> 3 == 9,
        0 <= i < 2,
        s.slots[i] matches Some(slot) && slot.key_id == pkt[0] & 7,
        i == 1 ==> !(s.slots[0] matches Some(slot) && slot.key_id == pkt[0] & 7),
    ensures
        ({
            let slot = s.slots[i]->0;
            let id = (pkt[4] * 0x100_0000 + pkt[5] * 0x1_0000 + pkt[6] * 0x100 + pkt[7]) as u32;
            let t = s.after_data(pkt, now);
            &&& s.opened_data(pkt) == (match slot.cipher.opened(id, pkt.take(8), pkt.skip(8)) {
                Err(e) => Err::<Seq<u8>, DataError>(DataError::Crypto(e)),
                Ok(plaintext) => if slot.replay.accepts(id) {
                    Ok::<Seq<u8>, DataError>(plaintext)
                } else {
                    Err::<Seq<u8>, DataError>(DataError::Replayed(pkt[0] & 7, id))
                },
            })
            &&& s.opened_data(pkt) is Err ==> t == s
            &&& s.opened_data(pkt) is Ok ==> {
                &&& t == (SessionView { slots: t.slots, last_seen: now, ..s })
                &&& t.slots.len() == 2
                &&& t.slots[1 - i] == s.slots[1 - i]
                &&& t.slots[i] == Some(KeySlotView { replay: slot.replay.after(id), ..slot })
            }
        }),
{
    crate::protocol::law_data_layout(pkt);
}

/// A packet that is no data packet, or whose key id no keys have, is refused,
/// and changes nothing.
pub proof fn law_stray_data(s: SessionView, pkt: Seq<u8>, now: u64)
    requires
        s.slots.len() == 2,
    ensures
        pkt.len() < 8 || pkt[0] >> 3 != 9 ==> s.opened_data(pkt) matches Err(DataError::Packet(_)),
        pkt.len() >= 8 && pkt[0] >> 3 == 9 && !(s.slots[0] matches Some(slot) && slot.key_id
            == pkt[0] & 7) && !(s.slots[1] matches Some(slot) && slot.key_id == pkt[0] & 7)
            ==> s.opened_data(pkt) == Err::<Seq<u8>, DataError>(DataError::NoKeySlot(pkt[0] & 7)),
        s.opened_data(pkt) is Err ==> s.after_data(pkt, now) == s,
{
    crate::protocol::law_data_layout(pkt);
}

/// Switching to the keys of an id sends with them from then on, if there are
/// any, and changes nothing else.
pub proof fn law_promote(s: SessionView, key_id: u8)
    requires
        s.well_formed(),
    ensures
        s.promoted(key_id) == (SessionView { active: s.promoted(key_id).active, ..s }),
        (exists|i: int|
            0 <= i < 2 && (#[trigger] s.slots[i] matches Some(slot) && slot.key_id == key_id)) ==> (
        s.promoted(key_id).sending() matches Some(slot) && slot.key_id == key_id),
        (forall|i: int|
            0 <= i < 2 ==> !(#[trigger] s.slots[i] matches Some(slot) && slot.key_id == key_id))
            ==> s.promoted(key_id) == s,
{
}

/// A new session waits for the client's hard reset: it has no keys, addresses
/// or rekey, owes no acknowledgement and awaits none, has seen no replay id,
/// and counts control packets from 0 and replay ids from 1.
pub proof fn law_new_session(
    sid: u64,
    tls: TlsView,
    peer_id: u32,
    random1: Seq<u8>,
    random2: Seq<u8>,
    now: u64,
    id: u32,
)
    ensures
        ({
            let s = SessionView::fresh(sid, tls, peer_id, random1, random2, now);
            &&& s.well_formed()
            &&& s.state is WaitingHardReset
            &&& s.server_session_id == sid && s.client_session_id == 0 && s.peer_id == peer_id
            &&& s.tls == tls
            &&& s.server_random1 == random1 && s.server_random2 == random2
            &&& s.slots[0] is None && s.slots[1] is None && s.sending_key_id() == 0
            &&& s.assigned_ip is None && s.assigned_ip_v6 is None && s.rekey is None
            &&& s.client_cn is None && s.client_pre_master is None && s.client_random1 is None
                && s.client_random2 is None
            &&& s.pending_acks.len() == 0 && s.unacked.len() == 0 && !s.received_pids.contains(id)
            &&& s.next_packet_id == 0 && s.tls_auth_pid_out == 1
            &&& s.tls_auth_replay.accepts(id) <==> id != 0
            &&& s.last_seen == now && s.last_rekey_at == now
        }),
{
}

/// A rekey starts with a handshake of its own, under the given key id and with
/// the given random values; nothing else of the session changes.
pub proof fn law_rekey_starts(
    s: SessionView,
    key_id: u8,
    tls: TlsView,
    random1: Seq<u8>,
    random2: Seq<u8>,
)
    ensures
        ({
            let t = s.rekeying(key_id, tls, random1, random2);
            &&& t == (SessionView { rekey: t.rekey, ..s })
            &&& t.rekey matches Some(rk) && rk.key_id == key_id && rk.tls == tls
                && rk.state is Handshaking && !rk.key_method_sent && rk.server_random1 == random1
                && rk.server_random2 == random2
        }),
{
}

/// The common name of a client is the first one in the subject of the first
/// certificate of its chain.
pub proof fn law_client_name(
    s: SessionView,
    chain: Seq<Seq<u8>>,
    names: Seq<Option<Seq<char>>>,
)
    requires
        crate::tls::tls_peer_chain(s.tls.conn) == Some(chain),
        chain.len() > 0,
        crate::tls::x509_common_names_of(chain[0]) == Some(names),
    ensures
        names.len() > 0 ==> s.peer_common_name() == Some(names[0]),
        names.len() == 0 ==> s.peer_common_name() == Some(None::<Seq<char>>),
{
}

/// After the handshake the client's packet is due, and the name that was found
/// is noted, or that there is none; where it could not be looked for, it stays.
pub proof fn law_after_handshake(s: SessionView, cn: Option<Seq<char>>)
    ensures
        s.after_handshake(Some(cn)) == (SessionView {
            client_cn: cn,
            state: State::KeyExchange,
            ..s
        }),
        s.after_handshake(None) == (SessionView { state: State::KeyExchange, ..s }),
        crate::tls::tls_peer_chain(s.tls.conn) is None ==> s.peer_common_name() is None,
{
}

/// Ids go up by one and start over after the last: those of packets from 0,
/// those of envelopes from 1.
pub proof fn law_ids_go_up(s: SessionView)
    ensures
        s.next_packet_id < u32::MAX ==> s.after_packet_id().next_packet_id == s.next_packet_id + 1,
        s.next_packet_id == u32::MAX ==> s.after_packet_id().next_packet_id == 0,
        s.tls_auth_pid_out < u32::MAX ==> s.after_replay_id().tls_auth_pid_out == s.tls_auth_pid_out
            + 1,
        s.tls_auth_pid_out == u32::MAX ==> s.after_replay_id().tls_auth_pid_out == 1,
        s.after_packet_id() == (SessionView {
            next_packet_id: s.after_packet_id().next_packet_id,
            ..s
        }),
        s.after_replay_id() == (SessionView {
            tls_auth_pid_out: s.after_replay_id().tls_auth_pid_out,
            ..s
        }),
{
}

/// A packet that was sent waits behind those that wait already; it was sent
/// once, at that time.
pub proof fn law_sent_is_remembered(s: SessionView, packet_id: u32, encoded: Seq<u8>, now: u64)
    ensures
        ({
            let t = s.after_sent(packet_id, encoded, now);
            &&& t == (SessionView { unacked: t.unacked, ..s })
            &&& t.unacked.len() == s.unacked.len() + 1
            &&& t.unacked.drop_last() == s.unacked
            &&& t.unacked.last().packet_id == packet_id && t.unacked.last().encoded == encoded
            &&& t.unacked.last().sent_at == now && t.unacked.last().attempts == 1
        }),
{
    assert(s.after_sent(packet_id, encoded, now).unacked.drop_last() =~= s.unacked);
}

/// Packets that wait are dealt with one by one, oldest first: each is forgotten
/// if it is acknowledged, and else stays in its place, unchanged.
pub proof fn law_acks_one_by_one(unacked: Seq<UnackedView>, u: UnackedView, acks: Seq<u32>)
    ensures
        without_acked(Seq::empty(), acks) == Seq::<UnackedView>::empty(),
        without_acked(unacked.push(u), acks) == if acks.contains(u.packet_id) {
            without_acked(unacked, acks)
        } else {
            without_acked(unacked, acks).push(u)
        },
{
    let p = |u: UnackedView| !acks.contains(u.packet_id);
    let all = unacked.push(u);
    reveal(Seq::filter);
    assert(Seq::<UnackedView>::empty().filter(p) =~= Seq::empty());
    lemma_filter_step(all, unacked.len() as int, p);
    assert(all.take(all.len() as int) =~= all);
    assert(all.take(unacked.len() as int) =~= unacked);
}

/// The retransmit timer deals with the packets one by one, oldest first. One
/// that was sent six times is forgotten. One whose wait is over goes out again
/// as it was, and has one more attempt, made now. Any other stays as it is.
pub proof fn law_timer_one_by_one(
    unacked: Seq<UnackedView>,
    u: UnackedView,
    now: u64,
    base_rto: u64,
)
    ensures
        after_timer(Seq::empty(), now, base_rto) == Seq::<UnackedView>::empty(),
        resent(Seq::empty(), now, base_rto) == Seq::<Seq<u8>>::empty(),
        u.attempts >= 6 ==> after_timer(unacked.push(u), now, base_rto) == after_timer(
            unacked,
            now,
            base_rto,
        ) && resent(unacked.push(u), now, base_rto) == resent(unacked, now, base_rto),
        u.attempts < 6 && u.due(now, base_rto) ==> after_timer(unacked.push(u), now, base_rto)
            == after_timer(unacked, now, base_rto).push(
            UnackedView {
                packet_id: u.packet_id,
                encoded: u.encoded,
                sent_at: now,
                attempts: (u.attempts + 1) as u32,
            },
        ) && resent(unacked.push(u), now, base_rto) == resent(unacked, now, base_rto).push(
            u.encoded,
        ),
        u.attempts < 6 && !u.due(now, base_rto) ==> after_timer(unacked.push(u), now, base_rto)
            == after_timer(unacked, now, base_rto).push(u) && resent(
            unacked.push(u),
            now,
            base_rto,
        ) == resent(unacked, now, base_rto),
{
    let all = unacked.push(u);
    let n = unacked.len() as int;
    let alive = |u: UnackedView| u.alive();
    let due = |u: UnackedView| u.due(now, base_rto);
    let step = |u: UnackedView| u.after_timer(now, base_rto);
    let enc = |u: UnackedView| u.encoded;
    reveal(Seq::filter);
    assert(Seq::<UnackedView>::empty().filter(alive).map_values(step) =~= Seq::empty());
    assert(Seq::<UnackedView>::empty().filter(due).map_values(enc) =~= Seq::empty());
    lemma_filter_step(all, n, alive);
    lemma_filter_step(all, n, due);
    assert(all.take(all.len() as int) =~= all);
    assert(all.take(n) =~= unacked);
    let a = unacked.filter(alive);
    let d = unacked.filter(due);
    assert(a.push(u).map_values(step) =~= a.map_values(step).push(step(u)));
    assert(d.push(u).map_values(enc) =~= d.map_values(enc).push(u.encoded));
}

/// The waits of a packet: two seconds after the first attempt, twice as long
/// after each further one. Until a wait is over, to the nanosecond, the packet
/// stays; a clock that has gone back counts as no time passed.
pub proof fn law_waits(u: UnackedView, now: u64)
    ensures
        u.attempts == 1 ==> (u.due(now, CONTROL_BASE_RTO) <==> now >= u.sent_at + 2_000_000_000),
        u.attempts == 2 ==> (u.due(now, CONTROL_BASE_RTO) <==> now >= u.sent_at + 4_000_000_000),
        u.attempts == 3 ==> (u.due(now, CONTROL_BASE_RTO) <==> now >= u.sent_at + 8_000_000_000),
        u.attempts == 4 ==> (u.due(now, CONTROL_BASE_RTO) <==> now >= u.sent_at + 16_000_000_000),
        u.attempts == 5 ==> (u.due(now, CONTROL_BASE_RTO) <==> now >= u.sent_at + 32_000_000_000),
        u.attempts >= 6 ==> !u.due(now, CONTROL_BASE_RTO),
{
}

/// A packet id that is new is acknowledged behind those that are to be
/// acknowledged already, and is no longer new; nothing else changes but the
/// time.
pub proof fn law_new_id_is_acknowledged(s: SessionView, pid: u32, now: u64, other: u32)
    ensures
        ({
            let t = s.after_received(pid, now);
            &&& t == (SessionView {
                received_pids: t.received_pids,
                pending_acks: t.pending_acks,
                last_seen: now,
                ..s
            })
            &&& t.received_pids.contains(other) <==> s.received_pids.contains(other) || other == pid
            &&& !s.received_pids.contains(pid) ==> t.pending_acks.len() == s.pending_acks.len() + 1
                && t.pending_acks.drop_last() == s.pending_acks && t.pending_acks.last() == pid
            &&& s.received_pids.contains(pid) ==> t.pending_acks == s.pending_acks
        }),
{
    assert(s.pending_acks.push(pid).drop_last() =~= s.pending_acks);
}

/// What the packets of the control channel say. All come from the server's
/// session; one that acknowledges anything names the client's session beside;
/// all but an acknowledgement alone take the next packet id, and only a packet
/// of TLS bytes has a payload.
pub proof fn law_control_packets(
    s: SessionView,
    op: OpCode,
    key_id: u8,
    ack: u32,
    pids: Seq<u32>,
    payload: Seq<u8>,
)
    ensures
        ({
            let p = s.bare_control(op, key_id);
            &&& p.op == op && p.key_id == key_id && p.session_id == s.server_session_id
            &&& p.acks.len() == 0 && p.remote_session_id is None
            &&& p.packet_id == Some(s.next_packet_id) && p.payload.len() == 0
        }),
        ({
            let p = s.acking_control(op, key_id, ack);
            &&& p.op == op && p.key_id == key_id && p.session_id == s.server_session_id
            &&& p.acks.len() == 1 && p.acks[0] == ack
            &&& p.remote_session_id == Some(s.client_session_id)
            &&& p.packet_id == Some(s.next_packet_id) && p.payload.len() == 0
        }),
        ({
            let p = s.pure_ack(key_id, pids);
            &&& p.op is AckV1 && p.key_id == key_id && p.session_id == s.server_session_id
            &&& p.acks == pids && p.remote_session_id == Some(s.client_session_id)
            &&& p.packet_id is None && p.payload.len() == 0
        }),
        ({
            let p = s.control(key_id, payload);
            &&& p.op is ControlV1 && p.key_id == key_id && p.session_id == s.server_session_id
            &&& p.acks == s.pending_acks
            &&& s.pending_acks.len() > 0 ==> p.remote_session_id == Some(s.client_session_id)
            &&& s.pending_acks.len() == 0 ==> p.remote_session_id is None
            &&& p.packet_id == Some(s.next_packet_id) && p.payload == payload
        }),
        s.after_control() == (SessionView {
            pending_acks: Seq::empty(),
            next_packet_id: s.after_packet_id().next_packet_id,
            ..s
        }),
{
}

/// Whether what a data packet holds is a keepalive ping.
pub open spec fn is_ping(plaintext: Seq<u8>) -> bool {
    plaintext == PING_PAYLOAD@
}

/// A ping is the sixteen bytes that the protocol has for it, and nothing else
/// is one: neither a part of them nor anything longer.
pub proof fn law_what_is_a_ping(plaintext: Seq<u8>)
    ensures
        is_ping(plaintext) <==> plaintext == seq![
            0x2au8,
            0x18,
            0x7b,
            0xf3,
            0x64,
            0x1e,
            0xb4,
            0xcb,
            0x07,
            0xed,
            0x2d,
            0x0a,
            0x98,
            0x1f,
            0xc7,
            0x48,
        ],
{
    assert(PING_PAYLOAD@ =~= seq![
        0x2au8,
        0x18,
        0x7b,
        0xf3,
        0x64,
        0x1e,
        0xb4,
        0xcb,
        0x07,
        0xed,
        0x2d,
        0x0a,
        0x98,
        0x1f,
        0xc7,
        0x48,
    ]);
}

} // verus!
