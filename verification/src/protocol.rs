//! OpenVPN wire-format packets: control packets and `P_DATA_V2`.

use vstd::prelude::*;

use crate::codec::{
    be_bytes, be_value, copy_range, lemma_be_bytes_len, lemma_be_limits, lemma_be_value_bound,
    lemma_be_value_digits, lemma_bytes_of_value, lemma_value_of_bytes, push_bytes, push_u32, push_u64, read_u24, read_u32,
    read_u64,
};

verus! {

/// The packet kinds of the protocol. The numbers on the wire are those of
/// [`OpCode::code`].
#[derive(Debug, Clone, Copy, PartialEq, Eq, Structural)]
pub enum OpCode {
    ControlHardResetClientV1,
    ControlHardResetServerV1,
    ControlSoftResetV1,
    ControlV1,
    AckV1,
    DataV1,
    ControlHardResetClientV2,
    ControlHardResetServerV2,
    DataV2,
    ControlHardResetClientV3,
    ControlWkcV1,
}

/// Why a datagram is not a packet of the expected kind.
#[derive(Debug, Clone, Copy, PartialEq, Eq, Structural)]
pub enum PacketError {
    /// The datagram has no bytes.
    Empty,
    /// The opcode field holds a number that names no packet kind.
    UnknownOpcode(u8),
    /// A data packet where a control packet was expected.
    NotControl(OpCode),
    /// Fewer than eight bytes follow the first one.
    MissingSessionId,
    /// Nothing follows the session id.
    MissingAckCount,
    /// Fewer acknowledged ids than announced.
    TruncatedAcks,
    /// Acknowledged ids without the session that they belong to.
    MissingRemoteSessionId,
    /// A control packet other than an acknowledgement without an id.
    MissingPacketId,
    /// A data packet shorter than its header.
    DataTooShort,
    /// Not a `P_DATA_V2` packet: the opcode field it has instead.
    NotDataV2(u8),
}

impl OpCode {
    /// The number of the packet kind on the wire.
    pub open spec fn code(self) -> u8 {
        match self {
            OpCode::ControlHardResetClientV1 => 1,
            OpCode::ControlHardResetServerV1 => 2,
            OpCode::ControlSoftResetV1 => 3,
            OpCode::ControlV1 => 4,
            OpCode::AckV1 => 5,
            OpCode::DataV1 => 6,
            OpCode::ControlHardResetClientV2 => 7,
            OpCode::ControlHardResetServerV2 => 8,
            OpCode::DataV2 => 9,
            OpCode::ControlHardResetClientV3 => 10,
            OpCode::ControlWkcV1 => 11,
        }
    }

    /// Whether the packet kind carries tunnelled data.
    pub open spec fn carries_data(self) -> bool {
        self is DataV1 || self is DataV2
    }

    /// The packet kind with the number `v`.
    pub fn from_u8(v: u8) -> (r: Result<Self, PacketError>)
        ensures
            match r {
                Ok(op) => op.code() == v,
                Err(e) => e == PacketError::UnknownOpcode(v) && (v == 0 || v > 11),
            },
    {
        match v {
            1 => Ok(OpCode::ControlHardResetClientV1),
            2 => Ok(OpCode::ControlHardResetServerV1),
            3 => Ok(OpCode::ControlSoftResetV1),
            4 => Ok(OpCode::ControlV1),
            5 => Ok(OpCode::AckV1),
            6 => Ok(OpCode::DataV1),
            7 => Ok(OpCode::ControlHardResetClientV2),
            8 => Ok(OpCode::ControlHardResetServerV2),
            9 => Ok(OpCode::DataV2),
            10 => Ok(OpCode::ControlHardResetClientV3),
            11 => Ok(OpCode::ControlWkcV1),
            _ => Err(PacketError::UnknownOpcode(v)),
        }
    }

    /// The number of the packet kind.
    pub fn to_u8(self) -> (r: u8)
        ensures
            r == self.code(),
            1 <= r <= 11,
    {
        match self {
            OpCode::ControlHardResetClientV1 => 1,
            OpCode::ControlHardResetServerV1 => 2,
            OpCode::ControlSoftResetV1 => 3,
            OpCode::ControlV1 => 4,
            OpCode::AckV1 => 5,
            OpCode::DataV1 => 6,
            OpCode::ControlHardResetClientV2 => 7,
            OpCode::ControlHardResetServerV2 => 8,
            OpCode::DataV2 => 9,
            OpCode::ControlHardResetClientV3 => 10,
            OpCode::ControlWkcV1 => 11,
        }
    }

    /// Whether this is a control-channel packet kind: every kind that carries
    /// no data.
    pub fn is_control(self) -> (r: bool)
        ensures
            r == !self.carries_data(),
    {
        !matches!(self, OpCode::DataV1 | OpCode::DataV2)
    }

    /// Whether this is a data-channel packet kind.
    pub fn is_data(self) -> (r: bool)
        ensures
            r == self.carries_data(),
    {
        matches!(self, OpCode::DataV1 | OpCode::DataV2)
    }
}

/// The packet kind with the number `v`, if there is one.
pub open spec fn opcode_of(v: u8) -> Option<OpCode> {
    if exists|op: OpCode| #[trigger] op.code() == v {
        Some(choose|op: OpCode| #[trigger] op.code() == v)
    } else {
        None
    }
}

/// Different packet kinds have different numbers, and the numbers are the
/// ones from 1 to 11.
pub proof fn lemma_codes(a: OpCode, b: OpCode)
    ensures
        a.code() == b.code() ==> a == b,
        opcode_of(a.code()) == Some(a),
        1 <= a.code() <= 11,
{
    assert(opcode_of(a.code())->0.code() == a.code());
}

/// Identifies one end of a control channel.
pub type SessionId = u64;

/// A control-channel packet.
#[derive(Debug, Clone)]
pub struct ControlPacket {
    pub op: OpCode,
    pub key_id: u8,
    pub session_id: SessionId,
    /// Ids of received packets that this one acknowledges.
    pub acks: Vec<u32>,
    /// The session that `acks` belong to.
    pub remote_session_id: Option<SessionId>,
    /// `None` only for `P_ACK_V1`.
    pub packet_id: Option<u32>,
    pub payload: Vec<u8>,
}

/// What a [`ControlPacket`] says.
#[verifier::ext_equal]
pub ghost struct ControlView {
    pub op: OpCode,
    pub key_id: u8,
    pub session_id: u64,
    pub acks: Seq<u32>,
    pub remote_session_id: Option<u64>,
    pub packet_id: Option<u32>,
    pub payload: Seq<u8>,
}

impl View for ControlPacket {
    type V = ControlView;

    open spec fn view(&self) -> ControlView {
        ControlView {
            op: self.op,
            key_id: self.key_id,
            session_id: self.session_id,
            acks: self.acks@,
            remote_session_id: self.remote_session_id,
            packet_id: self.packet_id,
            payload: self.payload@,
        }
    }
}

impl ControlView {
    /// Whether the packet is one that the wire format can carry without loss.
    pub open spec fn well_formed(self) -> bool {
        &&& !self.op.carries_data()
        &&& self.key_id < 8
        &&& self.acks.len() < 256
        &&& self.remote_session_id is Some <==> self.acks.len() > 0
        &&& self.packet_id is Some <==> !(self.op is AckV1)
    }
}

/// The first byte of a packet: the kind in five bits, the key id in three.
pub open spec fn first_byte(op: OpCode, key_id: u8) -> u8 {
    (op.code() * 8 + key_id % 8) as u8
}

/// Four bytes for each of `ids`, one after the other.
pub open spec fn ids_bytes(ids: Seq<u32>) -> Seq<u8>
    decreases ids.len(),
{
    if ids.len() == 0 {
        Seq::empty()
    } else {
        ids_bytes(ids.drop_last()) + be_bytes(ids.last() as nat, 4)
    }
}

/// The `n` four-byte numbers that stand in `buf` from `at` on.
pub open spec fn ids_at(buf: Seq<u8>, at: int, n: nat) -> Seq<u32> {
    Seq::new(n, |i: int| be_value(buf.subrange(at + 4 * i, at + 4 * i + 4)) as u32)
}

/// The bytes of a control packet.
pub open spec fn control_bytes(p: ControlView) -> Seq<u8> {
    let remote: Seq<u8> = if p.acks.len() > 0 {
        be_bytes(
            match p.remote_session_id {
                Some(id) => id as nat,
                None => 0,
            },
            8,
        )
    } else {
        Seq::empty()
    };
    let packet_id: Seq<u8> = match p.packet_id {
        Some(id) => be_bytes(id as nat, 4),
        None => Seq::empty(),
    };
    seq![first_byte(p.op, p.key_id)] + be_bytes(p.session_id as nat, 8)
        + seq![(p.acks.len() % 256) as u8] + ids_bytes(p.acks) + remote + packet_id + p.payload
}

/// The control packet that `buf` holds, or what is wrong with it.
pub open spec fn control_of(buf: Seq<u8>) -> Result<ControlView, PacketError> {
    if buf.len() == 0 {
        Err(PacketError::Empty)
    } else {
        match opcode_of(buf[0] / 8) {
            None => Err(PacketError::UnknownOpcode(buf[0] / 8)),
            Some(op) => {
                let n = buf[9] as nat;
                let acks_end = 10 + 4 * n;
                let remote_end = acks_end + if n > 0 { 8int } else { 0 };
                let id_end = remote_end + if op is AckV1 { 0int } else { 4 };
                if op.carries_data() {
                    Err(PacketError::NotControl(op))
                } else if buf.len() < 9 {
                    Err(PacketError::MissingSessionId)
                } else if buf.len() < 10 {
                    Err(PacketError::MissingAckCount)
                } else if buf.len() < acks_end {
                    Err(PacketError::TruncatedAcks)
                } else if buf.len() < remote_end {
                    Err(PacketError::MissingRemoteSessionId)
                } else if buf.len() < id_end {
                    Err(PacketError::MissingPacketId)
                } else {
                    Ok(
                        ControlView {
                            op,
                            key_id: buf[0] % 8,
                            session_id: be_value(buf.subrange(1, 9)) as u64,
                            acks: ids_at(buf, 10, n),
                            remote_session_id: if n > 0 {
                                Some(be_value(buf.subrange(acks_end as int, remote_end)) as u64)
                            } else {
                                None
                            },
                            packet_id: if op is AckV1 {
                                None
                            } else {
                                Some(be_value(buf.subrange(remote_end, id_end)) as u32)
                            },
                            payload: buf.subrange(id_end, buf.len() as int),
                        },
                    )
                }
            },
        }
    }
}

/// `ids_bytes` takes four bytes for each id, and `ids_at` reads them back
/// wherever they stand.
proof fn lemma_ids_bytes(ids: Seq<u32>, buf: Seq<u8>, at: int)
    ensures
        ids_bytes(ids).len() == 4 * ids.len(),
        0 <= at && at + 4 * ids.len() <= buf.len() && buf.subrange(at, at + 4 * ids.len())
            == ids_bytes(ids) ==> ids_at(buf, at, ids.len()) == ids,
    decreases ids.len(),
{
    if ids.len() > 0 {
        let init = ids.drop_last();
        let n = ids.len();
        lemma_ids_bytes(init, buf, at);
        lemma_be_bytes_len(ids.last() as nat, 4);
        if 0 <= at && at + 4 * n <= buf.len() && buf.subrange(at, at + 4 * n) == ids_bytes(ids) {
            let s = ids_bytes(ids);
            assert(buf.subrange(at, at + 4 * init.len()) =~= s.subrange(0, 4 * init.len() as int));
            assert(s.subrange(0, 4 * init.len() as int) =~= ids_bytes(init));
            assert(buf.subrange(at + 4 * (n - 1), at + 4 * (n - 1) + 4) =~= s.subrange(
                4 * (n - 1),
                4 * n as int,
            ));
            assert(s.subrange(4 * (n - 1), 4 * n as int) =~= be_bytes(ids.last() as nat, 4));
            lemma_be_limits();
            lemma_value_of_bytes(ids.last() as nat, 4);
            assert forall|i: int| 0 <= i < n implies ids_at(buf, at, n)[i] == ids[i] by {
                if i < n - 1 {
                    assert(ids_at(buf, at, init.len())[i] == init[i]);
                }
            }
            assert(ids_at(buf, at, n) =~= ids);
        }
    } else {
        assert(ids_at(buf, at, 0) =~= ids);
    }
}

/// Writing the numbers read from some bytes gives the bytes.
proof fn lemma_ids_at(buf: Seq<u8>, at: int, n: nat)
    requires
        0 <= at,
        at + 4 * n <= buf.len(),
    ensures
        ids_bytes(ids_at(buf, at, n)) == buf.subrange(at, at + 4 * n),
    decreases n,
{
    let ids = ids_at(buf, at, n);
    if n > 0 {
        lemma_ids_at(buf, at, (n - 1) as nat);
        assert(ids.drop_last() =~= ids_at(buf, at, (n - 1) as nat));
        let last = buf.subrange(at + 4 * (n - 1), at + 4 * n);
        lemma_be_value_bound(last);
        lemma_be_limits();
        lemma_bytes_of_value(last);
        assert(ids.last() as nat == be_value(last));
        assert(buf.subrange(at, at + 4 * n) =~= buf.subrange(at, at + 4 * (n - 1)) + last);
    } else {
        assert(ids_bytes(ids) =~= buf.subrange(at, at + 4 * n));
    }
}

/// Parsing the bytes of a well-formed control packet gives the packet back.
pub proof fn law_parse_of_encode(p: ControlView)
    requires
        p.well_formed(),
    ensures
        control_of(control_bytes(p)) == Ok::<ControlView, PacketError>(p),
{
    let buf = control_bytes(p);
    let n = p.acks.len();
    lemma_codes(p.op, p.op);
    lemma_be_limits();
    lemma_be_bytes_len(p.session_id as nat, 8);
    lemma_value_of_bytes(p.session_id as nat, 8);
    lemma_ids_bytes(p.acks, buf, 10);
    let acks_end = 10 + 4 * n;
    let remote_end = acks_end + if n > 0 { 8int } else { 0 };
    let id_end = remote_end + if p.op is AckV1 { 0int } else { 4 };
    if n > 0 {
        lemma_be_bytes_len(p.remote_session_id->0 as nat, 8);
        lemma_value_of_bytes(p.remote_session_id->0 as nat, 8);
    }
    if !(p.op is AckV1) {
        lemma_be_bytes_len(p.packet_id->0 as nat, 4);
        lemma_value_of_bytes(p.packet_id->0 as nat, 4);
    }
    assert(buf[0] == first_byte(p.op, p.key_id));
    assert(buf[0] / 8 == p.op.code());
    assert(buf[0] % 8 == p.key_id);
    assert(buf.subrange(1, 9) =~= be_bytes(p.session_id as nat, 8));
    assert(buf[9] as nat == n);
    assert(buf.subrange(10, acks_end as int) =~= ids_bytes(p.acks));
    if n > 0 {
        assert(buf.subrange(acks_end as int, remote_end) =~= be_bytes(
            p.remote_session_id->0 as nat,
            8,
        ));
    }
    if !(p.op is AckV1) {
        assert(buf.subrange(remote_end, id_end) =~= be_bytes(p.packet_id->0 as nat, 4));
    }
    assert(buf.subrange(id_end, buf.len() as int) =~= p.payload);
}

/// A packet that parses is well-formed, and encoding it gives the parsed
/// bytes back: no two datagrams hold the same control packet.
pub proof fn law_encode_of_parse(buf: Seq<u8>)
    requires
        control_of(buf) is Ok,
    ensures
        control_of(buf)->Ok_0.well_formed(),
        control_bytes(control_of(buf)->Ok_0) == buf,
{
    let p = control_of(buf)->Ok_0;
    let op = p.op;
    assert(op.code() == buf[0] / 8);
    lemma_codes(op, op);
    lemma_be_limits();
    let n = buf[9] as nat;
    let acks_end = 10 + 4 * n;
    let remote_end = acks_end + if n > 0 { 8int } else { 0 };
    let id_end = remote_end + if op is AckV1 { 0int } else { 4 };
    assert(first_byte(op, p.key_id) == buf[0]);
    let sid = buf.subrange(1, 9);
    lemma_be_value_bound(sid);
    lemma_bytes_of_value(sid);
    lemma_ids_at(buf, 10, n);
    if n > 0 {
        let remote = buf.subrange(acks_end as int, remote_end);
        lemma_be_value_bound(remote);
        lemma_bytes_of_value(remote);
    }
    if !(op is AckV1) {
        let id = buf.subrange(remote_end, id_end);
        lemma_be_value_bound(id);
        lemma_bytes_of_value(id);
    }
    let head = seq![buf[0]] + sid + seq![buf[9]] + buf.subrange(10, acks_end as int);
    assert(head =~= buf.subrange(0, acks_end as int));
    assert(control_bytes(p) =~= buf);
}

impl ControlPacket {
    /// Reads a control packet from a datagram.
    pub fn parse(buf: &[u8]) -> (r: Result<Self, PacketError>)
        ensures
            match r {
                Ok(p) => control_of(buf@) == Ok::<ControlView, PacketError>(p@),
                Err(e) => control_of(buf@) == Err::<ControlView, PacketError>(e),
            },
    {
        let len: usize = buf.len();
        if len == 0 {
            return Err(PacketError::Empty);
        }
        let first: u8 = buf[0];
        let op = match OpCode::from_u8(first / 8) {
            Ok(op) => op,
            Err(e) => {
                proof {
                    if let Some(op) = opcode_of(first / 8) {
                        lemma_codes(op, op);
                    }
                }
                return Err(e);
            },
        };
        proof {
            lemma_codes(op, op);
        }
        if !op.is_control() {
            return Err(PacketError::NotControl(op));
        }
        if len < 9 {
            return Err(PacketError::MissingSessionId);
        }
        let session_id: u64 = read_u64(buf, 1);
        if len < 10 {
            return Err(PacketError::MissingAckCount);
        }
        let n: usize = buf[9] as usize;
        let acks_end: usize = 10 + 4 * n;
        if len < acks_end {
            return Err(PacketError::TruncatedAcks);
        }
        let mut acks: Vec<u32> = Vec::new();
        let mut i: usize = 0;
        while i < n
            invariant
                i <= n < 256,
                acks_end == 10 + 4 * n,
                acks_end <= len == buf@.len(),
                acks@ == ids_at(buf@, 10, i as nat),
            decreases n - i,
        {
            acks.push(read_u32(buf, 10 + 4 * i));
            i += 1;
            assert(acks@ =~= ids_at(buf@, 10, i as nat));
        }
        let mut at: usize = acks_end;
        let mut remote_session_id: Option<SessionId> = None;
        if n > 0 {
            if len < acks_end + 8 {
                return Err(PacketError::MissingRemoteSessionId);
            }
            remote_session_id = Some(read_u64(buf, acks_end));
            at = acks_end + 8;
        }
        let mut packet_id: Option<u32> = None;
        if !matches!(op, OpCode::AckV1) {
            if len - at < 4 {
                return Err(PacketError::MissingPacketId);
            }
            packet_id = Some(read_u32(buf, at));
            at = at + 4;
        }
        let payload: Vec<u8> = copy_range(buf, at, len);
        Ok(ControlPacket { op, key_id: first % 8, session_id, acks, remote_session_id, packet_id, payload })
    }

    /// The bytes of the packet.
    pub fn encode(&self) -> (out: Vec<u8>)
        ensures
            out@ == control_bytes(self@),
    {
        let mut out: Vec<u8> = Vec::new();
        out.push(self.op.to_u8() * 8 + self.key_id % 8);
        push_u64(&mut out, self.session_id);
        out.push((self.acks.len() % 256) as u8);
        let ghost head = out@;
        let mut i: usize = 0;
        assert(self.acks@.take(0) =~= Seq::<u32>::empty());
        while i < self.acks.len()
            invariant
                i <= self.acks@.len(),
                out@ =~= head + ids_bytes(self.acks@.take(i as int)),
            decreases self.acks@.len() - i,
        {
            push_u32(&mut out, self.acks[i]);
            i += 1;
            assert(self.acks@.take(i as int).drop_last() =~= self.acks@.take(i - 1));
        }
        assert(self.acks@.take(i as int) =~= self.acks@);
        if self.acks.len() > 0 {
            let remote: u64 = match self.remote_session_id {
                Some(id) => id,
                None => 0,
            };
            push_u64(&mut out, remote);
        }
        if let Some(id) = self.packet_id {
            push_u32(&mut out, id);
        }
        push_bytes(&mut out, self.payload.as_slice());
        assert(out@ =~= control_bytes(self@));
        out
    }
}

/// The keepalive payload of the data channel. It travels through the data
/// cipher like an IP packet; a decrypted payload that equals it is not
/// forwarded to the TUN device.
pub const PING_PAYLOAD: [u8; 16] = [
    0x2a, 0x18, 0x7b, 0xf3, 0x64, 0x1e, 0xb4, 0xcb, 0x07, 0xed, 0x2d, 0x0a, 0x98, 0x1f, 0xc7, 0x48,
];

/// A `P_DATA_V2` packet: first byte, three bytes of peer id, four bytes of
/// packet id, then the protected payload.
#[derive(Debug)]
pub struct DataPacketV2<'a> {
    pub key_id: u8,
    /// 24 bits.
    pub peer_id: u32,
    pub packet_id: u32,
    pub ciphertext: &'a [u8],
}

/// What a [`DataPacketV2`] says.
#[verifier::ext_equal]
pub ghost struct DataView {
    pub key_id: u8,
    pub peer_id: u32,
    pub packet_id: u32,
    pub ciphertext: Seq<u8>,
}

impl<'a> View for DataPacketV2<'a> {
    type V = DataView;

    open spec fn view(&self) -> DataView {
        DataView {
            key_id: self.key_id,
            peer_id: self.peer_id,
            packet_id: self.packet_id,
            ciphertext: self.ciphertext@,
        }
    }
}

/// The header of a data packet that carries its own packet id in front of the
/// ciphertext.
pub open spec fn data_header(key_id: u8, peer_id: u32) -> Seq<u8> {
    seq![first_byte(OpCode::DataV2, key_id)] + be_bytes(peer_id as nat, 3)
}

/// The bytes of a data packet.
pub open spec fn data_bytes(p: DataView) -> Seq<u8> {
    data_header(p.key_id, p.peer_id) + be_bytes(p.packet_id as nat, 4) + p.ciphertext
}

/// The data packet that `buf` holds, or what is wrong with it.
pub open spec fn data_of(buf: Seq<u8>) -> Result<DataView, PacketError> {
    if buf.len() < 8 {
        Err(PacketError::DataTooShort)
    } else if buf[0] / 8 != OpCode::DataV2.code() {
        Err(PacketError::NotDataV2(buf[0] / 8))
    } else {
        Ok(
            DataView {
                key_id: buf[0] % 8,
                peer_id: be_value(buf.subrange(1, 4)) as u32,
                packet_id: be_value(buf.subrange(4, 8)) as u32,
                ciphertext: buf.subrange(8, buf.len() as int),
            },
        )
    }
}

/// Parsing the bytes of a data packet gives the packet back.
pub proof fn law_data_parse_of_encode(p: DataView)
    requires
        p.key_id < 8,
        p.peer_id < 0x100_0000,
    ensures
        data_of(data_bytes(p)) == Ok::<DataView, PacketError>(p),
{
    let buf = data_bytes(p);
    lemma_be_limits();
    lemma_be_bytes_len(p.peer_id as nat, 3);
    lemma_be_bytes_len(p.packet_id as nat, 4);
    lemma_value_of_bytes(p.peer_id as nat, 3);
    lemma_value_of_bytes(p.packet_id as nat, 4);
    assert(buf[0] == first_byte(OpCode::DataV2, p.key_id));
    assert(buf.subrange(1, 4) =~= be_bytes(p.peer_id as nat, 3));
    assert(buf.subrange(4, 8) =~= be_bytes(p.packet_id as nat, 4));
    assert(buf.subrange(8, buf.len() as int) =~= p.ciphertext);
}

impl<'a> DataPacketV2<'a> {
    /// Reads a data packet from a datagram.
    pub fn parse(buf: &'a [u8]) -> (r: Result<Self, PacketError>)
        ensures
            match r {
                Ok(p) => data_of(buf@) == Ok::<DataView, PacketError>(p@),
                Err(e) => data_of(buf@) == Err::<DataView, PacketError>(e),
            },
    {
        if buf.len() < 8 {
            return Err(PacketError::DataTooShort);
        }
        let op: u8 = buf[0] / 8;
        if op != OpCode::DataV2.to_u8() {
            return Err(PacketError::NotDataV2(op));
        }
        let key_id: u8 = buf[0] % 8;
        let peer_id: u32 = read_u24(buf, 1);
        let packet_id: u32 = read_u32(buf, 4);
        Ok(DataPacketV2 { key_id, peer_id, packet_id, ciphertext: &buf[8..buf.len()] })
    }
}

/// The packet kinds have the numbers that the protocol gives them.
pub proof fn law_opcode_numbers(op: OpCode)
    ensures
        op.code() == 1 <==> op is ControlHardResetClientV1,
        op.code() == 2 <==> op is ControlHardResetServerV1,
        op.code() == 3 <==> op is ControlSoftResetV1,
        op.code() == 4 <==> op is ControlV1,
        op.code() == 5 <==> op is AckV1,
        op.code() == 6 <==> op is DataV1,
        op.code() == 7 <==> op is ControlHardResetClientV2,
        op.code() == 8 <==> op is ControlHardResetServerV2,
        op.code() == 9 <==> op is DataV2,
        op.code() == 10 <==> op is ControlHardResetClientV3,
        op.code() == 11 <==> op is ControlWkcV1,
        op.carries_data() <==> op.code() == 6 || op.code() == 9,
{
}

/// Where the parts of a control packet stand, read off its bytes: the kind in
/// the upper five bits of the first one and the key id in the lower three, the
/// sender's session id in the next eight, the number of acknowledgements, four
/// bytes for each, the session that they belong to if there are any, the
/// packet id unless the packet is an acknowledgement alone, and the payload up
/// to the end. All numbers have their most significant byte first.
pub proof fn law_control_layout(buf: Seq<u8>, i: int)
    requires
        control_of(buf) is Ok,
    ensures
        ({
            let p = control_of(buf)->Ok_0;
            let n = buf[9] as int;
            let remote = 10 + 4 * n;
            let id = if n == 0 {
                10
            } else {
                18 + 4 * n
            };
            let payload = if p.op is AckV1 {
                id
            } else {
                id + 4
            };
            &&& p.op.code() == buf[0] >> 3
            &&& p.key_id == buf[0] & 7
            &&& be_bytes(p.session_id as nat, 8) == buf.subrange(1, 9)
            &&& p.acks.len() == n
            &&& 0 <= i < n ==> p.acks[i] == buf[10 + 4 * i] * 0x100_0000 + buf[11 + 4 * i]
                * 0x1_0000 + buf[12 + 4 * i] * 0x100 + buf[13 + 4 * i]
            &&& p.remote_session_id is Some <==> n > 0
            &&& n > 0 ==> be_bytes(p.remote_session_id->0 as nat, 8) == buf.subrange(
                remote,
                remote + 8,
            )
            &&& p.packet_id is Some <==> !(p.op is AckV1)
            &&& p.packet_id matches Some(x) ==> x == buf[id] * 0x100_0000 + buf[id + 1] * 0x1_0000
                + buf[id + 2] * 0x100 + buf[id + 3]
            &&& payload <= buf.len()
            &&& p.payload == buf.skip(payload)
        }),
{
    let p = control_of(buf)->Ok_0;
    let n = buf[9] as int;
    let first = buf[0];
    assert(first >> 3 == first / 8 && first & 7 == first % 8) by (bit_vector);
    assert(p.op.code() == buf[0] / 8);
    lemma_be_limits();
    lemma_be_value_bound(buf.subrange(1, 9));
    lemma_bytes_of_value(buf.subrange(1, 9));
    if 0 <= i < n {
        let s = buf.subrange(10 + 4 * i, 10 + 4 * i + 4);
        lemma_be_value_bound(s);
        lemma_be_value_digits(s);
        assert(p.acks[i] == be_value(s));
    }
    if n > 0 {
        let s = buf.subrange(10 + 4 * n, 18 + 4 * n);
        lemma_be_value_bound(s);
        lemma_bytes_of_value(s);
    }
    if !(p.op is AckV1) {
        let id = if n == 0 {
            10
        } else {
            18 + 4 * n
        };
        let s = buf.subrange(id, id + 4);
        lemma_be_value_bound(s);
        lemma_be_value_digits(s);
    }
    assert(p.payload =~= buf.skip(buf.len() - p.payload.len()));
}

/// What is no control packet: nothing, a first byte with an unknown kind or
/// that of data, or fewer bytes than the packet says that it has. Every other
/// datagram is one.
pub proof fn law_control_refusals(buf: Seq<u8>)
    ensures
        ({
            let kind = buf[0] >> 3;
            let n = buf[9] as int;
            let needed = 10 + 4 * n + (if n > 0 {
                8int
            } else {
                0
            }) + (if kind == 5 {
                0int
            } else {
                4
            });
            &&& control_of(buf) is Ok <==> buf.len() >= 10 && 1 <= kind <= 11 && kind != 6 && kind
                != 9 && buf.len() >= needed
            &&& control_of(buf) == Err::<ControlView, PacketError>(PacketError::Empty) <==> buf.len()
                == 0
            &&& buf.len() > 0 && !(1 <= kind <= 11) ==> control_of(buf) == Err::<
                ControlView,
                PacketError,
            >(PacketError::UnknownOpcode(kind))
            &&& buf.len() > 0 && kind == 6 ==> control_of(buf) == Err::<ControlView, PacketError>(
                PacketError::NotControl(OpCode::DataV1),
            )
            &&& buf.len() > 0 && kind == 9 ==> control_of(buf) == Err::<ControlView, PacketError>(
                PacketError::NotControl(OpCode::DataV2),
            )
            &&& 1 <= kind <= 11 && kind != 6 && kind != 9 && 0 < buf.len() < needed ==> control_of(
                buf,
            ) == Err::<ControlView, PacketError>(
                if buf.len() < 9 {
                    PacketError::MissingSessionId
                } else if buf.len() == 9 {
                    PacketError::MissingAckCount
                } else if buf.len() < 10 + 4 * n {
                    PacketError::TruncatedAcks
                } else if n > 0 && buf.len() < 18 + 4 * n {
                    PacketError::MissingRemoteSessionId
                } else {
                    PacketError::MissingPacketId
                },
            )
        }),
{
    let first = buf[0];
    assert(first >> 3 == first / 8) by (bit_vector);
    let kind = first / 8;
    if 1 <= kind <= 11 {
        let op = match kind {
            1u8 => OpCode::ControlHardResetClientV1,
            2u8 => OpCode::ControlHardResetServerV1,
            3u8 => OpCode::ControlSoftResetV1,
            4u8 => OpCode::ControlV1,
            5u8 => OpCode::AckV1,
            6u8 => OpCode::DataV1,
            7u8 => OpCode::ControlHardResetClientV2,
            8u8 => OpCode::ControlHardResetServerV2,
            9u8 => OpCode::DataV2,
            10u8 => OpCode::ControlHardResetClientV3,
            _ => OpCode::ControlWkcV1,
        };
        assert(op.code() == kind);
        lemma_codes(op, op);
    } else {
        if let Some(op) = opcode_of(kind) {
            lemma_codes(op, op);
        }
    }
}

/// Where the parts of a data packet stand: the number 9 in the upper five bits
/// of the first byte and the key id in the lower three, three bytes of peer
/// id, four of packet id, most significant first, and the rest. Every datagram
/// of eight bytes or more with that number is one, and no other.
pub proof fn law_data_layout(buf: Seq<u8>)
    ensures
        data_of(buf) is Ok <==> buf.len() >= 8 && buf[0] >> 3 == 9,
        data_of(buf) matches Ok(p) ==> {
            &&& p.key_id == buf[0] & 7
            &&& p.peer_id == buf[1] * 0x1_0000 + buf[2] * 0x100 + buf[3]
            &&& p.packet_id == buf[4] * 0x100_0000 + buf[5] * 0x1_0000 + buf[6] * 0x100 + buf[7]
            &&& p.ciphertext == buf.skip(8)
        },
        data_of(buf) matches Err(PacketError::NotDataV2(v)) ==> v == buf[0] >> 3,
{
    let first = buf[0];
    assert(first >> 3 == first / 8 && first & 7 == first % 8) by (bit_vector);
    if buf.len() >= 8 {
        lemma_be_limits();
        lemma_be_value_bound(buf.subrange(1, 4));
        lemma_be_value_bound(buf.subrange(4, 8));
        lemma_be_value_digits(buf.subrange(1, 4));
        lemma_be_value_digits(buf.subrange(4, 8));
        assert(buf.subrange(8, buf.len() as int) =~= buf.skip(8));
    }
}

} // verus!
