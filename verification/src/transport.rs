//! Framing on stream transports: packets travel behind a two-byte length.

use vstd::prelude::*;

use crate::codec::{
    be_bytes, be_value, lemma_be_bytes_len, lemma_be_limits, lemma_be_value_digits,
    lemma_value_of_bytes, push_bytes, push_u16, read_u16, to_vec,
};

verus! {

/// The longest packet that a frame can hold.
pub const MAX_FRAME_LEN: usize = 65_535;

/// The frame of a packet.
pub open spec fn frame_bytes(packet: Seq<u8>) -> Seq<u8> {
    be_bytes(packet.len(), 2) + packet
}

/// The frame of a packet, in one piece so that it is written at once; `None`
/// for a packet that is too long, which is dropped.
pub fn frame(packet: &[u8]) -> (r: Option<Vec<u8>>)
    ensures
        match r {
            Some(bytes) => packet@.len() <= MAX_FRAME_LEN && bytes@ == frame_bytes(packet@),
            None => packet@.len() > MAX_FRAME_LEN,
        },
{
    if packet.len() > MAX_FRAME_LEN {
        return None;
    }
    let mut out: Vec<u8> = Vec::new();
    push_u16(&mut out, packet.len() as u16);
    push_bytes(&mut out, packet);
    assert(out@ =~= frame_bytes(packet@));
    Some(out)
}

/// What a reader of frames expects next.
#[derive(Debug, Clone, Copy, PartialEq, Eq, Structural)]
pub enum FrameReader {
    /// The length of a packet.
    Length,
    /// A packet of this length.
    Body(usize),
}

impl FrameReader {
    /// How many bytes are expected next.
    pub open spec fn wants(self) -> nat {
        match self {
            FrameReader::Length => 2,
            FrameReader::Body(n) => n as nat,
        }
    }

    /// What is expected after the bytes that were expected have come. Frames
    /// without a packet are skipped.
    pub open spec fn after(self, bytes: Seq<u8>) -> FrameReader {
        match self {
            FrameReader::Length => if be_value(bytes) == 0 {
                FrameReader::Length
            } else {
                FrameReader::Body(be_value(bytes) as usize)
            },
            FrameReader::Body(_) => FrameReader::Length,
        }
    }

    /// The packets that a stream delivers from here on, as far as they are
    /// complete.
    pub open spec fn packets(self, stream: Seq<u8>) -> Seq<Seq<u8>>
        decreases stream.len(),
        when self.wants() > 0
    {
        if stream.len() < self.wants() {
            Seq::empty()
        } else {
            let n = self.wants() as int;
            let rest = self.after(stream.take(n)).packets(stream.skip(n));
            if self is Body {
                seq![stream.take(n)] + rest
            } else {
                rest
            }
        }
    }

    /// A reader at the start of a stream.
    pub fn new() -> (r: Self)
        ensures
            r == FrameReader::Length,
    {
        FrameReader::Length
    }

    /// How many bytes are to be read next.
    pub fn wanted(&self) -> (n: usize)
        ensures
            n == self.wants(),
    {
        match self {
            FrameReader::Length => 2,
            FrameReader::Body(n) => *n,
        }
    }

    /// Takes the bytes that were to be read next, and gives the packet if they
    /// are one.
    pub fn accept(&mut self, bytes: &[u8]) -> (r: Option<Vec<u8>>)
        requires
            bytes@.len() == old(self).wants(),
        ensures
            *final(self) == old(self).after(bytes@),
            match r {
                Some(packet) => *old(self) is Body && packet@ == bytes@,
                None => *old(self) is Length,
            },
            final(self).wants() > 0,
    {
        match *self {
            FrameReader::Length => {
                let n: usize = read_u16(bytes, 0) as usize;
                assert(bytes@.subrange(0, 2) =~= bytes@);
                if n > 0 {
                    *self = FrameReader::Body(n);
                }
                None
            },
            FrameReader::Body(_) => {
                *self = FrameReader::Length;
                Some(to_vec(bytes))
            },
        }
    }
}

/// The frames of several packets, one after the other.
pub open spec fn frames_bytes(packets: Seq<Seq<u8>>) -> Seq<u8>
    decreases packets.len(),
{
    if packets.len() == 0 {
        Seq::empty()
    } else {
        frame_bytes(packets[0]) + frames_bytes(packets.drop_first())
    }
}

/// Packets that were written as frames are read back as the same packets, in
/// the same order.
pub proof fn law_frames_arrive(packets: Seq<Seq<u8>>)
    requires
        forall|i: int|
            0 <= i < packets.len() ==> 0 < (#[trigger] packets[i]).len() <= MAX_FRAME_LEN,
    ensures
        FrameReader::Length.packets(frames_bytes(packets)) == packets,
    decreases packets.len(),
{
    let stream = frames_bytes(packets);
    if packets.len() == 0 {
        assert(FrameReader::Length.packets(stream) =~= packets);
    } else {
        let p = packets[0];
        let tail = packets.drop_first();
        assert forall|i: int| 0 <= i < tail.len() implies 0 < (#[trigger] tail[i]).len()
            <= MAX_FRAME_LEN by {
            assert(tail[i] == packets[i + 1]);
        }
        law_frames_arrive(tail);
        lemma_be_bytes_len(p.len(), 2);
        lemma_be_limits();
        lemma_value_of_bytes(p.len(), 2);
        let head = be_bytes(p.len(), 2);
        assert(stream.take(2) =~= head);
        let rest = stream.skip(2);
        let body = FrameReader::Body(p.len() as usize);
        assert(FrameReader::Length.after(head) == body);
        assert(rest =~= p + frames_bytes(tail));
        assert(rest.take(p.len() as int) =~= p);
        assert(rest.skip(p.len() as int) =~= frames_bytes(tail));
        assert(body.packets(rest) == seq![p] + FrameReader::Length.packets(frames_bytes(tail)));
        assert(FrameReader::Length.packets(stream) == body.packets(rest));
        assert(seq![p] + tail =~= packets);
    }
}

/// A frame is the length of the packet in two bytes, most significant first,
/// and the packet.
pub proof fn law_frame_layout(packet: Seq<u8>)
    requires
        packet.len() <= 65_535,
    ensures
        frame_bytes(packet).len() == packet.len() + 2,
        frame_bytes(packet)[0] * 0x100 + frame_bytes(packet)[1] == packet.len(),
        frame_bytes(packet).skip(2) == packet,
{
    lemma_be_bytes_len(packet.len(), 2);
    lemma_be_limits();
    lemma_value_of_bytes(packet.len(), 2);
    assert(frame_bytes(packet).take(2) =~= be_bytes(packet.len(), 2));
    lemma_be_value_digits(frame_bytes(packet).take(2));
    assert(frame_bytes(packet).skip(2) =~= packet);
}

/// A stream is cut where its lengths say: two bytes announce how many follow,
/// those are a packet, and two bytes announce the next one. A length of 0 is
/// passed over, and what is not complete yet waits.
pub proof fn law_stream_is_cut_by_lengths(a: u8, b: u8, body: Seq<u8>, rest: Seq<u8>)
    requires
        body.len() == a * 0x100 + b,
    ensures
        FrameReader::Length.packets(seq![a, b] + body + rest) == if body.len() == 0 {
            FrameReader::Length.packets(rest)
        } else {
            seq![body] + FrameReader::Length.packets(rest)
        },
        body.len() > 0 ==> FrameReader::Length.packets(seq![a, b] + body.drop_last()) == Seq::<
            Seq<u8>,
        >::empty(),
        FrameReader::Length.packets(seq![a]) == Seq::<Seq<u8>>::empty(),
        FrameReader::Length.packets(Seq::empty()) == Seq::<Seq<u8>>::empty(),
{
    let head = seq![a, b];
    let stream = head + body + rest;
    lemma_be_value_digits(head);
    assert(stream.take(2) =~= head);
    assert(stream.skip(2) =~= body + rest);
    if body.len() == 0 {
        assert(body + rest =~= rest);
    } else {
        let reader = FrameReader::Body(body.len() as usize);
        assert(FrameReader::Length.after(head) == reader);
        assert((body + rest).take(body.len() as int) =~= body);
        assert((body + rest).skip(body.len() as int) =~= rest);
        assert(reader.packets(body + rest) == seq![body] + FrameReader::Length.packets(rest));
        let short = head + body.drop_last();
        assert(short.take(2) =~= head);
        assert(short.skip(2) =~= body.drop_last());
        assert(reader.packets(body.drop_last()) =~= Seq::<Seq<u8>>::empty());
    }
}

} // verus!
