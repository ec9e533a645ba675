//! Cutting the bytes of a connection into packets.

use vstd::prelude::*;

use crate::bytes::{copy_range, le_i16, push_tail, read_i16};
use crate::protocol::{packet_on_wire, wire, Packet, PacketModel};

verus! {

/// How many bytes of a connection are kept at most.
pub const BUFFER_SIZE: usize = 32767;

/// The largest size field for which a packet fits into the buffer.
pub const MAX_SIZE_FIELD: i16 = 32765;

/// Whether the size field at the start of `d` can belong to no packet.
pub open spec fn bad_size(d: Seq<u8>) -> bool {
    d.len() >= 2 && !(1 <= le_i16(d, 0) <= MAX_SIZE_FIELD)
}

/// How many bytes the packet at the start of `d` has.
pub open spec fn frame_len(d: Seq<u8>) -> int {
    2 + le_i16(d, 0)
}

/// Whether all of a packet is there at the start of `d`.
pub open spec fn has_frame(d: Seq<u8>) -> bool {
    d.len() >= 2 && !bad_size(d) && frame_len(d) <= d.len()
}

/// The packets at the start of `d`, as far as they are complete.
pub open spec fn frames(d: Seq<u8>) -> Seq<PacketModel>
    decreases d.len(),
{
    if has_frame(d) {
        seq![packet_on_wire(d.take(frame_len(d)))] + frames(d.skip(frame_len(d)))
    } else {
        Seq::empty()
    }
}

/// What follows the complete packets at the start of `d`.
pub open spec fn leftover(d: Seq<u8>) -> Seq<u8>
    decreases d.len(),
{
    if has_frame(d) {
        leftover(d.skip(frame_len(d)))
    } else {
        d
    }
}

/// Whether `d` comes to a size field that can belong to no packet.
pub open spec fn malformed(d: Seq<u8>) -> bool {
    bad_size(leftover(d))
}

/// What is kept of `d` for the next read: what follows the complete packets,
/// or, at a bad size field, as many bytes from the start of `d`.
pub open spec fn kept(d: Seq<u8>) -> Seq<u8> {
    if malformed(d) {
        d.take(leftover(d).len() as int)
    } else {
        leftover(d)
    }
}

/// Bytes that come in two parts hold the packets of the first part, and then
/// those of what it left followed by the second part.
pub proof fn lemma_frames_split(a: Seq<u8>, b: Seq<u8>)
    ensures
        frames(a + b) == frames(a) + frames(leftover(a) + b),
        leftover(a + b) == leftover(leftover(a) + b),
    decreases a.len(),
{
    if has_frame(a) {
        let n = frame_len(a);
        assert(le_i16(a + b, 0) == le_i16(a, 0));
        assert((a + b).take(n) =~= a.take(n));
        assert((a + b).skip(n) =~= a.skip(n) + b);
        lemma_frames_split(a.skip(n), b);
        assert(frames(a + b) =~= frames(a) + frames(leftover(a) + b));
    } else {
        assert(frames(a + b) =~= frames(a) + frames(leftover(a) + b));
    }
}

/// What is left of bytes is no more than the bytes, and holds no packet.
pub proof fn lemma_leftover_bounds(d: Seq<u8>)
    ensures
        leftover(d).len() <= d.len(),
        !has_frame(leftover(d)),
        frames(leftover(d)) == Seq::<PacketModel>::empty(),
        leftover(leftover(d)) == leftover(d),
    decreases d.len(),
{
    if has_frame(d) {
        lemma_leftover_bounds(d.skip(frame_len(d)));
    }
}

/// Once a size field is bad, more bytes do not mend it.
pub proof fn lemma_malformed_stays(a: Seq<u8>, b: Seq<u8>)
    requires
        malformed(a),
    ensures
        malformed(a + b),
{
    lemma_frames_split(a, b);
    let rest = leftover(a);
    assert(le_i16(rest + b, 0) == le_i16(rest, 0));
    assert(!has_frame(rest + b));
    assert(leftover(rest + b) == rest + b);
}

/// The packets that come out, and what is kept, when `chunks` are fed one
/// after the other to a buffer that holds `held`.
pub open spec fn fed(held: Seq<u8>, chunks: Seq<Seq<u8>>) -> (Seq<PacketModel>, Seq<u8>)
    decreases chunks.len(),
{
    if chunks.len() == 0 {
        (Seq::empty(), held)
    } else {
        let d = held + chunks[0];
        let (later, end) = fed(kept(d), chunks.drop_first());
        (frames(d) + later, end)
    }
}

/// All the bytes of `chunks`.
pub open spec fn joined(chunks: Seq<Seq<u8>>) -> Seq<u8>
    decreases chunks.len(),
{
    if chunks.len() == 0 {
        Seq::empty()
    } else {
        chunks[0] + joined(chunks.drop_first())
    }
}

/// However the bytes of a connection are cut into reads, the same packets
/// come out of them, as long as no size field is bad.
pub proof fn lemma_chunking_is_irrelevant(chunks: Seq<Seq<u8>>)
    requires
        !malformed(joined(chunks)),
    ensures
        fed(Seq::empty(), chunks).0 == frames(joined(chunks)),
        fed(Seq::empty(), chunks).1 == leftover(joined(chunks)),
{
    assert(Seq::<u8>::empty() + joined(chunks) =~= joined(chunks));
    lemma_fed(Seq::empty(), chunks);
}

proof fn lemma_fed(held: Seq<u8>, chunks: Seq<Seq<u8>>)
    requires
        !has_frame(held),
        !malformed(held + joined(chunks)),
    ensures
        fed(held, chunks).0 == frames(held + joined(chunks)),
        fed(held, chunks).1 == leftover(held + joined(chunks)),
    decreases chunks.len(),
{
    if chunks.len() == 0 {
        assert(held + joined(chunks) =~= held);
    } else {
        let d = held + chunks[0];
        let rest = joined(chunks.drop_first());
        assert(held + joined(chunks) =~= d + rest);
        if malformed(d) {
            lemma_malformed_stays(d, rest);
        }
        lemma_frames_split(d, rest);
        lemma_leftover_bounds(d);
        lemma_fed(kept(d), chunks.drop_first());
    }
}

/// All the bytes of `packets` on the wire.
pub open spec fn wires(packets: Seq<PacketModel>) -> Seq<u8>
    decreases packets.len(),
{
    if packets.len() == 0 {
        Seq::empty()
    } else {
        wire(packets[0]) + wires(packets.drop_first())
    }
}

/// A packet that fits into the buffer and whose action is the one its byte
/// stands for.
pub open spec fn sendable(p: PacketModel) -> bool {
    &&& p.data.len() + 1 <= MAX_SIZE_FIELD
    &&& p.action == crate::protocol::action_of(p.real_action)
}

/// Packets written one after the other are read back unchanged, and nothing
/// is left over.
pub proof fn lemma_write_then_read(packets: Seq<PacketModel>)
    requires
        forall|i: int| 0 <= i < packets.len() ==> sendable(#[trigger] packets[i]),
    ensures
        frames(wires(packets)) == packets,
        leftover(wires(packets)) == Seq::<u8>::empty(),
    decreases packets.len(),
{
    if packets.len() == 0 {
        assert(frames(wires(packets)) =~= packets);
    } else {
        let p = packets[0];
        assert(sendable(p));
        let rest = wires(packets.drop_first());
        let d = wire(p) + rest;
        let n = p.data.len() + 3;
        assert(wire(p).len() == n);
        assert(le_i16(d, 0) == p.data.len() + 1) by {
            let size = p.data.len() + 1;
            assert(d[0] == size % 256);
            assert(d[1] == size / 256);
        }
        assert(d.take(n as int) =~= wire(p));
        assert(d.skip(n as int) =~= rest);
        assert(wire(p).skip(3) =~= p.data);
        lemma_write_then_read(packets.drop_first());
        assert(frames(d) =~= packets);
    }
}

/// Whether `f` is exactly one packet with its size field.
pub open spec fn is_frame(f: Seq<u8>) -> bool {
    has_frame(f) && frame_len(f) == f.len()
}

/// Frames one after the other are read as one packet each, and nothing is left
/// over.
pub proof fn lemma_frames_of_frames(fs: Seq<Seq<u8>>)
    requires
        forall|i: int| 0 <= i < fs.len() ==> is_frame(#[trigger] fs[i]),
    ensures
        frames(joined(fs)) == fs.map_values(|f: Seq<u8>| packet_on_wire(f)),
        leftover(joined(fs)) == Seq::<u8>::empty(),
    decreases fs.len(),
{
    let packets = fs.map_values(|f: Seq<u8>| packet_on_wire(f));
    if fs.len() == 0 {
        assert(frames(joined(fs)) =~= packets);
    } else {
        let f = fs[0];
        assert(is_frame(f));
        let rest = joined(fs.drop_first());
        let d = f + rest;
        assert(le_i16(d, 0) == le_i16(f, 0));
        assert(d.take(f.len() as int) =~= f);
        assert(d.skip(f.len() as int) =~= rest);
        lemma_frames_of_frames(fs.drop_first());
        assert(frames(d) =~= packets);
    }
}

/// The packets in a sequence of them, as values.
pub open spec fn packet_models(packets: Seq<Packet>) -> Seq<PacketModel> {
    packets.map_values(|p: Packet| p@)
}

/// What a read brought.
pub struct Fed {
    /// The packets that are now complete.
    pub packets: Vec<Packet>,
    /// Whether a size field was met that can belong to no packet.
    pub malformed: bool,
}

/// The bytes of a connection that are no complete packet yet.
pub struct FrameBuffer {
    held: Vec<u8>,
}

impl View for FrameBuffer {
    type V = Seq<u8>;

    closed spec fn view(&self) -> Seq<u8> {
        self.held@
    }
}

impl FrameBuffer {
    /// An empty buffer.
    pub fn new() -> (b: FrameBuffer)
        ensures
            b@ == Seq::<u8>::empty(),
    {
        FrameBuffer { held: Vec::new() }
    }

    /// How many bytes the next read may bring at most.
    pub fn room(&self) -> (r: usize)
        requires
            self@.len() <= BUFFER_SIZE,
        ensures
            r == BUFFER_SIZE - self@.len(),
    {
        BUFFER_SIZE - self.held.len()
    }

    /// Takes the bytes that a read brought and hands out the packets that
    /// they complete. A well-formed connection always leaves room to read on.
    pub fn feed(&mut self, chunk: &[u8]) -> (r: Fed)
        requires
            old(self)@.len() + chunk@.len() <= BUFFER_SIZE,
        ensures
            packet_models(r.packets@) == frames(old(self)@ + chunk@),
            r.malformed == malformed(old(self)@ + chunk@),
            final(self)@ == kept(old(self)@ + chunk@),
            final(self)@.len() <= BUFFER_SIZE,
            !r.malformed ==> final(self)@.len() < BUFFER_SIZE,
    {
        push_tail(&mut self.held, chunk, 0);
        assert(chunk@.skip(0) =~= chunk@);
        let ghost d = self.held@;
        let mut packets: Vec<Packet> = Vec::new();
        let mut offset: usize = 0;
        let mut bad: bool = false;
        assert(d.skip(0) =~= d);
        assert(packet_models(packets@) + frames(d.skip(0)) =~= frames(d));
        while offset < self.held.len()
            invariant_except_break
                !bad,
            invariant
                self.held@ == d,
                d.len() <= BUFFER_SIZE,
                0 <= offset <= d.len(),
                packet_models(packets@) + frames(d.skip(offset as int)) == frames(d),
                leftover(d.skip(offset as int)) == leftover(d),
                bad ==> bad_size(d.skip(offset as int)),
            ensures
                !has_frame(d.skip(offset as int)),
                bad == bad_size(d.skip(offset as int)),
            decreases d.len() - offset,
        {
            let ghost rest = d.skip(offset as int);
            let available: usize = self.held.len() - offset;
            if available < 2 {
                break;
            }
            let size = read_i16(&self.held, offset);
            assert(size == le_i16(rest, 0));
            if size < 1 || size > MAX_SIZE_FIELD {
                bad = true;
                break;
            }
            let packet_size: usize = size as usize + 2;
            if packet_size > available {
                break;
            }
            let slice = copy_range(&self.held, offset, offset + packet_size);
            assert(slice@ =~= rest.take(frame_len(rest)));
            let packet = Packet::from_slice(&slice);
            let ghost before = packets@;
            packets.push(packet);
            offset = offset + packet_size;
            proof {
                assert(rest.skip(frame_len(rest)) =~= d.skip(offset as int));
                assert(packet_models(packets@) =~= packet_models(before).push(packet@));
                assert(packet_models(packets@) + frames(d.skip(offset as int)) =~= packet_models(
                    before,
                ) + frames(rest));
            }
        }
        proof {
            assert(packet_models(packets@) =~= frames(d));
        }
        if bad {
            let len: usize = self.held.len();
            self.held.truncate(len - offset);
            assert(self.held@ =~= kept(d));
        } else {
            let len: usize = self.held.len();
            self.held = copy_range(&self.held, offset, len);
            assert(self.held@ =~= kept(d));
        }
        Fed { packets, malformed: bad }
    }
}

} // verus!
