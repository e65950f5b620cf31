//! TAP frame forwarding: frames travel in both directions as
//! length-prefixed records packed into yield payloads. This module owns the
//! wire format, the greedy batching under the TX capacity, and the parsing
//! of host payloads back into frames; reading and writing the TAP interface
//! itself stays with the caller.

use vstd::prelude::*;
use crate::wire::{spec_be16, spec_be16_val, push_be16, read_be16};
use crate::cmio::Cmio;
use vstd::slice::{slice_subrange, slice_to_vec};

verus! {

/// Reason code of every TAP yield.
pub const TAP_RXTX_CMD: u16 = 0x42;

/// Size of the scratch buffer for one TAP read: the standard MTU.
pub const MAX_PACKET_SIZE: usize = 1500;

/// One frame as a record: its length as two big-endian bytes, then its bytes.
pub open spec fn spec_frame_wire(f: Seq<u8>) -> Seq<u8>
    recommends
        f.len() <= u16::MAX,
{
    spec_be16(f.len() as u16) + f
}

/// A batch of frames on the wire: the records, in order, with no delimiters.
pub open spec fn spec_batch_wire(frames: Seq<Seq<u8>>) -> Seq<u8>
    decreases frames.len(),
{
    if frames.len() == 0 {
        Seq::empty()
    } else {
        spec_frame_wire(frames.first()) + spec_batch_wire(frames.drop_first())
    }
}

/// Serialized size of a batch: every frame costs two prefix bytes plus its
/// own length.
pub open spec fn spec_batch_wire_len(frames: Seq<Seq<u8>>) -> int
    decreases frames.len(),
{
    if frames.len() == 0 {
        0
    } else {
        2 + frames.first().len() + spec_batch_wire_len(frames.drop_first())
    }
}

/// The frames carried by a payload: records are read in order; a trailing
/// fragment shorter than two bytes, or shorter than its declared length,
/// ends the parse and is discarded.
pub open spec fn spec_parse_frames(d: Seq<u8>) -> Seq<Seq<u8>>
    decreases d.len(),
{
    if d.len() < 2 {
        Seq::empty()
    } else {
        let n = spec_be16_val(d[0], d[1]) as int;
        if d.len() < 2 + n {
            Seq::empty()
        } else {
            seq![d.subrange(2, 2 + n)] + spec_parse_frames(d.skip(2 + n))
        }
    }
}

/// A batch never serializes to a negative size.
pub proof fn lemma_batch_wire_len_nonneg(frames: Seq<Seq<u8>>)
    ensures
        spec_batch_wire_len(frames) >= 0,
    decreases frames.len(),
{
    if frames.len() > 0 {
        lemma_batch_wire_len_nonneg(frames.drop_first());
    }
}

/// Serialized size distributes over concatenation.
pub proof fn lemma_batch_wire_len_concat(a: Seq<Seq<u8>>, b: Seq<Seq<u8>>)
    ensures
        spec_batch_wire_len(a + b) == spec_batch_wire_len(a) + spec_batch_wire_len(b),
    decreases a.len(),
{
    if a.len() == 0 {
        assert(a + b =~= b);
    } else {
        assert((a + b).drop_first() =~= a.drop_first() + b);
        lemma_batch_wire_len_concat(a.drop_first(), b);
    }
}

/// Serialization distributes over concatenation.
pub proof fn lemma_batch_wire_concat(a: Seq<Seq<u8>>, b: Seq<Seq<u8>>)
    ensures
        spec_batch_wire(a + b) == spec_batch_wire(a) + spec_batch_wire(b),
    decreases a.len(),
{
    if a.len() == 0 {
        assert(a + b =~= b);
        assert(spec_batch_wire(a + b) =~= spec_batch_wire(a) + spec_batch_wire(b));
    } else {
        assert((a + b).drop_first() =~= a.drop_first() + b);
        assert((a + b).first() == a.first());
        lemma_batch_wire_concat(a.drop_first(), b);
        assert(spec_batch_wire(a + b) =~= spec_batch_wire(a) + spec_batch_wire(b));
    }
}

/// One frame's own record.
pub proof fn lemma_batch_wire_singleton(f: Seq<u8>)
    ensures
        spec_batch_wire(seq![f]) == spec_frame_wire(f),
        spec_batch_wire_len(seq![f]) == 2 + f.len(),
{
    reveal_with_fuel(spec_batch_wire, 2);
    reveal_with_fuel(spec_batch_wire_len, 2);
    assert(seq![f].drop_first() =~= Seq::<Seq<u8>>::empty());
    assert(seq![f].first() == f);
    assert(spec_batch_wire(seq![f]) =~= spec_frame_wire(f));
}

/// The serialized bytes of a batch are exactly as many as its serialized size.
pub proof fn lemma_batch_wire_is_len(frames: Seq<Seq<u8>>)
    ensures
        spec_batch_wire(frames).len() == spec_batch_wire_len(frames),
    decreases frames.len(),
{
    if frames.len() > 0 {
        lemma_batch_wire_is_len(frames.drop_first());
    }
}

/// Parsing a serialized batch followed by anything else yields the batch's
/// frames followed by whatever the rest parses to: each record is consumed
/// exactly.
pub proof fn lemma_parse_batch_wire(frames: Seq<Seq<u8>>, tail: Seq<u8>)
    requires
        forall|i: int| 0 <= i < frames.len() ==> (#[trigger] frames[i]).len() <= u16::MAX,
    ensures
        spec_parse_frames(spec_batch_wire(frames) + tail) == frames + spec_parse_frames(tail),
    decreases frames.len(),
{
    if frames.len() == 0 {
        assert(spec_batch_wire(frames) + tail =~= tail);
        assert(frames + spec_parse_frames(tail) =~= spec_parse_frames(tail));
    } else {
        let f = frames.first();
        let rest = frames.drop_first();
        let lenb = spec_be16(f.len() as u16);
        let d = spec_batch_wire(frames) + tail;
        assert(frames[0].len() <= u16::MAX);
        assert(d =~= lenb + f + (spec_batch_wire(rest) + tail));
        crate::wire::lemma_be16_round_trip(f.len() as u16);
        let n = spec_be16_val(d[0], d[1]) as int;
        assert(d[0] == lenb[0] && d[1] == lenb[1]);
        assert(n == f.len());
        lemma_batch_wire_is_len(rest);
        lemma_batch_wire_len_nonneg(rest);
        assert(d.len() >= 2 + n);
        assert(d.subrange(2, 2 + n) =~= f);
        assert(d.skip(2 + n) =~= spec_batch_wire(rest) + tail);
        assert(forall|i: int| 0 <= i < rest.len() ==> (#[trigger] rest[i]).len() <= u16::MAX);
        lemma_parse_batch_wire(rest, tail);
        assert(spec_parse_frames(d) =~= frames + spec_parse_frames(tail));
    }
}

/// Round trip: parsing a serialized batch gives the frames back.
pub proof fn lemma_frames_round_trip(frames: Seq<Seq<u8>>)
    requires
        forall|i: int| 0 <= i < frames.len() ==> (#[trigger] frames[i]).len() <= u16::MAX,
    ensures
        spec_parse_frames(spec_batch_wire(frames)) == frames,
{
    lemma_parse_batch_wire(frames, Seq::empty());
    assert(spec_batch_wire(frames) + Seq::<u8>::empty() =~= spec_batch_wire(frames));
    assert(frames + spec_parse_frames(Seq::empty()) =~= frames);
}

/// A payload that ends in a truncated record -- too short for its length
/// prefix, or shorter than its declared length -- parses to the intact
/// frames before it; the tail is discarded.
pub proof fn lemma_truncated_tail_discarded(frames: Seq<Seq<u8>>, tail: Seq<u8>)
    requires
        forall|i: int| 0 <= i < frames.len() ==> (#[trigger] frames[i]).len() <= u16::MAX,
        tail.len() < 2 || tail.len() < 2 + spec_be16_val(tail[0], tail[1]),
    ensures
        spec_parse_frames(spec_batch_wire(frames) + tail) == frames,
{
    lemma_parse_batch_wire(frames, tail);
    assert(spec_parse_frames(tail) =~= Seq::<Seq<u8>>::empty());
    assert(frames + Seq::<Seq<u8>>::empty() =~= frames);
}

/// The concatenation of batches serializes to the serialization of the
/// frames they partition: splitting frames into batches loses and reorders
/// nothing on the wire.
pub open spec fn spec_batches_wire(batches: Seq<Seq<Seq<u8>>>) -> Seq<u8>
    decreases batches.len(),
{
    if batches.len() == 0 {
        Seq::empty()
    } else {
        spec_batch_wire(batches.first()) + spec_batches_wire(batches.drop_first())
    }
}

/// Batches that flatten back to the original frame list serialize, end to
/// end, to exactly the serialization of that list.
pub proof fn lemma_batches_cover_frames(batches: Seq<Seq<Seq<u8>>>, frames: Seq<Seq<u8>>)
    requires
        batches.flatten() == frames,
    ensures
        spec_batches_wire(batches) == spec_batch_wire(frames),
    decreases batches.len(),
{
    if batches.len() == 0 {
        assert(frames =~= Seq::<Seq<u8>>::empty());
    } else {
        lemma_batches_cover_frames(batches.drop_first(), batches.drop_first().flatten());
        lemma_batch_wire_concat(batches.first(), batches.drop_first().flatten());
        assert(frames =~= batches.first() + batches.drop_first().flatten());
    }
}

/// A batch the splitter produced respects the capacity outright whenever
/// every frame fits it alone: the one escape -- a single oversize frame as
/// its own batch -- cannot arise then.
pub proof fn lemma_bounded_batches(batch: Seq<Seq<u8>>, max: int)
    requires
        batch.len() > 0,
        spec_batch_wire_len(batch) <= max || batch.len() == 1,
        forall|i: int| 0 <= i < batch.len() ==> 2 + (#[trigger] batch[i]).len() <= max,
    ensures
        spec_batch_wire_len(batch) <= max,
{
    if batch.len() == 1 {
        lemma_batch_wire_singleton(batch[0]);
        assert(batch =~= seq![batch[0]]);
        assert(2 + batch[0].len() <= max);
    }
}

/// Splits the drained frames into batches, in order. A new batch starts only
/// when adding the next frame would push the running batch past `max` and the
/// running batch is non-empty; a frame too large even for an empty batch thus
/// still becomes a batch of its own, to be rejected by the transport.
pub fn split_into_batches(packets: &Vec<Vec<u8>>, max: usize) -> (batches: Vec<Vec<Vec<u8>>>)
    requires
        spec_batch_wire_len(packets.deep_view()) <= usize::MAX,
    ensures
        batches.deep_view().flatten() == packets.deep_view(),
        forall|i: int|
            0 <= i < batches.deep_view().len() ==> (#[trigger] batches.deep_view()[i]).len() > 0,
        forall|i: int|
            0 <= i < batches.deep_view().len() ==> spec_batch_wire_len(
                #[trigger] batches.deep_view()[i],
            ) <= max || batches.deep_view()[i].len() == 1,
        forall|i: int|
            0 <= i < batches.deep_view().len() - 1 ==> spec_batch_wire_len(
                #[trigger] batches.deep_view()[i],
            ) + 2 + batches.deep_view()[i + 1][0].len() > max,
        spec_batch_wire_len(packets.deep_view()) <= max ==> batches@.len() == (
        if packets@.len() == 0 {
            0int
        } else {
            1int
        }),
{
    let ghost ps = packets.deep_view();
    let mut batches: Vec<Vec<Vec<u8>>> = Vec::new();
    let mut current_batch: Vec<Vec<u8>> = Vec::new();
    let mut current_batch_size: usize = 0;
    let mut idx: usize = 0;
    proof {
        assert(batches.deep_view().flatten() + current_batch.deep_view() =~~= ps.take(0));
    }
    while idx < packets.len()
        invariant
            idx <= packets@.len(),
            ps == packets.deep_view(),
            spec_batch_wire_len(ps) <= usize::MAX,
            batches.deep_view().flatten() + current_batch.deep_view() == ps.take(idx as int),
            current_batch_size == spec_batch_wire_len(current_batch.deep_view()),
            spec_batch_wire_len(current_batch.deep_view()) <= max || current_batch@.len() == 1,
            forall|i: int|
                0 <= i < batches.deep_view().len() ==> (#[trigger] batches.deep_view()[i]).len()
                    > 0,
            forall|i: int|
                0 <= i < batches.deep_view().len() ==> spec_batch_wire_len(
                    #[trigger] batches.deep_view()[i],
                ) <= max || batches.deep_view()[i].len() == 1,
            forall|i: int|
                0 <= i < batches.deep_view().len() - 1 ==> spec_batch_wire_len(
                    #[trigger] batches.deep_view()[i],
                ) + 2 + batches.deep_view()[i + 1][0].len() > max,
            batches@.len() > 0 && current_batch@.len() > 0 ==> spec_batch_wire_len(
                batches.deep_view().last(),
            ) + 2 + current_batch.deep_view()[0].len() > max,
            batches@.len() > 0 ==> current_batch@.len() > 0,
            batches@.len() > 0 ==> spec_batch_wire_len(ps) > max,
        decreases packets@.len() - idx,
    {
        let packet = slice_to_vec(packets[idx].as_slice());
        proof {
            assert(packet@ == ps[idx as int]);
            lemma_take_one_more(ps, idx as int);
            lemma_batch_wire_len_concat(ps.take(idx as int), seq![ps[idx as int]]);
            lemma_batch_wire_singleton(ps[idx as int]);
            lemma_batch_wire_len_split(ps, idx as int + 1);
            lemma_batch_wire_len_nonneg(ps.skip(idx as int + 1));
            lemma_batch_wire_len_concat(
                batches.deep_view().flatten(),
                current_batch.deep_view(),
            );
            lemma_batch_wire_len_nonneg(batches.deep_view().flatten());
            lemma_batch_wire_len_nonneg(current_batch.deep_view());
            // current_batch_size + the new record fits in usize
            assert(spec_batch_wire_len(ps.take(idx as int)) + 2 + ps[idx as int].len()
                == spec_batch_wire_len(ps.take(idx as int + 1)));
            assert(spec_batch_wire_len(ps.take(idx as int + 1)) <= spec_batch_wire_len(ps));
        }
        let packet_size = packet.len() + 2;
        if current_batch_size + packet_size > max && current_batch.len() > 0 {
            let ghost old_batches = batches.deep_view();
            let ghost old_cur = current_batch.deep_view();
            batches.push(current_batch);
            proof {
                assert(batches.deep_view() =~~= old_batches.push(old_cur));
                old_batches.lemma_flatten_push(old_cur);
            }
            current_batch = Vec::new();
            current_batch_size = 0;
        }
        let ghost pre_batches = batches.deep_view();
        let ghost pre_cur = current_batch.deep_view();
        let ghost pre_size = current_batch_size as int;
        current_batch.push(packet);
        current_batch_size = current_batch_size + packet_size;
        idx = idx + 1;
        proof {
            assert(current_batch.deep_view() =~~= pre_cur.push(ps[idx - 1]));
            assert(pre_cur.push(ps[idx - 1]) =~= pre_cur + seq![ps[idx - 1]]);
            lemma_batch_wire_len_concat(pre_cur, seq![ps[idx - 1]]);
            assert(batches.deep_view().flatten() + current_batch.deep_view() =~~= ps.take(
                idx as int,
            ));
        }
    }
    if current_batch.len() > 0 {
        let ghost old_batches = batches.deep_view();
        let ghost old_cur = current_batch.deep_view();
        batches.push(current_batch);
        proof {
            assert(batches.deep_view() =~~= old_batches.push(old_cur));
            old_batches.lemma_flatten_push(old_cur);
        }
    }
    proof {
        assert(ps.take(ps.len() as int) =~= ps);
        assert(batches.deep_view().flatten() =~~= ps);
    }
    batches
}

/// Take one more element: the prefix grows by exactly that element.
proof fn lemma_take_one_more<A>(s: Seq<A>, i: int)
    requires
        0 <= i < s.len(),
    ensures
        s.take(i + 1) == s.take(i) + seq![s[i]],
{
    assert(s.take(i + 1) =~= s.take(i) + seq![s[i]]);
}

/// A prefix never serializes to more than the whole.
proof fn lemma_batch_wire_len_split(s: Seq<Seq<u8>>, i: int)
    requires
        0 <= i <= s.len(),
    ensures
        spec_batch_wire_len(s) == spec_batch_wire_len(s.take(i)) + spec_batch_wire_len(s.skip(i)),
{
    assert(s =~= s.take(i) + s.skip(i));
    lemma_batch_wire_len_concat(s.take(i), s.skip(i));
}

/// Serializes one batch: each frame in order as its record.
pub fn encode_batch(packets: &Vec<Vec<u8>>) -> (out: Vec<u8>)
    requires
        forall|i: int|
            0 <= i < packets.deep_view().len() ==> (#[trigger] packets.deep_view()[i]).len()
                <= u16::MAX,
        spec_batch_wire_len(packets.deep_view()) <= usize::MAX,
    ensures
        out@ == spec_batch_wire(packets.deep_view()),
        out@.len() == spec_batch_wire_len(packets.deep_view()),
{
    let ghost ps = packets.deep_view();
    let mut out: Vec<u8> = Vec::new();
    let mut idx: usize = 0;
    proof {
        assert(out@ =~= spec_batch_wire(ps.take(0)));
    }
    while idx < packets.len()
        invariant
            idx <= packets@.len(),
            ps == packets.deep_view(),
            forall|i: int| 0 <= i < ps.len() ==> (#[trigger] ps[i]).len() <= u16::MAX,
            spec_batch_wire_len(ps) <= usize::MAX,
            out@ == spec_batch_wire(ps.take(idx as int)),
        decreases packets@.len() - idx,
    {
        proof {
            lemma_take_one_more(ps, idx as int);
            lemma_batch_wire_concat(ps.take(idx as int), seq![ps[idx as int]]);
            lemma_batch_wire_singleton(ps[idx as int]);
            lemma_batch_wire_is_len(ps.take(idx as int + 1));
            lemma_batch_wire_len_split(ps, idx as int + 1);
            lemma_batch_wire_len_nonneg(ps.skip(idx as int + 1));
            lemma_batch_wire_is_len(ps.take(idx as int));
            lemma_batch_wire_len_nonneg(ps.take(idx as int));
        }
        let n = packets[idx].len();
        push_be16(&mut out, n as u16);
        let ghost mid = out@;
        out.extend_from_slice(packets[idx].as_slice());
        proof {
            assert(ps[idx as int].len() <= u16::MAX);
            assert forall|j: int| 0 <= j < out@.len() implies out@[j] == (mid + ps[idx as int])[j]
            by {
                if j >= mid.len() {
                    assert(cloned::<u8>(ps[idx as int][j - mid.len()], out@[j]));
                }
            }
            assert(out@ =~= mid + ps[idx as int]);
            assert(out@ =~= spec_batch_wire(ps.take(idx as int + 1)));
        }
        idx = idx + 1;
    }
    proof {
        assert(ps.take(ps.len() as int) =~= ps);
        lemma_batch_wire_is_len(ps);
    }
    out
}

/// Parses a payload into the frames it carries, discarding any truncated
/// trailing record.
pub fn parse_frames(data: &[u8]) -> (frames: Vec<Vec<u8>>)
    ensures
        frames.deep_view() == spec_parse_frames(data@),
{
    let mut frames: Vec<Vec<u8>> = Vec::new();
    let mut offset: usize = 0;
    proof {
        assert(data@.skip(0) =~= data@);
        assert(frames.deep_view() + spec_parse_frames(data@.skip(0)) =~~= spec_parse_frames(
            data@,
        ));
    }
    while offset < data.len()
        invariant_except_break
            offset <= data@.len(),
            frames.deep_view() + spec_parse_frames(data@.skip(offset as int)) == spec_parse_frames(
                data@,
            ),
        ensures
            frames.deep_view() == spec_parse_frames(data@),
        decreases data@.len() - offset,
    {
        let ghost rest = data@.skip(offset as int);
        if data.len() - offset < 2 {
            proof {
                assert(spec_parse_frames(rest) =~= Seq::<Seq<u8>>::empty());
                assert(frames.deep_view() + spec_parse_frames(rest) =~= frames.deep_view());
            }
            break ;
        }
        let n = read_be16(data[offset], data[offset + 1]) as usize;
        proof {
            assert(rest[0] == data@[offset as int] && rest[1] == data@[offset as int + 1]);
        }
        if n > data.len() - offset - 2 {
            proof {
                assert(rest.len() < 2 + spec_be16_val(rest[0], rest[1]));
                assert(spec_parse_frames(rest) =~= Seq::<Seq<u8>>::empty());
                assert(frames.deep_view() + spec_parse_frames(rest) =~= frames.deep_view());
            }
            break ;
        }
        let frame = slice_to_vec(slice_subrange(data, offset + 2, offset + 2 + n));
        let ghost old_frames = frames.deep_view();
        frames.push(frame);
        proof {
            assert(frames.deep_view() =~~= old_frames.push(frame@));
        }
        offset = offset + 2 + n;
        proof {
            assert(rest.subrange(2, 2 + n as int) =~= data@.subrange(
                offset - n,
                offset as int,
            ));
            assert(rest.skip(2 + n as int) =~= data@.skip(offset as int));
            assert(spec_parse_frames(rest) == seq![frame@] + spec_parse_frames(
                data@.skip(offset as int),
            ));
            assert(old_frames.push(frame@) + spec_parse_frames(data@.skip(offset as int))
                =~= old_frames + spec_parse_frames(rest));
        }
    }
    proof {
        if offset == data@.len() {
            assert(data@.skip(offset as int) =~= Seq::<u8>::empty());
            assert(spec_parse_frames(data@.skip(offset as int)) =~= Seq::<Seq<u8>>::empty());
            assert(frames.deep_view() + spec_parse_frames(data@.skip(offset as int))
                =~= frames.deep_view());
        }
    }
    frames
}

/// The TAP adapter's verified state: the transport and its cached TX
/// capacity. The TAP handle and its scratch buffer live with the caller that
/// runs the drive loop.
pub struct NetworkInterface {
    pub cmio: Cmio,
    pub cmio_max_buffer_size: usize,
}

impl NetworkInterface {
    /// Adopts an opened transport and caches its TX capacity as the batch
    /// bound.
    pub fn new(cmio: Cmio) -> (r: NetworkInterface)
        ensures
            r.cmio == cmio,
            r.cmio_max_buffer_size == cmio.tx_capacity(),
    {
        let cmio_max_buffer_size = cmio.get_tx_length();
        NetworkInterface { cmio, cmio_max_buffer_size }
    }
}

} // verus!
