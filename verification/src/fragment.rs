//! Fragmentation and reassembly. When a frame body exceeds the negotiated
//! mtu (0 = fragmentation disabled), it is split across several frames: the
//! first keeps the request's frame type, continuations are payload frames,
//! and every frame but the last carries the fragment-follows flag. The
//! receiver concatenates the bodies, in order, until a frame without the
//! flag arrives.

use vstd::prelude::*;
use crate::frame::{Frame, FrameType, FrameView, FLAG_COMPLETE, FLAG_FOLLOW, FLAG_NEXT};
use crate::tags::vec_range;

verus! {

/// The chunks a byte sequence splits into under mtu `mtu` (at least 1):
/// full chunks of `mtu` bytes, then the remainder; an empty sequence is one
/// empty chunk.
pub open spec fn chunks_of(data: Seq<u8>, mtu: int) -> Seq<Seq<u8>>
    recommends
        mtu >= 1,
    decreases data.len(),
{
    if data.len() <= mtu || mtu < 1 {
        seq![data]
    } else {
        seq![data.take(mtu)] + chunks_of(data.skip(mtu), mtu)
    }
}

/// The chunks a frame body splits into under mtu `mtu`; 0 disables
/// fragmentation.
pub open spec fn frame_chunks(data: Seq<u8>, mtu: int) -> Seq<Seq<u8>> {
    if mtu == 0 {
        seq![data]
    } else {
        chunks_of(data, mtu)
    }
}

/// Concatenation of a sequence of byte sequences, in order.
pub open spec fn concat_seqs(cs: Seq<Seq<u8>>) -> Seq<u8>
    decreases cs.len(),
{
    if cs.len() == 0 {
        Seq::empty()
    } else {
        cs[0] + concat_seqs(cs.skip(1))
    }
}

/// The bodies of a frame sequence, in order.
pub open spec fn frame_bodies(fs: Seq<FrameView>) -> Seq<Seq<u8>> {
    fs.map(|i: int, f: FrameView| f.body)
}

/// Splitting under any mtu loses nothing: the chunks concatenate back to
/// the data.
pub proof fn lemma_chunks_concat(data: Seq<u8>, mtu: int)
    ensures
        concat_seqs(frame_chunks(data, mtu)) == data,
    decreases data.len(),
{
    if mtu == 0 || data.len() <= mtu || mtu < 1 {
        assert(seq![data].skip(1) =~= Seq::<Seq<u8>>::empty());
        assert(concat_seqs(seq![data]) == data + concat_seqs(Seq::<Seq<u8>>::empty()));
        assert(concat_seqs(seq![data]) =~= data);
    } else {
        lemma_chunks_concat(data.skip(mtu), mtu);
        assert((seq![data.take(mtu)] + chunks_of(data.skip(mtu), mtu)).skip(1) =~= chunks_of(
            data.skip(mtu),
            mtu,
        ));
        assert(concat_seqs(chunks_of(data, mtu)) =~= data.take(mtu) + data.skip(mtu));
        assert(data.take(mtu) + data.skip(mtu) =~= data);
    }
}

/// Appending one chunk appends to the concatenation.
pub proof fn lemma_concat_seqs_push(cs: Seq<Seq<u8>>, c: Seq<u8>)
    ensures
        concat_seqs(cs.push(c)) == concat_seqs(cs) + c,
    decreases cs.len(),
{
    if cs.len() == 0 {
        assert(cs.push(c)[0] == c);
        assert(cs.push(c).skip(1) =~= Seq::<Seq<u8>>::empty());
        assert(concat_seqs(cs.push(c)) == c + concat_seqs(Seq::<Seq<u8>>::empty()));
        assert(concat_seqs(cs.push(c)) =~= concat_seqs(cs) + c);
    } else {
        assert(cs.push(c)[0] == cs[0]);
        assert(cs.push(c).skip(1) =~= cs.skip(1).push(c));
        lemma_concat_seqs_push(cs.skip(1), c);
        assert(concat_seqs(cs.push(c)) == cs[0] + concat_seqs(cs.skip(1).push(c)));
        assert(concat_seqs(cs.push(c)) =~= concat_seqs(cs) + c);
    }
}

/// The flags the fragment at position `i` of `last + 1` carries, for a
/// request whose own flags are `base`: the first fragment keeps `base` (its
/// complete bit deferred), continuations mark a payload element, every
/// fragment but the last adds fragment-follows, and the last carries the
/// deferred complete bit.
pub open spec fn fragment_flags(base: u16, i: int, last: int) -> u16 {
    if last == 0 {
        base
    } else if i == 0 {
        (base & !FLAG_COMPLETE) | FLAG_FOLLOW
    } else if i < last {
        FLAG_NEXT | FLAG_FOLLOW
    } else {
        FLAG_NEXT | (base & FLAG_COMPLETE)
    }
}

/// What a correct fragmentation of `body` looks like: one frame per chunk,
/// all on the same stream, the first frame of the request's type and the
/// others payload frames, with the flags of [`fragment_flags`].
pub open spec fn fragments_ok(
    frames: Seq<FrameView>,
    stream_id: u32,
    frame_type: FrameType,
    base_flags: u16,
    body: Seq<u8>,
    mtu: int,
) -> bool {
    let chunks = frame_chunks(body, mtu);
    &&& frames.len() == chunks.len()
    &&& forall|i: int|
        0 <= i < frames.len() ==> (#[trigger] frames[i]).body == chunks[i]
    &&& forall|i: int| 0 <= i < frames.len() ==> (#[trigger] frames[i]).stream_id == stream_id
    &&& forall|i: int|
        0 <= i < frames.len() ==> (#[trigger] frames[i]).frame_type == (if i == 0 {
            frame_type
        } else {
            FrameType::Payload
        })
    &&& forall|i: int|
        0 <= i < frames.len() ==> (#[trigger] frames[i]).flags == fragment_flags(
            base_flags,
            i,
            frames.len() - 1,
        )
    &&& forall|i: int| 0 <= i < frames.len() ==> (#[trigger] frames[i]).wf()
}

/// A correct fragmentation reassembles to the body it was made from,
/// whatever the mtu.
pub proof fn lemma_fragments_reassemble(
    frames: Seq<FrameView>,
    stream_id: u32,
    frame_type: FrameType,
    base_flags: u16,
    body: Seq<u8>,
    mtu: int,
)
    requires
        fragments_ok(frames, stream_id, frame_type, base_flags, body, mtu),
    ensures
        concat_seqs(frame_bodies(frames)) == body,
{
    assert(frame_bodies(frames) =~= frame_chunks(body, mtu));
    lemma_chunks_concat(body, mtu);
}

/// Splits one outbound request into its fragment frames under `mtu`
/// (0 = fragmentation disabled: one frame).
#[verifier::loop_isolation(false)]
pub fn fragment(
    stream_id: u32,
    frame_type: FrameType,
    flags: u16,
    body: Vec<u8>,
    mtu: usize,
) -> (r: Vec<Frame>)
    requires
        stream_id < 0x8000_0000,
        flags < 0x400,
        flags & FLAG_FOLLOW == 0,
        mtu == 0 ==> body@.len() + 6 < 0x1000000,
        mtu != 0 ==> mtu + 6 < 0x1000000,
    ensures
        fragments_ok(r.deep_view(), stream_id, frame_type, flags, body@, mtu as int),
        r@.len() >= 1,
{
    let ghost chunks = frame_chunks(body@, mtu as int);
    if mtu == 0 || body.len() <= mtu {
        let f = Frame { stream_id, frame_type, flags, body };
        let mut out: Vec<Frame> = Vec::new();
        out.push(f);
        proof {
            assert(chunks =~= seq![f@.body]);
            assert(out.deep_view() =~= seq![f@]);
        }
        return out;
    }
    proof {
        assert(flags < 0x400 ==> ((flags & !FLAG_COMPLETE) | FLAG_FOLLOW) < 0x400 && (FLAG_NEXT
            | FLAG_FOLLOW) < 0x400u16 && (FLAG_NEXT | (flags & FLAG_COMPLETE)) < 0x400u16)
            by (bit_vector);
    }
    let mut out: Vec<Frame> = Vec::new();
    let mut offset: usize = 0;
    proof {
        assert(body@.skip(0) =~= body@);
        assert(out.deep_view().map(|i: int, f: FrameView| f.body) =~= Seq::<Seq<u8>>::empty());
        assert(chunks =~= Seq::<Seq<u8>>::empty() + frame_chunks(body@, mtu as int));
    }
    while body.len() - offset > mtu
        invariant
            offset <= body@.len(),
            mtu >= 1,
            chunks == out.deep_view().map(|i: int, f: FrameView| f.body) + frame_chunks(
                body@.skip(offset as int),
                mtu as int,
            ),
            forall|i: int|
                0 <= i < out@.len() ==> (#[trigger] out.deep_view()[i]).body == chunks[i],
            forall|i: int|
                0 <= i < out@.len() ==> (#[trigger] out.deep_view()[i]).stream_id == stream_id,
            forall|i: int|
                0 <= i < out@.len() ==> (#[trigger] out.deep_view()[i]).frame_type == (if i == 0 {
                    frame_type
                } else {
                    FrameType::Payload
                }),
            forall|i: int|
                0 <= i < out@.len() ==> (#[trigger] out.deep_view()[i]).flags == (if i == 0 {
                    (flags & !FLAG_COMPLETE) | FLAG_FOLLOW
                } else {
                    FLAG_NEXT | FLAG_FOLLOW
                }),
            forall|i: int| 0 <= i < out@.len() ==> (#[trigger] out.deep_view()[i]).wf(),
        decreases body@.len() - offset,
    {
        let chunk = vec_range(&body, offset, offset + mtu);
        let ftype = if out.len() == 0 {
            frame_type
        } else {
            FrameType::Payload
        };
        let fflags = if out.len() == 0 {
            (flags & !FLAG_COMPLETE) | FLAG_FOLLOW
        } else {
            FLAG_NEXT | FLAG_FOLLOW
        };
        let ghost before = out.deep_view();
        let f = Frame { stream_id, frame_type: ftype, flags: fflags, body: chunk };
        out.push(f);
        proof {
            assert(out.deep_view() =~= before.push(f@));
            assert(f@.body =~= body@.skip(offset as int).take(mtu as int));
            assert(body@.skip(offset as int).skip(mtu as int) =~= body@.skip(
                offset as int + mtu as int,
            ));
            assert(frame_chunks(body@.skip(offset as int), mtu as int) =~= seq![f@.body]
                + frame_chunks(body@.skip(offset as int + mtu as int), mtu as int));
            assert(before.map(|i: int, fr: FrameView| fr.body).push(f@.body) =~= out.deep_view()
                .map(|i: int, fr: FrameView| fr.body));
            assert(chunks =~= out.deep_view().map(|i: int, fr: FrameView| fr.body) + frame_chunks(
                body@.skip(offset as int + mtu as int),
                mtu as int,
            ));
        }
        offset = offset + mtu;
    }
    let last_chunk = vec_range(&body, offset, body.len());
    let ftype = if out.len() == 0 {
        frame_type
    } else {
        FrameType::Payload
    };
    let fflags = if out.len() == 0 {
        flags
    } else {
        FLAG_NEXT | (flags & FLAG_COMPLETE)
    };
    let ghost before = out.deep_view();
    let f = Frame { stream_id, frame_type: ftype, flags: fflags, body: last_chunk };
    out.push(f);
    proof {
        assert(out.deep_view() =~= before.push(f@));
        assert(f@.body =~= body@.skip(offset as int));
        assert(frame_chunks(body@.skip(offset as int), mtu as int) =~= seq![f@.body]);
        assert(before.map(|i: int, fr: FrameView| fr.body).push(f@.body) =~= out.deep_view().map(
            |i: int, fr: FrameView| fr.body,
        ));
        assert(chunks =~= out.deep_view().map(|i: int, fr: FrameView| fr.body));
        assert(forall|i: int|
            0 <= i < out.deep_view().len() ==> (#[trigger] out.deep_view()[i]).flags
                == fragment_flags(flags, i, out.deep_view().len() - 1));
    }
    out
}

/// Concatenates the bodies of a fragment sequence back into the original
/// body, as the receive side does once a frame without fragment-follows
/// arrives.
pub fn reassemble(frames: &Vec<Frame>) -> (r: Vec<u8>)
    ensures
        r@ == concat_seqs(frame_bodies(frames.deep_view())),
{
    let ghost bodies = frame_bodies(frames.deep_view());
    let mut out: Vec<u8> = Vec::new();
    let mut i: usize = 0;
    while i < frames.len()
        invariant
            i <= frames@.len(),
            bodies == frame_bodies(frames.deep_view()),
            bodies.len() == frames@.len(),
            out@ == concat_seqs(bodies.take(i as int)),
        decreases frames@.len() - i,
    {
        let frame = &frames[i];
        let ghost before = out@;
        crate::tags::push_bytes(&mut out, frame.body.as_slice());
        proof {
            lemma_concat_seqs_push(bodies.take(i as int), bodies[i as int]);
            assert(bodies.take(i as int).push(bodies[i as int]) =~= bodies.take(i as int + 1));
            assert(frame.body@ == bodies[i as int]);
            assert(out@ =~= concat_seqs(bodies.take(i as int + 1)));
        }
        i = i + 1;
    }
    proof {
        assert(bodies.take(bodies.len() as int) =~= bodies);
    }
    out
}

} // verus!
