//! The session multiplexes logical streams over one connection: it owns the
//! stream-id allocator and the per-stream dispatch state, negotiates setup,
//! turns the interaction-model operations into outbound frames, and
//! dispatches inbound frames to per-stream outcomes. Frames for one stream
//! never disturb the state of another; a connection-scoped error resolves
//! them all.

use vstd::prelude::*;
use crate::error::RSocketError;
use crate::fragment::{fragment, fragments_ok};
use crate::frame::{
    Frame, FrameType, FrameView, FLAG_COMPLETE, FLAG_FOLLOW, FLAG_METADATA, FLAG_NEXT,
};
use crate::payload::{
    decode_payload_body, encode_payload_body, parse_payload_body, payload_body_wire, Payload,
    PayloadView,
};
use crate::buffer::string_from_utf8;
use crate::composite::{lemma_u24_round_trip, u24_value, u24_wire};
use crate::error::EncodingIssue;
use crate::tags::{push_bytes, tag_wire, vec_range};
use vstd::utf8::{decode_utf8, encode_utf8, valid_utf8};
use vstd::utf8::{encode_utf8_decode_utf8, encode_utf8_valid_utf8};

verus! {

/// Allocates client-initiated stream ids: odd, strictly increasing, never
/// reused within the connection's lifetime.
pub struct StreamIdAllocator {
    next_id: u32,
}

/// The id of the `k`-th client-initiated stream.
pub open spec fn client_stream_id(k: int) -> int {
    1 + 2 * k
}

impl StreamIdAllocator {
    /// The next id to hand out.
    pub closed spec fn spec_next(&self) -> u32 {
        self.next_id
    }

    /// How many ids have been handed out.
    pub closed spec fn spec_count(&self) -> int {
        (self.next_id - 1) / 2
    }

    /// The next id is always odd.
    pub open spec fn wf(&self) -> bool {
        self.spec_next() % 2 == 1
    }

    /// A fresh allocator: the first client-initiated stream id is 1.
    pub fn new() -> (r: Self)
        ensures
            r.wf(),
            r.spec_count() == 0,
    {
        StreamIdAllocator { next_id: 1 }
    }

    /// Hands out the next odd id; fails only once the 31-bit id space is
    /// exhausted, and never mutates state on failure.
    pub fn allocate(&mut self) -> (r: Option<u32>)
        requires
            old(self).wf(),
        ensures
            final(self).wf(),
            r matches Some(id) ==> {
                &&& id == client_stream_id(old(self).spec_count())
                &&& id % 2 == 1
                &&& 0 < id < 0x8000_0000
                &&& final(self).spec_count() == old(self).spec_count() + 1
                &&& final(self).spec_next() == id + 2
                &&& old(self).spec_next() == id
            },
            r is None <==> old(self).spec_next() >= 0x8000_0000,
            r is None ==> *final(self) == *old(self),
    {
        if self.next_id >= 0x8000_0000 {
            return None;
        }
        let id = self.next_id;
        self.next_id = id + 2;
        Some(id)
    }
}

/// Stream id monotonicity law: of any two client-initiated requests, the
/// earlier one gets the smaller id; every id is odd, so none is ever 0 and
/// none collides with a server-initiated (even) id, and no id repeats.
pub proof fn lemma_stream_ids_monotonic(j: int, k: int)
    requires
        0 <= j < k,
    ensures
        client_stream_id(j) % 2 == 1,
        client_stream_id(j) < client_stream_id(k),
        client_stream_id(j) != client_stream_id(k),
{
}

/// The interaction model a logical stream serves.
#[derive(Clone, Copy, Debug, PartialEq, Eq, Structural)]
pub enum StreamKind {
    /// Awaits exactly one response payload.
    Response,
    /// Awaits a stream of payloads ended by completion.
    Stream,
    /// A bidirectional channel.
    Channel,
}

/// Per-stream state: the interaction model and the reassembly buffer of a
/// fragmented inbound payload.
pub struct StreamEntry {
    pub id: u32,
    pub kind: StreamKind,
    pub frag: Vec<u8>,
    pub frag_meta: bool,
    pub fragmented: bool,
}

/// Spec view of per-stream state.
pub struct StreamEntryView {
    pub id: u32,
    pub kind: StreamKind,
    pub frag: Seq<u8>,
    pub frag_meta: bool,
    pub fragmented: bool,
}

impl View for StreamEntry {
    type V = StreamEntryView;

    open spec fn view(&self) -> StreamEntryView {
        StreamEntryView {
            id: self.id,
            kind: self.kind,
            frag: self.frag@,
            frag_meta: self.frag_meta,
            fragmented: self.fragmented,
        }
    }
}

impl DeepView for StreamEntry {
    type V = StreamEntryView;

    open spec fn deep_view(&self) -> StreamEntryView {
        self.view()
    }
}

/// The state of the stream `id` names, if any: the first entry with that
/// id.
pub open spec fn spec_find(entries: Seq<StreamEntryView>, id: u32) -> Option<StreamEntryView>
    decreases entries.len(),
{
    if entries.len() == 0 {
        None
    } else if entries[0].id == id {
        Some(entries[0])
    } else {
        spec_find(entries.skip(1), id)
    }
}

/// Validity of a dispatch map against the allocator's next id: ids are
/// distinct, 31-bit, nonzero, and already allocated.
pub open spec fn entries_wf(entries: Seq<StreamEntryView>, next: u32) -> bool {
    &&& forall|i: int, j: int|
        0 <= i < j < entries.len() ==> (#[trigger] entries[i]).id != (#[trigger] entries[j]).id
    &&& forall|i: int|
        0 <= i < entries.len() ==> 0 < (#[trigger] entries[i]).id < 0x8000_0000 && entries[i].id
            < next
}

/// An absent id is found nowhere.
pub proof fn lemma_find_absent(entries: Seq<StreamEntryView>, id: u32)
    requires
        forall|k: int| 0 <= k < entries.len() ==> (#[trigger] entries[k]).id != id,
    ensures
        spec_find(entries, id) is None,
    decreases entries.len(),
{
    if entries.len() > 0 {
        lemma_find_absent(entries.skip(1), id);
    }
}

/// With distinct ids, the entry at any index is what its id finds.
pub proof fn lemma_find_present(entries: Seq<StreamEntryView>, next: u32, i: int)
    requires
        entries_wf(entries, next),
        0 <= i < entries.len(),
    ensures
        spec_find(entries, entries[i].id) == Some(entries[i]),
    decreases entries.len(),
{
    if i > 0 {
        assert(entries[0].id != entries[i].id);
        assert(entries_wf(entries.skip(1), next));
        lemma_find_present(entries.skip(1), next, i - 1);
    }
}

/// Removing the entry at `i` removes exactly its id from the map.
pub proof fn lemma_find_remove(entries: Seq<StreamEntryView>, next: u32, i: int, id: u32)
    requires
        entries_wf(entries, next),
        0 <= i < entries.len(),
    ensures
        id != entries[i].id ==> spec_find(entries.remove(i), id) == spec_find(entries, id),
        id == entries[i].id ==> spec_find(entries.remove(i), id) is None,
    decreases entries.len(),
{
    if id == entries[i].id {
        assert(forall|k: int|
            0 <= k < entries.remove(i).len() ==> (#[trigger] entries.remove(i)[k]).id != id);
        lemma_find_absent(entries.remove(i), id);
    } else {
        if i == 0 {
            assert(entries.remove(0) =~= entries.skip(1));
        } else {
            assert(entries.remove(i).skip(1) =~= entries.skip(1).remove(i - 1));
            assert(entries_wf(entries.skip(1), next));
            lemma_find_remove(entries.skip(1), next, i - 1, id);
        }
    }
}

/// Updating the entry at `i` in place changes only its id's state.
pub proof fn lemma_find_update(
    entries: Seq<StreamEntryView>,
    next: u32,
    i: int,
    v: StreamEntryView,
    id: u32,
)
    requires
        entries_wf(entries, next),
        0 <= i < entries.len(),
        v.id == entries[i].id,
    ensures
        id != v.id ==> spec_find(entries.update(i, v), id) == spec_find(entries, id),
        id == v.id ==> spec_find(entries.update(i, v), id) == Some(v),
    decreases entries.len(),
{
    if i == 0 {
        assert(entries.update(0, v).skip(1) =~= entries.skip(1));
    } else {
        assert(entries.update(i, v).skip(1) =~= entries.skip(1).update(i - 1, v));
        assert(entries_wf(entries.skip(1), next));
        lemma_find_update(entries.skip(1), next, i - 1, v, id);
    }
}

/// Appending a fresh entry changes only its id's state.
pub proof fn lemma_find_push(entries: Seq<StreamEntryView>, v: StreamEntryView, id: u32)
    requires
        forall|k: int| 0 <= k < entries.len() ==> (#[trigger] entries[k]).id != v.id,
    ensures
        id != v.id ==> spec_find(entries.push(v), id) == spec_find(entries, id),
        id == v.id ==> spec_find(entries.push(v), id) == Some(v),
    decreases entries.len(),
{
    if entries.len() == 0 {
        assert(entries.push(v)[0] == v);
        assert(entries.push(v).skip(1) =~= Seq::<StreamEntryView>::empty());
        assert(spec_find(Seq::<StreamEntryView>::empty(), id) is None);
        if id != v.id {
            assert(spec_find(entries.push(v), id) is None);
            assert(spec_find(entries, id) is None);
        } else {
            assert(spec_find(entries.push(v), id) == Some(v));
        }
    } else {
        assert(entries.push(v)[0] == entries[0]);
        assert(entries.push(v).skip(1) =~= entries.skip(1).push(v));
        assert(forall|k: int|
            0 <= k < entries.skip(1).len() ==> (#[trigger] entries.skip(1)[k]).id != v.id);
        lemma_find_push(entries.skip(1), v, id);
        if entries[0].id == id {
            assert(spec_find(entries.push(v), id) == Some(entries[0]));
            assert(spec_find(entries, id) == Some(entries[0]));
        } else {
            assert(spec_find(entries.push(v), id) == spec_find(entries.skip(1).push(v), id));
            assert(spec_find(entries, id) == spec_find(entries.skip(1), id));
        }
    }
}

/// What the session delivers for one inbound frame.
pub enum SessionEvent {
    /// A connection-scoped frame with nothing to deliver (keepalive,
    /// lease, ...).
    Ignored,
    /// A fragment was buffered for its stream; nothing delivered yet.
    Fragmented { stream_id: u32 },
    /// The single response of a request-response stream; the stream is
    /// resolved.
    Response { stream_id: u32, payload: Payload },
    /// One element of a request-stream or request-channel; `complete` says
    /// the stream ended with it.
    Next { stream_id: u32, payload: Payload, complete: bool },
    /// The stream completed with no further element.
    Complete { stream_id: u32 },
    /// The stream was resolved with the peer's error.
    StreamError { stream_id: u32, message: Vec<u8> },
    /// The peer cancelled the stream.
    Cancelled { stream_id: u32 },
    /// Connection-scoped metadata arrived.
    MetadataPushed { payload: Payload },
    /// A connection-scoped error: every stream is resolved and the session
    /// closes.
    ConnectionError { message: Vec<u8> },
}

/// The body an inbound terminal frame delivers: what was buffered for the
/// stream, then the frame's own body.
pub open spec fn inbound_body(e: StreamEntryView, f: FrameView) -> Seq<u8> {
    if e.fragmented {
        e.frag + f.body
    } else {
        f.body
    }
}

/// Whether the delivered payload carries metadata: fixed by the first
/// fragment, else by the frame itself.
pub open spec fn inbound_meta(e: StreamEntryView, f: FrameView) -> bool {
    if e.fragmented {
        e.frag_meta
    } else {
        f.flags & FLAG_METADATA == FLAG_METADATA
    }
}

/// The inputs on which `on_frame` reports an error instead of an event: a
/// stream frame whose id is unknown, a frame type the stream's state does
/// not expect, a payload frame with no flag at all, or a payload whose
/// metadata length prefix is malformed.
pub open spec fn on_frame_rejects(entries: Seq<StreamEntryView>, f: FrameView) -> bool {
    if f.stream_id == 0 {
        f.frame_type == FrameType::MetadataPush && parse_payload_body(f.body, true) is Err
    } else {
        match spec_find(entries, f.stream_id) {
            None => true,
            Some(e) => match f.frame_type {
                FrameType::Payload => {
                    if f.flags & FLAG_FOLLOW == FLAG_FOLLOW {
                        false
                    } else if f.flags & FLAG_NEXT == FLAG_NEXT {
                        parse_payload_body(inbound_body(e, f), inbound_meta(e, f)) is Err
                    } else {
                        f.flags & FLAG_COMPLETE != FLAG_COMPLETE
                    }
                },
                FrameType::Error => false,
                FrameType::Cancel => false,
                _ => true,
            },
        }
    }
}

/// On the inputs where `on_frame_rejects` holds, the error it reports: a
/// protocol violation for an unknown stream id, a frame type the stream's
/// state refuses, or a payload frame with no flag at all; the payload
/// parse's own issue for a malformed body. On other inputs the value is
/// not used.
pub open spec fn on_frame_error(entries: Seq<StreamEntryView>, f: FrameView) -> RSocketError {
    if f.stream_id == 0 {
        RSocketError::Encoding(parse_payload_body(f.body, true)->Err_0)
    } else {
        match spec_find(entries, f.stream_id) {
            None => RSocketError::ProtocolViolation,
            Some(e) => match f.frame_type {
                FrameType::Payload => {
                    if f.flags & FLAG_FOLLOW != FLAG_FOLLOW && f.flags & FLAG_NEXT == FLAG_NEXT {
                        RSocketError::Encoding(
                            parse_payload_body(inbound_body(e, f), inbound_meta(e, f))->Err_0,
                        )
                    } else {
                        RSocketError::ProtocolViolation
                    }
                },
                _ => RSocketError::ProtocolViolation,
            },
        }
    }
}

/// Wire form of a setup frame's body: the negotiated mtu as a 24-bit
/// big-endian field, the declared data and metadata MIME types, each as
/// one length-prefixed tag, then the initial setup payload.
pub open spec fn setup_body_wire(
    mtu: u32,
    data_mime: Seq<char>,
    metadata_mime: Seq<char>,
    setup: PayloadView,
) -> Seq<u8> {
    u24_wire(mtu) + tag_wire(data_mime) + tag_wire(metadata_mime) + payload_body_wire(setup)
}

/// What decoding a setup frame's body yields, given the frame's metadata
/// flag: the negotiated mtu, the two MIME types and the setup payload, or
/// the first failure.
pub open spec fn parse_setup_body(b: Seq<u8>, has_metadata: bool) -> Result<
    (u32, Seq<char>, Seq<char>, PayloadView),
    EncodingIssue,
> {
    if b.len() < 3 {
        Err(EncodingIssue::Incomplete)
    } else {
        let mtu = u24_value(b[0], b[1], b[2]);
        let r0 = b.skip(3);
        if r0.len() < 1 {
            Err(EncodingIssue::Incomplete)
        } else {
            let n1 = r0[0] as int;
            if r0.len() < 1 + n1 {
                Err(EncodingIssue::Incomplete)
            } else if !valid_utf8(r0.subrange(1, 1 + n1)) {
                Err(EncodingIssue::InvalidUtf8)
            } else {
                let r1 = r0.skip(1 + n1);
                if r1.len() < 1 {
                    Err(EncodingIssue::Incomplete)
                } else {
                    let n2 = r1[0] as int;
                    if r1.len() < 1 + n2 {
                        Err(EncodingIssue::Incomplete)
                    } else if !valid_utf8(r1.subrange(1, 1 + n2)) {
                        Err(EncodingIssue::InvalidUtf8)
                    } else {
                        match parse_payload_body(r1.skip(1 + n2), has_metadata) {
                            Ok(p) => Ok(
                                (
                                    mtu,
                                    decode_utf8(r0.subrange(1, 1 + n1)),
                                    decode_utf8(r1.subrange(1, 1 + n2)),
                                    p,
                                ),
                            ),
                            Err(e) => Err(e),
                        }
                    }
                }
            }
        }
    }
}

/// Round-trip law for the setup body: for an mtu that fits its 24-bit
/// field, MIME types that fit their length prefixes and a well-formed
/// setup payload whose data part is not present-but-empty, decoding the
/// encoding reproduces all four parts.
pub proof fn lemma_setup_body_round_trip(
    mtu: u32,
    data_mime: Seq<char>,
    metadata_mime: Seq<char>,
    setup: PayloadView,
)
    requires
        mtu < 0x1000000,
        encode_utf8(data_mime).len() <= 0xFF,
        encode_utf8(metadata_mime).len() <= 0xFF,
        setup.wf(),
        setup.data != Some(Seq::<u8>::empty()),
    ensures
        parse_setup_body(
            setup_body_wire(mtu, data_mime, metadata_mime, setup),
            setup.metadata is Some,
        ) == Ok::<(u32, Seq<char>, Seq<char>, PayloadView), EncodingIssue>(
            (mtu, data_mime, metadata_mime, setup),
        ),
{
    let b = setup_body_wire(mtu, data_mime, metadata_mime, setup);
    let e1 = encode_utf8(data_mime);
    let e2 = encode_utf8(metadata_mime);
    let n1 = e1.len() as int;
    let n2 = e2.len() as int;
    encode_utf8_valid_utf8(data_mime);
    encode_utf8_decode_utf8(data_mime);
    encode_utf8_valid_utf8(metadata_mime);
    encode_utf8_decode_utf8(metadata_mime);
    assert(b[0] == (mtu >> 16) as u8 && b[1] == (mtu >> 8) as u8 && b[2] == mtu as u8);
    lemma_u24_round_trip(mtu);
    let r0 = b.skip(3);
    assert(r0 =~= tag_wire(data_mime) + tag_wire(metadata_mime) + payload_body_wire(setup));
    assert(r0[0] == n1 as u8);
    assert(r0.subrange(1, 1 + n1) =~= e1);
    let r1 = r0.skip(1 + n1);
    assert(r1 =~= tag_wire(metadata_mime) + payload_body_wire(setup));
    assert(r1[0] == n2 as u8);
    assert(r1.subrange(1, 1 + n2) =~= e2);
    assert(r1.skip(1 + n2) =~= payload_body_wire(setup));
    crate::payload::lemma_payload_body_round_trip(setup);
}

/// The session: stream-id allocation, the per-stream dispatch map, the
/// negotiated mtu and the closed flag.
pub struct Session {
    allocator: StreamIdAllocator,
    streams: Vec<StreamEntry>,
    mtu: usize,
    closed: bool,
}

impl Session {
    /// The dispatch map.
    pub closed spec fn streams_view(&self) -> Seq<StreamEntryView> {
        self.streams.deep_view()
    }

    /// The negotiated mtu; 0 disables fragmentation.
    pub closed spec fn spec_mtu(&self) -> usize {
        self.mtu
    }

    /// Whether the session was closed.
    pub closed spec fn spec_closed(&self) -> bool {
        self.closed
    }

    /// How many client-initiated streams were ever opened.
    pub closed spec fn spec_alloc_count(&self) -> int {
        self.allocator.spec_count()
    }

    /// The allocator's next id.
    pub closed spec fn spec_next_id(&self) -> u32 {
        self.allocator.spec_next()
    }

    /// The allocator's validity.
    pub closed spec fn spec_allocator_ok(&self) -> bool {
        self.allocator.wf()
    }

    /// Validity: the allocator hands out odd ids, the map's ids are
    /// distinct and already allocated, and the mtu leaves header room under
    /// the 24-bit length prefix.
    pub open spec fn wf(&self) -> bool {
        &&& self.spec_allocator_ok()
        &&& entries_wf(self.streams_view(), self.spec_next_id())
        &&& (self.spec_mtu() != 0 ==> self.spec_mtu() + 6 < 0x1000000)
    }

    /// Finishes connection setup from the acceptor's decision, which is
    /// final and not retried: a rejection becomes a `SetupRejected` error
    /// carrying the acceptor's description, and no session exists, so no
    /// stream ever becomes active; acceptance yields a fresh session with
    /// no streams.
    pub fn establish(decision: Result<(), String>, mtu: usize) -> (r: Result<
        Session,
        RSocketError,
    >)
        requires
            mtu != 0 ==> mtu + 6 < 0x1000000,
        ensures
            r is Ok <==> decision is Ok,
            match r {
                Ok(s) => {
                    &&& s.wf()
                    &&& s.streams_view().len() == 0
                    &&& !s.spec_closed()
                    &&& s.spec_alloc_count() == 0
                    &&& s.spec_mtu() == mtu
                },
                Err(e) => decision matches Err(d) && e == RSocketError::SetupRejected(d),
            },
    {
        match decision {
            Ok(()) => {
                let s = Session {
                    allocator: StreamIdAllocator::new(),
                    streams: Vec::new(),
                    mtu,
                    closed: false,
                };
                proof {
                    assert(s.streams_view() =~= Seq::<StreamEntryView>::empty());
                }
                Ok(s)
            },
            Err(d) => Err(RSocketError::SetupRejected(d)),
        }
    }

    /// The connection-setup frame, on stream 0: the negotiated mtu
    /// (0 = fragmentation disabled), the declared data and metadata MIME
    /// types, and the initial setup payload.
    pub fn setup_frame(setup: &Payload, data_mime: &str, metadata_mime: &str, mtu: usize) -> (r:
        Frame)
        requires
            setup.wf(),
            encode_utf8(data_mime@).len() <= 0xFF,
            encode_utf8(metadata_mime@).len() <= 0xFF,
            mtu < 0x1000000,
        ensures
            r@.stream_id == 0,
            r@.frame_type == FrameType::Setup,
            r@.body == setup_body_wire(mtu as u32, data_mime@, metadata_mime@, setup@),
            r@.flags == (if setup@.metadata is Some {
                FLAG_METADATA
            } else {
                0u16
            }),
    {
        let mut body: Vec<u8> = Vec::new();
        let m32 = mtu as u32;
        body.push((m32 >> 16) as u8);
        body.push((m32 >> 8) as u8);
        body.push(m32 as u8);
        let dm: &[u8] = data_mime.as_bytes();
        body.push(dm.len() as u8);
        push_bytes(&mut body, dm);
        let mm: &[u8] = metadata_mime.as_bytes();
        body.push(mm.len() as u8);
        push_bytes(&mut body, mm);
        let (pb, has_meta) = encode_payload_body(setup);
        push_bytes(&mut body, pb.as_slice());
        proof {
            assert(body@ =~= setup_body_wire(mtu as u32, data_mime@, metadata_mime@, setup@));
        }
        let flags: u16 = if has_meta {
            FLAG_METADATA
        } else {
            0
        };
        Frame { stream_id: 0, frame_type: FrameType::Setup, flags, body }
    }

    /// Decodes a setup frame's body, as the serving side does before it
    /// asks the acceptor: the negotiated mtu, the two declared MIME types
    /// and the setup payload. Fails exactly when a length prefix is
    /// truncated or a MIME type is not valid UTF-8.
    pub fn decode_setup(f: &Frame) -> (r: Result<(u32, String, String, Payload), RSocketError>)
        ensures
            match r {
                Ok((mtu, dm, mm, p)) => parse_setup_body(
                    f@.body,
                    f@.flags & FLAG_METADATA == FLAG_METADATA,
                ) == Ok::<(u32, Seq<char>, Seq<char>, PayloadView), EncodingIssue>(
                    (mtu, dm@, mm@, p@),
                ),
                Err(e) => parse_setup_body(f@.body, f@.flags & FLAG_METADATA == FLAG_METADATA)
                    matches Err(issue) && e == RSocketError::Encoding(issue),
            },
    {
        let b = &f.body;
        if b.len() < 3 {
            return Err(RSocketError::Encoding(EncodingIssue::Incomplete));
        }
        let m0 = b[0];
        let m1 = b[1];
        let m2 = b[2];
        let mtu = ((m0 as u32) << 16) | ((m1 as u32) << 8) | (m2 as u32);
        let ghost r0 = b@.skip(3);
        if b.len() - 3 < 1 {
            return Err(RSocketError::Encoding(EncodingIssue::Incomplete));
        }
        let n1 = b[3] as usize;
        proof {
            assert(r0[0] == b@[3]);
            assert(r0.len() == b@.len() - 3);
        }
        if b.len() - 4 < n1 {
            return Err(RSocketError::Encoding(EncodingIssue::Incomplete));
        }
        let dm_bytes = vec_range(b, 4, 4 + n1);
        proof {
            assert(dm_bytes@ =~= r0.subrange(1, 1 + n1 as int));
        }
        let dm = match string_from_utf8(dm_bytes) {
            Some(s) => s,
            None => {
                return Err(RSocketError::Encoding(EncodingIssue::InvalidUtf8));
            },
        };
        let ghost r1 = r0.skip(1 + n1 as int);
        if b.len() - 4 - n1 < 1 {
            return Err(RSocketError::Encoding(EncodingIssue::Incomplete));
        }
        let n2 = b[4 + n1] as usize;
        proof {
            assert(r1[0] == b@[4 + n1 as int]);
            assert(r1.len() == b@.len() - 4 - n1 as int);
        }
        if b.len() - 5 - n1 < n2 {
            return Err(RSocketError::Encoding(EncodingIssue::Incomplete));
        }
        let mm_bytes = vec_range(b, 5 + n1, 5 + n1 + n2);
        proof {
            assert(mm_bytes@ =~= r1.subrange(1, 1 + n2 as int));
        }
        let mm = match string_from_utf8(mm_bytes) {
            Some(s) => s,
            None => {
                return Err(RSocketError::Encoding(EncodingIssue::InvalidUtf8));
            },
        };
        let rest = vec_range(b, 5 + n1 + n2, b.len());
        proof {
            assert(rest@ =~= r1.skip(1 + n2 as int));
        }
        match decode_payload_body(&rest, f.has_flag(FLAG_METADATA)) {
            Ok(p) => Ok((mtu, dm, mm, p)),
            Err(e) => Err(e),
        }
    }

    /// The index of the entry for `id`, if one exists.
    #[verifier::loop_isolation(false)]
    fn find_index(&self, id: u32) -> (r: Option<usize>)
        requires
            self.wf(),
        ensures
            match r {
                Some(i) => i < self.streams_view().len() && self.streams_view()[i as int].id == id
                    && spec_find(self.streams_view(), id) == Some(self.streams_view()[i as int]),
                None => spec_find(self.streams_view(), id) is None,
            },
    {
        let ghost views = self.streams_view();
        let mut i: usize = 0;
        while i < self.streams.len()
            invariant
                i <= views.len(),
                views == self.streams.deep_view(),
                views.len() == self.streams@.len(),
                forall|k: int| 0 <= k < i ==> (#[trigger] views[k]).id != id,
            decreases views.len() - i,
        {
            if self.streams[i].id == id {
                proof {
                    lemma_find_present(views, self.allocator.spec_next(), i as int);
                }
                return Some(i);
            }
            i = i + 1;
        }
        proof {
            lemma_find_absent(views, id);
        }
        None
    }

    /// Opens one client-initiated stream: allocates the next odd id,
    /// registers the per-stream state when a reply is awaited, and returns
    /// the request's fragment frames. Fails exactly when the session is
    /// closed (`Cancelled`) or the id space is exhausted
    /// (`ProtocolViolation`); failure changes nothing.
    fn open_request(
        &mut self,
        kind: Option<StreamKind>,
        frame_type: FrameType,
        p: &Payload,
    ) -> (r: Result<(u32, Vec<Frame>), RSocketError>)
        requires
            old(self).wf(),
            p.wf(),
            old(self).spec_mtu() == 0 ==> payload_body_wire(p@).len() + 6 < 0x1000000,
        ensures
            final(self).wf(),
            final(self).spec_mtu() == old(self).spec_mtu(),
            final(self).spec_closed() == old(self).spec_closed(),
            r is Err ==> *final(self) == *old(self),
            r is Ok <==> !old(self).spec_closed() && old(self).spec_alloc_count()
                < 0x4000_0000,
            match r {
                Ok((id, frames)) => {
                    &&& id == client_stream_id(old(self).spec_alloc_count())
                    &&& id % 2 == 1 && 0 < id < 0x8000_0000
                    &&& final(self).spec_alloc_count() == old(self).spec_alloc_count() + 1
                    &&& fragments_ok(
                        frames.deep_view(),
                        id,
                        frame_type,
                        (if p@.metadata is Some {
                            FLAG_METADATA
                        } else {
                            0u16
                        }),
                        payload_body_wire(p@),
                        old(self).spec_mtu() as int,
                    )
                    &&& frames@.len() >= 1
                    &&& match kind {
                        Some(k) => spec_find(final(self).streams_view(), id) == Some(
                            StreamEntryView {
                                id,
                                kind: k,
                                frag: Seq::<u8>::empty(),
                                frag_meta: false,
                                fragmented: false,
                            },
                        ),
                        None => spec_find(final(self).streams_view(), id) is None,
                    }
                    &&& forall|other: u32|
                        other != id ==> #[trigger] spec_find(final(self).streams_view(), other)
                            == spec_find(old(self).streams_view(), other)
                },
                Err(e) => (old(self).spec_closed() && e == RSocketError::Cancelled) || (!old(
                    self,
                ).spec_closed() && e == RSocketError::ProtocolViolation),
            },
    {
        if self.closed {
            return Err(RSocketError::Cancelled);
        }
        let ghost old_views = self.streams_view();
        let id_opt = self.allocator.allocate();
        let id = match id_opt {
            Some(id) => id,
            None => {
                return Err(RSocketError::ProtocolViolation);
            },
        };
        let (body, has_meta) = encode_payload_body(p);
        let flags: u16 = if has_meta {
            FLAG_METADATA
        } else {
            0
        };
        proof {
            assert(FLAG_METADATA < 0x400 && FLAG_METADATA & FLAG_FOLLOW == 0 && 0u16 & FLAG_FOLLOW
                == 0) by (bit_vector);
        }
        let frames = fragment(id, frame_type, flags, body, self.mtu);
        match kind {
            Some(k) => {
                let entry = StreamEntry {
                    id,
                    kind: k,
                    frag: Vec::new(),
                    frag_meta: false,
                    fragmented: false,
                };
                let ghost v = entry@;
                self.streams.push(entry);
                proof {
                    assert(self.streams_view() =~= old_views.push(v));
                    assert(forall|k2: int|
                        0 <= k2 < old_views.len() ==> (#[trigger] old_views[k2]).id != v.id);
                    lemma_find_push(old_views, v, id);
                    assert(forall|other: u32|
                        other != id ==> #[trigger] spec_find(self.streams_view(), other)
                            == spec_find(old_views, other)) by {
                        assert forall|other: u32|
                            other != id implies #[trigger] spec_find(self.streams_view(), other)
                            == spec_find(old_views, other) by {
                            lemma_find_push(old_views, v, other);
                        }
                    }
                    assert(v.frag =~= Seq::<u8>::empty());
                }
                Ok((id, frames))
            },
            None => {
                proof {
                    assert forall|other: u32| true implies #[trigger] spec_find(
                        self.streams_view(),
                        other,
                    ) == spec_find(old_views, other) by {}
                    lemma_find_absent(
                        self.streams_view(),
                        id,
                    );
                }
                Ok((id, frames))
            },
        }
    }

    /// Opens a request-response stream: one request, exactly one awaited
    /// response.
    pub fn request_response(&mut self, p: &Payload) -> (r: Result<(u32, Vec<Frame>), RSocketError>)
        requires
            old(self).wf(),
            p.wf(),
            old(self).spec_mtu() == 0 ==> payload_body_wire(p@).len() + 6 < 0x1000000,
        ensures
            final(self).wf(),
            r is Ok <==> !old(self).spec_closed() && old(self).spec_alloc_count()
                < 0x4000_0000,
            r is Err ==> *final(self) == *old(self),
            match r {
                Ok((id, frames)) => {
                    &&& id == client_stream_id(old(self).spec_alloc_count())
                    &&& fragments_ok(
                        frames.deep_view(),
                        id,
                        FrameType::RequestResponse,
                        (if p@.metadata is Some {
                            FLAG_METADATA
                        } else {
                            0u16
                        }),
                        payload_body_wire(p@),
                        old(self).spec_mtu() as int,
                    )
                    &&& spec_find(final(self).streams_view(), id) == Some(
                        StreamEntryView {
                            id,
                            kind: StreamKind::Response,
                            frag: Seq::<u8>::empty(),
                            frag_meta: false,
                            fragmented: false,
                        },
                    )
                    &&& forall|other: u32|
                        other != id ==> #[trigger] spec_find(final(self).streams_view(), other)
                            == spec_find(old(self).streams_view(), other)
                },
                Err(e) => e == RSocketError::Cancelled || e == RSocketError::ProtocolViolation,
            },
    {
        self.open_request(Some(StreamKind::Response), FrameType::RequestResponse, p)
    }

    /// Opens a request-stream stream: one request, a stream of responses
    /// ended by completion.
    pub fn request_stream(&mut self, p: &Payload) -> (r: Result<(u32, Vec<Frame>), RSocketError>)
        requires
            old(self).wf(),
            p.wf(),
            old(self).spec_mtu() == 0 ==> payload_body_wire(p@).len() + 6 < 0x1000000,
        ensures
            final(self).wf(),
            r is Ok <==> !old(self).spec_closed() && old(self).spec_alloc_count()
                < 0x4000_0000,
            r is Err ==> *final(self) == *old(self),
            match r {
                Ok((id, frames)) => {
                    &&& id == client_stream_id(old(self).spec_alloc_count())
                    &&& fragments_ok(
                        frames.deep_view(),
                        id,
                        FrameType::RequestStream,
                        (if p@.metadata is Some {
                            FLAG_METADATA
                        } else {
                            0u16
                        }),
                        payload_body_wire(p@),
                        old(self).spec_mtu() as int,
                    )
                    &&& spec_find(final(self).streams_view(), id) == Some(
                        StreamEntryView {
                            id,
                            kind: StreamKind::Stream,
                            frag: Seq::<u8>::empty(),
                            frag_meta: false,
                            fragmented: false,
                        },
                    )
                    &&& forall|other: u32|
                        other != id ==> #[trigger] spec_find(final(self).streams_view(), other)
                            == spec_find(old(self).streams_view(), other)
                },
                Err(e) => e == RSocketError::Cancelled || e == RSocketError::ProtocolViolation,
            },
    {
        self.open_request(Some(StreamKind::Stream), FrameType::RequestStream, p)
    }

    /// Opens a request-channel stream with its first outbound payload; more
    /// go out through [`Session::channel_send`], and
    /// [`Session::channel_complete`] ends the local direction.
    pub fn request_channel(&mut self, p: &Payload) -> (r: Result<(u32, Vec<Frame>), RSocketError>)
        requires
            old(self).wf(),
            p.wf(),
            old(self).spec_mtu() == 0 ==> payload_body_wire(p@).len() + 6 < 0x1000000,
        ensures
            final(self).wf(),
            r is Ok <==> !old(self).spec_closed() && old(self).spec_alloc_count()
                < 0x4000_0000,
            r is Err ==> *final(self) == *old(self),
            match r {
                Ok((id, frames)) => {
                    &&& id == client_stream_id(old(self).spec_alloc_count())
                    &&& fragments_ok(
                        frames.deep_view(),
                        id,
                        FrameType::RequestChannel,
                        (if p@.metadata is Some {
                            FLAG_METADATA
                        } else {
                            0u16
                        }),
                        payload_body_wire(p@),
                        old(self).spec_mtu() as int,
                    )
                    &&& spec_find(final(self).streams_view(), id) == Some(
                        StreamEntryView {
                            id,
                            kind: StreamKind::Channel,
                            frag: Seq::<u8>::empty(),
                            frag_meta: false,
                            fragmented: false,
                        },
                    )
                    &&& forall|other: u32|
                        other != id ==> #[trigger] spec_find(final(self).streams_view(), other)
                            == spec_find(old(self).streams_view(), other)
                },
                Err(e) => e == RSocketError::Cancelled || e == RSocketError::ProtocolViolation,
            },
    {
        self.open_request(Some(StreamKind::Channel), FrameType::RequestChannel, p)
    }

    /// Sends one request with no response expected: a fresh id, no
    /// per-stream state, resolved as soon as the frames are handed to the
    /// writer.
    pub fn fire_and_forget(&mut self, p: &Payload) -> (r: Result<(u32, Vec<Frame>), RSocketError>)
        requires
            old(self).wf(),
            p.wf(),
            old(self).spec_mtu() == 0 ==> payload_body_wire(p@).len() + 6 < 0x1000000,
        ensures
            final(self).wf(),
            r is Ok <==> !old(self).spec_closed() && old(self).spec_alloc_count()
                < 0x4000_0000,
            r is Err ==> *final(self) == *old(self),
            match r {
                Ok((id, frames)) => {
                    &&& id == client_stream_id(old(self).spec_alloc_count())
                    &&& fragments_ok(
                        frames.deep_view(),
                        id,
                        FrameType::RequestFnf,
                        (if p@.metadata is Some {
                            FLAG_METADATA
                        } else {
                            0u16
                        }),
                        payload_body_wire(p@),
                        old(self).spec_mtu() as int,
                    )
                    &&& spec_find(final(self).streams_view(), id) is None
                    &&& forall|other: u32|
                        other != id ==> #[trigger] spec_find(final(self).streams_view(), other)
                            == spec_find(old(self).streams_view(), other)
                },
                Err(e) => e == RSocketError::Cancelled || e == RSocketError::ProtocolViolation,
            },
    {
        self.open_request(None, FrameType::RequestFnf, p)
    }

    /// Sends connection-scoped metadata on stream 0; fire-and-forget
    /// semantics, no per-stream state. The payload carries metadata only.
    pub fn metadata_push(&mut self, p: &Payload) -> (r: Result<Frame, RSocketError>)
        requires
            old(self).wf(),
            p.wf(),
            p@.data is None,
            p@.metadata is Some,
        ensures
            final(self).wf(),
            *final(self) == *old(self),
            r is Ok <==> !old(self).spec_closed(),
            match r {
                Ok(f) => {
                    &&& f@.stream_id == 0
                    &&& f@.frame_type == FrameType::MetadataPush
                    &&& f@.flags == FLAG_METADATA
                    &&& f@.body == payload_body_wire(p@)
                },
                Err(e) => e == RSocketError::Cancelled,
            },
    {
        if self.closed {
            return Err(RSocketError::Cancelled);
        }
        let (body, _has_meta) = encode_payload_body(p);
        Ok(Frame { stream_id: 0, frame_type: FrameType::MetadataPush, flags: FLAG_METADATA, body })
    }

    /// Sends one more payload on an open channel.
    pub fn channel_send(&mut self, id: u32, p: &Payload) -> (r: Result<Vec<Frame>, RSocketError>)
        requires
            old(self).wf(),
            p.wf(),
            old(self).spec_mtu() == 0 ==> payload_body_wire(p@).len() + 6 < 0x1000000,
        ensures
            final(self).wf(),
            *final(self) == *old(self),
            r is Ok <==> !old(self).spec_closed() && (spec_find(
                old(self).streams_view(),
                id,
            ) matches Some(e) && e.kind == StreamKind::Channel),
            match r {
                Ok(frames) => fragments_ok(
                    frames.deep_view(),
                    id,
                    FrameType::Payload,
                    FLAG_NEXT | (if p@.metadata is Some {
                        FLAG_METADATA
                    } else {
                        0u16
                    }),
                    payload_body_wire(p@),
                    old(self).spec_mtu() as int,
                ),
                Err(e) => (old(self).spec_closed() && e == RSocketError::Cancelled) || (!old(
                    self,
                ).spec_closed() && e == RSocketError::ProtocolViolation),
            },
    {
        if self.closed {
            return Err(RSocketError::Cancelled);
        }
        let idx = self.find_index(id);
        match idx {
            Some(i) => {
                if !matches!(self.streams[i].kind, StreamKind::Channel) {
                    return Err(RSocketError::ProtocolViolation);
                }
                let (body, has_meta) = encode_payload_body(p);
                let flags: u16 = if has_meta {
                    FLAG_NEXT | FLAG_METADATA
                } else {
                    FLAG_NEXT
                };
                proof {
                    assert((FLAG_NEXT | FLAG_METADATA) < 0x400 && (FLAG_NEXT | FLAG_METADATA)
                        & FLAG_FOLLOW == 0 && FLAG_NEXT & FLAG_FOLLOW == 0 && FLAG_NEXT < 0x400
                        && FLAG_NEXT | 0u16 == FLAG_NEXT) by (bit_vector);
                    assert(self.streams_view()[i as int].id < 0x8000_0000);
                }
                Ok(fragment(id, FrameType::Payload, flags, body, self.mtu))
            },
            None => Err(RSocketError::ProtocolViolation),
        }
    }

    /// Signals that the local direction of a channel is exhausted: an empty
    /// payload frame carrying the complete flag. The stream stays open for
    /// the peer's remaining responses.
    pub fn channel_complete(&mut self, id: u32) -> (r: Result<Frame, RSocketError>)
        requires
            old(self).wf(),
        ensures
            final(self).wf(),
            *final(self) == *old(self),
            r is Ok <==> !old(self).spec_closed() && (spec_find(
                old(self).streams_view(),
                id,
            ) matches Some(e) && e.kind == StreamKind::Channel),
            match r {
                Ok(f) => {
                    &&& f@.stream_id == id
                    &&& f@.frame_type == FrameType::Payload
                    &&& f@.flags == FLAG_COMPLETE
                    &&& f@.body.len() == 0
                },
                Err(e) => (old(self).spec_closed() && e == RSocketError::Cancelled) || (!old(
                    self,
                ).spec_closed() && e == RSocketError::ProtocolViolation),
            },
    {
        if self.closed {
            return Err(RSocketError::Cancelled);
        }
        let idx = self.find_index(id);
        match idx {
            Some(i) => {
                if !matches!(self.streams[i].kind, StreamKind::Channel) {
                    return Err(RSocketError::ProtocolViolation);
                }
                proof {
                    assert(self.streams_view()[i as int].id < 0x8000_0000);
                }
                Ok(
                    Frame {
                        stream_id: id,
                        frame_type: FrameType::Payload,
                        flags: FLAG_COMPLETE,
                        body: Vec::new(),
                    },
                )
            },
            None => Err(RSocketError::ProtocolViolation),
        }
    }

    /// Drops local interest in a stream: its state is removed at once and a
    /// cancel frame for the peer comes back, even before any
    /// acknowledgement. No other stream's state changes.
    pub fn cancel(&mut self, id: u32) -> (r: Option<Frame>)
        requires
            old(self).wf(),
        ensures
            final(self).wf(),
            final(self).spec_mtu() == old(self).spec_mtu(),
            final(self).spec_closed() == old(self).spec_closed(),
            final(self).spec_alloc_count() == old(self).spec_alloc_count(),
            r is Some <==> spec_find(old(self).streams_view(), id) is Some,
            spec_find(final(self).streams_view(), id) is None,
            forall|other: u32|
                other != id ==> #[trigger] spec_find(final(self).streams_view(), other)
                    == spec_find(old(self).streams_view(), other),
            r matches Some(f) ==> f@ == (FrameView {
                stream_id: id,
                frame_type: FrameType::Cancel,
                flags: 0u16,
                body: Seq::<u8>::empty(),
            }),
    {
        let ghost old_views = self.streams_view();
        let idx = self.find_index(id);
        match idx {
            Some(i) => {
                proof {
                    assert(old_views[i as int].id < 0x8000_0000);
                }
                self.streams.remove(i);
                proof {
                    assert(self.streams_view() =~= old_views.remove(i as int));
                    assert forall|other: u32| true implies #[trigger] spec_find(
                        self.streams_view(),
                        other,
                    ) == (if other == id {
                        None
                    } else {
                        spec_find(old_views, other)
                    }) by {
                        lemma_find_remove(old_views, old(self).allocator.spec_next(), i as int, other);
                    }
                }
                let body: Vec<u8> = Vec::new();
                proof {
                    assert(body@ =~= Seq::<u8>::empty());
                }
                Some(Frame { stream_id: id, frame_type: FrameType::Cancel, flags: 0, body })
            },
            None => None,
        }
    }

    /// Closes the session: every still-open stream is resolved with a
    /// cancellation outcome, whose ids come back. Idempotent.
    pub fn close(&mut self) -> (r: Vec<u32>)
        requires
            old(self).wf(),
        ensures
            final(self).wf(),
            final(self).spec_closed(),
            final(self).streams_view().len() == 0,
            r@.len() == old(self).streams_view().len(),
            forall|i: int|
                0 <= i < r@.len() ==> #[trigger] r@[i] == old(self).streams_view()[i].id,
    {
        self.closed = true;
        let mut ids: Vec<u32> = Vec::new();
        let ghost old_views = self.streams_view();
        let mut i: usize = 0;
        while i < self.streams.len()
            invariant
                i <= old_views.len(),
                old_views == self.streams.deep_view(),
                old_views.len() == self.streams@.len(),
                ids@.len() == i,
                forall|k: int| 0 <= k < i ==> #[trigger] ids@[k] == old_views[k].id,
            decreases old_views.len() - i,
        {
            ids.push(self.streams[i].id);
            i = i + 1;
        }
        self.streams = Vec::new();
        proof {
            assert(self.streams_view() =~= Seq::<StreamEntryView>::empty());
        }
        ids
    }

    /// Dispatches one inbound frame: fragments accumulate per stream,
    /// terminal frames resolve or advance exactly the stream they name (no
    /// other stream's state changes), a connection-scoped error resolves
    /// everything, and a frame the current state does not allow is a
    /// protocol violation that changes nothing.
    #[verifier::rlimit(80)]
    pub fn on_frame(&mut self, f: &Frame) -> (r: Result<SessionEvent, RSocketError>)
        requires
            old(self).wf(),
        ensures
            final(self).wf(),
            final(self).spec_mtu() == old(self).spec_mtu(),
            final(self).spec_alloc_count() == old(self).spec_alloc_count(),
            f@.stream_id != 0 ==> final(self).spec_closed() == old(self).spec_closed(),
            f@.stream_id != 0 ==> forall|other: u32|
                other != f@.stream_id ==> #[trigger] spec_find(final(self).streams_view(), other)
                    == spec_find(old(self).streams_view(), other),
            r is Err <==> on_frame_rejects(old(self).streams_view(), f@),
            match r {
                Ok(ev) => match ev {
                    SessionEvent::Ignored => {
                        &&& f@.stream_id == 0
                        &&& f@.frame_type != FrameType::MetadataPush
                        &&& f@.frame_type != FrameType::Error
                        &&& final(self).streams_view() == old(self).streams_view()
                        &&& final(self).spec_closed() == old(self).spec_closed()
                    },
                    SessionEvent::Fragmented { stream_id } => {
                        &&& stream_id == f@.stream_id && f@.stream_id != 0
                        &&& f@.frame_type == FrameType::Payload && f@.flags & FLAG_FOLLOW
                            == FLAG_FOLLOW
                        &&& spec_find(old(self).streams_view(), stream_id) matches Some(e)
                            && spec_find(final(self).streams_view(), stream_id) == Some(
                            StreamEntryView {
                                id: stream_id,
                                kind: e.kind,
                                frag: inbound_body(e, f@),
                                frag_meta: inbound_meta(e, f@),
                                fragmented: true,
                            },
                        )
                    },
                    SessionEvent::Response { stream_id, payload } => {
                        &&& stream_id == f@.stream_id && f@.stream_id != 0
                        &&& f@.frame_type == FrameType::Payload
                        &&& f@.flags & FLAG_NEXT == FLAG_NEXT && f@.flags & FLAG_FOLLOW
                            != FLAG_FOLLOW
                        &&& spec_find(old(self).streams_view(), stream_id) matches Some(e)
                            && e.kind == StreamKind::Response && parse_payload_body(
                            inbound_body(e, f@),
                            inbound_meta(e, f@),
                        ) == Ok::<PayloadView, crate::error::EncodingIssue>(payload@)
                        &&& spec_find(final(self).streams_view(), stream_id) is None
                    },
                    SessionEvent::Next { stream_id, payload, complete } => {
                        &&& stream_id == f@.stream_id && f@.stream_id != 0
                        &&& f@.frame_type == FrameType::Payload
                        &&& f@.flags & FLAG_NEXT == FLAG_NEXT && f@.flags & FLAG_FOLLOW
                            != FLAG_FOLLOW
                        &&& complete == (f@.flags & FLAG_COMPLETE == FLAG_COMPLETE)
                        &&& spec_find(old(self).streams_view(), stream_id) matches Some(e) && (
                        e.kind == StreamKind::Stream || e.kind == StreamKind::Channel)
                            && parse_payload_body(inbound_body(e, f@), inbound_meta(e, f@)) == Ok::<
                            PayloadView,
                            crate::error::EncodingIssue,
                        >(payload@) && (if complete {
                            spec_find(final(self).streams_view(), stream_id) is None
                        } else {
                            spec_find(final(self).streams_view(), stream_id) == Some(
                                StreamEntryView {
                                    id: stream_id,
                                    kind: e.kind,
                                    frag: Seq::<u8>::empty(),
                                    frag_meta: false,
                                    fragmented: false,
                                },
                            )
                        })
                    },
                    SessionEvent::Complete { stream_id } => {
                        &&& stream_id == f@.stream_id && f@.stream_id != 0
                        &&& f@.frame_type == FrameType::Payload && f@.flags & FLAG_COMPLETE
                            == FLAG_COMPLETE && f@.flags & FLAG_NEXT != FLAG_NEXT
                        &&& spec_find(old(self).streams_view(), stream_id) is Some
                        &&& spec_find(final(self).streams_view(), stream_id) is None
                    },
                    SessionEvent::StreamError { stream_id, message } => {
                        &&& stream_id == f@.stream_id && f@.stream_id != 0
                        &&& f@.frame_type == FrameType::Error
                        &&& message@ == f@.body
                        &&& spec_find(old(self).streams_view(), stream_id) is Some
                        &&& spec_find(final(self).streams_view(), stream_id) is None
                    },
                    SessionEvent::Cancelled { stream_id } => {
                        &&& stream_id == f@.stream_id && f@.stream_id != 0
                        &&& f@.frame_type == FrameType::Cancel
                        &&& spec_find(old(self).streams_view(), stream_id) is Some
                        &&& spec_find(final(self).streams_view(), stream_id) is None
                    },
                    SessionEvent::MetadataPushed { payload } => {
                        &&& f@.stream_id == 0 && f@.frame_type == FrameType::MetadataPush
                        &&& parse_payload_body(f@.body, true) == Ok::<
                            PayloadView,
                            crate::error::EncodingIssue,
                        >(payload@)
                        &&& final(self).streams_view() == old(self).streams_view()
                    },
                    SessionEvent::ConnectionError { message } => {
                        &&& f@.stream_id == 0 && f@.frame_type == FrameType::Error
                        &&& message@ == f@.body
                        &&& final(self).streams_view().len() == 0
                        &&& final(self).spec_closed()
                    },
                },
                Err(e) => {
                    &&& final(self).streams_view() == old(self).streams_view()
                    &&& final(self).spec_closed() == old(self).spec_closed()
                    &&& e == on_frame_error(old(self).streams_view(), f@)
                },
            },
    {
        let ghost old_views = self.streams_view();
        if f.stream_id == 0 {
            match f.frame_type {
                FrameType::Error => {
                    self.streams = Vec::new();
                    self.closed = true;
                    let mut message: Vec<u8> = Vec::new();
                    push_bytes(&mut message, f.body.as_slice());
                    proof {
                        assert(self.streams_view() =~= Seq::<StreamEntryView>::empty());
                        assert(message@ =~= f@.body);
                    }
                    Ok(SessionEvent::ConnectionError { message })
                },
                FrameType::MetadataPush => {
                    match decode_payload_body(&f.body, true) {
                        Ok(payload) => Ok(SessionEvent::MetadataPushed { payload }),
                        Err(e) => Err(e),
                    }
                },
                _ => Ok(SessionEvent::Ignored),
            }
        } else {
            let idx = self.find_index(f.stream_id);
            let i = match idx {
                Some(i) => i,
                None => {
                    return Err(RSocketError::ProtocolViolation);
                },
            };
            let ghost e = old_views[i as int];
            match f.frame_type {
                FrameType::Payload => {
                    if f.has_flag(FLAG_FOLLOW) {
                        let mut entry = self.streams.remove(i);
                        if !entry.fragmented {
                            entry.frag = Vec::new();
                            entry.frag_meta = f.has_flag(FLAG_METADATA);
                            entry.fragmented = true;
                        }
                        push_bytes(&mut entry.frag, f.body.as_slice());
                        let ghost v = entry@;
                        self.streams.insert(i, entry);
                        proof {
                            assert(self.streams_view() =~= old_views.update(i as int, v));
                            assert(v.frag =~= inbound_body(e, f@));
                            assert(v == (StreamEntryView {
                                id: f@.stream_id,
                                kind: e.kind,
                                frag: inbound_body(e, f@),
                                frag_meta: inbound_meta(e, f@),
                                fragmented: true,
                            }));
                            assert forall|other: u32| true implies #[trigger] spec_find(
                                self.streams_view(),
                                other,
                            ) == (if other == f@.stream_id {
                                Some(v)
                            } else {
                                spec_find(old_views, other)
                            }) by {
                                lemma_find_update(
                                    old_views,
                                    old(self).allocator.spec_next(),
                                    i as int,
                                    v,
                                    other,
                                );
                            }
                        }
                        Ok(SessionEvent::Fragmented { stream_id: f.stream_id })
                    } else if f.has_flag(FLAG_NEXT) {
                        let entry = &self.streams[i];
                        let has_meta = if entry.fragmented {
                            entry.frag_meta
                        } else {
                            f.has_flag(FLAG_METADATA)
                        };
                        let full: Vec<u8>;
                        if entry.fragmented {
                            let mut acc: Vec<u8> = Vec::new();
                            push_bytes(&mut acc, entry.frag.as_slice());
                            push_bytes(&mut acc, f.body.as_slice());
                            full = acc;
                        } else {
                            let mut acc: Vec<u8> = Vec::new();
                            push_bytes(&mut acc, f.body.as_slice());
                            full = acc;
                        }
                        proof {
                            assert(full@ =~= inbound_body(e, f@));
                        }
                        let payload = match decode_payload_body(&full, has_meta) {
                            Ok(p) => p,
                            Err(err) => {
                                return Err(err);
                            },
                        };
                        let complete = f.has_flag(FLAG_COMPLETE);
                        let is_response = matches!(self.streams[i].kind, StreamKind::Response);
                        if is_response || complete {
                            self.streams.remove(i);
                            proof {
                                assert(self.streams_view() =~= old_views.remove(i as int));
                                assert forall|other: u32| true implies #[trigger] spec_find(
                                    self.streams_view(),
                                    other,
                                ) == (if other == f@.stream_id {
                                    None
                                } else {
                                    spec_find(old_views, other)
                                }) by {
                                    lemma_find_remove(
                                        old_views,
                                        old(self).allocator.spec_next(),
                                        i as int,
                                        other,
                                    );
                                }
                            }
                        } else {
                            let mut entry = self.streams.remove(i);
                            entry.frag = Vec::new();
                            entry.frag_meta = false;
                            entry.fragmented = false;
                            let ghost v = entry@;
                            self.streams.insert(i, entry);
                            proof {
                                assert(v.frag =~= Seq::<u8>::empty());
                                assert(self.streams_view() =~= old_views.update(i as int, v));
                                assert forall|other: u32| true implies #[trigger] spec_find(
                                    self.streams_view(),
                                    other,
                                ) == (if other == f@.stream_id {
                                    Some(v)
                                } else {
                                    spec_find(old_views, other)
                                }) by {
                                    lemma_find_update(
                                        old_views,
                                        old(self).allocator.spec_next(),
                                        i as int,
                                        v,
                                        other,
                                    );
                                }
                            }
                        }
                        if is_response {
                            Ok(SessionEvent::Response { stream_id: f.stream_id, payload })
                        } else {
                            Ok(SessionEvent::Next { stream_id: f.stream_id, payload, complete })
                        }
                    } else if f.has_flag(FLAG_COMPLETE) {
                        self.streams.remove(i);
                        proof {
                            assert(self.streams_view() =~= old_views.remove(i as int));
                            assert forall|other: u32| true implies #[trigger] spec_find(
                                self.streams_view(),
                                other,
                            ) == (if other == f@.stream_id {
                                None
                            } else {
                                spec_find(old_views, other)
                            }) by {
                                lemma_find_remove(
                                    old_views,
                                    old(self).allocator.spec_next(),
                                    i as int,
                                    other,
                                );
                            }
                        }
                        Ok(SessionEvent::Complete { stream_id: f.stream_id })
                    } else {
                        Err(RSocketError::ProtocolViolation)
                    }
                },
                FrameType::Error => {
                    self.streams.remove(i);
                    let mut message: Vec<u8> = Vec::new();
                    push_bytes(&mut message, f.body.as_slice());
                    proof {
                        assert(message@ =~= f@.body);
                        assert(self.streams_view() =~= old_views.remove(i as int));
                        assert forall|other: u32| true implies #[trigger] spec_find(
                            self.streams_view(),
                            other,
                        ) == (if other == f@.stream_id {
                            None
                        } else {
                            spec_find(old_views, other)
                        }) by {
                            lemma_find_remove(
                                old_views,
                                old(self).allocator.spec_next(),
                                i as int,
                                other,
                            );
                        }
                    }
                    Ok(SessionEvent::StreamError { stream_id: f.stream_id, message })
                },
                FrameType::Cancel => {
                    self.streams.remove(i);
                    proof {
                        assert(self.streams_view() =~= old_views.remove(i as int));
                        assert forall|other: u32| true implies #[trigger] spec_find(
                            self.streams_view(),
                            other,
                        ) == (if other == f@.stream_id {
                            None
                        } else {
                            spec_find(old_views, other)
                        }) by {
                            lemma_find_remove(
                                old_views,
                                old(self).allocator.spec_next(),
                                i as int,
                                other,
                            );
                        }
                    }
                    Ok(SessionEvent::Cancelled { stream_id: f.stream_id })
                },
                _ => Err(RSocketError::ProtocolViolation),
            }
        }
    }
}

} // verus!
