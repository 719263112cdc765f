//! The binary frame codec: each frame travels as a 24-bit big-endian length
//! prefix covering the rest of the frame, a 31-bit stream id, a 6-bit frame
//! type and 10 bits of flags packed into one 16-bit word, then the
//! type-specific body. Oversized payload bodies are fragmented under a
//! negotiated mtu and reassembled on receipt.

use vstd::prelude::*;
use crate::composite::{lemma_u24_round_trip, u24_value, u24_wire};
use crate::error::{EncodingIssue, RSocketError};
use crate::tags::push_bytes;

verus! {

/// Flag bit: metadata is present in the body.
pub const FLAG_METADATA: u16 = 0x100;

/// Flag bit: more fragments of this payload follow.
pub const FLAG_FOLLOW: u16 = 0x80;

/// Flag bit: the stream completes.
pub const FLAG_COMPLETE: u16 = 0x40;

/// Flag bit: the frame carries a payload element.
pub const FLAG_NEXT: u16 = 0x20;

/// The frame types of the protocol.
#[derive(Clone, Copy, Debug, PartialEq, Eq, Structural)]
pub enum FrameType {
    /// Connection setup, on stream 0.
    Setup,
    /// Lease grant, on stream 0; reserved for extension.
    Lease,
    /// Connection keepalive, on stream 0.
    Keepalive,
    /// Opens a request expecting exactly one response.
    RequestResponse,
    /// Opens a fire-and-forget request.
    RequestFnf,
    /// Opens a request expecting a stream of responses.
    RequestStream,
    /// Opens a bidirectional channel.
    RequestChannel,
    /// Grants the peer more elements; reserved for extension.
    RequestN,
    /// Cancels the stream it names.
    Cancel,
    /// Carries one payload element of a stream.
    Payload,
    /// Resolves the stream it names (or the connection, on stream 0) with
    /// an error.
    Error,
    /// Connection-scoped metadata, on stream 0.
    MetadataPush,
}

/// The 6-bit code of each frame type.
pub open spec fn type_code(t: FrameType) -> u8 {
    match t {
        FrameType::Setup => 0x01,
        FrameType::Lease => 0x02,
        FrameType::Keepalive => 0x03,
        FrameType::RequestResponse => 0x04,
        FrameType::RequestFnf => 0x05,
        FrameType::RequestStream => 0x06,
        FrameType::RequestChannel => 0x07,
        FrameType::RequestN => 0x08,
        FrameType::Cancel => 0x09,
        FrameType::Payload => 0x0A,
        FrameType::Error => 0x0B,
        FrameType::MetadataPush => 0x0C,
    }
}

/// The frame type a 6-bit code names, if any.
pub open spec fn type_of_code(c: u8) -> Option<FrameType> {
    if c == 0x01 {
        Some(FrameType::Setup)
    } else if c == 0x02 {
        Some(FrameType::Lease)
    } else if c == 0x03 {
        Some(FrameType::Keepalive)
    } else if c == 0x04 {
        Some(FrameType::RequestResponse)
    } else if c == 0x05 {
        Some(FrameType::RequestFnf)
    } else if c == 0x06 {
        Some(FrameType::RequestStream)
    } else if c == 0x07 {
        Some(FrameType::RequestChannel)
    } else if c == 0x08 {
        Some(FrameType::RequestN)
    } else if c == 0x09 {
        Some(FrameType::Cancel)
    } else if c == 0x0A {
        Some(FrameType::Payload)
    } else if c == 0x0B {
        Some(FrameType::Error)
    } else if c == 0x0C {
        Some(FrameType::MetadataPush)
    } else {
        None
    }
}

/// Executable form of [`type_of_code`].
#[verifier::when_used_as_spec(type_of_code)]
pub fn frame_type_of_code(c: u8) -> (r: Option<FrameType>)
    ensures
        r == type_of_code(c),
{
    if c == 0x01 {
        Some(FrameType::Setup)
    } else if c == 0x02 {
        Some(FrameType::Lease)
    } else if c == 0x03 {
        Some(FrameType::Keepalive)
    } else if c == 0x04 {
        Some(FrameType::RequestResponse)
    } else if c == 0x05 {
        Some(FrameType::RequestFnf)
    } else if c == 0x06 {
        Some(FrameType::RequestStream)
    } else if c == 0x07 {
        Some(FrameType::RequestChannel)
    } else if c == 0x08 {
        Some(FrameType::RequestN)
    } else if c == 0x09 {
        Some(FrameType::Cancel)
    } else if c == 0x0A {
        Some(FrameType::Payload)
    } else if c == 0x0B {
        Some(FrameType::Error)
    } else if c == 0x0C {
        Some(FrameType::MetadataPush)
    } else {
        None
    }
}

/// Executable form of [`type_code`].
#[verifier::when_used_as_spec(type_code)]
pub fn frame_type_code(t: FrameType) -> (r: u8)
    ensures
        r == type_code(t),
{
    match t {
        FrameType::Setup => 0x01,
        FrameType::Lease => 0x02,
        FrameType::Keepalive => 0x03,
        FrameType::RequestResponse => 0x04,
        FrameType::RequestFnf => 0x05,
        FrameType::RequestStream => 0x06,
        FrameType::RequestChannel => 0x07,
        FrameType::RequestN => 0x08,
        FrameType::Cancel => 0x09,
        FrameType::Payload => 0x0A,
        FrameType::Error => 0x0B,
        FrameType::MetadataPush => 0x0C,
    }
}

/// One frame: a 31-bit stream id, a frame type, 10 bits of flags, and the
/// type-specific body bytes.
#[derive(Debug, Clone)]
pub struct Frame {
    pub stream_id: u32,
    pub frame_type: FrameType,
    pub flags: u16,
    pub body: Vec<u8>,
}

/// Spec view of one frame.
pub struct FrameView {
    pub stream_id: u32,
    pub frame_type: FrameType,
    pub flags: u16,
    pub body: Seq<u8>,
}

impl View for Frame {
    type V = FrameView;

    open spec fn view(&self) -> FrameView {
        FrameView {
            stream_id: self.stream_id,
            frame_type: self.frame_type,
            flags: self.flags,
            body: self.body@,
        }
    }
}

impl DeepView for Frame {
    type V = FrameView;

    open spec fn deep_view(&self) -> FrameView {
        self.view()
    }
}

impl FrameView {
    /// Validity: the stream id fits 31 bits, the flags fit 10 bits, and the
    /// body plus the 6 header bytes fit the 24-bit length prefix.
    pub open spec fn wf(&self) -> bool {
        &&& self.stream_id < 0x8000_0000
        &&& self.flags < 0x400
        &&& self.body.len() + 6 < 0x1000000
    }
}

impl Frame {
    /// Validity of this frame.
    pub open spec fn wf(&self) -> bool {
        self@.wf()
    }

    /// Makes a frame; inputs outside the header fields' widths are
    /// excluded.
    pub fn new(stream_id: u32, frame_type: FrameType, flags: u16, body: Vec<u8>) -> (r: Frame)
        requires
            stream_id < 0x8000_0000,
            flags < 0x400,
            body@.len() + 6 < 0x1000000,
        ensures
            r@ == (FrameView { stream_id, frame_type, flags, body: body@ }),
            r.wf(),
    {
        Frame { stream_id, frame_type, flags, body }
    }

    /// True when the given flag bits are all set.
    pub fn has_flag(&self, flag: u16) -> (r: bool)
        ensures
            r == (self.flags & flag == flag),
    {
        self.flags & flag == flag
    }
}

/// The big-endian wire form of a 32-bit value.
pub open spec fn u32_wire(n: u32) -> Seq<u8> {
    seq![(n >> 24) as u8, (n >> 16) as u8, (n >> 8) as u8, n as u8]
}

/// The value four big-endian bytes carry.
pub open spec fn u32_value(b0: u8, b1: u8, b2: u8, b3: u8) -> u32 {
    ((b0 as u32) << 24) | ((b1 as u32) << 16) | ((b2 as u32) << 8) | (b3 as u32)
}

/// The 16-bit word packing a frame's type code and flags.
pub open spec fn type_flags_word(t: FrameType, flags: u16) -> u16 {
    ((type_code(t) as u16) << 10) | flags
}

/// Wire form of one frame, length prefix included.
pub open spec fn frame_wire(f: FrameView) -> Seq<u8> {
    u24_wire((f.body.len() + 6) as u32) + u32_wire(f.stream_id) + seq![
        (type_flags_word(f.frame_type, f.flags) >> 8) as u8,
        type_flags_word(f.frame_type, f.flags) as u8,
    ] + f.body
}

/// What decoding the front of `b` as one frame yields: a frame and the
/// bytes it consumed, nothing when more bytes are needed, or an error for a
/// malformed length prefix or an unknown frame type.
pub open spec fn parse_frame(b: Seq<u8>) -> Result<Option<(FrameView, int)>, EncodingIssue> {
    if b.len() < 3 {
        Ok(None)
    } else {
        let n = u24_value(b[0], b[1], b[2]) as int;
        if n < 6 {
            Err(EncodingIssue::Incomplete)
        } else if b.len() < 3 + n {
            Ok(None)
        } else {
            let sid = u32_value(b[3], b[4], b[5], b[6]) & 0x7FFF_FFFF;
            let word = ((b[7] as u16) << 8) | (b[8] as u16);
            let code = (word >> 10) as u8;
            let flags = word & 0x3FF;
            match type_of_code(code) {
                None => Err(EncodingIssue::UnknownFrameType),
                Some(t) => Ok(
                    Some(
                        (
                            FrameView { stream_id: sid, frame_type: t, flags, body: b.subrange(9, 3 + n) },
                            3 + n,
                        ),
                    ),
                ),
            }
        }
    }
}

/// Encodes one frame into its wire form.
pub fn encode_frame(f: &Frame) -> (r: Vec<u8>)
    requires
        f.wf(),
    ensures
        r@ == frame_wire(f@),
        r@.len() == f@.body.len() + 9,
    {
    let mut out: Vec<u8> = Vec::new();
    let n32 = (f.body.len() + 6) as u32;
    out.push((n32 >> 16) as u8);
    out.push((n32 >> 8) as u8);
    out.push(n32 as u8);
    let sid = f.stream_id;
    out.push((sid >> 24) as u8);
    out.push((sid >> 16) as u8);
    out.push((sid >> 8) as u8);
    out.push(sid as u8);
    let word = ((frame_type_code(f.frame_type) as u16) << 10) | f.flags;
    out.push((word >> 8) as u8);
    out.push(word as u8);
    push_bytes(&mut out, f.body.as_slice());
    proof {
        assert(out@ =~= frame_wire(f@));
    }
    out
}

/// Decodes one frame from the front of `buf`, returning it with the number
/// of bytes consumed, or nothing when the buffer does not yet hold a whole
/// frame. A length prefix too small for a header and an unknown frame type
/// are decode errors, fatal to the connection.
#[verifier::loop_isolation(false)]
pub fn decode_frame(buf: &Vec<u8>) -> (r: Result<Option<(Frame, usize)>, RSocketError>)
    ensures
        match r {
            Ok(Some((f, consumed))) => {
                &&& parse_frame(buf@) matches Ok(Some((fv, c))) && f@ == fv && consumed == c
                &&& f.wf()
            },
            Ok(None) => parse_frame(buf@) matches Ok(None),
            Err(e) => {
                &&& parse_frame(buf@) is Err
                &&& e == RSocketError::Encoding(parse_frame(buf@)->Err_0)
            },
        },
{
    if buf.len() < 3 {
        return Ok(None);
    }
    let l0 = buf[0];
    let l1 = buf[1];
    let l2 = buf[2];
    let n = (((l0 as u32) << 16) | ((l1 as u32) << 8) | (l2 as u32)) as usize;
    proof {
        assert(u24_value(l0, l1, l2) < 0x1000000) by (bit_vector);
    }
    if n < 6 {
        return Err(RSocketError::Encoding(EncodingIssue::Incomplete));
    }
    if buf.len() - 3 < n {
        return Ok(None);
    }
    let s0 = buf[3];
    let s1 = buf[4];
    let s2 = buf[5];
    let s3 = buf[6];
    let sid = (((s0 as u32) << 24) | ((s1 as u32) << 16) | ((s2 as u32) << 8) | (s3 as u32))
        & 0x7FFF_FFFF;
    let w0 = buf[7];
    let w1 = buf[8];
    let word = ((w0 as u16) << 8) | (w1 as u16);
    let code = (word >> 10) as u8;
    let flags = word & 0x3FF;
    proof {
        assert((((w0 as u16) << 8) | (w1 as u16)) & 0x3FF < 0x400) by (bit_vector);
        assert((((s0 as u32) << 24) | ((s1 as u32) << 16) | ((s2 as u32) << 8) | (s3 as u32))
            & 0x7FFF_FFFF < 0x8000_0000) by (bit_vector);
    }
    match frame_type_of_code(code) {
        None => Err(RSocketError::Encoding(EncodingIssue::UnknownFrameType)),
        Some(t) => {
            let mut body: Vec<u8> = Vec::new();
            let mut i: usize = 9;
            while i < n + 3
                invariant
                    9 <= i <= n + 3,
                    n + 3 <= buf@.len(),
                    body@ == buf@.subrange(9, i as int),
                decreases n + 3 - i,
            {
                body.push(buf[i]);
                proof {
                    assert(body@ =~= buf@.subrange(9, i as int + 1));
                }
                i = i + 1;
            }
            let f = Frame { stream_id: sid, frame_type: t, flags, body };
            proof {
                assert(f@.body.len() + 6 < 0x1000000);
            }
            Ok(Some((f, n + 3)))
        },
    }
}

/// A 32-bit value survives its wire form.
pub proof fn lemma_u32_round_trip(n: u32)
    ensures
        u32_value((n >> 24) as u8, (n >> 16) as u8, (n >> 8) as u8, n as u8) == n,
{
    assert(((((n >> 24) as u8) as u32) << 24) | ((((n >> 16) as u8) as u32) << 16) | ((((n
        >> 8) as u8) as u32) << 8) | ((n as u8) as u32) == n) by (bit_vector);
}

/// Round-trip law for the frame codec: the wire form of a well-formed
/// frame, however many bytes follow it, decodes to the same frame and
/// consumes exactly its wire form.
pub proof fn lemma_frame_round_trip(f: FrameView, rest: Seq<u8>)
    requires
        f.wf(),
    ensures
        parse_frame(frame_wire(f) + rest) == Ok::<Option<(FrameView, int)>, EncodingIssue>(
            Some((f, frame_wire(f).len() as int)),
        ),
{
    let b = frame_wire(f) + rest;
    let n32 = (f.body.len() + 6) as u32;
    assert(b[0] == (n32 >> 16) as u8 && b[1] == (n32 >> 8) as u8 && b[2] == n32 as u8);
    lemma_u24_round_trip(n32);
    let n = n32 as int;
    assert(b.len() >= 3 + n);
    let sid = f.stream_id;
    assert(b[3] == (sid >> 24) as u8 && b[4] == (sid >> 16) as u8 && b[5] == (sid >> 8) as u8
        && b[6] == sid as u8);
    lemma_u32_round_trip(sid);
    assert(sid < 0x8000_0000 ==> sid & 0x7FFF_FFFF == sid) by (bit_vector);
    let word = type_flags_word(f.frame_type, f.flags);
    assert(b[7] == (word >> 8) as u8 && b[8] == word as u8);
    assert((((word >> 8) as u8 as u16) << 8) | (word as u8 as u16) == word) by (bit_vector);
    let code = type_code(f.frame_type);
    let flags = f.flags;
    assert(code < 0x40 && flags < 0x400 ==> ((((code as u16) << 10) | flags) >> 10) as u8 == code
        && (((code as u16) << 10) | flags) & 0x3FF == flags) by (bit_vector);
    assert(type_of_code(type_code(f.frame_type)) == Some(f.frame_type));
    assert(b.subrange(9, 3 + n) =~= f.body);
}

} // verus!
