//! Application payloads: an optional data part and an optional metadata
//! part. Absence is distinct from empty. Inside a frame body the metadata
//! part, when present, travels first under a 24-bit length prefix; the data
//! part is the remainder.

use vstd::prelude::*;
use vstd::utf8::encode_utf8;
use crate::composite::{lemma_u24_round_trip, u24_value, u24_wire, MAX_ENTRY_LEN};
use crate::error::EncodingIssue;
use crate::error::RSocketError;
use crate::tags::{push_bytes, vec_range};

verus! {

/// Spec view of a payload.
pub struct PayloadView {
    pub data: Option<Seq<u8>>,
    pub metadata: Option<Seq<u8>>,
}

/// One unit of application data exchanged over a stream.
#[derive(Debug, Clone)]
pub struct Payload {
    data: Option<Vec<u8>>,
    metadata: Option<Vec<u8>>,
}

impl View for Payload {
    type V = PayloadView;

    closed spec fn view(&self) -> PayloadView {
        PayloadView {
            data: match self.data {
                Some(d) => Some(d@),
                None => None,
            },
            metadata: match self.metadata {
                Some(m) => Some(m@),
                None => None,
            },
        }
    }
}

/// Staged constructor for [`Payload`].
pub struct PayloadBuilder {
    inner: Payload,
}

impl PayloadView {
    /// Validity: each present part fits the 24-bit length fields the frame
    /// layer uses.
    pub open spec fn wf(&self) -> bool {
        &&& (self.data matches Some(d) ==> d.len() < MAX_ENTRY_LEN as int)
        &&& (self.metadata matches Some(m) ==> m.len() < MAX_ENTRY_LEN as int)
    }
}

impl PayloadBuilder {
    /// The payload gathered so far.
    pub closed spec fn spec_payload(&self) -> PayloadView {
        self.inner@
    }

    /// Sets the data part to the UTF-8 bytes of `s`.
    pub fn set_data_utf8(self, s: &str) -> (r: Self)
        requires
            encode_utf8(s@).len() < MAX_ENTRY_LEN as int,
        ensures
            r.spec_payload() == (PayloadView {
                data: Some(encode_utf8(s@)),
                metadata: self.spec_payload().metadata,
            }),
    {
        let mut this = self;
        let mut v: Vec<u8> = Vec::new();
        push_bytes(&mut v, s.as_bytes());
        proof {
            assert(v@ =~= encode_utf8(s@));
        }
        this.inner.data = Some(v);
        this
    }

    /// Sets the metadata part to the UTF-8 bytes of `s`.
    pub fn set_metadata_utf8(self, s: &str) -> (r: Self)
        requires
            encode_utf8(s@).len() < MAX_ENTRY_LEN as int,
        ensures
            r.spec_payload() == (PayloadView {
                data: self.spec_payload().data,
                metadata: Some(encode_utf8(s@)),
            }),
    {
        let mut this = self;
        let mut v: Vec<u8> = Vec::new();
        push_bytes(&mut v, s.as_bytes());
        proof {
            assert(v@ =~= encode_utf8(s@));
        }
        this.inner.metadata = Some(v);
        this
    }

    /// Sets the data part.
    pub fn set_data(self, data: Vec<u8>) -> (r: Self)
        ensures
            r.spec_payload() == (PayloadView {
                data: Some(data@),
                metadata: self.spec_payload().metadata,
            }),
    {
        let mut this = self;
        this.inner.data = Some(data);
        this
    }

    /// Sets the metadata part.
    pub fn set_metadata(self, metadata: Vec<u8>) -> (r: Self)
        ensures
            r.spec_payload() == (PayloadView {
                data: self.spec_payload().data,
                metadata: Some(metadata@),
            }),
    {
        let mut this = self;
        this.inner.metadata = Some(metadata);
        this
    }

    /// Finishes construction.
    pub fn build(self) -> (r: Payload)
        ensures
            r@ == self.spec_payload(),
    {
        self.inner
    }
}

impl Payload {
    /// Validity of this payload.
    pub open spec fn wf(&self) -> bool {
        self@.wf()
    }

    /// Starts a builder with both parts absent.
    pub fn builder() -> (r: PayloadBuilder)
        ensures
            r.spec_payload() == (PayloadView { data: None, metadata: None }),
    {
        PayloadBuilder { inner: Payload { data: None, metadata: None } }
    }

    /// The data part.
    pub fn data(&self) -> (r: &Option<Vec<u8>>)
        ensures
            match self@.data {
                Some(d) => r matches Some(v) && v@ == d,
                None => r is None,
            },
    {
        &self.data
    }

    /// The metadata part.
    pub fn metadata(&self) -> (r: &Option<Vec<u8>>)
        ensures
            match self@.metadata {
                Some(m) => r matches Some(v) && v@ == m,
                None => r is None,
            },
    {
        &self.metadata
    }
}

/// Wire form of a payload inside a frame body: the metadata part, when
/// present, under a 24-bit length prefix, then the data part.
pub open spec fn payload_body_wire(p: PayloadView) -> Seq<u8> {
    let data = match p.data {
        Some(d) => d,
        None => Seq::<u8>::empty(),
    };
    match p.metadata {
        Some(m) => u24_wire(m.len() as u32) + m + data,
        None => data,
    }
}

/// What decoding a frame body as a payload yields, given the frame's
/// metadata flag. A data part that decodes empty is reported absent: the
/// wire cannot tell an absent data part from an empty one.
pub open spec fn parse_payload_body(b: Seq<u8>, has_metadata: bool) -> Result<
    PayloadView,
    EncodingIssue,
> {
    if !has_metadata {
        Ok(
            PayloadView {
                data: if b.len() == 0 {
                    None
                } else {
                    Some(b)
                },
                metadata: None,
            },
        )
    } else if b.len() < 3 {
        Err(EncodingIssue::Incomplete)
    } else {
        let n = u24_value(b[0], b[1], b[2]) as int;
        if b.len() < 3 + n {
            Err(EncodingIssue::Incomplete)
        } else {
            Ok(
                PayloadView {
                    data: if b.len() == 3 + n {
                        None
                    } else {
                        Some(b.skip(3 + n))
                    },
                    metadata: Some(b.subrange(3, 3 + n)),
                },
            )
        }
    }
}

/// Encodes this payload as a frame body; the second result is the value of
/// the frame's metadata flag.
pub fn encode_payload_body(p: &Payload) -> (r: (Vec<u8>, bool))
    requires
        p.wf(),
    ensures
        r.0@ == payload_body_wire(p@),
        r.1 == (p@.metadata is Some),
{
    let mut out: Vec<u8> = Vec::new();
    let has_metadata: bool;
    match &p.metadata {
        Some(m) => {
            has_metadata = true;
            let n32 = m.len() as u32;
            out.push((n32 >> 16) as u8);
            out.push((n32 >> 8) as u8);
            out.push(n32 as u8);
            push_bytes(&mut out, m.as_slice());
        },
        None => {
            has_metadata = false;
        },
    }
    match &p.data {
        Some(d) => {
            push_bytes(&mut out, d.as_slice());
        },
        None => {},
    }
    proof {
        assert(out@ =~= payload_body_wire(p@));
    }
    (out, has_metadata)
}

/// Decodes a frame body into a payload, given the frame's metadata flag.
/// Fails exactly when the metadata length prefix is truncated or declares
/// more bytes than remain.
pub fn decode_payload_body(b: &Vec<u8>, has_metadata: bool) -> (r: Result<Payload, RSocketError>)
    ensures
        match r {
            Ok(p) => parse_payload_body(b@, has_metadata) == Ok::<PayloadView, EncodingIssue>(
                p@,
            ),
            Err(e) => parse_payload_body(b@, has_metadata) matches Err(issue) && e
                == RSocketError::Encoding(issue),
        },
{
    if !has_metadata {
        if b.len() == 0 {
            Ok(Payload { data: None, metadata: None })
        } else {
            let data = vec_range(b, 0, b.len());
            proof {
                assert(data@ =~= b@);
            }
            Ok(Payload { data: Some(data), metadata: None })
        }
    } else {
        if b.len() < 3 {
            return Err(RSocketError::Encoding(EncodingIssue::Incomplete));
        }
        let l0 = b[0];
        let l1 = b[1];
        let l2 = b[2];
        let n = (((l0 as u32) << 16) | ((l1 as u32) << 8) | (l2 as u32)) as usize;
        proof {
            assert(u24_value(l0, l1, l2) < 0x1000000) by (bit_vector);
        }
        if b.len() - 3 < n {
            return Err(RSocketError::Encoding(EncodingIssue::Incomplete));
        }
        let metadata = vec_range(b, 3, 3 + n);
        if b.len() == 3 + n {
            Ok(Payload { data: None, metadata: Some(metadata) })
        } else {
            let data = vec_range(b, 3 + n, b.len());
            proof {
                assert(data@ =~= b@.skip(3 + n as int));
            }
            Ok(Payload { data: Some(data), metadata: Some(metadata) })
        }
    }
}

/// Round-trip law for the payload body codec: for a well-formed payload
/// whose data part is not present-but-empty (the wire cannot represent that
/// distinctly), decoding the encoding under the same metadata flag
/// reproduces the payload.
pub proof fn lemma_payload_body_round_trip(p: PayloadView)
    requires
        p.wf(),
        p.data != Some(Seq::<u8>::empty()),
    ensures
        parse_payload_body(payload_body_wire(p), p.metadata is Some) == Ok::<
            PayloadView,
            EncodingIssue,
        >(p),
{
    let b = payload_body_wire(p);
    let data = match p.data {
        Some(d) => d,
        None => Seq::<u8>::empty(),
    };
    match p.metadata {
        Some(m) => {
            let n32 = m.len() as u32;
            assert(b[0] == (n32 >> 16) as u8 && b[1] == (n32 >> 8) as u8 && b[2] == n32 as u8);
            lemma_u24_round_trip(n32);
            let n = m.len() as int;
            assert(b.len() == 3 + n + data.len());
            assert(b.subrange(3, 3 + n) =~= m);
            assert(b.skip(3 + n) =~= data);
            if p.data is Some && data.len() == 0 {
                assert(data =~= Seq::<u8>::empty());
            }
        },
        None => {
            assert(b =~= data);
            if p.data is Some && data.len() == 0 {
                assert(data =~= Seq::<u8>::empty());
            }
        },
    }
}

} // verus!
