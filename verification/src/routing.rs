//! Routing metadata: an ordered list of route tags, each a UTF-8 string of
//! at most 255 bytes, carried on the wire as one length-prefixed tag list.

use vstd::prelude::*;
use vstd::utf8::encode_utf8;
use bytes::BytesMut;
use crate::buffer::{bytes_put_slice, bytes_view};
use crate::error::{EncodingIssue, RSocketError};
use crate::tags::{
    lemma_parse_tags_of_wire, parse_tags, read_tags, tags_wf, tags_wire, write_tags, MAX_TAG_LEN,
};

verus! {

/// An ordered list of route tags.
#[derive(Debug, Clone)]
pub struct RoutingMetadata {
    routing: Vec<String>,
}

/// Staged constructor for [`RoutingMetadata`].
pub struct RoutingMetadataBuilder {
    inner: RoutingMetadata,
}

impl RoutingMetadataBuilder {
    /// The route tags gathered so far.
    pub closed spec fn spec_tags(&self) -> Seq<Seq<char>> {
        self.inner.spec_tags()
    }

    /// Validity of the gathered state.
    pub open spec fn wf(&self) -> bool {
        tags_wf(self.spec_tags())
    }

    /// Adds one route tag given as a string slice.
    pub fn push_str(self, route: &str) -> (r: Self)
        requires
            self.wf(),
            encode_utf8(route@).len() <= MAX_TAG_LEN as int,
        ensures
            r.wf(),
            r.spec_tags() == self.spec_tags().push(route@),
    {
        self.push(route.to_owned())
    }

    /// Adds one route tag. A tag whose encoding exceeds the one-byte length
    /// prefix is excluded up front: tag length is validated at construction
    /// time, not at encode time.
    pub fn push(self, route: String) -> (r: Self)
        requires
            self.wf(),
            encode_utf8(route@).len() <= MAX_TAG_LEN as int,
        ensures
            r.wf(),
            r.spec_tags() == self.spec_tags().push(route@),
    {
        let mut this = self;
        let ghost before = this.inner.routing.deep_view();
        this.inner.routing.push(route);
        proof {
            assert(this.inner.routing.deep_view() =~= before.push(route@));
        }
        this
    }

    /// Finishes construction.
    pub fn build(self) -> (r: RoutingMetadata)
        ensures
            r.spec_tags() == self.spec_tags(),
            self.wf() ==> r.wf(),
    {
        self.inner
    }
}

impl RoutingMetadata {
    /// The route tags, each as its character sequence.
    pub closed spec fn spec_tags(&self) -> Seq<Seq<char>> {
        self.routing.deep_view()
    }

    /// A value the builder can produce: every tag's encoding within one
    /// length byte.
    pub open spec fn wf(&self) -> bool {
        tags_wf(self.spec_tags())
    }

    /// This value's wire form.
    pub open spec fn wire(&self) -> Seq<u8> {
        tags_wire(self.spec_tags())
    }

    /// Starts a builder with no tags.
    pub fn builder() -> (r: RoutingMetadataBuilder)
        ensures
            r.wf(),
            r.spec_tags() == Seq::<Seq<char>>::empty(),
    {
        let r = RoutingMetadataBuilder { inner: RoutingMetadata { routing: Vec::new() } };
        proof {
            assert(r.spec_tags() =~= Seq::<Seq<char>>::empty());
        }
        r
    }

    /// Decodes a value from the whole buffer: tags until it is exhausted.
    /// Succeeds exactly when every declared tag length fits the remaining
    /// bytes and every tag is valid UTF-8.
    pub fn decode(bf: &mut BytesMut) -> (r: Result<RoutingMetadata, RSocketError>)
        ensures
            match r {
                Ok(m) => {
                    &&& m.wf()
                    &&& parse_tags(bytes_view(*old(bf))) == Ok::<Seq<Seq<char>>, EncodingIssue>(
                        m.spec_tags(),
                    )
                    &&& bytes_view(*final(bf)).len() == 0
                },
                Err(e) => {
                    &&& parse_tags(bytes_view(*old(bf))) is Err
                    &&& e == RSocketError::Encoding(parse_tags(bytes_view(*old(bf)))->Err_0)
                },
            },
    {
        match read_tags(bf) {
            Ok(tags) => Ok(RoutingMetadata { routing: tags }),
            Err(e) => Err(e),
        }
    }

    /// Appends this value's wire form to `bf`.
    pub fn write_to(&self, bf: &mut BytesMut)
        requires
            self.wf(),
            bytes_view(*old(bf)).len() + self.wire().len() <= usize::MAX,
        ensures
            bytes_view(*final(bf)) == bytes_view(*old(bf)) + self.wire(),
    {
        let out = self.to_wire_vec();
        bytes_put_slice(bf, out.as_slice());
    }

    /// This value's wire form as a plain vector.
    pub fn to_wire_vec(&self) -> (r: Vec<u8>)
        requires
            self.wf(),
        ensures
            r@ == self.wire(),
    {
        let mut out: Vec<u8> = Vec::new();
        write_tags(&mut out, &self.routing);
        proof {
            assert(out@ =~= self.wire());
        }
        out
    }

    /// The length of this value's wire form.
    pub fn len(&self) -> (r: usize)
        requires
            self.wf(),
        ensures
            r == self.wire().len(),
    {
        self.to_wire_vec().len()
    }
}

/// Round-trip law: the wire form of a well-formed routing metadata value
/// decodes to the same tag list.
pub proof fn lemma_routing_round_trip(m: RoutingMetadata)
    requires
        m.wf(),
    ensures
        parse_tags(m.wire()) == Ok::<Seq<Seq<char>>, EncodingIssue>(m.spec_tags()),
{
    lemma_parse_tags_of_wire(m.spec_tags());
}

} // verus!
