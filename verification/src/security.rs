//! Security metadata: a 7-bit authentication-type code (username/password,
//! bearer token, ...) and an ordered list of authentication tags. On the
//! wire the auth-type byte carries the reserved high bit set to mark the
//! metadata kind; the tags follow as one length-prefixed list.

use vstd::prelude::*;
use vstd::utf8::encode_utf8;
use bytes::BytesMut;
use crate::buffer::{bytes_get_u8, bytes_put_slice, bytes_view};
use crate::error::{EncodingIssue, RSocketError};
use crate::tags::{
    lemma_parse_tags_of_wire, parse_tags, read_tags, tags_wf, tags_wire, write_tags, MAX_TAG_LEN,
};

verus! {

/// Wire form of security metadata: the auth-type byte with the high marker
/// bit set, then the length-prefixed tag list.
pub open spec fn security_wire(auth_type: u8, tags: Seq<Seq<char>>) -> Seq<u8> {
    seq![auth_type | 0x80] + tags_wire(tags)
}

/// Authentication metadata carried inside a metadata blob.
#[derive(Debug, Clone)]
pub struct SecurityMetadata {
    auth_type: u8,
    authentication: Vec<String>,
}

/// Staged constructor for [`SecurityMetadata`].
pub struct SecurityMetadataBuilder {
    inner: SecurityMetadata,
}

impl SecurityMetadataBuilder {
    /// The authentication-type code gathered so far.
    pub closed spec fn spec_auth_type(&self) -> u8 {
        self.inner.auth_type
    }

    /// The tags gathered so far, each as its character sequence.
    pub closed spec fn spec_tags(&self) -> Seq<Seq<char>> {
        self.inner.spec_tags()
    }

    /// Validity of the gathered state.
    pub open spec fn wf(&self) -> bool {
        self.spec_auth_type() < 0x80 && tags_wf(self.spec_tags())
    }

    /// Username/password authentication: auth type 0, then the two tags.
    pub fn simple(self, username: &str, password: &str) -> (r: Self)
        requires
            self.wf(),
            encode_utf8(username@).len() <= MAX_TAG_LEN as int,
            encode_utf8(password@).len() <= MAX_TAG_LEN as int,
        ensures
            r.wf(),
            r.spec_auth_type() == 0,
            r.spec_tags() == self.spec_tags().push(username@).push(password@),
    {
        let mut this = self;
        this.inner.auth_type = 0;
        this.push(username.to_owned()).push(password.to_owned())
    }

    /// Bearer-token authentication: auth type 1, then the token tag.
    pub fn bearer(self, token: &str) -> (r: Self)
        requires
            self.wf(),
            encode_utf8(token@).len() <= MAX_TAG_LEN as int,
        ensures
            r.wf(),
            r.spec_auth_type() == 1,
            r.spec_tags() == self.spec_tags().push(token@),
    {
        let mut this = self;
        this.inner.auth_type = 1;
        this.push(token.to_owned())
    }

    /// Adds one authentication tag. A tag whose encoding exceeds the
    /// one-byte length prefix is excluded up front: tag length is validated
    /// at construction time, not at encode time.
    pub fn push(self, tag: String) -> (r: Self)
        requires
            self.wf(),
            encode_utf8(tag@).len() <= MAX_TAG_LEN as int,
        ensures
            r.wf(),
            r.spec_auth_type() == self.spec_auth_type(),
            r.spec_tags() == self.spec_tags().push(tag@),
    {
        let mut this = self;
        let ghost before = this.inner.authentication.deep_view();
        this.inner.authentication.push(tag);
        proof {
            assert(this.inner.authentication.deep_view() =~= before.push(tag@));
        }
        this
    }

    /// Finishes construction.
    pub fn build(self) -> (r: SecurityMetadata)
        ensures
            r.spec_auth_type() == self.spec_auth_type(),
            r.spec_tags() == self.spec_tags(),
            self.wf() ==> r.wf(),
    {
        self.inner
    }
}

impl SecurityMetadata {
    /// The authentication-type code.
    pub closed spec fn spec_auth_type(&self) -> u8 {
        self.auth_type
    }

    /// The tags, each as its character sequence.
    pub closed spec fn spec_tags(&self) -> Seq<Seq<char>> {
        self.authentication.deep_view()
    }

    /// A value the builder can produce: 7-bit auth type, every tag's
    /// encoding within one length byte.
    pub open spec fn wf(&self) -> bool {
        self.spec_auth_type() < 0x80 && tags_wf(self.spec_tags())
    }

    /// This value's wire form.
    pub open spec fn wire(&self) -> Seq<u8> {
        security_wire(self.spec_auth_type(), self.spec_tags())
    }

    /// Starts a builder with auth type 0 and no tags.
    pub fn builder() -> (r: SecurityMetadataBuilder)
        ensures
            r.wf(),
            r.spec_auth_type() == 0,
            r.spec_tags() == Seq::<Seq<char>>::empty(),
    {
        let r = SecurityMetadataBuilder {
            inner: SecurityMetadata { auth_type: 0, authentication: Vec::new() },
        };
        proof {
            assert(r.spec_tags() =~= Seq::<Seq<char>>::empty());
        }
        r
    }

    /// Decodes a value from the whole buffer: the auth-type byte (high
    /// marker bit masked off), then tags until the buffer is exhausted.
    /// Succeeds exactly when every declared tag length fits the remaining
    /// bytes and every tag is valid UTF-8; input is untrusted, so this
    /// re-validates what the builder validated.
    pub fn decode(bf: &mut BytesMut) -> (r: Result<SecurityMetadata, RSocketError>)
        requires
            bytes_view(*old(bf)).len() >= 1,
        ensures
            match r {
                Ok(m) => {
                    &&& m.wf()
                    &&& m.spec_auth_type() == bytes_view(*old(bf))[0] & 0x7F
                    &&& parse_tags(bytes_view(*old(bf)).skip(1)) == Ok::<
                        Seq<Seq<char>>,
                        EncodingIssue,
                    >(m.spec_tags())
                    &&& bytes_view(*final(bf)).len() == 0
                },
                Err(e) => {
                    &&& parse_tags(bytes_view(*old(bf)).skip(1)) is Err
                    &&& e == RSocketError::Encoding(
                        parse_tags(bytes_view(*old(bf)).skip(1))->Err_0,
                    )
                },
            },
    {
        let b0 = bytes_get_u8(bf);
        let auth_type = b0 & 0x7F;
        proof {
            assert(b0 & 0x7F < 0x80) by (bit_vector);
        }
        match read_tags(bf) {
            Ok(tags) => Ok(SecurityMetadata { auth_type, authentication: tags }),
            Err(e) => Err(e),
        }
    }

    /// Appends this value's wire form to `bf`.
    pub fn write_to(&self, bf: &mut BytesMut)
        requires
            self.wf(),
            bytes_view(*old(bf)).len() + self.wire().len() <= usize::MAX,
        ensures
            bytes_view(*final(bf)) == bytes_view(*old(bf)) + self.wire(),
    {
        let out = self.to_wire_vec();
        bytes_put_slice(bf, out.as_slice());
    }

    /// This value's wire form as a plain vector.
    pub fn to_wire_vec(&self) -> (r: Vec<u8>)
        requires
            self.wf(),
        ensures
            r@ == self.wire(),
    {
        let mut out: Vec<u8> = Vec::new();
        out.push(self.auth_type | 0x80);
        write_tags(&mut out, &self.authentication);
        proof {
            assert(out@ =~= self.wire());
        }
        out
    }

    /// The length of this value's wire form.
    pub fn len(&self) -> (r: usize)
        requires
            self.wf(),
        ensures
            r == self.wire().len(),
    {
        self.to_wire_vec().len()
    }
}

/// Round-trip law: the wire form of a well-formed security metadata value
/// decodes to the same auth type and the same tags.
pub proof fn lemma_security_round_trip(m: SecurityMetadata)
    requires
        m.wf(),
    ensures
        m.wire().len() >= 1,
        m.wire()[0] & 0x7F == m.spec_auth_type(),
        parse_tags(m.wire().skip(1)) == Ok::<Seq<Seq<char>>, EncodingIssue>(m.spec_tags()),
{
    let a = m.spec_auth_type();
    assert(m.wire()[0] == a | 0x80);
    assert(a < 0x80 ==> (a | 0x80) & 0x7F == a) by (bit_vector);
    assert(m.wire().skip(1) =~= tags_wire(m.spec_tags()));
    lemma_parse_tags_of_wire(m.spec_tags());
}

} // verus!
