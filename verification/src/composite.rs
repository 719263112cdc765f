//! Composite metadata: an ordered sequence of entries, each a MIME
//! descriptor, a 24-bit big-endian length, and that many raw bytes, so one
//! metadata blob can multiplex routing, security and application metadata.
//! Entries concatenate with no padding; decoding consumes exactly each
//! declared length and fails if fewer bytes remain.

use vstd::prelude::*;
use vstd::utf8::{decode_utf8, encode_utf8, valid_utf8};
use vstd::utf8::{decode_utf8_encode_utf8, encode_utf8_decode_utf8, encode_utf8_valid_utf8};
use bytes::BytesMut;
use crate::buffer::{
    bytes_get_u8, bytes_len, bytes_put_slice, bytes_split_to_vec, bytes_view, string_from_utf8,
};
use crate::error::{EncodingIssue, RSocketError};
use crate::mime::{MimeType, MimeTypeView};
use crate::tags::push_bytes;

verus! {

/// The largest payload an entry's 24-bit length field can declare, plus one.
pub const MAX_ENTRY_LEN: usize = 0x1000000;

/// The 24-bit big-endian wire form of `n`.
pub open spec fn u24_wire(n: u32) -> Seq<u8> {
    seq![(n >> 16) as u8, (n >> 8) as u8, n as u8]
}

/// The value three big-endian bytes carry.
pub open spec fn u24_value(b0: u8, b1: u8, b2: u8) -> u32 {
    ((b0 as u32) << 16) | ((b1 as u32) << 8) | (b2 as u32)
}

/// A 24-bit value survives its wire form.
pub proof fn lemma_u24_round_trip(n: u32)
    requires
        n < MAX_ENTRY_LEN as u32,
    ensures
        u24_value((n >> 16) as u8, (n >> 8) as u8, n as u8) == n,
{
    assert(n < 0x1000000 ==> ((((n >> 16) as u8) as u32) << 16) | ((((n >> 8) as u8) as u32) << 8)
        | ((n as u8) as u32) == n) by (bit_vector);
}

/// Spec view of one entry.
pub struct CompositeEntryView {
    pub mime: MimeTypeView,
    pub data: Seq<u8>,
}

impl CompositeEntryView {
    /// Validity: the descriptor is valid and the payload fits the 24-bit
    /// length field.
    pub open spec fn wf(&self) -> bool {
        self.mime.wf() && self.data.len() < MAX_ENTRY_LEN as int
    }
}

/// Wire form of a MIME descriptor: a well-known code with the high bit set,
/// or the explicit string's length minus one, then its bytes.
pub open spec fn mime_wire(m: MimeTypeView) -> Seq<u8> {
    match m {
        MimeTypeView::WellKnown(c) => seq![c | 0x80],
        MimeTypeView::Normal(s) => seq![(encode_utf8(s).len() - 1) as u8] + encode_utf8(s),
    }
}

/// Wire form of one entry.
pub open spec fn entry_wire(e: CompositeEntryView) -> Seq<u8> {
    mime_wire(e.mime) + u24_wire(e.data.len() as u32) + e.data
}

/// Wire form of an entry sequence: the entries' wire forms, concatenated.
pub open spec fn entries_wire(es: Seq<CompositeEntryView>) -> Seq<u8>
    decreases es.len(),
{
    if es.len() == 0 {
        Seq::empty()
    } else {
        entry_wire(es[0]) + entries_wire(es.skip(1))
    }
}

/// What decoding the front of `b` as a MIME descriptor yields: the number
/// of bytes it occupies and its view.
pub open spec fn parse_mime(b: Seq<u8>) -> Result<(int, MimeTypeView), EncodingIssue> {
    if b.len() == 0 {
        Err(EncodingIssue::Incomplete)
    } else if b[0] >= 0x80 {
        Ok((1, MimeTypeView::WellKnown(b[0] & 0x7F)))
    } else {
        let mlen = b[0] as int + 1;
        if b.len() < 1 + mlen {
            Err(EncodingIssue::Incomplete)
        } else if !valid_utf8(b.subrange(1, 1 + mlen)) {
            Err(EncodingIssue::InvalidUtf8)
        } else {
            Ok((1 + mlen, MimeTypeView::Normal(decode_utf8(b.subrange(1, 1 + mlen)))))
        }
    }
}

/// What decoding a byte sequence as an entry sequence yields: the entries,
/// or the first failure.
pub open spec fn parse_entries(b: Seq<u8>) -> Result<Seq<CompositeEntryView>, EncodingIssue>
    decreases b.len(),
{
    if b.len() == 0 {
        Ok(Seq::empty())
    } else {
        match parse_mime(b) {
            Err(e) => Err(e),
            Ok((off, mime)) => {
                if b.len() < off + 3 {
                    Err(EncodingIssue::Incomplete)
                } else {
                    let n = u24_value(b[off], b[off + 1], b[off + 2]) as int;
                    if b.len() < off + 3 + n {
                        Err(EncodingIssue::Incomplete)
                    } else {
                        match parse_entries(b.skip(off + 3 + n)) {
                            Ok(rest) => Ok(
                                seq![
                                    (CompositeEntryView {
                                        mime,
                                        data: b.subrange(off + 3, off + 3 + n),
                                    }),
                                ] + rest,
                            ),
                            Err(e) => Err(e),
                        }
                    }
                }
            },
        }
    }
}

/// One entry of a composite metadata blob.
#[derive(Debug, Clone)]
pub struct CompositeMetadataEntry {
    mime_type: MimeType,
    metadata: Vec<u8>,
}

impl View for CompositeMetadataEntry {
    type V = CompositeEntryView;

    closed spec fn view(&self) -> CompositeEntryView {
        CompositeEntryView { mime: self.mime_type@, data: self.metadata@ }
    }
}

impl DeepView for CompositeMetadataEntry {
    type V = CompositeEntryView;

    open spec fn deep_view(&self) -> CompositeEntryView {
        self.view()
    }
}

impl CompositeMetadataEntry {
    /// Makes one entry; the descriptor must be valid and the payload must
    /// fit the 24-bit length field.
    pub fn new(mime_type: MimeType, metadata: Vec<u8>) -> (r: Self)
        requires
            mime_type@.wf(),
            metadata@.len() < MAX_ENTRY_LEN as int,
        ensures
            r@ == (CompositeEntryView { mime: mime_type@, data: metadata@ }),
            r@.wf(),
    {
        CompositeMetadataEntry { mime_type, metadata }
    }

    /// The entry's MIME descriptor.
    pub fn mime_type(&self) -> (r: &MimeType)
        ensures
            r@ == self@.mime,
    {
        &self.mime_type
    }

    /// The entry's raw payload bytes.
    pub fn metadata(&self) -> (r: &Vec<u8>)
        ensures
            r@ == self@.data,
    {
        &self.metadata
    }
}

/// A composite metadata blob: an ordered sequence of entries.
#[derive(Debug, Clone)]
pub struct CompositeMetadata {
    metadatas: Vec<CompositeMetadataEntry>,
}

/// Staged constructor for [`CompositeMetadata`].
pub struct CompositeMetadataBuilder {
    inner: CompositeMetadata,
}

impl View for CompositeMetadata {
    type V = Seq<CompositeEntryView>;

    closed spec fn view(&self) -> Seq<CompositeEntryView> {
        self.metadatas.deep_view()
    }
}

/// Validity of an entry sequence.
pub open spec fn entries_wf(es: Seq<CompositeEntryView>) -> bool {
    forall|i: int| 0 <= i < es.len() ==> (#[trigger] es[i]).wf()
}

impl CompositeMetadataBuilder {
    /// The entries gathered so far.
    pub closed spec fn spec_entries(&self) -> Seq<CompositeEntryView> {
        self.inner@
    }

    /// Validity of the gathered state.
    pub open spec fn wf(&self) -> bool {
        entries_wf(self.spec_entries())
    }

    /// Adds one entry.
    pub fn push(self, mime_type: MimeType, metadata: Vec<u8>) -> (r: Self)
        requires
            self.wf(),
            mime_type@.wf(),
            metadata@.len() < MAX_ENTRY_LEN as int,
        ensures
            r.wf(),
            r.spec_entries() == self.spec_entries().push(
                CompositeEntryView { mime: mime_type@, data: metadata@ },
            ),
    {
        let mut this = self;
        let ghost before = this.inner.metadatas.deep_view();
        let entry = CompositeMetadataEntry::new(mime_type, metadata);
        this.inner.metadatas.push(entry);
        proof {
            assert(this.inner.metadatas.deep_view() =~= before.push(entry@));
        }
        this
    }

    /// Finishes construction.
    pub fn build(self) -> (r: CompositeMetadata)
        ensures
            r@ == self.spec_entries(),
            self.wf() ==> r.wf(),
    {
        self.inner
    }
}

impl CompositeMetadata {
    /// Validity: every entry is valid.
    pub open spec fn wf(&self) -> bool {
        entries_wf(self@)
    }

    /// This value's wire form.
    pub open spec fn wire(&self) -> Seq<u8> {
        entries_wire(self@)
    }

    /// Starts a builder with no entries.
    pub fn builder() -> (r: CompositeMetadataBuilder)
        ensures
            r.wf(),
            r.spec_entries() == Seq::<CompositeEntryView>::empty(),
    {
        let r = CompositeMetadataBuilder { inner: CompositeMetadata { metadatas: Vec::new() } };
        proof {
            assert(r.spec_entries() =~= Seq::<CompositeEntryView>::empty());
        }
        r
    }

    /// The entries.
    pub fn entries(&self) -> (r: &Vec<CompositeMetadataEntry>)
        ensures
            r.deep_view() == self@,
    {
        &self.metadatas
    }

    /// Decodes a blob from the whole buffer: entries until it is exhausted.
    /// Succeeds exactly when every descriptor and declared length fits the
    /// remaining bytes and every explicit descriptor is valid UTF-8.
    pub fn decode(bf: &mut BytesMut) -> (r: Result<CompositeMetadata, RSocketError>)
        ensures
            match r {
                Ok(m) => {
                    &&& m.wf()
                    &&& parse_entries(bytes_view(*old(bf))) == Ok::<
                        Seq<CompositeEntryView>,
                        EncodingIssue,
                    >(m@)
                    &&& bytes_view(*final(bf)).len() == 0
                },
                Err(e) => {
                    &&& parse_entries(bytes_view(*old(bf))) is Err
                    &&& e == RSocketError::Encoding(parse_entries(bytes_view(*old(bf)))->Err_0)
                },
            },
    {
        match Self::read_entries(bf) {
            Ok(entries) => Ok(CompositeMetadata { metadatas: entries }),
            Err(e) => Err(e),
        }
    }

    #[verifier::loop_isolation(false)]
    #[verifier::rlimit(80)]
    fn read_entries(bf: &mut BytesMut) -> (r: Result<Vec<CompositeMetadataEntry>, RSocketError>)
        ensures
            match r {
                Ok(entries) => {
                    &&& parse_entries(bytes_view(*old(bf))) == Ok::<
                        Seq<CompositeEntryView>,
                        EncodingIssue,
                    >(entries.deep_view())
                    &&& entries_wf(entries.deep_view())
                    &&& bytes_view(*final(bf)).len() == 0
                },
                Err(e) => {
                    &&& parse_entries(bytes_view(*old(bf))) is Err
                    &&& e == RSocketError::Encoding(parse_entries(bytes_view(*old(bf)))->Err_0)
                },
            },
    {
        let ghost input = bytes_view(*old(bf));
        let mut entries: Vec<CompositeMetadataEntry> = Vec::new();
        while bytes_len(bf) != 0
            invariant
                entries_wf(entries.deep_view()),
                match parse_entries(input) {
                    Ok(all) => parse_entries(bytes_view(*bf)) matches Ok(rest) && all
                        == entries.deep_view() + rest,
                    Err(e) => parse_entries(bytes_view(*bf)) == Err::<
                        Seq<CompositeEntryView>,
                        EncodingIssue,
                    >(e),
                },
            decreases bytes_view(*bf).len(),
        {
            let ghost cur = bytes_view(*bf);
            let b0 = bytes_get_u8(bf);
            let mime: MimeType;
            let ghost mut off: int = 0int;
            if b0 >= 0x80 {
                mime = MimeType::WellKnown(b0 & 0x7F);
                proof {
                    off = 1int;
                    assert(b0 & 0x7F < 0x80) by (bit_vector);
                    assert(parse_mime(cur) == Ok::<(int, MimeTypeView), EncodingIssue>(
                        (off, mime@),
                    ));
                }
            } else {
                let mlen = b0 as usize + 1;
                if bytes_len(bf) < mlen {
                    proof {
                        assert(parse_mime(cur) == Err::<(int, MimeTypeView), EncodingIssue>(
                            EncodingIssue::Incomplete,
                        ));
                        assert(parse_entries(cur) == Err::<Seq<CompositeEntryView>, EncodingIssue>(
                            EncodingIssue::Incomplete,
                        ));
                    }
                    return Err(RSocketError::Encoding(EncodingIssue::Incomplete));
                }
                let chunk = bytes_split_to_vec(bf, mlen);
                proof {
                    assert(chunk@ =~= cur.subrange(1, 1 + mlen as int));
                    assert(bytes_view(*bf) =~= cur.skip(1 + mlen as int));
                }
                match string_from_utf8(chunk) {
                    Some(s) => {
                        mime = MimeType::Normal(s);
                        proof {
                            off = 1 + mlen as int;
                            decode_utf8_encode_utf8(chunk@);
                            assert(parse_mime(cur) == Ok::<(int, MimeTypeView), EncodingIssue>(
                                (off, mime@),
                            ));
                        }
                    },
                    None => {
                        proof {
                            assert(parse_mime(cur) == Err::<(int, MimeTypeView), EncodingIssue>(
                                EncodingIssue::InvalidUtf8,
                            ));
                            assert(parse_entries(cur) == Err::<
                                Seq<CompositeEntryView>,
                                EncodingIssue,
                            >(EncodingIssue::InvalidUtf8));
                        }
                        return Err(RSocketError::Encoding(EncodingIssue::InvalidUtf8));
                    },
                }
            }
            proof {
                assert(bytes_view(*bf) =~= cur.skip(off));
                assert(cur.len() >= off);
            }
            if bytes_len(bf) < 3 {
                proof {
                    assert(parse_entries(cur) == Err::<Seq<CompositeEntryView>, EncodingIssue>(
                        EncodingIssue::Incomplete,
                    ));
                }
                return Err(RSocketError::Encoding(EncodingIssue::Incomplete));
            }
            let n0 = bytes_get_u8(bf);
            let n1 = bytes_get_u8(bf);
            let n2 = bytes_get_u8(bf);
            let n = (((n0 as u32) << 16) | ((n1 as u32) << 8) | (n2 as u32)) as usize;
            proof {
                assert(cur[off] == n0 && cur[off + 1] == n1 && cur[off + 2] == n2);
                assert(bytes_view(*bf) =~= cur.skip(off + 3));
                assert(u24_value(n0, n1, n2) < 0x1000000) by (bit_vector);
            }
            if bytes_len(bf) < n {
                proof {
                    assert(parse_entries(cur) == Err::<Seq<CompositeEntryView>, EncodingIssue>(
                        EncodingIssue::Incomplete,
                    ));
                }
                return Err(RSocketError::Encoding(EncodingIssue::Incomplete));
            }
            let data = bytes_split_to_vec(bf, n);
            proof {
                assert(data@ =~= cur.subrange(off + 3, off + 3 + n as int));
                assert(bytes_view(*bf) =~= cur.skip(off + 3 + n as int));
            }
            let entry = CompositeMetadataEntry::new(mime, data);
            proof {
                assert(parse_entries(cur) == (match parse_entries(bytes_view(*bf)) {
                    Ok(rest) => Ok::<Seq<CompositeEntryView>, EncodingIssue>(seq![entry@] + rest),
                    Err(e) => Err(e),
                }));
            }
            let ghost before = entries.deep_view();
            entries.push(entry);
            proof {
                assert(entries.deep_view() =~= before.push(entry@));
                if parse_entries(input) matches Ok(all) {
                    let rest2 = parse_entries(bytes_view(*bf))->Ok_0;
                    assert(before + (seq![entry@] + rest2) =~= entries.deep_view() + rest2);
                }
            }
        }
        proof {
            assert(entries.deep_view() + Seq::<CompositeEntryView>::empty() =~= entries.deep_view());
        }
        Ok(entries)
    }

    /// Appends this value's wire form to `bf`.
    pub fn write_to(&self, bf: &mut BytesMut)
        requires
            self.wf(),
            bytes_view(*old(bf)).len() + self.wire().len() <= usize::MAX,
        ensures
            bytes_view(*final(bf)) == bytes_view(*old(bf)) + self.wire(),
    {
        let out = self.to_wire_vec();
        bytes_put_slice(bf, out.as_slice());
    }

    /// This value's wire form as a plain vector.
    #[verifier::loop_isolation(false)]
    pub fn to_wire_vec(&self) -> (r: Vec<u8>)
        requires
            self.wf(),
        ensures
            r@ == self.wire(),
    {
        let ghost views = self@;
        let mut out: Vec<u8> = Vec::new();
        let mut i: usize = 0;
        while i < self.metadatas.len()
            invariant
                i <= views.len(),
                views.len() == self.metadatas@.len(),
                out@ == entries_wire(views.take(i as int)),
            decreases self.metadatas@.len() - i,
        {
            let entry = &self.metadatas[i];
            proof {
                assert(entry@ == views[i as int]);
                assert(views[i as int].wf());
            }
            match entry.mime_type() {
                MimeType::WellKnown(c) => {
                    out.push(*c | 0x80);
                },
                MimeType::Normal(s) => {
                    let bytes: &[u8] = s.as_str().as_bytes();
                    proof {
                        assert(views[i as int].mime == MimeTypeView::Normal(s@));
                        assert(1 <= bytes@.len() <= 0x80);
                    }
                    out.push((bytes.len() - 1) as u8);
                    push_bytes(&mut out, bytes);
                },
            }
            let n = entry.metadata.len();
            let n32 = n as u32;
            out.push((n32 >> 16) as u8);
            out.push((n32 >> 8) as u8);
            out.push(n32 as u8);
            push_bytes(&mut out, entry.metadata.as_slice());
            proof {
                assert(u24_wire(views[i as int].data.len() as u32) =~= seq![
                    (n32 >> 16) as u8,
                    (n32 >> 8) as u8,
                    n32 as u8,
                ]);
                lemma_entries_wire_push(views.take(i as int), views[i as int]);
                assert(views.take(i as int).push(views[i as int]) =~= views.take(i as int + 1));
                assert(out@ =~= entries_wire(views.take(i as int + 1)));
            }
            i = i + 1;
        }
        proof {
            assert(views.take(views.len() as int) =~= views);
        }
        out
    }

    /// The length of this value's wire form.
    pub fn len(&self) -> (r: usize)
        requires
            self.wf(),
        ensures
            r == self.wire().len(),
    {
        self.to_wire_vec().len()
    }
}

/// Appending one entry to a sequence appends its wire form to the
/// sequence's.
pub proof fn lemma_entries_wire_push(es: Seq<CompositeEntryView>, e: CompositeEntryView)
    ensures
        entries_wire(es.push(e)) == entries_wire(es) + entry_wire(e),
    decreases es.len(),
{
    if es.len() == 0 {
        assert(es.push(e)[0] == e);
        assert(es.push(e).skip(1) =~= Seq::<CompositeEntryView>::empty());
        assert(entries_wire(es.push(e)) == entry_wire(e) + entries_wire(
            Seq::<CompositeEntryView>::empty(),
        ));
        assert(entries_wire(es.push(e)) =~= entries_wire(es) + entry_wire(e));
    } else {
        assert(es.push(e)[0] == es[0]);
        assert(es.push(e).skip(1) =~= es.skip(1).push(e));
        lemma_entries_wire_push(es.skip(1), e);
        assert(entries_wire(es.push(e)) == entry_wire(es[0]) + entries_wire(es.skip(1).push(e)));
        assert(entries_wire(es.push(e)) =~= entries_wire(es) + entry_wire(e));
    }
}

/// Decoding the wire form of a well-formed entry sequence gives the
/// sequence back.
pub proof fn lemma_parse_entries_of_wire(es: Seq<CompositeEntryView>)
    requires
        entries_wf(es),
    ensures
        parse_entries(entries_wire(es)) == Ok::<Seq<CompositeEntryView>, EncodingIssue>(es),
    decreases es.len(),
{
    if es.len() == 0 {
        assert(entries_wire(es) =~= Seq::<u8>::empty());
        assert(es =~= Seq::<CompositeEntryView>::empty());
    } else {
        let e = es[0];
        let b = entries_wire(es);
        let mw = mime_wire(e.mime);
        let off = mw.len() as int;
        assert(b =~= mw + u24_wire(e.data.len() as u32) + e.data + entries_wire(es.skip(1)));
        match e.mime {
            MimeTypeView::WellKnown(c) => {
                assert(b[0] == (c | 0x80));
                assert((c | 0x80) >= 0x80 && (c < 0x80 ==> ((c | 0x80) & 0x7F) == c))
                    by (bit_vector);
                assert(parse_mime(b) == Ok::<(int, MimeTypeView), EncodingIssue>((1, e.mime)));
            },
            MimeTypeView::Normal(s) => {
                let enc = encode_utf8(s);
                let mlen = enc.len() as int;
                assert(b[0] == (mlen - 1) as u8);
                assert(1 <= mlen <= 0x80);
                assert(b[0] < 0x80);
                assert(b[0] as int + 1 == mlen);
                assert(b.subrange(1, 1 + mlen) =~= enc);
                encode_utf8_valid_utf8(s);
                encode_utf8_decode_utf8(s);
                assert(parse_mime(b) == Ok::<(int, MimeTypeView), EncodingIssue>(
                    (1 + mlen, e.mime),
                ));
            },
        }
        let n32 = e.data.len() as u32;
        assert(b[off] == (n32 >> 16) as u8 && b[off + 1] == (n32 >> 8) as u8 && b[off + 2]
            == n32 as u8);
        lemma_u24_round_trip(n32);
        let n = e.data.len() as int;
        assert(b.len() >= off + 3 + n);
        assert(b.subrange(off + 3, off + 3 + n) =~= e.data);
        assert(b.skip(off + 3 + n) =~= entries_wire(es.skip(1)));
        lemma_parse_entries_of_wire(es.skip(1));
        assert(seq![e] + es.skip(1) =~= es);
    }
}

/// Round-trip law: the wire form of a well-formed composite metadata blob
/// decodes to the same entry sequence.
pub proof fn lemma_composite_round_trip(m: CompositeMetadata)
    requires
        m.wf(),
    ensures
        parse_entries(m.wire()) == Ok::<Seq<CompositeEntryView>, EncodingIssue>(m@),
{
    lemma_parse_entries_of_wire(m@);
}

} // verus!
