//! Length-prefixed tag lists: the shared wire shape of routing and security
//! metadata. Each tag is one length byte followed by that many bytes of
//! UTF-8; tags concatenate with no padding and a list ends with the buffer.

use vstd::prelude::*;
use vstd::utf8::{decode_utf8, encode_utf8, valid_utf8};
use vstd::utf8::{decode_utf8_encode_utf8, encode_utf8_decode_utf8, encode_utf8_valid_utf8};
use bytes::BytesMut;
use crate::buffer::{bytes_get_u8, bytes_len, bytes_split_to_vec, bytes_view, string_from_utf8};
use crate::error::{EncodingIssue, RSocketError};

verus! {

/// The largest wire length of one tag.
pub const MAX_TAG_LEN: usize = 0xFF;

/// Every tag's UTF-8 encoding fits its one-byte length prefix.
pub open spec fn tags_wf(tags: Seq<Seq<char>>) -> bool {
    forall|i: int|
        0 <= i < tags.len() ==> #[trigger] encode_utf8(tags[i]).len() <= MAX_TAG_LEN as int
}

/// Wire form of one tag: its length byte, then its UTF-8 bytes.
pub open spec fn tag_wire(t: Seq<char>) -> Seq<u8> {
    seq![encode_utf8(t).len() as u8] + encode_utf8(t)
}

/// Wire form of a tag list: the tags' wire forms, concatenated.
pub open spec fn tags_wire(tags: Seq<Seq<char>>) -> Seq<u8>
    decreases tags.len(),
{
    if tags.len() == 0 {
        Seq::empty()
    } else {
        tag_wire(tags[0]) + tags_wire(tags.skip(1))
    }
}

/// What decoding a byte sequence as a tag list yields: the tags, or the
/// first failure (a length prefix past the end, or bytes that are not
/// UTF-8).
pub open spec fn parse_tags(b: Seq<u8>) -> Result<Seq<Seq<char>>, EncodingIssue>
    decreases b.len(),
{
    if b.len() == 0 {
        Ok(Seq::empty())
    } else {
        let n = b[0] as int;
        if b.len() - 1 < n {
            Err(EncodingIssue::Incomplete)
        } else if !valid_utf8(b.subrange(1, 1 + n)) {
            Err(EncodingIssue::InvalidUtf8)
        } else {
            match parse_tags(b.skip(1 + n)) {
                Ok(rest) => Ok(seq![decode_utf8(b.subrange(1, 1 + n))] + rest),
                Err(e) => Err(e),
            }
        }
    }
}

/// Appending one tag to a list appends its wire form to the list's.
pub proof fn lemma_tags_wire_push(tags: Seq<Seq<char>>, t: Seq<char>)
    ensures
        tags_wire(tags.push(t)) == tags_wire(tags) + tag_wire(t),
    decreases tags.len(),
{
    if tags.len() == 0 {
        assert(tags.push(t)[0] == t);
        assert(tags.push(t).skip(1) =~= Seq::<Seq<char>>::empty());
        assert(tags_wire(tags.push(t)) == tag_wire(t) + tags_wire(Seq::<Seq<char>>::empty()));
        assert(tags_wire(tags.push(t)) =~= tags_wire(tags) + tag_wire(t));
    } else {
        assert(tags.push(t)[0] == tags[0]);
        assert(tags.push(t).skip(1) =~= tags.skip(1).push(t));
        lemma_tags_wire_push(tags.skip(1), t);
        assert(tags_wire(tags.push(t)) == tag_wire(tags[0]) + tags_wire(tags.skip(1).push(t)));
        assert(tags_wire(tags.push(t)) =~= tags_wire(tags) + tag_wire(t));
    }
}

/// Decoding the wire form of a well-formed tag list gives the list back.
pub proof fn lemma_parse_tags_of_wire(tags: Seq<Seq<char>>)
    requires
        tags_wf(tags),
    ensures
        parse_tags(tags_wire(tags)) == Ok::<Seq<Seq<char>>, EncodingIssue>(tags),
    decreases tags.len(),
{
    if tags.len() == 0 {
        assert(tags_wire(tags) =~= Seq::<u8>::empty());
        assert(tags =~= Seq::<Seq<char>>::empty());
    } else {
        let t = tags[0];
        let enc = encode_utf8(t);
        let b = tags_wire(tags);
        let n = enc.len() as int;
        encode_utf8_valid_utf8(t);
        encode_utf8_decode_utf8(t);
        assert(b[0] == n as u8);
        assert(b.subrange(1, 1 + n) =~= enc);
        assert(b.skip(1 + n) =~= tags_wire(tags.skip(1)));
        lemma_parse_tags_of_wire(tags.skip(1));
        assert(seq![decode_utf8(b.subrange(1, 1 + n))] + tags.skip(1) =~= tags);
    }
}

/// Copies the bytes of `s` onto the end of `out`.
pub fn push_bytes(out: &mut Vec<u8>, s: &[u8])
    ensures
        final(out)@ == old(out)@ + s@,
{
    let ghost start = out@;
    let mut i: usize = 0;
    while i < s.len()
        invariant
            i <= s@.len(),
            out@ == start + s@.take(i as int),
        decreases s@.len() - i,
    {
        out.push(s[i]);
        proof {
            assert(out@ =~= start + s@.take(i as int + 1));
        }
        i = i + 1;
    }
    proof {
        assert(start + s@.take(s@.len() as int) =~= start + s@);
    }
}

/// Copies `v[from..to]` out as a fresh vector.
pub fn vec_range(v: &Vec<u8>, from: usize, to: usize) -> (r: Vec<u8>)
    requires
        from <= to <= v@.len(),
    ensures
        r@ == v@.subrange(from as int, to as int),
{
    let mut out: Vec<u8> = Vec::new();
    let mut i: usize = from;
    while i < to
        invariant
            from <= i <= to <= v@.len(),
            out@ == v@.subrange(from as int, i as int),
        decreases to - i,
    {
        out.push(v[i]);
        proof {
            assert(out@ =~= v@.subrange(from as int, i as int + 1));
        }
        i = i + 1;
    }
    out
}

/// Appends the wire form of `tags` to `out`.
pub fn write_tags(out: &mut Vec<u8>, tags: &Vec<String>)
    requires
        tags_wf(tags.deep_view()),
    ensures
        final(out)@ == old(out)@ + tags_wire(tags.deep_view()),
{
    let ghost start = out@;
    let ghost views = tags.deep_view();
    let mut i: usize = 0;
    while i < tags.len()
        invariant
            i <= views.len(),
            views == tags.deep_view(),
            tags_wf(views),
            views.len() == tags@.len(),
            out@ == start + tags_wire(views.take(i as int)),
        decreases tags@.len() - i,
    {
        let tag: &String = &tags[i];
        let bytes: &[u8] = tag.as_str().as_bytes();
        proof {
            assert(views[i as int] == tag@);
            assert(bytes@ == encode_utf8(tag@));
        }
        out.push(bytes.len() as u8);
        push_bytes(out, bytes);
        proof {
            lemma_tags_wire_push(views.take(i as int), views[i as int]);
            assert(views.take(i as int).push(views[i as int]) =~= views.take(i as int + 1));
            assert(out@ =~= start + tags_wire(views.take(i as int + 1)));
        }
        i = i + 1;
    }
    proof {
        assert(views.take(views.len() as int) =~= views);
    }
}

/// Reads tags from the front of `bf` until it is exhausted, as the decoders
/// of routing and security metadata do; consumes the whole buffer on
/// success and stops at the first malformed tag otherwise.
#[verifier::loop_isolation(false)]
pub fn read_tags(bf: &mut BytesMut) -> (r: Result<Vec<String>, RSocketError>)
    ensures
        match r {
            Ok(tags) => {
                &&& parse_tags(bytes_view(*old(bf))) == Ok::<Seq<Seq<char>>, EncodingIssue>(
                    tags.deep_view(),
                )
                &&& tags_wf(tags.deep_view())
                &&& bytes_view(*final(bf)).len() == 0
            },
            Err(e) => {
                &&& parse_tags(bytes_view(*old(bf))) is Err
                &&& e == RSocketError::Encoding(parse_tags(bytes_view(*old(bf)))->Err_0)
            },
        },
{
    let ghost input = bytes_view(*old(bf));
    let mut tags: Vec<String> = Vec::new();
    while bytes_len(bf) != 0
        invariant
            tags_wf(tags.deep_view()),
            match parse_tags(input) {
                Ok(all) => parse_tags(bytes_view(*bf)) matches Ok(rest) && all == tags.deep_view()
                    + rest,
                Err(e) => parse_tags(bytes_view(*bf)) == Err::<Seq<Seq<char>>, EncodingIssue>(e),
            },
        decreases bytes_view(*bf).len(),
    {
        let ghost cur = bytes_view(*bf);
        let size = bytes_get_u8(bf) as usize;
        if bytes_len(bf) < size {
            proof {
                assert(parse_tags(cur) == Err::<Seq<Seq<char>>, EncodingIssue>(
                    EncodingIssue::Incomplete,
                ));
                assert(parse_tags(input) is Err);
                assert(parse_tags(input)->Err_0 == EncodingIssue::Incomplete);
            }
            return Err(RSocketError::Encoding(EncodingIssue::Incomplete));
        }
        let chunk = bytes_split_to_vec(bf, size);
        proof {
            assert(chunk@ =~= cur.subrange(1, 1 + size as int));
            assert(bytes_view(*bf) =~= cur.skip(1 + size as int));
        }
        match string_from_utf8(chunk) {
            Some(tag) => {
                proof {
                    decode_utf8_encode_utf8(chunk@);
                    assert(parse_tags(cur) == (match parse_tags(bytes_view(*bf)) {
                        Ok(rest) => Ok::<Seq<Seq<char>>, EncodingIssue>(seq![tag@] + rest),
                        Err(e) => Err(e),
                    }));
                }
                let ghost old_views = tags.deep_view();
                tags.push(tag);
                proof {
                    assert(tags.deep_view() =~= old_views.push(tag@));
                    if parse_tags(input) matches Ok(all) {
                        let rest2 = parse_tags(bytes_view(*bf))->Ok_0;
                        assert(old_views + (seq![tag@] + rest2) =~= tags.deep_view() + rest2);
                    }
                }
            },
            None => {
                proof {
                    assert(parse_tags(cur) == Err::<Seq<Seq<char>>, EncodingIssue>(
                        EncodingIssue::InvalidUtf8,
                    ));
                }
                return Err(RSocketError::Encoding(EncodingIssue::InvalidUtf8));
            },
        }
    }
    proof {
        assert(tags.deep_view() + Seq::<Seq<char>>::empty() =~= tags.deep_view());
    }
    Ok(tags)
}

} // verus!
