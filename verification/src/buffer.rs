//! Trusted boundary to the byte-buffer type of the `bytes` crate, which the
//! wire codecs read from and append to, and to `String::from_utf8`.
//!
//! Verified code sees a `BytesMut` only through `bytes_view`, the sequence of
//! bytes it currently holds, and through the wrappers below.

use vstd::prelude::*;
use vstd::utf8::{decode_utf8, valid_utf8};
use bytes::{Buf, BufMut, BytesMut};

verus! {

#[verifier::external_type_specification]
#[verifier::external_body]
pub struct ExBytesMut(BytesMut);

/// The bytes a `BytesMut` currently holds, front to back.
pub uninterp spec fn bytes_view(b: BytesMut) -> Seq<u8>;

/// Relies on `BytesMut::len`: the number of bytes the buffer holds.
#[verifier::external_body]
pub fn bytes_len(b: &BytesMut) -> (r: usize)
    ensures
        r == bytes_view(*b).len(),
{
    b.len()
}

/// Relies on `Buf::get_u8` for `BytesMut`: removes and returns the first
/// byte. Panics on an empty buffer, so that input is excluded here.
#[verifier::external_body]
pub fn bytes_get_u8(b: &mut BytesMut) -> (r: u8)
    requires
        bytes_view(*old(b)).len() >= 1,
    ensures
        r == bytes_view(*old(b))[0],
        bytes_view(*final(b)) == bytes_view(*old(b)).skip(1),
{
    b.get_u8()
}

/// Relies on `BufMut::put_slice` for `BytesMut`: appends the slice's bytes.
#[verifier::external_body]
pub fn bytes_put_slice(b: &mut BytesMut, s: &[u8])
    requires
        bytes_view(*old(b)).len() + s@.len() <= usize::MAX,
    ensures
        bytes_view(*final(b)) == bytes_view(*old(b)) + s@,
{
    b.put_slice(s)
}

/// Relies on `BytesMut::split_to`: removes the first `n` bytes, which the
/// result hands out as a plain vector. Panics when `n` exceeds the length,
/// so those inputs are excluded here.
#[verifier::external_body]
pub fn bytes_split_to_vec(b: &mut BytesMut, n: usize) -> (r: Vec<u8>)
    requires
        n <= bytes_view(*old(b)).len(),
    ensures
        r@ == bytes_view(*old(b)).take(n as int),
        bytes_view(*final(b)) == bytes_view(*old(b)).skip(n as int),
{
    b.split_to(n).to_vec()
}

/// Relies on `String::from_utf8`: succeeds exactly on valid UTF-8 input and
/// returns the string those bytes encode.
#[verifier::external_body]
pub fn string_from_utf8(v: Vec<u8>) -> (r: Option<String>)
    ensures
        match r {
            Some(s) => valid_utf8(v@) && s@ == decode_utf8(v@),
            None => !valid_utf8(v@),
        },
{
    match String::from_utf8(v) {
        Ok(s) => Some(s),
        Err(_) => None,
    }
}

} // verus!
