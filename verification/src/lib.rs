//! Bilrost: a compact binary encoding with bijective varints and a prepend-only byte buffer.
use vstd::prelude::*;

pub mod buf;
pub mod byte_bufs;
pub mod encoding;
pub mod error;
pub mod iter;
pub mod message;
pub mod schema;
pub mod types;
pub mod varint;

pub use crate::error::{DecodeError, DecodeErrorKind, EncodeError, FieldName};
pub use crate::types::Blob;

use crate::byte_bufs::{bytes_contents, bytes_mut_contents, bytes_mut_remaining_mut};
use crate::varint::{
    decode_varint, encode_varint, encoded_len_varint, varint_decode, varint_encoding,
};
use bytes::{Bytes, BytesMut};

verus! {

/// How deeply nested messages may be decoded.
pub const RECURSION_LIMIT: u32 = 100;

/// Encodes a length delimiter to the buffer.
///
/// An error is returned, and the buffer left unchanged, when the buffer does not have sufficient
/// capacity to encode the delimiter.
pub fn encode_length_delimiter(length: usize, buf: &mut BytesMut) -> (r: Result<(), EncodeError>)
    ensures
        r is Ok <==> varint_encoding(length as u64).len() + bytes_mut_contents(*old(buf)).len()
            <= isize::MAX,
        r is Ok ==> bytes_mut_contents(*final(buf)) == bytes_mut_contents(*old(buf))
            + varint_encoding(length as u64),
        r matches Err(e) ==> e.spec_required() == varint_encoding(length as u64).len()
            && e.spec_remaining() == isize::MAX - bytes_mut_contents(*old(buf)).len()
            && bytes_mut_contents(*final(buf)) == bytes_mut_contents(*old(buf)),
{
    let length = length as u64;
    let required = encoded_len_varint(length);
    let remaining = bytes_mut_remaining_mut(buf);
    if required > remaining {
        return Err(EncodeError::new(required, remaining));
    }
    encode_varint(length, buf);
    Ok(())
}

/// Returns the encoded length of a length delimiter: between 1 and 9, inclusive.
///
/// Applications may use this to ensure sufficient buffer capacity before calling
/// `encode_length_delimiter`.
pub fn length_delimiter_len(length: usize) -> (r: usize)
    ensures
        r == varint_encoding(length as u64).len(),
        1 <= r <= 9,
{
    encoded_len_varint(length as u64)
}

/// What decoding a length delimiter from `s` gives: the length, or the kind of error.
pub open spec fn length_delimiter_decode(s: Seq<u8>) -> Result<usize, DecodeErrorKind> {
    match varint_decode(s) {
        Ok((v, _)) => if v <= usize::MAX {
            Ok(v as usize)
        } else {
            Err(DecodeErrorKind::Oversize)
        },
        Err(k) => Err(k),
    }
}

/// A length delimiter decodes, from the front of any bytes, to the length it encodes, and
/// decoding it takes exactly its own bytes: what follows is left.
pub proof fn lemma_length_delimiter_roundtrip(length: usize, rest: Seq<u8>)
    ensures
        length_delimiter_decode(varint_encoding(length as u64) + rest) == Ok::<usize, DecodeErrorKind>(
            length,
        ),
        varint_decode(varint_encoding(length as u64) + rest) matches Ok((_, n)) && (
        varint_encoding(length as u64) + rest).skip(n as int) == rest,
{
    crate::varint::lemma_varint_roundtrip(length as u64, rest);
    assert((varint_encoding(length as u64) + rest).skip(varint_encoding(length as u64).len() as int)
        =~= rest);
}

/// A delimiter that fails to decode from fewer than nine bytes is `Truncated` (more input is
/// needed) unless it is too large for `usize`; from nine or more bytes it is corrupt: an
/// `InvalidVarint`, or `Oversize`.
pub proof fn lemma_length_delimiter_errors(s: Seq<u8>)
    ensures
        length_delimiter_decode(s) matches Err(k) ==> (s.len() < 9 ==> (k
            == DecodeErrorKind::Truncated || k == DecodeErrorKind::Oversize)),
        length_delimiter_decode(s) matches Err(k) ==> (s.len() >= 9 ==> (k
            == DecodeErrorKind::InvalidVarint || k == DecodeErrorKind::Oversize)),
{
    crate::varint::lemma_varint_error_kinds(s);
}

/// Decodes a length delimiter from the front of the buffer, consuming exactly its bytes.
///
/// An error may be returned in two cases: when the buffer holds fewer than 9 bytes, more input is
/// required to decode the full delimiter (`Truncated`); when it holds 9 or more bytes, the
/// delimiter is invalid and the buffer should be considered corrupt. A delimiter too large for
/// `usize` gives `Oversize`, its bytes consumed; on the other errors the buffer is left as it was.
pub fn decode_length_delimiter(buf: &mut Bytes) -> (r: Result<usize, DecodeError>)
    ensures
        match length_delimiter_decode(bytes_contents(*old(buf))) {
            Ok(n) => r == Ok::<usize, DecodeError>(n),
            Err(k) => r matches Err(e) && e.spec_kind() == k,
        },
        match varint_decode(bytes_contents(*old(buf))) {
            Ok((_, n)) => bytes_contents(*final(buf)) == bytes_contents(*old(buf)).skip(n as int),
            Err(_) => bytes_contents(*final(buf)) == bytes_contents(*old(buf)),
        },
{
    match decode_varint(buf) {
        Ok(value) => {
            if value <= usize::MAX as u64 {
                Ok(value as usize)
            } else {
                Err(DecodeError::new(DecodeErrorKind::Oversize))
            }
        },
        Err(e) => Err(e),
    }
}

/// Returns whether two lists of tags are equal.
pub fn tags_are_equal(a: &[u32], b: &[u32]) -> (r: bool)
    ensures
        r == (a@ == b@),
{
    if a.len() != b.len() {
        return false;
    }
    let mut i: usize = 0;
    while i < a.len()
        invariant
            i <= a@.len() == b@.len(),
            forall|j: int| 0 <= j < i ==> a@[j] == b@[j],
        decreases a@.len() - i,
    {
        if a[i] != b[i] {
            return false;
        }
        i = i + 1;
    }
    assert(a@ =~= b@);
    true
}

/// Asserts that two lists of tags are equal; derived code calls it to check its tag lists at
/// compile time. Lists that differ are a failure described by `failure_description`, so they are
/// excluded by `requires`.
pub fn assert_tags_are_equal(failure_description: &str, a: &[u32], b: &[u32])
    requires
        a@ == b@,
{
    let equal = tags_are_equal(a, b);
    assert(equal);
}

} // verus!
