//! The byte containers of the `bytes` crate that this library reads from and writes to.
use bytes::{Buf, BufMut, Bytes, BytesMut};
use vstd::prelude::*;

verus! {

#[verifier::external_type_specification]
#[verifier::external_body]
pub struct ExBytes(Bytes);

#[verifier::external_type_specification]
#[verifier::external_body]
pub struct ExBytesMut(BytesMut);

/// The bytes that a `Bytes` holds, in reading order.
pub uninterp spec fn bytes_contents(b: Bytes) -> Seq<u8>;

/// The bytes that a `BytesMut` holds, in order.
pub uninterp spec fn bytes_mut_contents(b: BytesMut) -> Seq<u8>;

/// Calls `<Bytes as Deref>::deref`, which views every byte the `Bytes` holds, in order.
#[verifier::external_body]
pub(crate) fn bytes_as_slice(b: &Bytes) -> (r: &[u8])
    ensures
        r@ == bytes_contents(*b),
{
    b
}

/// Calls `<Bytes as Buf>::advance`, which drops the first `cnt` bytes. It panics when `cnt`
/// exceeds the length, which `requires` rules out.
#[verifier::external_body]
pub(crate) fn bytes_advance(b: &mut Bytes, cnt: usize)
    requires
        cnt <= bytes_contents(*old(b)).len(),
    ensures
        bytes_contents(*final(b)) == bytes_contents(*old(b)).skip(cnt as int),
{
    b.advance(cnt)
}

/// Calls `<BytesMut as BufMut>::remaining_mut`, which is `isize::MAX` minus the length.
#[verifier::external_body]
pub(crate) fn bytes_mut_remaining_mut(b: &BytesMut) -> (r: usize)
    ensures
        r as int == isize::MAX as int - bytes_mut_contents(*b).len(),
{
    b.remaining_mut()
}

/// Returns how many more bytes the buffer can take before its length would exceed `isize::MAX`:
/// callers test it against the length of what they mean to encode.
pub fn remaining_mut(b: &BytesMut) -> (r: usize)
    ensures
        r == isize::MAX - bytes_mut_contents(*b).len(),
        bytes_mut_contents(*b).len() <= isize::MAX,
{
    bytes_mut_remaining_mut(b)
}

/// Calls `<BytesMut as BufMut>::put_slice`, which appends `src` at the end. It panics when the
/// new length would exceed `isize::MAX`, which `requires` rules out.
#[verifier::external_body]
pub(crate) fn bytes_mut_put_slice(b: &mut BytesMut, src: &[u8])
    requires
        bytes_mut_contents(*old(b)).len() + src@.len() <= isize::MAX,
    ensures
        bytes_mut_contents(*final(b)) == bytes_mut_contents(*old(b)) + src@,
{
    b.put_slice(src)
}

/// Calls `BytesMut::with_capacity`, which creates an empty `BytesMut` (the capacity is only a
/// reservation). It panics when the capacity exceeds `isize::MAX`, which `requires` rules out.
#[verifier::external_body]
pub(crate) fn bytes_mut_with_capacity(capacity: usize) -> (r: BytesMut)
    requires
        capacity <= isize::MAX,
    ensures
        bytes_mut_contents(r) == Seq::<u8>::empty(),
{
    BytesMut::with_capacity(capacity)
}

/// Calls `BytesMut::freeze`, which turns the `BytesMut` into a `Bytes` holding the same bytes.
#[verifier::external_body]
pub(crate) fn bytes_mut_freeze(b: BytesMut) -> (r: Bytes)
    ensures
        bytes_contents(r) == bytes_mut_contents(b),
{
    b.freeze()
}

/// Calls `<Vec<u8> as From<BytesMut>>::from`, which gives a vector holding the same bytes.
#[verifier::external_body]
pub(crate) fn bytes_mut_into_vec(b: BytesMut) -> (r: Vec<u8>)
    ensures
        r@ == bytes_mut_contents(b),
{
    Vec::from(b)
}

/// Calls `Bytes::split_to`, which splits off and returns the first `at` bytes, leaving the rest.
/// It panics when `at` exceeds the length, which `requires` rules out.
#[verifier::external_body]
pub(crate) fn bytes_split_to(b: &mut Bytes, at: usize) -> (r: Bytes)
    requires
        at <= bytes_contents(*old(b)).len(),
    ensures
        bytes_contents(r) == bytes_contents(*old(b)).take(at as int),
        bytes_contents(*final(b)) == bytes_contents(*old(b)).skip(at as int),
{
    b.split_to(at)
}

/// Calls `Bytes::copy_from_slice`, which creates a `Bytes` holding a copy of the slice.
#[verifier::external_body]
pub(crate) fn bytes_copy_from_slice(data: &[u8]) -> (r: Bytes)
    ensures
        bytes_contents(r) == data@,
{
    Bytes::copy_from_slice(data)
}

} // verus!
