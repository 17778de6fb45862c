//! Plain data types with built-in encodings.
use crate::buf::ReverseBuf;
use crate::encoding::{
    field_value_extent, lemma_field_value_extent_within, restriction_outcome, skip_field,
    skip_field_in_slice, Canonicity, DecodeContext, RawDistinguishedMessageBorrowDecoder,
    RawDistinguishedMessageDecoder, RawMessage, RawMessageBorrowDecoder, RawMessageDecoder,
    RestrictedDecodeContext, WireType,
};
use crate::error::{DecodeError, DecodeErrorKind};
use bytes::{Bytes, BytesMut};
use vstd::prelude::*;
use vstd::string::StringSliceAdditionalSpecFns;

verus! {

/// Newtype wrapper acting as a simple "bytes data" type. It transparently wraps a `Vec<u8>`.
#[derive(PartialOrd, Ord, PartialEq, Eq, Hash, Debug)]
pub struct Blob(Vec<u8>);

impl View for Blob {
    type V = Seq<u8>;

    /// The bytes held.
    closed spec fn view(&self) -> Seq<u8> {
        self.0@
    }
}

impl Blob {
    /// The blob wrapping exactly the given vector.
    pub closed spec fn spec_from_vec(vec: Vec<u8>) -> Blob {
        Blob(vec)
    }

    /// The vector a blob wraps.
    pub closed spec fn spec_inner(self) -> Vec<u8> {
        self.0
    }

    /// The wrapped vector and the blob agree on their bytes.
    pub proof fn lemma_wraps(vec: Vec<u8>, blob: Blob)
        ensures
            Blob::spec_from_vec(vec)@ == vec@,
            Blob::spec_from_vec(vec).spec_inner() == vec,
            blob.spec_inner()@ == blob@,
    {
    }

    /// Creates an empty blob.
    pub fn new() -> (r: Self)
        ensures
            r@ == Seq::<u8>::empty(),
    {
        Blob(Vec::new())
    }

    /// Wraps a vector.
    pub fn from_vec(vec: Vec<u8>) -> (r: Self)
        ensures
            r == Blob::spec_from_vec(vec),
            r@ == vec@,
    {
        Blob(vec)
    }

    /// Unwraps the vector.
    pub fn into_inner(self) -> (r: Vec<u8>)
        ensures
            r == self.spec_inner(),
            r@ == self@,
    {
        self.0
    }
}

impl Clone for Blob {
    fn clone(&self) -> (r: Self)
        ensures
            r@ == self@,
    {
        let mut copy: Vec<u8> = Vec::new();
        crate::buf::append_slice(&mut copy, self.0.as_slice());
        assert(copy@ =~= self.0@);
        Blob(copy)
    }
}

impl core::ops::Deref for Blob {
    type Target = Vec<u8>;

    fn deref(&self) -> (r: &Vec<u8>)
        ensures
            r@ == self@,
    {
        &self.0
    }
}

impl core::ops::DerefMut for Blob {
    fn deref_mut(&mut self) -> (r: &mut Vec<u8>)
        ensures
            r@ == old(self)@,
            final(r)@ == final(self)@,
    {
        &mut self.0
    }
}

impl AsRef<Vec<u8>> for Blob {
    fn as_ref(&self) -> (r: &Vec<u8>)
        ensures
            r@ == self@,
    {
        &self.0
    }
}

impl AsMut<Vec<u8>> for Blob {
    fn as_mut(&mut self) -> (r: &mut Vec<u8>)
        ensures
            r@ == old(self)@,
            final(r)@ == final(self)@,
    {
        &mut self.0
    }
}

impl Default for Blob {
    fn default() -> (r: Self)
        ensures
            r@ == Seq::<u8>::empty(),
    {
        Blob::new()
    }
}

impl From<Vec<u8>> for Blob {
    fn from(value: Vec<u8>) -> (r: Self) {
        Blob(value)
    }
}

impl vstd::std_specs::convert::FromSpecImpl<Vec<u8>> for Blob {
    open spec fn obeys_from_spec() -> bool {
        true
    }

    open spec fn from_spec(v: Vec<u8>) -> Blob {
        Blob::spec_from_vec(v)
    }
}

impl From<Blob> for Vec<u8> {
    fn from(value: Blob) -> (r: Self) {
        value.0
    }
}

impl vstd::std_specs::convert::FromSpecImpl<Blob> for Vec<u8> {
    open spec fn obeys_from_spec() -> bool {
        true
    }

    open spec fn from_spec(v: Blob) -> Vec<u8> {
        v.spec_inner()
    }
}

impl From<&[u8]> for Blob {
    fn from(value: &[u8]) -> (r: Self)
        ensures
            r@ == value@,
    {
        Blob(vstd::slice::slice_to_vec(value))
    }
}

impl vstd::std_specs::convert::FromSpecImpl<&[u8]> for Blob {
    open spec fn obeys_from_spec() -> bool {
        false
    }

    /// A blob with the slice's bytes; `from` states its result by the view instead.
    open spec fn from_spec(v: &[u8]) -> Blob {
        choose|b: Blob| #[trigger] b@ == v@
    }
}

impl From<&mut [u8]> for Blob {
    fn from(value: &mut [u8]) -> (r: Self)
        ensures
            r@ == old(value)@,
    {
        Blob(vstd::slice::slice_to_vec(&*value))
    }
}

impl vstd::std_specs::convert::FromSpecImpl<&mut [u8]> for Blob {
    open spec fn obeys_from_spec() -> bool {
        false
    }

    /// A blob with the slice's bytes; `from` states its result by the view instead.
    open spec fn from_spec(v: &mut [u8]) -> Blob {
        choose|b: Blob| #[trigger] b@ == v@
    }
}

impl<const N: usize> From<&[u8; N]> for Blob {
    fn from(value: &[u8; N]) -> (r: Self)
        ensures
            r@ == value@,
    {
        Blob(vstd::slice::slice_to_vec(value.as_slice()))
    }
}

impl<const N: usize> vstd::std_specs::convert::FromSpecImpl<&[u8; N]> for Blob {
    open spec fn obeys_from_spec() -> bool {
        false
    }

    /// A blob with the array's bytes; `from` states its result by the view instead.
    open spec fn from_spec(v: &[u8; N]) -> Blob {
        choose|b: Blob| #[trigger] b@ == v@
    }
}

impl<const N: usize> From<[u8; N]> for Blob {
    fn from(value: [u8; N]) -> (r: Self)
        ensures
            r@ == value@,
    {
        Blob(vstd::slice::slice_to_vec(value.as_slice()))
    }
}

impl<const N: usize> vstd::std_specs::convert::FromSpecImpl<[u8; N]> for Blob {
    open spec fn obeys_from_spec() -> bool {
        false
    }

    /// A blob with the array's bytes; `from` states its result by the view instead.
    open spec fn from_spec(v: [u8; N]) -> Blob {
        choose|b: Blob| #[trigger] b@ == v@
    }
}

impl From<Box<[u8]>> for Blob {
    fn from(value: Box<[u8]>) -> (r: Self)
        ensures
            r@ == value@,
    {
        Blob(value.into_vec())
    }
}

impl vstd::std_specs::convert::FromSpecImpl<Box<[u8]>> for Blob {
    open spec fn obeys_from_spec() -> bool {
        false
    }

    /// A blob with the boxed bytes; `from` states its result by the view instead.
    open spec fn from_spec(v: Box<[u8]>) -> Blob {
        choose|b: Blob| #[trigger] b@ == v@
    }
}

impl From<&str> for Blob {
    fn from(value: &str) -> (r: Self)
        ensures
            r@ == value.spec_bytes(),
    {
        Blob(vstd::slice::slice_to_vec(value.as_bytes()))
    }
}

impl vstd::std_specs::convert::FromSpecImpl<&str> for Blob {
    open spec fn obeys_from_spec() -> bool {
        false
    }

    /// A blob with the string's UTF-8 bytes; `from` states its result by the view instead.
    open spec fn from_spec(v: &str) -> Blob {
        choose|b: Blob| #[trigger] b@ == v.spec_bytes()
    }
}

/// The unit type is a message with no fields: it is always empty and encodes to no bytes.
impl RawMessage for () {
    open spec fn raw_encoding(&self) -> Seq<u8> {
        Seq::empty()
    }

    open spec fn spec_is_empty(&self) -> bool {
        true
    }

    open spec fn empty_value() -> Self {
        ()
    }

    open spec fn cleared(&self) -> Self {
        ()
    }

    fn empty() -> (r: Self) {
    }

    fn is_empty(&self) -> (r: bool) {
        true
    }

    fn clear(&mut self) {
    }

    fn raw_encode(&self, buf: &mut BytesMut) {
        assert(crate::byte_bufs::bytes_mut_contents(*buf) + Seq::<u8>::empty()
            =~= crate::byte_bufs::bytes_mut_contents(*buf));
    }

    fn raw_prepend<B: ReverseBuf>(&self, buf: &mut B) {
        assert(Seq::<u8>::empty() + buf.contents() =~= buf.contents());
    }

    fn raw_encoded_len(&self) -> (r: usize) {
        0
    }
}

/// The unit message has no fields: every field it meets is unknown and is skipped.
impl RawMessageDecoder for () {
    open spec fn field_decoding(
        &self,
        tag: u32,
        wire_type: WireType,
        duplicated: bool,
        input: Seq<u8>,
        depth: u32,
    ) -> Result<((), nat), DecodeErrorKind> {
        match field_value_extent(wire_type, input) {
            Ok(n) => Ok(((), n)),
            Err(k) => Err(k),
        }
    }

    proof fn lemma_field_decoding_within(
        &self,
        tag: u32,
        wire_type: WireType,
        duplicated: bool,
        input: Seq<u8>,
        depth: u32,
    ) {
        lemma_field_value_extent_within(wire_type, input);
    }

    fn raw_decode_field(
        &mut self,
        tag: u32,
        wire_type: WireType,
        duplicated: bool,
        buf: &mut Bytes,
        ctx: DecodeContext,
    ) -> (r: Result<(), DecodeError>) {
        skip_field(wire_type, buf)
    }
}

/// The unit message skips every field it meets in a slice too.
impl<'a> RawMessageBorrowDecoder<'a> for () {
    open spec fn field_borrow_decoding(
        &self,
        tag: u32,
        wire_type: WireType,
        duplicated: bool,
        input: Seq<u8>,
        depth: u32,
    ) -> Result<((), nat), DecodeErrorKind> {
        match field_value_extent(wire_type, input) {
            Ok(n) => Ok(((), n)),
            Err(k) => Err(k),
        }
    }

    proof fn lemma_field_borrow_decoding_within(
        &self,
        tag: u32,
        wire_type: WireType,
        duplicated: bool,
        input: Seq<u8>,
        depth: u32,
    ) {
        lemma_field_value_extent_within(wire_type, input);
    }

    fn raw_borrow_decode_field(
        &mut self,
        tag: u32,
        wire_type: WireType,
        duplicated: bool,
        buf: &mut &'a [u8],
        ctx: DecodeContext,
    ) -> (r: Result<(), DecodeError>) {
        skip_field_in_slice(wire_type, buf)
    }
}

/// In distinguished mode every field the unit message meets is an extension: it is skipped, and
/// the message has at most `HasExtensions` canonicity.
impl RawDistinguishedMessageDecoder for () {
    open spec fn field_decoding_distinguished(
        &self,
        tag: u32,
        wire_type: WireType,
        duplicated: bool,
        input: Seq<u8>,
        depth: u32,
        restrict_to: Canonicity,
    ) -> Result<((), nat, Canonicity), DecodeErrorKind> {
        match restriction_outcome(restrict_to, Canonicity::HasExtensions) {
            Err(k) => Err(k),
            Ok(_) => match field_value_extent(wire_type, input) {
                Ok(n) => Ok(((), n, Canonicity::HasExtensions)),
                Err(k) => Err(k),
            },
        }
    }

    proof fn lemma_field_decoding_distinguished_within(
        &self,
        tag: u32,
        wire_type: WireType,
        duplicated: bool,
        input: Seq<u8>,
        depth: u32,
        restrict_to: Canonicity,
    ) {
        lemma_field_value_extent_within(wire_type, input);
    }

    fn raw_decode_field_distinguished(
        &mut self,
        tag: u32,
        wire_type: WireType,
        duplicated: bool,
        buf: &mut Bytes,
        ctx: RestrictedDecodeContext,
    ) -> (r: Result<Canonicity, DecodeError>) {
        proof {
            let s = crate::byte_bufs::bytes_contents(*buf);
            assert(s.skip(0) =~= s);
        }
        let canon = match ctx.check(Canonicity::HasExtensions) {
            Ok(c) => c,
            Err(e) => return Err(e),
        };
        match skip_field(wire_type, buf) {
            Ok(()) => Ok(canon),
            Err(e) => Err(e),
        }
    }
}

/// The unit message decodes from slices in distinguished mode as it does from buffers.
impl<'a> RawDistinguishedMessageBorrowDecoder<'a> for () {
    open spec fn field_borrow_decoding_distinguished(
        &self,
        tag: u32,
        wire_type: WireType,
        duplicated: bool,
        input: Seq<u8>,
        depth: u32,
        restrict_to: Canonicity,
    ) -> Result<((), nat, Canonicity), DecodeErrorKind> {
        match restriction_outcome(restrict_to, Canonicity::HasExtensions) {
            Err(k) => Err(k),
            Ok(_) => match field_value_extent(wire_type, input) {
                Ok(n) => Ok(((), n, Canonicity::HasExtensions)),
                Err(k) => Err(k),
            },
        }
    }

    proof fn lemma_field_borrow_decoding_distinguished_within(
        &self,
        tag: u32,
        wire_type: WireType,
        duplicated: bool,
        input: Seq<u8>,
        depth: u32,
        restrict_to: Canonicity,
    ) {
        lemma_field_value_extent_within(wire_type, input);
    }

    fn raw_borrow_decode_field_distinguished(
        &mut self,
        tag: u32,
        wire_type: WireType,
        duplicated: bool,
        buf: &mut &'a [u8],
        ctx: RestrictedDecodeContext,
    ) -> (r: Result<Canonicity, DecodeError>) {
        proof {
            assert((*buf)@.skip(0) =~= (*buf)@);
        }
        let canon = match ctx.check(Canonicity::HasExtensions) {
            Ok(c) => c,
            Err(e) => return Err(e),
        };
        match skip_field_in_slice(wire_type, buf) {
            Ok(()) => Ok(canon),
            Err(e) => Err(e),
        }
    }
}

} // verus!
