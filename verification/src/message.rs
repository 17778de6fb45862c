//! The encoding interface of messages.
use crate::buf::{ReverseBuf, ReverseBuffer};
use crate::byte_bufs::{
    bytes_contents, bytes_mut_contents, bytes_mut_freeze, bytes_mut_into_vec,
    bytes_mut_remaining_mut, bytes_mut_with_capacity,
};
use crate::byte_bufs::{bytes_as_slice, bytes_copy_from_slice, bytes_split_to};
use crate::encoding::{
    borrow_merge, borrow_merge_distinguished, borrow_merge_distinguished_outcome,
    borrow_merge_outcome, merge, merge_distinguished, merge_distinguished_outcome, merge_outcome,
    canonicity_rank, lemma_borrowed_distinguished_outcome_meets_restriction,
    lemma_distinguished_outcome_meets_restriction, least_canonicity, tag_base, key_wire_type,
    field_value_extent, lemma_field_value_extent_within, Canonicity, DecodeContext,
    RawDistinguishedMessageBorrowDecoder,
    RawDistinguishedMessageDecoder, RawMessage, RawMessageBorrowDecoder, RawMessageDecoder,
    RestrictedDecodeContext,
};
use crate::RECURSION_LIMIT;
use crate::error::{DecodeError, DecodeErrorKind};
use crate::varint::{decode_varint, decode_varint_slice, varint_decode};
use crate::error::EncodeError;
use crate::length_delimiter_decode;
use crate::varint::{encode_varint, encoded_len_varint, prepend_varint, varint_encoding};
use bytes::{Bytes, BytesMut};
use vstd::prelude::*;

verus! {

/// The bytes of a message encoding preceded by its length delimiter.
pub open spec fn length_delimited(encoding: Seq<u8>) -> Seq<u8> {
    varint_encoding(encoding.len() as u64) + encoding
}

/// The length delimiter in front of a length-delimited encoding decodes to the encoding's
/// length, and what follows the delimiter is the encoding itself.
pub proof fn lemma_length_delimited_roundtrip(encoding: Seq<u8>, rest: Seq<u8>)
    requires
        encoding.len() <= usize::MAX,
    ensures
        crate::length_delimiter_decode(length_delimited(encoding) + rest) == Ok::<
            usize,
            crate::DecodeErrorKind,
        >(encoding.len() as usize),
        (length_delimited(encoding) + rest).skip(
            varint_encoding(encoding.len() as u64).len() as int,
        ) == encoding + rest,
{
    let d = varint_encoding(encoding.len() as u64);
    assert(length_delimited(encoding) + rest =~= d + (encoding + rest));
    crate::lemma_length_delimiter_roundtrip(encoding.len() as usize, encoding + rest);
    assert((d + (encoding + rest)).skip(d.len() as int) =~= encoding + rest);
}

/// A message: the encoding functionality that every `RawMessage` has. The methods that need no
/// type parameter can be called on a `dyn Message`.
pub trait Message {
    /// The bytes that encode the message, without a length delimiter.
    spec fn message_encoding(&self) -> Seq<u8>;

    /// Whether the message is in its empty state.
    spec fn message_empty(&self) -> bool;

    /// Creates a new message in the empty state.
    fn new_empty() -> (r: Self) where Self: Sized
        ensures
            r.message_empty(),
    ;

    /// Encodes the message at the end of the buffer. An error is returned, and the buffer left
    /// unchanged, when the buffer lacks the capacity.
    fn encode(&self, buf: &mut BytesMut) -> (r: Result<(), EncodeError>)
        ensures
            r is Ok <==> self.message_encoding().len() + bytes_mut_contents(*old(buf)).len()
                <= isize::MAX,
            r is Ok ==> bytes_mut_contents(*final(buf)) == bytes_mut_contents(*old(buf))
                + self.message_encoding(),
            r matches Err(e) ==> e.spec_required() == self.message_encoding().len()
                && e.spec_remaining() == isize::MAX - bytes_mut_contents(*old(buf)).len()
                && bytes_mut_contents(*final(buf)) == bytes_mut_contents(*old(buf)),
    ;

    /// Prepends the message to a buffer.
    fn prepend<B: ReverseBuf>(&self, buf: &mut B) where Self: Sized
        requires
            old(buf).is_valid(),
            self.message_encoding().len() <= old(buf).writable(),
        ensures
            final(buf).is_valid(),
            final(buf).contents() == self.message_encoding() + old(buf).contents(),
    ;

    /// Encodes the message with a length delimiter at the end of the buffer. An error is
    /// returned, and the buffer left unchanged, when the buffer lacks the capacity.
    fn encode_length_delimited(&self, buf: &mut BytesMut) -> (r: Result<(), EncodeError>)
        requires
            length_delimited(self.message_encoding()).len() <= usize::MAX,
        ensures
            r is Ok <==> length_delimited(self.message_encoding()).len() + bytes_mut_contents(
                *old(buf),
            ).len() <= isize::MAX,
            r is Ok ==> bytes_mut_contents(*final(buf)) == bytes_mut_contents(*old(buf))
                + length_delimited(self.message_encoding()),
            r matches Err(e) ==> e.spec_required() == length_delimited(
                self.message_encoding(),
            ).len() && e.spec_remaining() == isize::MAX - bytes_mut_contents(*old(buf)).len()
                && bytes_mut_contents(*final(buf)) == bytes_mut_contents(*old(buf)),
    ;

    /// Returns whether the message is in its empty state.
    fn message_is_empty(&self) -> (r: bool)
        ensures
            r == self.message_empty(),
    ;

    /// Resets the message to its empty state.
    fn clear_message(&mut self)
        ensures
            final(self).message_empty(),
    ;

    /// Returns the encoded length of the message without a length delimiter.
    fn encoded_len(&self) -> (r: usize)
        ensures
            r == self.message_encoding().len(),
    ;

    /// Encodes the message to a newly allocated vector.
    fn encode_to_vec(&self) -> (r: Vec<u8>)
        requires
            self.message_encoding().len() <= isize::MAX,
        ensures
            r@ == self.message_encoding(),
    ;

    /// Encodes the message to a `Bytes`.
    fn encode_to_bytes(&self) -> (r: Bytes)
        requires
            self.message_encoding().len() <= isize::MAX,
        ensures
            bytes_contents(r) == self.message_encoding(),
    ;

    /// Encodes the message to a new `ReverseBuffer`.
    fn encode_fast(&self) -> (r: ReverseBuffer)
        requires
            self.message_encoding().len() <= isize::MAX,
        ensures
            r.wf(),
            r@ == self.message_encoding(),
    ;

    /// Encodes the message with a length delimiter to a new `ReverseBuffer`.
    fn encode_length_delimited_fast(&self) -> (r: ReverseBuffer)
        requires
            self.message_encoding().len() + 9 <= isize::MAX,
        ensures
            r.wf(),
            r@ == length_delimited(self.message_encoding()),
    ;

    /// Encodes the message to a new `ReverseBuffer` with exactly the required capacity, in one
    /// contiguous slice.
    fn encode_contiguous(&self) -> (r: ReverseBuffer)
        requires
            self.message_encoding().len() <= isize::MAX,
        ensures
            r.wf(),
            r@ == self.message_encoding(),
            r.chunk_sizes().len() <= 1,
            crate::buf::sum_sizes(r.chunk_sizes()) == self.message_encoding().len(),
            r.chunk_sizes() == (if self.message_encoding().len() > 0 {
                seq![self.message_encoding().len()]
            } else {
                Seq::<nat>::empty()
            }),
    ;

    /// Encodes the message with a length delimiter to a new `ReverseBuffer` with exactly the
    /// required capacity, in one contiguous slice.
    fn encode_length_delimited_contiguous(&self) -> (r: ReverseBuffer)
        requires
            self.message_encoding().len() + 9 <= isize::MAX,
        ensures
            r.wf(),
            r@ == length_delimited(self.message_encoding()),
            r.chunk_sizes().len() <= 1,
            crate::buf::sum_sizes(r.chunk_sizes()) == length_delimited(
                self.message_encoding(),
            ).len(),
            r.chunk_sizes() == seq![length_delimited(self.message_encoding()).len()],
    ;

    /// Encodes the message with a length delimiter to a newly allocated vector.
    fn encode_length_delimited_to_vec(&self) -> (r: Vec<u8>)
        requires
            self.message_encoding().len() + 9 <= isize::MAX,
        ensures
            r@ == length_delimited(self.message_encoding()),
    ;

    /// Encodes the message with a length delimiter to a `Bytes`.
    fn encode_length_delimited_to_bytes(&self) -> (r: Bytes)
        requires
            self.message_encoding().len() + 9 <= isize::MAX,
        ensures
            bytes_contents(r) == length_delimited(self.message_encoding()),
    ;
}

/// Writes the length delimiter and then the message into a fresh `BytesMut`.
fn encode_delimited_fresh<T: RawMessage>(msg: &T) -> (r: BytesMut)
    requires
        msg.raw_encoding().len() + 9 <= isize::MAX,
    ensures
        bytes_mut_contents(r) == length_delimited(msg.raw_encoding()),
{
    let len = msg.raw_encoded_len();
    let delimiter = encoded_len_varint(len as u64);
    let mut buf = bytes_mut_with_capacity(len + delimiter);
    encode_varint(len as u64, &mut buf);
    msg.raw_encode(&mut buf);
    assert(bytes_mut_contents(buf) =~= length_delimited(msg.raw_encoding()));
    buf
}

impl<T: RawMessage> Message for T {
    open spec fn message_encoding(&self) -> Seq<u8> {
        self.raw_encoding()
    }

    open spec fn message_empty(&self) -> bool {
        self.spec_is_empty()
    }

    fn new_empty() -> (r: Self) {
        T::empty()
    }

    fn encode(&self, buf: &mut BytesMut) -> (r: Result<(), EncodeError>) {
        let required = self.raw_encoded_len();
        let remaining = bytes_mut_remaining_mut(buf);
        if required > remaining {
            return Err(EncodeError::new(required, remaining));
        }
        self.raw_encode(buf);
        Ok(())
    }

    fn prepend<B: ReverseBuf>(&self, buf: &mut B) {
        self.raw_prepend(buf)
    }

    fn encode_length_delimited(&self, buf: &mut BytesMut) -> (r: Result<(), EncodeError>) {
        let len = self.raw_encoded_len();
        let delimiter = encoded_len_varint(len as u64);
        let remaining = bytes_mut_remaining_mut(buf);
        if len > remaining || delimiter > remaining - len {
            return Err(EncodeError::new(len + delimiter, remaining));
        }
        let ghost before = bytes_mut_contents(*buf);
        encode_varint(len as u64, buf);
        self.raw_encode(buf);
        assert(bytes_mut_contents(*buf) =~= before + length_delimited(self.raw_encoding()));
        Ok(())
    }

    fn message_is_empty(&self) -> (r: bool) {
        self.is_empty()
    }

    fn clear_message(&mut self) {
        self.clear()
    }

    fn encoded_len(&self) -> (r: usize) {
        self.raw_encoded_len()
    }

    fn encode_to_vec(&self) -> (r: Vec<u8>) {
        let mut buf = bytes_mut_with_capacity(self.raw_encoded_len());
        self.raw_encode(&mut buf);
        assert(bytes_mut_contents(buf) =~= self.raw_encoding());
        bytes_mut_into_vec(buf)
    }

    fn encode_to_bytes(&self) -> (r: Bytes) {
        let mut buf = bytes_mut_with_capacity(self.raw_encoded_len());
        self.raw_encode(&mut buf);
        assert(bytes_mut_contents(buf) =~= self.raw_encoding());
        bytes_mut_freeze(buf)
    }

    fn encode_fast(&self) -> (r: ReverseBuffer) {
        let mut buf = ReverseBuffer::new();
        self.raw_prepend(&mut buf);
        assert(buf@ =~= self.raw_encoding());
        buf
    }

    fn encode_length_delimited_fast(&self) -> (r: ReverseBuffer) {
        let mut buf = ReverseBuffer::new();
        self.raw_prepend(&mut buf);
        proof {
            buf.lemma_layout();
            crate::varint::lemma_varint_encoding_len(buf@.len() as u64);
        }
        let len = buf.len();
        prepend_varint(len as u64, &mut buf);
        assert(buf@ =~= length_delimited(self.raw_encoding()));
        buf
    }

    fn encode_contiguous(&self) -> (r: ReverseBuffer) {
        let len = self.raw_encoded_len();
        let mut buf = ReverseBuffer::with_capacity(len);
        proof {
            buf.lemma_layout();
        }
        self.raw_prepend(&mut buf);
        proof {
            buf.lemma_layout();
        }
        assert(buf@ =~= self.raw_encoding());
        buf
    }

    fn encode_length_delimited_contiguous(&self) -> (r: ReverseBuffer) {
        let len = self.raw_encoded_len();
        let delimiter = encoded_len_varint(len as u64);
        let mut buf = ReverseBuffer::with_capacity(len + delimiter);
        proof {
            buf.lemma_layout();
        }
        self.raw_prepend(&mut buf);
        prepend_varint(len as u64, &mut buf);
        proof {
            buf.lemma_layout();
        }
        assert(buf@ =~= length_delimited(self.raw_encoding()));
        buf
    }

    fn encode_length_delimited_to_vec(&self) -> (r: Vec<u8>) {
        bytes_mut_into_vec(encode_delimited_fresh(self))
    }

    fn encode_length_delimited_to_bytes(&self) -> (r: Bytes) {
        bytes_mut_freeze(encode_delimited_fresh(self))
    }
}

/// Where a length-delimited message at the front of `s` ends, or the kind of error: the length
/// delimiter must decode, fit in `usize`, and be followed by at least that many bytes.
pub open spec fn delimited_extent(s: Seq<u8>) -> Result<(nat, nat), DecodeErrorKind> {
    match length_delimiter_decode(s) {
        Err(k) => Err(k),
        Ok(len) => {
            let d = varint_decode(s)->Ok_0.1;
            if len as int <= s.len() - d {
                Ok((d, len as nat))
            } else {
                Err(DecodeErrorKind::Truncated)
            }
        },
    }
}

/// The body of a length-delimited value at the front of `s`, or the kind of error.
pub open spec fn delimited_body(s: Seq<u8>) -> Result<Seq<u8>, DecodeErrorKind> {
    match delimited_extent(s) {
        Err(k) => Err(k),
        Ok((d, len)) => Ok(s.subrange(d as int, (d + len) as int)),
    }
}

/// A length-delimited region is its delimiter followed by exactly as many bytes as the delimiter
/// says, whatever comes after them; when fewer bytes follow the delimiter than it says, the region
/// is `Truncated`. Whatever region is found lies within the bytes and starts with the encoding of
/// its own length.
pub proof fn lemma_delimited_extent(len: usize, body: Seq<u8>, tail: Seq<u8>, s: Seq<u8>)
    ensures
        body.len() == len ==> delimited_extent(varint_encoding(len as u64) + body + tail) == Ok::<
            (nat, nat),
            DecodeErrorKind,
        >((varint_encoding(len as u64).len(), len as nat)),
        body.len() == len ==> delimited_body(varint_encoding(len as u64) + body + tail) == Ok::<
            Seq<u8>,
            DecodeErrorKind,
        >(body),
        body.len() < len ==> delimited_extent(varint_encoding(len as u64) + body) == Err::<
            (nat, nat),
            DecodeErrorKind,
        >(DecodeErrorKind::Truncated),
        delimited_extent(s) matches Ok((d, n)) ==> d + n <= s.len() && n <= usize::MAX
            && s.take(d as int) == varint_encoding(n as u64),
{
    let e = varint_encoding(len as u64);
    crate::varint::lemma_varint_roundtrip(len as u64, body + tail);
    crate::varint::lemma_varint_roundtrip(len as u64, body);
    assert(e + body + tail =~= e + (body + tail));
    if body.len() == len {
        assert((e + body + tail).subrange(e.len() as int, (e.len() + len) as int) =~= body);
    }
    if varint_decode(s) is Ok {
        crate::varint::lemma_varint_canonical(s);
        crate::varint::lemma_varint_decode_extent(s);
    }
}

/// A decoding result agrees with an outcome: the same value, or an error of the same kind.
pub open spec fn outcome_matches<T>(
    r: Result<T,
    DecodeError>,
    outcome: Result<T,
    DecodeErrorKind>,
) -> bool {
    match outcome {
        Ok(m) => r == Ok::<T, DecodeError>(m),
        Err(k) => r matches Err(e) && e.spec_kind() == k,
    }
}

/// An outcome with its value left out: whether it succeeds, or the kind of error.
pub open spec fn without_value<T>(outcome: Result<T, DecodeErrorKind>) -> Result<(
), DecodeErrorKind> {
    match outcome {
        Ok(_) => Ok(()),
        Err(k) => Err(k),
    }
}

/// What decoding all of `input` into `before` gives, the fields that decoding fills being reset
/// first: the message afterwards, or the kind of error.
pub open spec fn relaxed_replacement<T: RawMessageDecoder>(before: T, input: Seq<u8>) -> Result<
    T,
    DecodeErrorKind,
> {
    merge_outcome(before.cleared(), None, input, RECURSION_LIMIT)
}

/// What decoding all of the slice `input` into `before` gives, the fields that decoding fills
/// being reset first.
pub open spec fn borrowed_replacement<'a, T: RawMessageBorrowDecoder<'a>>(
    before: T,
    input: Seq<u8>,
) -> Result<T, DecodeErrorKind> {
    borrow_merge_outcome(before.cleared(), None, input, RECURSION_LIMIT)
}

/// What decoding all of `input` into `before` under the restriction gives, the fields that
/// decoding fills being reset first: the message afterwards and its canonicity, or the kind of
/// error.
pub open spec fn restricted_replacement<T: RawDistinguishedMessageDecoder>(
    before: T,
    input: Seq<u8>,
    restrict_to: Canonicity,
) -> Result<(T, Canonicity), DecodeErrorKind> {
    merge_distinguished_outcome(
        before.cleared(),
        None,
        input,
        RECURSION_LIMIT,
        restrict_to,
        Canonicity::Canonical,
    )
}

/// What decoding all of the slice `input` into `before` under the restriction gives, the fields
/// that decoding fills being reset first.
pub open spec fn borrowed_restricted_replacement<'a, T: RawDistinguishedMessageBorrowDecoder<'a>>(
    before: T,
    input: Seq<u8>,
    restrict_to: Canonicity,
) -> Result<(T, Canonicity), DecodeErrorKind> {
    borrow_merge_distinguished_outcome(
        before.cleared(),
        None,
        input,
        RECURSION_LIMIT,
        restrict_to,
        Canonicity::Canonical,
    )
}

/// Replacing a message's fields from an input forgets what those fields held: two messages that
/// clear to the same message end the same, and replacing from no bytes leaves the cleared message.
pub proof fn lemma_replacement_forgets_before<T: RawMessageDecoder>(a: T, b: T, input: Seq<u8>)
    requires
        a.cleared() == b.cleared(),
    ensures
        relaxed_replacement(a, input) == relaxed_replacement(b, input),
        relaxed_replacement(a, Seq::empty()) == Ok::<T, DecodeErrorKind>(a.cleared()),
{
}

/// Replacing a message's fields from a slice forgets what those fields held, as from a buffer.
pub proof fn lemma_borrowed_replacement_forgets_before<'a, T: RawMessageBorrowDecoder<'a>>(
    a: T,
    b: T,
    input: Seq<u8>,
)
    requires
        a.cleared() == b.cleared(),
    ensures
        borrowed_replacement(a, input) == borrowed_replacement(b, input),
        borrowed_replacement(a, Seq::empty()) == Ok::<T, DecodeErrorKind>(a.cleared()),
{
}

/// Replacing a message's fields under a restriction forgets what those fields held, and replacing
/// from no bytes leaves the cleared message, canonically.
pub proof fn lemma_restricted_replacement_forgets_before<T: RawDistinguishedMessageDecoder>(
    a: T,
    b: T,
    input: Seq<u8>,
    restrict_to: Canonicity,
)
    requires
        a.cleared() == b.cleared(),
    ensures
        restricted_replacement(a, input, restrict_to) == restricted_replacement(
            b,
            input,
            restrict_to,
        ),
        restricted_replacement(a, Seq::empty(), restrict_to) == Ok::<
            (T, Canonicity),
            DecodeErrorKind,
        >((a.cleared(), Canonicity::Canonical)),
{
}

/// Replacing a message's fields from a slice under a restriction forgets what those fields held,
/// as from a buffer.
pub proof fn lemma_borrowed_restricted_replacement_forgets_before<
    'a,
    T: RawDistinguishedMessageBorrowDecoder<'a>,
>(a: T, b: T, input: Seq<u8>, restrict_to: Canonicity)
    requires
        a.cleared() == b.cleared(),
    ensures
        borrowed_restricted_replacement(a, input, restrict_to) == borrowed_restricted_replacement(
            b,
            input,
            restrict_to,
        ),
        borrowed_restricted_replacement(a, Seq::empty(), restrict_to) == Ok::<
            (T, Canonicity),
            DecodeErrorKind,
        >((a.cleared(), Canonicity::Canonical)),
{
}

/// Decoding of messages into owned values. The methods that replace a message's fields can be
/// called on a `dyn OwnedMessage`.
pub trait OwnedMessage: Message {
    /// What decoding a message from all of `input` gives: the message, or the kind of error.
    spec fn decoding(input: Seq<u8>) -> Result<Self, DecodeErrorKind> where Self: Sized;

    /// Whether decoding all of `input` into this message succeeds, the fields that decoding
    /// fills being reset first, or the kind of error. (What the message holds afterwards depends
    /// on the implementation, which states it.)
    spec fn replace_outcome(&self, input: Seq<u8>) -> Result<(), DecodeErrorKind>;

    /// Decodes an instance of the message from a buffer, consuming all of it.
    fn decode(buf: Bytes) -> (r: Result<Self, DecodeError>) where Self: Sized
        ensures
            outcome_matches(r, Self::decoding(bytes_contents(buf))),
    ;

    /// Decodes a length-delimited instance of the message from the front of the buffer. A
    /// delimiter that does not decode, or that claims more bytes than follow it, is an error.
    fn decode_length_delimited(buf: Bytes) -> (r: Result<Self, DecodeError>) where Self: Sized
        ensures
            match delimited_body(bytes_contents(buf)) {
                Err(k) => r matches Err(e) && e.spec_kind() == k,
                Ok(body) => outcome_matches(r, Self::decoding(body)),
            },
    ;

    /// Decodes the message's fields from the buffer, replacing their values.
    fn replace_from(&mut self, buf: Bytes) -> (r: Result<(), DecodeError>)
        ensures
            outcome_matches(r, old(self).replace_outcome(bytes_contents(buf))),
    ;

    /// Decodes the message's fields from a length-delimited value at the front of the buffer,
    /// replacing their values.
    fn replace_from_length_delimited(&mut self, buf: Bytes) -> (r: Result<(), DecodeError>)
        ensures
            match delimited_body(bytes_contents(buf)) {
                Err(k) => r matches Err(e) && e.spec_kind() == k,
                Ok(body) => outcome_matches(r, old(self).replace_outcome(body)),
            },
    ;

    /// Decodes the message's fields from the slice, replacing their values.
    fn replace_from_slice(&mut self, buf: &[u8]) -> (r: Result<(), DecodeError>)
        ensures
            outcome_matches(r, old(self).replace_outcome(buf@)),
    ;

    /// Decodes the message's fields from a length-delimited value at the front of the slice,
    /// replacing their values.
    fn replace_from_length_delimited_slice(&mut self, buf: &[u8]) -> (r: Result<(), DecodeError>)
        ensures
            match delimited_body(buf@) {
                Err(k) => r matches Err(e) && e.spec_kind() == k,
                Ok(body) => outcome_matches(r, old(self).replace_outcome(body)),
            },
    ;
}

/// Reads a length delimiter from the front of the buffer and splits off that many bytes.
fn split_delimited(buf: &mut Bytes) -> (r: Result<Bytes, DecodeError>)
    ensures
        match delimited_extent(bytes_contents(*old(buf))) {
            Err(k) => r matches Err(e) && e.spec_kind() == k,
            Ok((d, len)) => r matches Ok(part) && bytes_contents(part) == bytes_contents(
                *old(buf),
            ).subrange(d as int, (d + len) as int),
        },
{
    let ghost s = bytes_contents(*buf);
    let len = match decode_varint(buf) {
        Ok(v) => v,
        Err(e) => return Err(e),
    };
    if len > usize::MAX as u64 {
        return Err(DecodeError::new(DecodeErrorKind::Oversize));
    }
    proof {
        crate::varint::lemma_varint_decode_extent(s);
    }
    let len = len as usize;
    if len > bytes_as_slice(buf).len() {
        return Err(DecodeError::new(DecodeErrorKind::Truncated));
    }
    let part = bytes_split_to(buf, len);
    proof {
        let d = varint_decode(s)->Ok_0.1;
        assert(bytes_contents(part) =~= s.subrange(d as int, (d + len) as int));
    }
    Ok(part)
}

impl<T: RawMessageDecoder> OwnedMessage for T {
    open spec fn decoding(input: Seq<u8>) -> Result<Self, DecodeErrorKind> {
        merge_outcome(T::empty_value(), None, input, RECURSION_LIMIT)
    }

    open spec fn replace_outcome(&self, input: Seq<u8>) -> Result<(), DecodeErrorKind> {
        without_value(relaxed_replacement(*self, input))
    }

    fn decode(buf: Bytes) -> (r: Result<Self, DecodeError>) {
        let mut buf = buf;
        let mut message = T::empty();
        match merge(&mut message, &mut buf, DecodeContext::new()) {
            Ok(()) => Ok(message),
            Err(e) => Err(e),
        }
    }

    fn decode_length_delimited(buf: Bytes) -> (r: Result<Self, DecodeError>) {
        let mut buf = buf;
        let part = match split_delimited(&mut buf) {
            Ok(part) => part,
            Err(e) => return Err(e),
        };
        T::decode(part)
    }

    fn replace_from(&mut self, buf: Bytes) -> (r: Result<(), DecodeError>)
        ensures
            r is Ok ==> relaxed_replacement(*old(self), bytes_contents(buf)) == Ok::<
                T,
                DecodeErrorKind,
            >(*final(self)),
    {
        let mut buf = buf;
        self.clear();
        match merge(self, &mut buf, DecodeContext::new()) {
            Ok(()) => Ok(()),
            Err(e) => Err(e),
        }
    }

    fn replace_from_length_delimited(&mut self, buf: Bytes) -> (r: Result<(), DecodeError>)
        ensures
            r is Ok
                ==> (delimited_body(bytes_contents(buf)) matches Ok(body) && relaxed_replacement(
                *old(self),
                body,
            ) == Ok::<T, DecodeErrorKind>(*final(self))),
    {
        let mut buf = buf;
        let part = match split_delimited(&mut buf) {
            Ok(part) => part,
            Err(e) => return Err(e),
        };
        self.replace_from(part)
    }

    fn replace_from_slice(&mut self, buf: &[u8]) -> (r: Result<(), DecodeError>)
        ensures
            r is Ok ==> relaxed_replacement(*old(self), buf@) == Ok::<T, DecodeErrorKind>(
                *final(self),
            ),
    {
        self.replace_from(bytes_copy_from_slice(buf))
    }

    fn replace_from_length_delimited_slice(&mut self, buf: &[u8]) -> (r: Result<(), DecodeError>)
        ensures
            r is Ok ==> (delimited_body(buf@) matches Ok(body) && relaxed_replacement(
                *old(self),
                body,
            ) == Ok::<T, DecodeErrorKind>(*final(self))),
    {
        self.replace_from_length_delimited(bytes_copy_from_slice(buf))
    }
}

/// Reads a length delimiter from the front of the slice, splits off that many bytes after it,
/// and leaves the slice after them.
fn split_delimited_slice<'a>(buf: &mut &'a [u8]) -> (r: Result<&'a [u8], DecodeError>)
    ensures
        match delimited_extent((*old(buf))@) {
            Err(k) => r matches Err(e) && e.spec_kind() == k,
            Ok((d, len)) => r matches Ok(part) && part@ == (*old(buf))@.subrange(
                d as int,
                (d + len) as int,
            ) && (*final(buf))@ == (*old(buf))@.skip((d + len) as int),
        },
{
    let bytes: &'a [u8] = *buf;
    let (len, d) = match decode_varint_slice(bytes) {
        Ok(pair) => pair,
        Err(e) => return Err(e),
    };
    if len > usize::MAX as u64 {
        return Err(DecodeError::new(DecodeErrorKind::Oversize));
    }
    let len = len as usize;
    if len > bytes.len() - d {
        return Err(DecodeError::new(DecodeErrorKind::Truncated));
    }
    let part = vstd::slice::slice_subrange(bytes, d, d + len);
    *buf = vstd::slice::slice_subrange(bytes, d + len, bytes.len());
    assert((*buf)@ =~= bytes@.skip((d + len) as int));
    Ok(part)
}

/// Decoding of messages that may borrow from the slice they are decoded from. The methods that
/// replace a message's fields can be called on a `dyn BorrowedMessage`.
pub trait BorrowedMessage<'a>: Message {
    /// What decoding a message from all of `input` gives: the message, or the kind of error.
    spec fn borrowed_decoding(input: Seq<u8>) -> Result<Self, DecodeErrorKind> where Self: Sized;

    /// Whether decoding all of `input` into this message succeeds, the fields that decoding
    /// fills being reset first, or the kind of error. (What the message holds afterwards depends
    /// on the implementation, which states it.)
    spec fn borrowed_replace_outcome(&self, input: Seq<u8>) -> Result<(), DecodeErrorKind>;

    /// Decodes an instance of the message from all of the slice.
    fn decode_borrowed(buf: &'a [u8]) -> (r: Result<Self, DecodeError>) where Self: Sized
        ensures
            outcome_matches(r, Self::borrowed_decoding(buf@)),
    ;

    /// Decodes a length-delimited instance of the message from the front of the slice. When the
    /// delimiter is read and the slice holds as many bytes as it says, the slice is left after
    /// them, whether or not they decode.
    fn decode_borrowed_length_delimited(buf: &mut &'a [u8]) -> (r: Result<Self, DecodeError>) where
        Self: Sized,

        ensures
            match delimited_extent((*old(buf))@) {
                Err(k) => r matches Err(e) && e.spec_kind() == k,
                Ok((d, len)) => (*final(buf))@ == (*old(buf))@.skip((d + len) as int)
                    && outcome_matches(
                    r,
                    Self::borrowed_decoding((*old(buf))@.subrange(d as int, (d + len) as int)),
                ),
            },
    ;

    /// Decodes the message's fields from the slice, replacing their values.
    fn replace_borrowed_from(&mut self, buf: &'a [u8]) -> (r: Result<(), DecodeError>)
        ensures
            outcome_matches(r, old(self).borrowed_replace_outcome(buf@)),
    ;

    /// Decodes the message's fields from a length-delimited value at the front of the slice,
    /// replacing their values. When the delimiter is read and the slice holds as many bytes as
    /// it says, the slice is left after them, whether or not they decode.
    fn replace_borrowed_from_length_delimited(&mut self, buf: &mut &'a [u8]) -> (r: Result<
        (),
        DecodeError,
    >)
        ensures
            match delimited_extent((*old(buf))@) {
                Err(k) => r matches Err(e) && e.spec_kind() == k,
                Ok((d, len)) => (*final(buf))@ == (*old(buf))@.skip((d + len) as int)
                    && outcome_matches(
                    r,
                    old(self).borrowed_replace_outcome(
                        (*old(buf))@.subrange(d as int, (d + len) as int),
                    ),
                ),
            },
    ;
}

impl<'a, T: RawMessageBorrowDecoder<'a>> BorrowedMessage<'a> for T {
    open spec fn borrowed_decoding(input: Seq<u8>) -> Result<Self, DecodeErrorKind> {
        borrow_merge_outcome(T::empty_value(), None, input, RECURSION_LIMIT)
    }

    open spec fn borrowed_replace_outcome(&self, input: Seq<u8>) -> Result<(), DecodeErrorKind> {
        without_value(borrowed_replacement(*self, input))
    }

    fn decode_borrowed(buf: &'a [u8]) -> (r: Result<Self, DecodeError>) {
        let mut buf = buf;
        let mut message = T::empty();
        match borrow_merge(&mut message, &mut buf, DecodeContext::new()) {
            Ok(()) => Ok(message),
            Err(e) => Err(e),
        }
    }

    fn decode_borrowed_length_delimited(buf: &mut &'a [u8]) -> (r: Result<Self, DecodeError>) {
        let part = match split_delimited_slice(buf) {
            Ok(part) => part,
            Err(e) => return Err(e),
        };
        T::decode_borrowed(part)
    }

    fn replace_borrowed_from(&mut self, buf: &'a [u8]) -> (r: Result<(), DecodeError>)
        ensures
            r is Ok ==> borrowed_replacement(*old(self), buf@) == Ok::<T, DecodeErrorKind>(
                *final(self),
            ),
    {
        let mut buf = buf;
        self.clear();
        match borrow_merge(self, &mut buf, DecodeContext::new()) {
            Ok(()) => Ok(()),
            Err(e) => Err(e),
        }
    }

    fn replace_borrowed_from_length_delimited(&mut self, buf: &mut &'a [u8]) -> (r: Result<
        (),
        DecodeError,
    >)
        ensures
            r is Ok
                ==> (delimited_extent((*old(buf))@) matches Ok((d, len)) && borrowed_replacement(
                *old(self),
                (*old(buf))@.subrange(d as int, (d + len) as int),
            ) == Ok::<T, DecodeErrorKind>(*final(self))),
    {
        let part = match split_delimited_slice(buf) {
            Ok(part) => part,
            Err(e) => return Err(e),
        };
        self.replace_borrowed_from(part)
    }
}


/// An outcome with its canonicity left out.
pub open spec fn without_canonicity<T>(outcome: Result<(T, Canonicity), DecodeErrorKind>) -> Result<
    T,
    DecodeErrorKind,
> {
    match outcome {
        Ok((m, _)) => Ok(m),
        Err(k) => Err(k),
    }
}

/// Decoding of messages into owned values in distinguished mode, which also tells how canonical
/// the encoding was. "Distinguished" methods accept any canonicity; "restricted" methods fail as
/// soon as the canonicity falls below the restriction (`NotCanonical` for a non-canonical known
/// field, `UnknownField` for an unknown one); "canonical" methods are restricted to `Canonical`.
/// The methods that replace a message's fields can be called on a `dyn DistinguishedOwnedMessage`.
pub trait DistinguishedOwnedMessage: OwnedMessage {
    /// What decoding a message from all of `input` under the restriction gives: the message and
    /// its canonicity, or the kind of error.
    spec fn restricted_decoding(input: Seq<u8>, restrict_to: Canonicity) -> Result<
        (Self, Canonicity),
        DecodeErrorKind,
    > where Self: Sized;

    /// What decoding all of `input` into this message under the restriction gives, the fields
    /// that decoding fills being reset first: the canonicity, or the kind of error. (What the
    /// message holds afterwards depends on the implementation, which states it.)
    spec fn restricted_replace_outcome(&self, input: Seq<u8>, restrict_to: Canonicity) -> Result<
        Canonicity,
        DecodeErrorKind,
    >;

    /// Decodes an instance of the message from all of the buffer in distinguished mode.
    fn decode_distinguished(
        buf: Bytes,
    ) -> (r: Result<(Self, Canonicity), DecodeError>) where Self: Sized
        ensures
            outcome_matches(
                r,
                Self::restricted_decoding(bytes_contents(buf), Canonicity::NotCanonical),
            ),
    ;

    /// Decodes a length-delimited instance of the message from the front of the buffer in
    /// distinguished mode.
    fn decode_distinguished_length_delimited(
        buf: Bytes,
    ) -> (r: Result<(Self, Canonicity), DecodeError>) where Self: Sized
        ensures
            match delimited_body(bytes_contents(buf)) {
                Err(k) => r matches Err(e) && e.spec_kind() == k,
                Ok(body) => outcome_matches(
                    r,
                    Self::restricted_decoding(body, Canonicity::NotCanonical),
                ),
            },
    ;

    /// Decodes the message's fields from the buffer in distinguished mode, replacing their values.
    fn replace_distinguished_from(&mut self, buf: Bytes) -> (r: Result<Canonicity, DecodeError>)
        ensures
            outcome_matches(
                r,
                old(self).restricted_replace_outcome(bytes_contents(buf), Canonicity::NotCanonical),
            ),
    ;

    /// Decodes the message's fields from a length-delimited value at the front of the buffer
    /// in distinguished mode, replacing their values.
    fn replace_distinguished_from_length_delimited(
        &mut self,
        buf: Bytes,
    ) -> (r: Result<Canonicity, DecodeError>)
        ensures
            match delimited_body(bytes_contents(buf)) {
                Err(k) => r matches Err(e) && e.spec_kind() == k,
                Ok(body) => outcome_matches(
                    r,
                    old(self).restricted_replace_outcome(body, Canonicity::NotCanonical),
                ),
            },
    ;

    /// Decodes the message's fields from the slice in distinguished mode, replacing their values.
    fn replace_distinguished_from_slice(
        &mut self,
        buf: &[u8],
    ) -> (r: Result<Canonicity, DecodeError>)
        ensures
            outcome_matches(
                r,
                old(self).restricted_replace_outcome(buf@, Canonicity::NotCanonical),
            ),
    ;

    /// Decodes the message's fields from a length-delimited value at the front of the slice
    /// in distinguished mode, replacing their values.
    fn replace_distinguished_from_length_delimited_slice(
        &mut self,
        buf: &[u8],
    ) -> (r: Result<Canonicity, DecodeError>)
        ensures
            match delimited_body(buf@) {
                Err(k) => r matches Err(e) && e.spec_kind() == k,
                Ok(body) => outcome_matches(
                    r,
                    old(self).restricted_replace_outcome(body, Canonicity::NotCanonical),
                ),
            },
    ;

    /// Decodes an instance of the message from all of the buffer in restricted mode.
    fn decode_restricted(
        buf: Bytes,
        restrict_to: Canonicity,
    ) -> (r: Result<(Self, Canonicity), DecodeError>) where Self: Sized
        ensures
            outcome_matches(r, Self::restricted_decoding(bytes_contents(buf), restrict_to)),
    ;

    /// Decodes a length-delimited instance of the message from the front of the buffer in
    /// restricted mode.
    fn decode_restricted_length_delimited(
        buf: Bytes,
        restrict_to: Canonicity,
    ) -> (r: Result<(Self, Canonicity), DecodeError>) where Self: Sized
        ensures
            match delimited_body(bytes_contents(buf)) {
                Err(k) => r matches Err(e) && e.spec_kind() == k,
                Ok(body) => outcome_matches(r, Self::restricted_decoding(body, restrict_to)),
            },
    ;

    /// Decodes the message's fields from the buffer in restricted mode, replacing their values.
    fn replace_restricted_from(
        &mut self,
        buf: Bytes,
        restrict_to: Canonicity,
    ) -> (r: Result<Canonicity, DecodeError>)
        ensures
            outcome_matches(
                r,
                old(self).restricted_replace_outcome(bytes_contents(buf), restrict_to),
            ),
    ;

    /// Decodes the message's fields from a length-delimited value at the front of the buffer
    /// in restricted mode, replacing their values.
    fn replace_restricted_from_length_delimited(
        &mut self,
        buf: Bytes,
        restrict_to: Canonicity,
    ) -> (r: Result<Canonicity, DecodeError>)
        ensures
            match delimited_body(bytes_contents(buf)) {
                Err(k) => r matches Err(e) && e.spec_kind() == k,
                Ok(body) => outcome_matches(
                    r,
                    old(self).restricted_replace_outcome(body, restrict_to),
                ),
            },
    ;

    /// Decodes the message's fields from the slice in restricted mode, replacing their values.
    fn replace_restricted_from_slice(
        &mut self,
        buf: &[u8],
        restrict_to: Canonicity,
    ) -> (r: Result<Canonicity, DecodeError>)
        ensures
            outcome_matches(r, old(self).restricted_replace_outcome(buf@, restrict_to)),
    ;

    /// Decodes the message's fields from a length-delimited value at the front of the slice
    /// in restricted mode, replacing their values.
    fn replace_restricted_from_length_delimited_slice(
        &mut self,
        buf: &[u8],
        restrict_to: Canonicity,
    ) -> (r: Result<Canonicity, DecodeError>)
        ensures
            match delimited_body(buf@) {
                Err(k) => r matches Err(e) && e.spec_kind() == k,
                Ok(body) => outcome_matches(
                    r,
                    old(self).restricted_replace_outcome(body, restrict_to),
                ),
            },
    ;

    /// Decodes an instance of the message from all of the buffer in canonical mode.
    fn decode_canonical(buf: Bytes) -> (r: Result<Self, DecodeError>) where Self: Sized
        ensures
            outcome_matches(
                r,
                without_canonicity(
                    Self::restricted_decoding(bytes_contents(buf), Canonicity::Canonical),
                ),
            ),
    ;

    /// Decodes a length-delimited instance of the message from the front of the buffer in
    /// canonical mode.
    fn decode_canonical_length_delimited(
        buf: Bytes,
    ) -> (r: Result<Self, DecodeError>) where Self: Sized
        ensures
            match delimited_body(bytes_contents(buf)) {
                Err(k) => r matches Err(e) && e.spec_kind() == k,
                Ok(body) => outcome_matches(
                    r,
                    without_canonicity(Self::restricted_decoding(body, Canonicity::Canonical)),
                ),
            },
    ;

    /// Decodes the message's fields from the buffer in canonical mode, replacing their values.
    fn replace_canonical_from(&mut self, buf: Bytes) -> (r: Result<(), DecodeError>)
        ensures
            outcome_matches(
                r,
                without_value(
                    old(self).restricted_replace_outcome(
                        bytes_contents(buf),
                        Canonicity::Canonical,
                    ),
                ),
            ),
    ;

    /// Decodes the message's fields from a length-delimited value at the front of the buffer
    /// in canonical mode, replacing their values.
    fn replace_canonical_from_length_delimited(
        &mut self,
        buf: Bytes,
    ) -> (r: Result<(), DecodeError>)
        ensures
            match delimited_body(bytes_contents(buf)) {
                Err(k) => r matches Err(e) && e.spec_kind() == k,
                Ok(body) => outcome_matches(
                    r,
                    without_value(
                        old(self).restricted_replace_outcome(body, Canonicity::Canonical),
                    ),
                ),
            },
    ;

    /// Decodes the message's fields from the slice in canonical mode, replacing their values.
    fn replace_canonical_from_slice(&mut self, buf: &[u8]) -> (r: Result<(), DecodeError>)
        ensures
            outcome_matches(
                r,
                without_value(old(self).restricted_replace_outcome(buf@, Canonicity::Canonical)),
            ),
    ;

    /// Decodes the message's fields from a length-delimited value at the front of the slice
    /// in canonical mode, replacing their values.
    fn replace_canonical_from_length_delimited_slice(
        &mut self,
        buf: &[u8],
    ) -> (r: Result<(), DecodeError>)
        ensures
            match delimited_body(buf@) {
                Err(k) => r matches Err(e) && e.spec_kind() == k,
                Ok(body) => outcome_matches(
                    r,
                    without_value(
                        old(self).restricted_replace_outcome(body, Canonicity::Canonical),
                    ),
                ),
            },
    ;
}

impl<T: RawDistinguishedMessageDecoder + RawMessageDecoder> DistinguishedOwnedMessage for T {
    open spec fn restricted_decoding(input: Seq<u8>, restrict_to: Canonicity) -> Result<
        (Self, Canonicity),
        DecodeErrorKind,
    > {
        merge_distinguished_outcome(
            T::empty_value(),
            None,
            input,
            RECURSION_LIMIT,
            restrict_to,
            Canonicity::Canonical,
        )
    }

    open spec fn restricted_replace_outcome(
        &self,
        input: Seq<u8>,
        restrict_to: Canonicity,
    ) -> Result<
        Canonicity,
        DecodeErrorKind,
    > {
        match restricted_replacement(*self, input, restrict_to) {
            Ok((_, c)) => Ok(c),
            Err(k) => Err(k),
        }
    }

    fn decode_distinguished(buf: Bytes) -> (r: Result<(Self, Canonicity), DecodeError>) {
        T::decode_restricted(buf, Canonicity::NotCanonical)
    }

    fn decode_distinguished_length_delimited(buf: Bytes) -> (r: Result<
        (Self, Canonicity),
        DecodeError,
    >) {
        T::decode_restricted_length_delimited(buf, Canonicity::NotCanonical)
    }

    fn replace_distinguished_from(&mut self, buf: Bytes) -> (r: Result<Canonicity, DecodeError>)
        ensures
            r matches Ok(c)
                ==> restricted_replacement(
                    *old(self),
                    bytes_contents(buf),
                    Canonicity::NotCanonical,
                ) == Ok::<(T, Canonicity), DecodeErrorKind>((*final(self), c)),
    {
        self.replace_restricted_from(buf, Canonicity::NotCanonical)
    }

    fn replace_distinguished_from_length_delimited(&mut self, buf: Bytes) -> (r: Result<
        Canonicity,
        DecodeError,
    >)
        ensures
            r matches Ok(c)
                ==> (
                    delimited_body(bytes_contents(buf)) matches Ok(body)
                        && restricted_replacement(
                            *old(self),
                            body,
                            Canonicity::NotCanonical,
                        ) == Ok::<(T, Canonicity), DecodeErrorKind>((*final(self), c))
                ),
    {
        self.replace_restricted_from_length_delimited(buf, Canonicity::NotCanonical)
    }

    fn replace_distinguished_from_slice(&mut self, buf: &[u8]) -> (r: Result<
        Canonicity,
        DecodeError,
    >)
        ensures
            r matches Ok(c)
                ==> restricted_replacement(*old(self), buf@, Canonicity::NotCanonical) == Ok::<
                    (T, Canonicity),
                    DecodeErrorKind,
                >((*final(self), c)),
    {
        self.replace_restricted_from_slice(buf, Canonicity::NotCanonical)
    }

    fn replace_distinguished_from_length_delimited_slice(&mut self, buf: &[u8]) -> (r: Result<
        Canonicity,
        DecodeError,
    >)
        ensures
            r matches Ok(c)
                ==> (
                    delimited_body(buf@) matches Ok(body)
                        && restricted_replacement(
                            *old(self),
                            body,
                            Canonicity::NotCanonical,
                        ) == Ok::<(T, Canonicity), DecodeErrorKind>((*final(self), c))
                ),
    {
        self.replace_restricted_from_length_delimited_slice(buf, Canonicity::NotCanonical)
    }

    fn decode_restricted(buf: Bytes, restrict_to: Canonicity) -> (r: Result<
        (Self, Canonicity),
        DecodeError,
    >) {
        let mut buf = buf;
        let mut message = T::empty();
        match merge_distinguished(
            &mut message,
            &mut buf,
            RestrictedDecodeContext::new(restrict_to),
        ) {
            Ok(canon) => Ok((message, canon)),
            Err(e) => Err(e),
        }
    }

    fn decode_restricted_length_delimited(buf: Bytes, restrict_to: Canonicity) -> (r: Result<
        (Self, Canonicity),
        DecodeError,
    >) {
        let mut buf = buf;
        let part = match split_delimited(&mut buf) {
            Ok(part) => part,
            Err(e) => return Err(e),
        };
        T::decode_restricted(part, restrict_to)
    }

    fn replace_restricted_from(&mut self, buf: Bytes, restrict_to: Canonicity) -> (r: Result<
        Canonicity,
        DecodeError,
    >)
        ensures
            r matches Ok(c)
                ==> restricted_replacement(*old(self), bytes_contents(buf), restrict_to) == Ok::<
                    (T, Canonicity),
                    DecodeErrorKind,
                >((*final(self), c)),
    {
        let mut buf = buf;
        self.clear();
        merge_distinguished(self, &mut buf, RestrictedDecodeContext::new(restrict_to))
    }

    fn replace_restricted_from_length_delimited(
        &mut self,
        buf: Bytes,
        restrict_to: Canonicity,
    ) -> (r: Result<Canonicity, DecodeError>)
        ensures
            r matches Ok(c)
                ==> (
                    delimited_body(bytes_contents(buf)) matches Ok(body)
                        && restricted_replacement(*old(self), body, restrict_to) == Ok::<
                            (T, Canonicity),
                            DecodeErrorKind,
                        >((*final(self), c))
                ),
    {
        let mut buf = buf;
        let part = match split_delimited(&mut buf) {
            Ok(part) => part,
            Err(e) => return Err(e),
        };
        self.replace_restricted_from(part, restrict_to)
    }

    fn replace_restricted_from_slice(&mut self, buf: &[u8], restrict_to: Canonicity) -> (r: Result<
        Canonicity,
        DecodeError,
    >)
        ensures
            r matches Ok(c)
                ==> restricted_replacement(*old(self), buf@, restrict_to) == Ok::<
                    (T, Canonicity),
                    DecodeErrorKind,
                >((*final(self), c)),
    {
        self.replace_restricted_from(bytes_copy_from_slice(buf), restrict_to)
    }

    fn replace_restricted_from_length_delimited_slice(
        &mut self,
        buf: &[u8],
        restrict_to: Canonicity,
    ) -> (r: Result<Canonicity, DecodeError>)
        ensures
            r matches Ok(c)
                ==> (
                    delimited_body(buf@) matches Ok(body)
                        && restricted_replacement(*old(self), body, restrict_to) == Ok::<
                            (T, Canonicity),
                            DecodeErrorKind,
                        >((*final(self), c))
                ),
    {
        self.replace_restricted_from_length_delimited(bytes_copy_from_slice(buf), restrict_to)
    }

    fn decode_canonical(buf: Bytes) -> (r: Result<Self, DecodeError>) {
        match T::decode_restricted(buf, Canonicity::Canonical) {
            Ok((message, _)) => Ok(message),
            Err(e) => Err(e),
        }
    }

    fn decode_canonical_length_delimited(buf: Bytes) -> (r: Result<Self, DecodeError>) {
        match T::decode_restricted_length_delimited(buf, Canonicity::Canonical) {
            Ok((message, _)) => Ok(message),
            Err(e) => Err(e),
        }
    }

    fn replace_canonical_from(&mut self, buf: Bytes) -> (r: Result<(), DecodeError>)
        ensures
            r is Ok
                ==> (
                    restricted_replacement(
                        *old(self),
                        bytes_contents(buf),
                        Canonicity::Canonical,
                    ) matches Ok((m, _))
                        && m == *final(self)
                ),
    {
        match self.replace_restricted_from(buf, Canonicity::Canonical) {
            Ok(_) => Ok(()),
            Err(e) => Err(e),
        }
    }

    fn replace_canonical_from_length_delimited(&mut self, buf: Bytes) -> (r: Result<
        (),
        DecodeError,
    >)
        ensures
            r is Ok
                ==> (
                    delimited_body(bytes_contents(buf)) matches Ok(body)
                        && restricted_replacement(
                            *old(self),
                            body,
                            Canonicity::Canonical,
                        ) matches Ok((m, _))
                        && m == *final(self)
                ),
    {
        match self.replace_restricted_from_length_delimited(buf, Canonicity::Canonical) {
            Ok(_) => Ok(()),
            Err(e) => Err(e),
        }
    }

    fn replace_canonical_from_slice(&mut self, buf: &[u8]) -> (r: Result<(), DecodeError>)
        ensures
            r is Ok
                ==> (
                    restricted_replacement(*old(self), buf@, Canonicity::Canonical) matches Ok(
                        (m, _),
                    )
                        && m == *final(self)
                ),
    {
        match self.replace_restricted_from_slice(buf, Canonicity::Canonical) {
            Ok(_) => Ok(()),
            Err(e) => Err(e),
        }
    }

    fn replace_canonical_from_length_delimited_slice(&mut self, buf: &[u8]) -> (r: Result<
        (),
        DecodeError,
    >)
        ensures
            r is Ok
                ==> (
                    delimited_body(buf@) matches Ok(body)
                        && restricted_replacement(
                            *old(self),
                            body,
                            Canonicity::Canonical,
                        ) matches Ok((m, _))
                        && m == *final(self)
                ),
    {
        match self.replace_restricted_from_length_delimited_slice(buf, Canonicity::Canonical) {
            Ok(_) => Ok(()),
            Err(e) => Err(e),
        }
    }
}

/// Distinguished decoding of messages that may borrow from the slice they are decoded from; the
/// "distinguished", "restricted" and "canonical" methods behave as in `DistinguishedOwnedMessage`,
/// and the length-delimited ones leave the slice as in `BorrowedMessage`.
pub trait DistinguishedBorrowedMessage<'a>: BorrowedMessage<'a> {
    /// What decoding a message from all of `input` under the restriction gives: the message and
    /// its canonicity, or the kind of error.
    spec fn borrowed_restricted_decoding(input: Seq<u8>, restrict_to: Canonicity) -> Result<
        (Self, Canonicity),
        DecodeErrorKind,
    > where Self: Sized;

    /// What decoding all of `input` into this message under the restriction gives, the fields
    /// that decoding fills being reset first: the canonicity, or the kind of error. (What the
    /// message holds afterwards depends on the implementation, which states it.)
    spec fn borrowed_restricted_replace_outcome(
        &self,
        input: Seq<u8>,
        restrict_to: Canonicity,
    ) -> Result<Canonicity, DecodeErrorKind>;

    /// Decodes an instance of the message from all of the slice in distinguished mode.
    fn decode_distinguished_borrowed(
        buf: &'a [u8],
    ) -> (r: Result<(Self, Canonicity), DecodeError>) where Self: Sized
        ensures
            outcome_matches(r, Self::borrowed_restricted_decoding(buf@, Canonicity::NotCanonical)),
    ;

    /// Decodes a length-delimited instance of the message from the front of the slice in
    /// distinguished mode.
    fn decode_distinguished_borrowed_length_delimited(
        buf: &mut &'a [u8],
    ) -> (r: Result<(Self, Canonicity), DecodeError>) where Self: Sized
        ensures
            match delimited_extent((*old(buf))@) {
                Err(k) => r matches Err(e) && e.spec_kind() == k,
                Ok((d, len)) => (*final(buf))@ == (*old(buf))@.skip((d + len) as int)
                    && outcome_matches(
                        r,
                        Self::borrowed_restricted_decoding(
                            (*old(buf))@.subrange(d as int, (d + len) as int),
                            Canonicity::NotCanonical,
                        ),
                    ),
            },
    ;

    /// Decodes the message's fields from the slice in distinguished mode, replacing their values.
    fn replace_distinguished_borrowed_from(
        &mut self,
        buf: &'a [u8],
    ) -> (r: Result<Canonicity, DecodeError>)
        ensures
            outcome_matches(
                r,
                old(self).borrowed_restricted_replace_outcome(buf@, Canonicity::NotCanonical),
            ),
    ;

    /// Decodes the message's fields from a length-delimited value at the front of the slice
    /// in distinguished mode, replacing their values.
    fn replace_distinguished_borrowed_from_length_delimited(
        &mut self,
        buf: &mut &'a [u8],
    ) -> (r: Result<Canonicity, DecodeError>)
        ensures
            match delimited_extent((*old(buf))@) {
                Err(k) => r matches Err(e) && e.spec_kind() == k,
                Ok((d, len)) => (*final(buf))@ == (*old(buf))@.skip((d + len) as int)
                    && outcome_matches(
                        r,
                        old(self).borrowed_restricted_replace_outcome(
                            (*old(buf))@.subrange(d as int, (d + len) as int),
                            Canonicity::NotCanonical,
                        ),
                    ),
            },
    ;

    /// Decodes an instance of the message from all of the slice in restricted mode.
    fn decode_restricted_borrowed(
        buf: &'a [u8],
        restrict_to: Canonicity,
    ) -> (r: Result<(Self, Canonicity), DecodeError>) where Self: Sized
        ensures
            outcome_matches(r, Self::borrowed_restricted_decoding(buf@, restrict_to)),
    ;

    /// Decodes a length-delimited instance of the message from the front of the slice in
    /// restricted mode.
    fn decode_restricted_borrowed_length_delimited(
        buf: &mut &'a [u8],
        restrict_to: Canonicity,
    ) -> (r: Result<(Self, Canonicity), DecodeError>) where Self: Sized
        ensures
            match delimited_extent((*old(buf))@) {
                Err(k) => r matches Err(e) && e.spec_kind() == k,
                Ok((d, len)) => (*final(buf))@ == (*old(buf))@.skip((d + len) as int)
                    && outcome_matches(
                        r,
                        Self::borrowed_restricted_decoding(
                            (*old(buf))@.subrange(d as int, (d + len) as int),
                            restrict_to,
                        ),
                    ),
            },
    ;

    /// Decodes the message's fields from the slice in restricted mode, replacing their values.
    fn replace_restricted_borrowed_from(
        &mut self,
        buf: &'a [u8],
        restrict_to: Canonicity,
    ) -> (r: Result<Canonicity, DecodeError>)
        ensures
            outcome_matches(r, old(self).borrowed_restricted_replace_outcome(buf@, restrict_to)),
    ;

    /// Decodes the message's fields from a length-delimited value at the front of the slice
    /// in restricted mode, replacing their values.
    fn replace_restricted_borrowed_from_length_delimited(
        &mut self,
        buf: &mut &'a [u8],
        restrict_to: Canonicity,
    ) -> (r: Result<Canonicity, DecodeError>)
        ensures
            match delimited_extent((*old(buf))@) {
                Err(k) => r matches Err(e) && e.spec_kind() == k,
                Ok((d, len)) => (*final(buf))@ == (*old(buf))@.skip((d + len) as int)
                    && outcome_matches(
                        r,
                        old(self).borrowed_restricted_replace_outcome(
                            (*old(buf))@.subrange(d as int, (d + len) as int),
                            restrict_to,
                        ),
                    ),
            },
    ;

    /// Decodes an instance of the message from all of the slice in canonical mode.
    fn decode_canonical_borrowed(buf: &'a [u8]) -> (r: Result<Self, DecodeError>) where Self: Sized
        ensures
            outcome_matches(
                r,
                without_canonicity(Self::borrowed_restricted_decoding(buf@, Canonicity::Canonical)),
            ),
    ;

    /// Decodes a length-delimited instance of the message from the front of the slice in
    /// canonical mode.
    fn decode_canonical_borrowed_length_delimited(
        buf: &mut &'a [u8],
    ) -> (r: Result<Self, DecodeError>) where Self: Sized
        ensures
            match delimited_extent((*old(buf))@) {
                Err(k) => r matches Err(e) && e.spec_kind() == k,
                Ok((d, len)) => (*final(buf))@ == (*old(buf))@.skip((d + len) as int)
                    && outcome_matches(
                        r,
                        without_canonicity(
                            Self::borrowed_restricted_decoding(
                                (*old(buf))@.subrange(d as int, (d + len) as int),
                                Canonicity::Canonical,
                            ),
                        ),
                    ),
            },
    ;

    /// Decodes the message's fields from the slice in canonical mode, replacing their values.
    fn replace_canonical_borrowed_from(&mut self, buf: &'a [u8]) -> (r: Result<(), DecodeError>)
        ensures
            outcome_matches(
                r,
                without_value(
                    old(self).borrowed_restricted_replace_outcome(buf@, Canonicity::Canonical),
                ),
            ),
    ;

    /// Decodes the message's fields from a length-delimited value at the front of the slice
    /// in canonical mode, replacing their values.
    fn replace_canonical_borrowed_from_length_delimited(
        &mut self,
        buf: &mut &'a [u8],
    ) -> (r: Result<(), DecodeError>)
        ensures
            match delimited_extent((*old(buf))@) {
                Err(k) => r matches Err(e) && e.spec_kind() == k,
                Ok((d, len)) => (*final(buf))@ == (*old(buf))@.skip((d + len) as int)
                    && outcome_matches(
                        r,
                        without_value(
                            old(self).borrowed_restricted_replace_outcome(
                                (*old(buf))@.subrange(d as int, (d + len) as int),
                                Canonicity::Canonical,
                            ),
                        ),
                    ),
            },
    ;
}

impl<'a, T> DistinguishedBorrowedMessage<'a> for T where
    T: RawDistinguishedMessageBorrowDecoder<'a> + RawMessageBorrowDecoder<'a>,
 {
    open spec fn borrowed_restricted_decoding(input: Seq<u8>, restrict_to: Canonicity) -> Result<
        (Self, Canonicity),
        DecodeErrorKind,
    > {
        borrow_merge_distinguished_outcome(
            T::empty_value(),
            None,
            input,
            RECURSION_LIMIT,
            restrict_to,
            Canonicity::Canonical,
        )
    }

    open spec fn borrowed_restricted_replace_outcome(
        &self,
        input: Seq<u8>,
        restrict_to: Canonicity,
    ) -> Result<Canonicity, DecodeErrorKind> {
        match borrowed_restricted_replacement(*self, input, restrict_to) {
            Ok((_, c)) => Ok(c),
            Err(k) => Err(k),
        }
    }

    fn decode_distinguished_borrowed(buf: &'a [u8]) -> (r: Result<
        (Self, Canonicity),
        DecodeError,
    >) {
        T::decode_restricted_borrowed(buf, Canonicity::NotCanonical)
    }

    fn decode_distinguished_borrowed_length_delimited(buf: &mut &'a [u8]) -> (r: Result<
        (Self, Canonicity),
        DecodeError,
    >) {
        T::decode_restricted_borrowed_length_delimited(buf, Canonicity::NotCanonical)
    }

    fn replace_distinguished_borrowed_from(&mut self, buf: &'a [u8]) -> (r: Result<
        Canonicity,
        DecodeError,
    >)
        ensures
            r matches Ok(c)
                ==> borrowed_restricted_replacement(
                    *old(self),
                    buf@,
                    Canonicity::NotCanonical,
                ) == Ok::<(T, Canonicity), DecodeErrorKind>((*final(self), c)),
    {
        self.replace_restricted_borrowed_from(buf, Canonicity::NotCanonical)
    }

    fn replace_distinguished_borrowed_from_length_delimited(&mut self, buf: &mut &'a [u8]) -> (r:
        Result<Canonicity, DecodeError>)
        ensures
            r matches Ok(c)
                ==> (
                    delimited_extent((*old(buf))@) matches Ok((d, len))
                        && borrowed_restricted_replacement(
                            *old(self),
                            (*old(buf))@.subrange(d as int, (d + len) as int),
                            Canonicity::NotCanonical,
                        ) == Ok::<(T, Canonicity), DecodeErrorKind>((*final(self), c))
                ),
    {
        self.replace_restricted_borrowed_from_length_delimited(buf, Canonicity::NotCanonical)
    }

    fn decode_restricted_borrowed(buf: &'a [u8], restrict_to: Canonicity) -> (r: Result<
        (Self, Canonicity),
        DecodeError,
    >) {
        let mut buf = buf;
        let mut message = T::empty();
        match borrow_merge_distinguished(
            &mut message,
            &mut buf,
            RestrictedDecodeContext::new(restrict_to),
        ) {
            Ok(canon) => Ok((message, canon)),
            Err(e) => Err(e),
        }
    }

    fn decode_restricted_borrowed_length_delimited(
        buf: &mut &'a [u8],
        restrict_to: Canonicity,
    ) -> (r: Result<(Self, Canonicity), DecodeError>) {
        let part = match split_delimited_slice(buf) {
            Ok(part) => part,
            Err(e) => return Err(e),
        };
        T::decode_restricted_borrowed(part, restrict_to)
    }

    fn replace_restricted_borrowed_from(&mut self, buf: &'a [u8], restrict_to: Canonicity) -> (r:
        Result<Canonicity, DecodeError>)
        ensures
            r matches Ok(c)
                ==> borrowed_restricted_replacement(*old(self), buf@, restrict_to) == Ok::<
                    (T, Canonicity),
                    DecodeErrorKind,
                >((*final(self), c)),
    {
        let mut buf = buf;
        self.clear();
        borrow_merge_distinguished(self, &mut buf, RestrictedDecodeContext::new(restrict_to))
    }

    fn replace_restricted_borrowed_from_length_delimited(
        &mut self,
        buf: &mut &'a [u8],
        restrict_to: Canonicity,
    ) -> (r: Result<Canonicity, DecodeError>)
        ensures
            r matches Ok(c)
                ==> (
                    delimited_extent((*old(buf))@) matches Ok((d, len))
                        && borrowed_restricted_replacement(
                            *old(self),
                            (*old(buf))@.subrange(d as int, (d + len) as int),
                            restrict_to,
                        ) == Ok::<(T, Canonicity), DecodeErrorKind>((*final(self), c))
                ),
    {
        let part = match split_delimited_slice(buf) {
            Ok(part) => part,
            Err(e) => return Err(e),
        };
        self.replace_restricted_borrowed_from(part, restrict_to)
    }

    fn decode_canonical_borrowed(buf: &'a [u8]) -> (r: Result<Self, DecodeError>) {
        match T::decode_restricted_borrowed(buf, Canonicity::Canonical) {
            Ok((message, _)) => Ok(message),
            Err(e) => Err(e),
        }
    }

    fn decode_canonical_borrowed_length_delimited(buf: &mut &'a [u8]) -> (r: Result<
        Self,
        DecodeError,
    >) {
        match T::decode_restricted_borrowed_length_delimited(buf, Canonicity::Canonical) {
            Ok((message, _)) => Ok(message),
            Err(e) => Err(e),
        }
    }

    fn replace_canonical_borrowed_from(&mut self, buf: &'a [u8]) -> (r: Result<(), DecodeError>)
        ensures
            r is Ok
                ==> (
                    borrowed_restricted_replacement(
                        *old(self),
                        buf@,
                        Canonicity::Canonical,
                    ) matches Ok((m, _))
                        && m == *final(self)
                ),
    {
        match self.replace_restricted_borrowed_from(buf, Canonicity::Canonical) {
            Ok(_) => Ok(()),
            Err(e) => Err(e),
        }
    }

    fn replace_canonical_borrowed_from_length_delimited(&mut self, buf: &mut &'a [u8]) -> (r:
        Result<(), DecodeError>)
        ensures
            r is Ok
                ==> (
                    delimited_extent((*old(buf))@) matches Ok((d, len))
                        && borrowed_restricted_replacement(
                            *old(self),
                            (*old(buf))@.subrange(d as int, (d + len) as int),
                            Canonicity::Canonical,
                        ) matches Ok((m, _))
                        && m == *final(self)
                ),
    {
        match self.replace_restricted_borrowed_from_length_delimited(buf, Canonicity::Canonical) {
            Ok(_) => Ok(()),
            Err(e) => Err(e),
        }
    }
}

/// Restricted decoding that succeeds reaches its restriction: the canonicity it returns is at
/// least the one asked for, so canonical decoding succeeds only on canonical encodings. This holds
/// of decoding a new message and of decoding into an existing one.
pub proof fn lemma_restricted_decoding_meets_restriction<
    T: RawDistinguishedMessageDecoder + RawMessageDecoder,
>(msg: T, input: Seq<u8>, restrict_to: Canonicity)
    ensures
        <T as DistinguishedOwnedMessage>::restricted_decoding(input, restrict_to) matches Ok(
            (_, c),
        ) ==> canonicity_rank(c) >= canonicity_rank(restrict_to),
        msg.restricted_replace_outcome(input, restrict_to) matches Ok(c) ==> canonicity_rank(c)
            >= canonicity_rank(restrict_to),
{
    lemma_distinguished_outcome_meets_restriction(
        T::empty_value(),
        None,
        input,
        RECURSION_LIMIT,
        restrict_to,
        Canonicity::Canonical,
    );
    lemma_distinguished_outcome_meets_restriction(
        msg.cleared(),
        None,
        input,
        RECURSION_LIMIT,
        restrict_to,
        Canonicity::Canonical,
    );
}

/// Restricted decoding from a slice that succeeds reaches its restriction, as it does from a
/// buffer.
pub proof fn lemma_borrowed_restricted_decoding_meets_restriction<
    'a,
    T: RawDistinguishedMessageBorrowDecoder<'a> + RawMessageBorrowDecoder<'a>,
>(msg: T, input: Seq<u8>, restrict_to: Canonicity)
    ensures
        <T as DistinguishedBorrowedMessage<'a>>::borrowed_restricted_decoding(
            input,
            restrict_to,
        ) matches Ok((_, c)) ==> canonicity_rank(c) >= canonicity_rank(restrict_to),
        msg.borrowed_restricted_replace_outcome(input, restrict_to) matches Ok(c)
            ==> canonicity_rank(c) >= canonicity_rank(restrict_to),
{
    lemma_borrowed_distinguished_outcome_meets_restriction(
        T::empty_value(),
        None,
        input,
        RECURSION_LIMIT,
        restrict_to,
        Canonicity::Canonical,
    );
    lemma_borrowed_distinguished_outcome_meets_restriction(
        msg.cleared(),
        None,
        input,
        RECURSION_LIMIT,
        restrict_to,
        Canonicity::Canonical,
    );
}

/// A message type whose encoding decodes back to the message: the implementation proves it of
/// every message it encodes, as long as decoding may enter the levels of nesting the message
/// holds.
pub trait EncodingRoundTrip: RawMessageDecoder {
    /// How many levels of nested messages the message holds: decoding it needs that many levels
    /// of room below the recursion limit.
    spec fn nesting_depth(&self) -> nat;

    /// A message decodes, in relaxed mode, from its encoding to itself.
    proof fn lemma_encoding_decodes(&self, depth: u32)
        requires
            self.nesting_depth() <= depth,
        ensures
            merge_outcome(Self::empty_value(), None, self.raw_encoding(), depth) == Ok::<
                Self,
                DecodeErrorKind,
            >(*self),
    ;
}

/// A message type with a distinguished representation: equal messages encode to the same bytes
/// (the encoding is a function of the message), and the implementation proves the rest of the
/// promise: a message decodes canonically from its encoding, it decodes canonically from no other
/// bytes, and distinguished decoding accepts whatever relaxed decoding accepts, giving the same
/// message.
pub trait DistinguishedRepresentation: EncodingRoundTrip + RawDistinguishedMessageDecoder {
    /// A message decodes canonically from its encoding to itself.
    proof fn lemma_encoding_decodes_canonically(&self, depth: u32)
        requires
            self.nesting_depth() <= depth,
        ensures
            merge_distinguished_outcome(
                Self::empty_value(),
                None,
                self.raw_encoding(),
                depth,
                Canonicity::Canonical,
                Canonicity::Canonical,
            ) == Ok::<(Self, Canonicity), DecodeErrorKind>((*self, Canonicity::Canonical)),
    ;

    /// Bytes that decode canonically are the encoding of the message they decode to.
    proof fn lemma_canonical_input_is_encoding(input: Seq<u8>, depth: u32)
        ensures
            merge_distinguished_outcome(
                Self::empty_value(),
                None,
                input,
                depth,
                Canonicity::Canonical,
                Canonicity::Canonical,
            ) matches Ok((m, _)) ==> input == m.raw_encoding(),
    ;

    /// Bytes that relaxed decoding accepts, distinguished decoding accepts too, giving the same
    /// message.
    proof fn lemma_distinguished_accepts_relaxed(input: Seq<u8>, depth: u32)
        ensures
            merge_outcome(Self::empty_value(), None, input, depth) matches Ok(m) ==> (
            merge_distinguished_outcome(
                Self::empty_value(),
                None,
                input,
                depth,
                Canonicity::NotCanonical,
                Canonicity::Canonical,
            ) matches Ok((d, _)) && d == m),
    ;

    /// Decoding under a restriction gives exactly the distinguished outcomes that meet it: what
    /// it decodes, distinguished decoding decodes to the same message and canonicity, and a
    /// distinguished outcome at least as canonical as the restriction is what restricted decoding
    /// gives.
    proof fn lemma_restriction_keeps_outcomes(input: Seq<u8>, depth: u32, restrict_to: Canonicity)
        ensures
            merge_distinguished_outcome(
                Self::empty_value(),
                None,
                input,
                depth,
                restrict_to,
                Canonicity::Canonical,
            ) matches Ok((m, c)) ==> merge_distinguished_outcome(
                Self::empty_value(),
                None,
                input,
                depth,
                Canonicity::NotCanonical,
                Canonicity::Canonical,
            ) == Ok::<(Self, Canonicity), DecodeErrorKind>((m, c)),
            merge_distinguished_outcome(
                Self::empty_value(),
                None,
                input,
                depth,
                Canonicity::NotCanonical,
                Canonicity::Canonical,
            ) matches Ok((m, c)) ==> (canonicity_rank(c) >= canonicity_rank(restrict_to)
                ==> merge_distinguished_outcome(
                Self::empty_value(),
                None,
                input,
                depth,
                restrict_to,
                Canonicity::Canonical,
            ) == Ok::<(Self, Canonicity), DecodeErrorKind>((m, c))),
    ;
}

/// The promises of a message type with a distinguished representation, for a message whose
/// nesting the recursion limit admits:
/// 1. the message decodes from its encoding, relaxed and canonically, to itself;
/// 2. a message decodes canonically only from its own encoding, so two inputs that decode
///    canonically to equal messages are the same bytes;
/// 3. distinguished decoding (restricted to `NotCanonical`) decodes whatever relaxed decoding
///    does, to the same message; it decodes the message's encoding to the message, `Canonical`,
///    and decodes no other bytes to a message with `Canonical`;
/// 4. decoding under any restriction gives exactly the distinguished outcomes that meet it.
pub proof fn lemma_distinguished_representation<T: DistinguishedRepresentation>(
    msg: T,
    input: Seq<u8>,
    other: Seq<u8>,
    restrict_to: Canonicity,
)
    requires
        msg.nesting_depth() <= RECURSION_LIMIT,
    ensures
        <T as DistinguishedOwnedMessage>::restricted_decoding(
            msg.message_encoding(),
            Canonicity::NotCanonical,
        ) == Ok::<(T, Canonicity), DecodeErrorKind>((msg, Canonicity::Canonical)),
        <T as DistinguishedOwnedMessage>::restricted_decoding(input, Canonicity::NotCanonical)
            matches Ok((m, Canonicity::Canonical)) ==> input == m.message_encoding(),
        <T as DistinguishedOwnedMessage>::restricted_decoding(input, restrict_to) matches Ok((m, c))
            ==> (<T as DistinguishedOwnedMessage>::restricted_decoding(
            input,
            Canonicity::NotCanonical,
        ) == Ok::<(T, Canonicity), DecodeErrorKind>((m, c)) && canonicity_rank(c)
            >= canonicity_rank(restrict_to)),
        <T as DistinguishedOwnedMessage>::restricted_decoding(input, Canonicity::NotCanonical)
            matches Ok((m, c)) ==> (canonicity_rank(c) >= canonicity_rank(restrict_to)
            ==> <T as DistinguishedOwnedMessage>::restricted_decoding(input, restrict_to) == Ok::<
            (T, Canonicity),
            DecodeErrorKind,
        >((m, c))),
        <T as OwnedMessage>::decoding(msg.message_encoding()) == Ok::<T, DecodeErrorKind>(msg),
        <T as DistinguishedOwnedMessage>::restricted_decoding(
            msg.message_encoding(),
            Canonicity::Canonical,
        ) == Ok::<(T, Canonicity), DecodeErrorKind>((msg, Canonicity::Canonical)),
        <T as DistinguishedOwnedMessage>::restricted_decoding(input, Canonicity::Canonical) matches Ok(
            (m, _),
        ) ==> input == m.message_encoding(),
        (<T as DistinguishedOwnedMessage>::restricted_decoding(input, Canonicity::Canonical)
            matches Ok((m, _)) && <T as DistinguishedOwnedMessage>::restricted_decoding(
            other,
            Canonicity::Canonical,
        ) matches Ok((n, _)) && m == n) ==> input == other,
        <T as OwnedMessage>::decoding(input) matches Ok(m) ==> (
        <T as DistinguishedOwnedMessage>::restricted_decoding(input, Canonicity::NotCanonical)
            matches Ok((d, _)) && d == m),
{
    msg.lemma_encoding_decodes(RECURSION_LIMIT);
    msg.lemma_encoding_decodes_canonically(RECURSION_LIMIT);
    T::lemma_canonical_input_is_encoding(input, RECURSION_LIMIT);
    T::lemma_canonical_input_is_encoding(other, RECURSION_LIMIT);
    T::lemma_distinguished_accepts_relaxed(input, RECURSION_LIMIT);
    T::lemma_restriction_keeps_outcomes(msg.raw_encoding(), RECURSION_LIMIT, Canonicity::Canonical);
    T::lemma_restriction_keeps_outcomes(input, RECURSION_LIMIT, Canonicity::Canonical);
    T::lemma_restriction_keeps_outcomes(input, RECURSION_LIMIT, restrict_to);
    lemma_distinguished_outcome_meets_restriction(
        T::empty_value(),
        None,
        input,
        RECURSION_LIMIT,
        restrict_to,
        Canonicity::Canonical,
    );
}

/// Distinguished decoding of the unit message under no restriction follows relaxed decoding step
/// by step: both skip every field, and neither fails where the other succeeds.
proof fn lemma_unit_distinguished_follows_relaxed(
    last: Option<u32>,
    input: Seq<u8>,
    depth: u32,
    found: Canonicity,
)
    ensures
        merge_outcome((), last, input, depth) is Ok ==> merge_distinguished_outcome(
            (),
            last,
            input,
            depth,
            Canonicity::NotCanonical,
            found,
        ) is Ok,
    decreases input.len(),
{
    if input.len() > 0 {
        if let Ok((key, n)) = varint_decode(input) {
            if tag_base(last) + key / 4 <= u32::MAX {
                let tag = (tag_base(last) + key / 4) as u32;
                let rest = input.skip(n as int);
                if let Ok(used) = field_value_extent(key_wire_type(key), rest) {
                    crate::varint::lemma_varint_decode_extent(input);
                    lemma_field_value_extent_within(key_wire_type(key), rest);
                    lemma_unit_distinguished_follows_relaxed(
                        Some(tag),
                        rest.skip(used as int),
                        depth,
                        least_canonicity(found, Canonicity::HasExtensions),
                    );
                }
            }
        }
    }
}

/// Distinguished decoding of the unit message ends no more canonical than it started, and at most
/// `HasExtensions` once it has met a field.
proof fn lemma_unit_canonicity_bounded(
    last: Option<u32>,
    input: Seq<u8>,
    depth: u32,
    restrict_to: Canonicity,
    found: Canonicity,
)
    ensures
        merge_distinguished_outcome((), last, input, depth, restrict_to, found) matches Ok((_, c))
            ==> canonicity_rank(c) <= canonicity_rank(found) && (input.len() > 0
            ==> canonicity_rank(c) <= 1),
    decreases input.len(),
{
    if input.len() > 0 {
        if let Ok((key, n)) = varint_decode(input) {
            if tag_base(last) + key / 4 <= u32::MAX {
                let tag = (tag_base(last) + key / 4) as u32;
                let rest = input.skip(n as int);
                if let Ok(used) = field_value_extent(key_wire_type(key), rest) {
                    crate::varint::lemma_varint_decode_extent(input);
                    lemma_field_value_extent_within(key_wire_type(key), rest);
                    lemma_unit_canonicity_bounded(
                        Some(tag),
                        rest.skip(used as int),
                        depth,
                        restrict_to,
                        least_canonicity(found, Canonicity::HasExtensions),
                    );
                }
            }
        }
    }
}

/// Restricted distinguished decoding of the unit message, started at least as canonical as the
/// restriction, gives exactly the unrestricted outcomes that meet the restriction.
proof fn lemma_unit_restriction_keeps_outcomes(
    last: Option<u32>,
    input: Seq<u8>,
    depth: u32,
    restrict_to: Canonicity,
    found: Canonicity,
)
    requires
        canonicity_rank(found) >= canonicity_rank(restrict_to),
    ensures
        merge_distinguished_outcome((), last, input, depth, restrict_to, found) matches Ok((m, c))
            ==> merge_distinguished_outcome(
            (),
            last,
            input,
            depth,
            Canonicity::NotCanonical,
            found,
        ) == Ok::<((), Canonicity), DecodeErrorKind>((m, c)),
        merge_distinguished_outcome((), last, input, depth, Canonicity::NotCanonical, found)
            matches Ok((m, c)) ==> (canonicity_rank(c) >= canonicity_rank(restrict_to)
            ==> merge_distinguished_outcome((), last, input, depth, restrict_to, found) == Ok::<
            ((), Canonicity),
            DecodeErrorKind,
        >((m, c))),
    decreases input.len(),
{
    lemma_unit_canonicity_bounded(last, input, depth, Canonicity::NotCanonical, found);
    if input.len() > 0 {
        if let Ok((key, n)) = varint_decode(input) {
            if tag_base(last) + key / 4 <= u32::MAX {
                let tag = (tag_base(last) + key / 4) as u32;
                let rest = input.skip(n as int);
                if let Ok(used) = field_value_extent(key_wire_type(key), rest) {
                    crate::varint::lemma_varint_decode_extent(input);
                    lemma_field_value_extent_within(key_wire_type(key), rest);
                    if canonicity_rank(restrict_to) <= 1 {
                        lemma_unit_restriction_keeps_outcomes(
                            Some(tag),
                            rest.skip(used as int),
                            depth,
                            restrict_to,
                            least_canonicity(found, Canonicity::HasExtensions),
                        );
                    }
                }
            }
        }
    }
}

/// The unit message encodes to no bytes; every field it meets is an extension, which canonical
/// decoding refuses, so it decodes canonically only from no bytes.
impl EncodingRoundTrip for () {
    open spec fn nesting_depth(&self) -> nat {
        0
    }

    proof fn lemma_encoding_decodes(&self, depth: u32) {
    }
}

impl DistinguishedRepresentation for () {
    proof fn lemma_encoding_decodes_canonically(&self, depth: u32) {
    }

    proof fn lemma_canonical_input_is_encoding(input: Seq<u8>, depth: u32) {
        if input.len() == 0 {
            assert(input =~= ().raw_encoding());
        }
    }

    proof fn lemma_distinguished_accepts_relaxed(input: Seq<u8>, depth: u32) {
        lemma_unit_distinguished_follows_relaxed(None, input, depth, Canonicity::Canonical);
    }

    proof fn lemma_restriction_keeps_outcomes(input: Seq<u8>, depth: u32, restrict_to: Canonicity) {
        lemma_unit_restriction_keeps_outcomes(None, input, depth, restrict_to, Canonicity::Canonical);
    }
}

/// A message type whose encoding decodes from a slice back to the message: the implementation
/// proves it of every message it encodes, as long as decoding may enter the levels of nesting the
/// message holds.
pub trait BorrowedEncodingRoundTrip<'a>: RawMessageBorrowDecoder<'a> {
    /// How many levels of nested messages the message holds.
    spec fn borrowed_nesting_depth(&self) -> nat;

    /// A message decodes, in relaxed mode, from its encoding to itself.
    proof fn lemma_encoding_borrow_decodes(&self, depth: u32)
        requires
            self.borrowed_nesting_depth() <= depth,
        ensures
            borrow_merge_outcome(Self::empty_value(), None, self.raw_encoding(), depth) == Ok::<
                Self,
                DecodeErrorKind,
            >(*self),
    ;
}

/// A message type with a distinguished representation when decoded from slices: the promises of
/// `DistinguishedRepresentation`, for decoding that borrows.
pub trait DistinguishedBorrowedRepresentation<'a>: BorrowedEncodingRoundTrip<'a> +
    RawDistinguishedMessageBorrowDecoder<'a> {
    /// A message decodes canonically from its encoding to itself.
    proof fn lemma_encoding_borrow_decodes_canonically(&self, depth: u32)
        requires
            self.borrowed_nesting_depth() <= depth,
        ensures
            borrow_merge_distinguished_outcome(
                Self::empty_value(),
                None,
                self.raw_encoding(),
                depth,
                Canonicity::Canonical,
                Canonicity::Canonical,
            ) == Ok::<(Self, Canonicity), DecodeErrorKind>((*self, Canonicity::Canonical)),
    ;

    /// Bytes that decode canonically are the encoding of the message they decode to.
    proof fn lemma_canonical_slice_is_encoding(input: Seq<u8>, depth: u32)
        ensures
            borrow_merge_distinguished_outcome(
                Self::empty_value(),
                None,
                input,
                depth,
                Canonicity::Canonical,
                Canonicity::Canonical,
            ) matches Ok((m, _)) ==> input == m.raw_encoding(),
    ;

    /// Bytes that relaxed decoding accepts, distinguished decoding accepts too, giving the same
    /// message.
    proof fn lemma_distinguished_borrow_accepts_relaxed(input: Seq<u8>, depth: u32)
        ensures
            borrow_merge_outcome(Self::empty_value(), None, input, depth) matches Ok(m) ==> (
            borrow_merge_distinguished_outcome(
                Self::empty_value(),
                None,
                input,
                depth,
                Canonicity::NotCanonical,
                Canonicity::Canonical,
            ) matches Ok((d, _)) && d == m),
    ;

    /// Decoding under a restriction gives exactly the distinguished outcomes that meet it.
    proof fn lemma_borrow_restriction_keeps_outcomes(
        input: Seq<u8>,
        depth: u32,
        restrict_to: Canonicity,
    )
        ensures
            borrow_merge_distinguished_outcome(
                Self::empty_value(),
                None,
                input,
                depth,
                restrict_to,
                Canonicity::Canonical,
            ) matches Ok((m, c)) ==> borrow_merge_distinguished_outcome(
                Self::empty_value(),
                None,
                input,
                depth,
                Canonicity::NotCanonical,
                Canonicity::Canonical,
            ) == Ok::<(Self, Canonicity), DecodeErrorKind>((m, c)),
            borrow_merge_distinguished_outcome(
                Self::empty_value(),
                None,
                input,
                depth,
                Canonicity::NotCanonical,
                Canonicity::Canonical,
            ) matches Ok((m, c)) ==> (canonicity_rank(c) >= canonicity_rank(restrict_to)
                ==> borrow_merge_distinguished_outcome(
                Self::empty_value(),
                None,
                input,
                depth,
                restrict_to,
                Canonicity::Canonical,
            ) == Ok::<(Self, Canonicity), DecodeErrorKind>((m, c))),
    ;
}

/// The promises of a message type with a distinguished representation, for decoding from slices,
/// for a message whose nesting the recursion limit admits: it decodes from its encoding, relaxed
/// and canonically, to itself; it decodes canonically only from its own encoding, so two inputs
/// that decode canonically to equal messages are the same bytes; and distinguished decoding
/// decodes whatever relaxed decoding does, to the same message, decodes the message's encoding
/// to the message with `Canonical` and no other bytes to a message with `Canonical`; and decoding
/// under any restriction gives exactly the distinguished outcomes that meet it.
pub proof fn lemma_borrowed_distinguished_representation<
    'a,
    T: DistinguishedBorrowedRepresentation<'a>,
>(msg: T, input: Seq<u8>, other: Seq<u8>, restrict_to: Canonicity)
    requires
        msg.borrowed_nesting_depth() <= RECURSION_LIMIT,
    ensures
        <T as DistinguishedBorrowedMessage<'a>>::borrowed_restricted_decoding(
            msg.message_encoding(),
            Canonicity::NotCanonical,
        ) == Ok::<(T, Canonicity), DecodeErrorKind>((msg, Canonicity::Canonical)),
        <T as DistinguishedBorrowedMessage<'a>>::borrowed_restricted_decoding(
            input,
            Canonicity::NotCanonical,
        ) matches Ok((m, Canonicity::Canonical)) ==> input == m.message_encoding(),
        <T as DistinguishedBorrowedMessage<'a>>::borrowed_restricted_decoding(
            input,
            restrict_to,
        ) matches Ok((m, c)) ==> (<T as DistinguishedBorrowedMessage<
            'a,
        >>::borrowed_restricted_decoding(input, Canonicity::NotCanonical) == Ok::<
            (T, Canonicity),
            DecodeErrorKind,
        >((m, c)) && canonicity_rank(c) >= canonicity_rank(restrict_to)),
        <T as DistinguishedBorrowedMessage<'a>>::borrowed_restricted_decoding(
            input,
            Canonicity::NotCanonical,
        ) matches Ok((m, c)) ==> (canonicity_rank(c) >= canonicity_rank(restrict_to) ==> <T as DistinguishedBorrowedMessage<
            'a,
        >>::borrowed_restricted_decoding(input, restrict_to) == Ok::<(T, Canonicity), DecodeErrorKind>(
            (m, c),
        )),
        <T as BorrowedMessage<'a>>::borrowed_decoding(msg.message_encoding()) == Ok::<
            T,
            DecodeErrorKind,
        >(msg),
        <T as DistinguishedBorrowedMessage<'a>>::borrowed_restricted_decoding(
            msg.message_encoding(),
            Canonicity::Canonical,
        ) == Ok::<(T, Canonicity), DecodeErrorKind>((msg, Canonicity::Canonical)),
        <T as DistinguishedBorrowedMessage<'a>>::borrowed_restricted_decoding(
            input,
            Canonicity::Canonical,
        ) matches Ok((m, _)) ==> input == m.message_encoding(),
        (<T as DistinguishedBorrowedMessage<'a>>::borrowed_restricted_decoding(
            input,
            Canonicity::Canonical,
        ) matches Ok((m, _)) && <T as DistinguishedBorrowedMessage<
            'a,
        >>::borrowed_restricted_decoding(other, Canonicity::Canonical) matches Ok((n, _)) && m
            == n) ==> input == other,
        <T as BorrowedMessage<'a>>::borrowed_decoding(input) matches Ok(m) ==> (<T as DistinguishedBorrowedMessage<
            'a,
        >>::borrowed_restricted_decoding(input, Canonicity::NotCanonical) matches Ok((d, _)) && d
            == m),
{
    msg.lemma_encoding_borrow_decodes(RECURSION_LIMIT);
    msg.lemma_encoding_borrow_decodes_canonically(RECURSION_LIMIT);
    T::lemma_canonical_slice_is_encoding(input, RECURSION_LIMIT);
    T::lemma_canonical_slice_is_encoding(other, RECURSION_LIMIT);
    T::lemma_distinguished_borrow_accepts_relaxed(input, RECURSION_LIMIT);
    T::lemma_borrow_restriction_keeps_outcomes(
        msg.raw_encoding(),
        RECURSION_LIMIT,
        Canonicity::Canonical,
    );
    T::lemma_borrow_restriction_keeps_outcomes(input, RECURSION_LIMIT, Canonicity::Canonical);
    T::lemma_borrow_restriction_keeps_outcomes(input, RECURSION_LIMIT, restrict_to);
    lemma_borrowed_distinguished_outcome_meets_restriction(
        T::empty_value(),
        None,
        input,
        RECURSION_LIMIT,
        restrict_to,
        Canonicity::Canonical,
    );
}

/// From slices as from buffers, distinguished decoding of the unit message under no restriction
/// follows relaxed decoding step by step.
proof fn lemma_unit_borrowed_distinguished_follows_relaxed<'a>(
    last: Option<u32>,
    input: Seq<u8>,
    depth: u32,
    found: Canonicity,
)
    ensures
        borrow_merge_outcome::<'a, ()>((), last, input, depth) is Ok
            ==> borrow_merge_distinguished_outcome::<'a, ()>(
            (),
            last,
            input,
            depth,
            Canonicity::NotCanonical,
            found,
        ) is Ok,
    decreases input.len(),
{
    if input.len() > 0 {
        if let Ok((key, n)) = varint_decode(input) {
            if tag_base(last) + key / 4 <= u32::MAX {
                let tag = (tag_base(last) + key / 4) as u32;
                let rest = input.skip(n as int);
                if let Ok(used) = field_value_extent(key_wire_type(key), rest) {
                    crate::varint::lemma_varint_decode_extent(input);
                    lemma_field_value_extent_within(key_wire_type(key), rest);
                    lemma_unit_borrowed_distinguished_follows_relaxed(
                        Some(tag),
                        rest.skip(used as int),
                        depth,
                        least_canonicity(found, Canonicity::HasExtensions),
                    );
                }
            }
        }
    }
}

/// From slices as from buffers, distinguished decoding of the unit message ends no more canonical than it started, and at most
/// `HasExtensions` once it has met a field.
proof fn lemma_unit_borrowed_canonicity_bounded<'a>(
    last: Option<u32>,
    input: Seq<u8>,
    depth: u32,
    restrict_to: Canonicity,
    found: Canonicity,
)
    ensures
        borrow_merge_distinguished_outcome::<'a, ()>((), last, input, depth, restrict_to, found) matches Ok((_, c))
            ==> canonicity_rank(c) <= canonicity_rank(found) && (input.len() > 0
            ==> canonicity_rank(c) <= 1),
    decreases input.len(),
{
    if input.len() > 0 {
        if let Ok((key, n)) = varint_decode(input) {
            if tag_base(last) + key / 4 <= u32::MAX {
                let tag = (tag_base(last) + key / 4) as u32;
                let rest = input.skip(n as int);
                if let Ok(used) = field_value_extent(key_wire_type(key), rest) {
                    crate::varint::lemma_varint_decode_extent(input);
                    lemma_field_value_extent_within(key_wire_type(key), rest);
                    lemma_unit_borrowed_canonicity_bounded(
                        Some(tag),
                        rest.skip(used as int),
                        depth,
                        restrict_to,
                        least_canonicity(found, Canonicity::HasExtensions),
                    );
                }
            }
        }
    }
}

/// From slices as from buffers, restricted distinguished decoding of the unit message, started at least as canonical as the
/// restriction, gives exactly the unrestricted outcomes that meet the restriction.
proof fn lemma_unit_borrowed_restriction_keeps_outcomes<'a>(
    last: Option<u32>,
    input: Seq<u8>,
    depth: u32,
    restrict_to: Canonicity,
    found: Canonicity,
)
    requires
        canonicity_rank(found) >= canonicity_rank(restrict_to),
    ensures
        borrow_merge_distinguished_outcome::<'a, ()>((), last, input, depth, restrict_to, found) matches Ok((m, c))
            ==> borrow_merge_distinguished_outcome::<'a, ()>(
            (),
            last,
            input,
            depth,
            Canonicity::NotCanonical,
            found,
        ) == Ok::<((), Canonicity), DecodeErrorKind>((m, c)),
        borrow_merge_distinguished_outcome::<'a, ()>((), last, input, depth, Canonicity::NotCanonical, found)
            matches Ok((m, c)) ==> (canonicity_rank(c) >= canonicity_rank(restrict_to)
            ==> borrow_merge_distinguished_outcome::<'a, ()>((), last, input, depth, restrict_to, found) == Ok::<
            ((), Canonicity),
            DecodeErrorKind,
        >((m, c))),
    decreases input.len(),
{
    lemma_unit_borrowed_canonicity_bounded(last, input, depth, Canonicity::NotCanonical, found);
    if input.len() > 0 {
        if let Ok((key, n)) = varint_decode(input) {
            if tag_base(last) + key / 4 <= u32::MAX {
                let tag = (tag_base(last) + key / 4) as u32;
                let rest = input.skip(n as int);
                if let Ok(used) = field_value_extent(key_wire_type(key), rest) {
                    crate::varint::lemma_varint_decode_extent(input);
                    lemma_field_value_extent_within(key_wire_type(key), rest);
                    if canonicity_rank(restrict_to) <= 1 {
                        lemma_unit_borrowed_restriction_keeps_outcomes(
                            Some(tag),
                            rest.skip(used as int),
                            depth,
                            restrict_to,
                            least_canonicity(found, Canonicity::HasExtensions),
                        );
                    }
                }
            }
        }
    }
}

impl<'a> BorrowedEncodingRoundTrip<'a> for () {
    open spec fn borrowed_nesting_depth(&self) -> nat {
        0
    }

    proof fn lemma_encoding_borrow_decodes(&self, depth: u32) {
    }
}

impl<'a> DistinguishedBorrowedRepresentation<'a> for () {
    proof fn lemma_encoding_borrow_decodes_canonically(&self, depth: u32) {
    }

    proof fn lemma_canonical_slice_is_encoding(input: Seq<u8>, depth: u32) {
        if input.len() == 0 {
            assert(input =~= ().raw_encoding());
        }
    }

    proof fn lemma_distinguished_borrow_accepts_relaxed(input: Seq<u8>, depth: u32) {
        lemma_unit_borrowed_distinguished_follows_relaxed(
            None,
            input,
            depth,
            Canonicity::Canonical,
        );
    }

    proof fn lemma_borrow_restriction_keeps_outcomes(
        input: Seq<u8>,
        depth: u32,
        restrict_to: Canonicity,
    ) {
        lemma_unit_borrowed_restriction_keeps_outcomes(
            None,
            input,
            depth,
            restrict_to,
            Canonicity::Canonical,
        );
    }
}

} // verus!
