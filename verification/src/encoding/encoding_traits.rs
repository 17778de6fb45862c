//! The traits that encode and decode values and fields.
//!
//! Encodings are marker types `E`; an encoding is implemented for a value type `T` by implementing
//! the traits on `()` with `E` and `T` as arguments. Value encoders deal with bare values; the
//! field traits add the field's key and check its wire type, and are implemented for every value
//! encoder here; `Option` of a value is encoded as a field that is present only when the value is.
use crate::buf::{lemma_sum_prefix_le, sum_sizes, ReverseBuf};
use crate::byte_bufs::{bytes_contents, bytes_mut_contents};
use crate::encoding::{
    check_wire_type, key_encoding, pending_key, read_from_front, spec_fixed_size, Canonicity,
    DecodeContext, RestrictedDecodeContext, TagMeasurer, TagRevWriter, TagWriter, WireType,
};
use crate::error::{DecodeError, DecodeErrorKind};
use bytes::{Bytes, BytesMut};
use vstd::prelude::*;

verus! {

/// The wire type that the encoding `E` uses for values of type `T`.
pub trait Wiretyped<E, T> {
    const WIRE_TYPE: WireType;
}

/// When every size is `size`, they add up to `size` times their number.
proof fn lemma_sum_equal_sizes(sizes: Seq<nat>, size: nat)
    requires
        forall|i: int| 0 <= i < sizes.len() ==> #[trigger] sizes[i] == size,
    ensures
        sum_sizes(sizes) == size * sizes.len(),
    decreases sizes.len(),
{
    if sizes.len() > 0 {
        let rest = sizes.drop_last();
        assert forall|i: int| 0 <= i < rest.len() implies #[trigger] rest[i] == size by {
            assert(rest[i] == sizes[i]);
        }
        lemma_sum_equal_sizes(rest, size);
        assert(size * sizes.len() == size * rest.len() + size) by (nonlinear_arith)
            requires
                sizes.len() == rest.len() + 1,
        ;
    }
}

/// Encodes single values of type `T` with the encoding `E`; every other encoding of values is
/// built on this.
pub trait ValueEncoder<E, T>: Wiretyped<E, T> + Sized {
    /// The bytes that encode the value.
    spec fn value_encoding(value: &T) -> Seq<u8>;

    /// A value always encodes to at least one byte, and a value of a fixed-size wire type to
    /// exactly that many.
    proof fn lemma_value_encoding_size(value: &T)
        ensures
            Self::value_encoding(value).len() >= 1,
            spec_fixed_size(Self::WIRE_TYPE) matches Some(n) ==> Self::value_encoding(value).len()
                == n,
    ;

    /// Encodes the value at the end of the buffer; this always writes at least one byte.
    fn encode_value(value: &T, buf: &mut BytesMut)
        requires
            bytes_mut_contents(*old(buf)).len() + Self::value_encoding(value).len() <= isize::MAX,
        ensures
            bytes_mut_contents(*final(buf)) == bytes_mut_contents(*old(buf))
                + Self::value_encoding(value),
    ;

    /// Prepends the value to the buffer; this always writes at least one byte.
    fn prepend_value<B: ReverseBuf>(value: &T, buf: &mut B)
        requires
            old(buf).is_valid(),
            Self::value_encoding(value).len() <= old(buf).writable(),
        ensures
            final(buf).is_valid(),
            final(buf).contents() == Self::value_encoding(value) + old(buf).contents(),
            final(buf).writable() == old(buf).writable() - Self::value_encoding(value).len(),
    ;

    /// Returns the number of bytes the value encodes to.
    fn value_encoded_len(value: &T) -> (r: usize)
        ensures
            r == Self::value_encoding(value).len(),
    ;

    /// Returns the total number of bytes that all the values encode to: for a fixed-size wire
    /// type that size times their number, without looking at them.
    fn many_values_encoded_len(values: &[T]) -> (r: usize)
        requires
            sum_sizes(values@.map_values(|v: T| Self::value_encoding(&v).len())) <= usize::MAX,
        ensures
            r == sum_sizes(values@.map_values(|v: T| Self::value_encoding(&v).len())),
    {
        let ghost sizes = values@.map_values(|v: T| Self::value_encoding(&v).len());
        match Self::WIRE_TYPE.fixed_size() {
            Some(fixed) => {
                proof {
                    assert forall|i: int| 0 <= i < sizes.len() implies #[trigger] sizes[i]
                        == fixed by {
                        Self::lemma_value_encoding_size(&values@[i]);
                    }
                    lemma_sum_equal_sizes(sizes, fixed as nat);
                }
                fixed * values.len()
            },
            None => {
                let mut total: usize = 0;
                let mut i: usize = 0;
                proof {
                    assert(sizes.take(0) =~= Seq::<nat>::empty());
                }
                while i < values.len()
                    invariant
                        i <= values@.len(),
                        sizes == values@.map_values(|v: T| Self::value_encoding(&v).len()),
                        total == sum_sizes(sizes.take(i as int)),
                        sum_sizes(sizes) <= usize::MAX,
                    decreases values@.len() - i,
                {
                    proof {
                        assert(sizes.take(i + 1).drop_last() =~= sizes.take(i as int));
                        lemma_sum_prefix_le(sizes, i + 1);
                    }
                    total = total + Self::value_encoded_len(&values[i]);
                    i = i + 1;
                }
                proof {
                    assert(sizes.take(i as int) =~= sizes);
                }
                total
            },
        }
    }
}

/// Encodes fields of type `T` with the encoding `E`: a value encoding preceded by the field's key.
pub trait FieldEncoder<E, T>: ValueEncoder<E, T> {
    /// Encodes exactly one field with the given tag and value at the end of the buffer.
    fn encode_field(tag: u32, value: &T, buf: &mut BytesMut, tw: &mut TagWriter)
        requires
            old(tw).spec_last_tag() <= tag,
            bytes_mut_contents(*old(buf)).len() + key_encoding(
                old(tw).spec_last_tag(),
                tag,
                Self::WIRE_TYPE,
            ).len() + Self::value_encoding(value).len() <= isize::MAX,
        ensures
            bytes_mut_contents(*final(buf)) == bytes_mut_contents(*old(buf)) + key_encoding(
                old(tw).spec_last_tag(),
                tag,
                Self::WIRE_TYPE,
            ) + Self::value_encoding(value),
            final(tw).spec_last_tag() == tag,
    ;

    /// Prepends exactly one field with the given tag and value; its key is written once the
    /// field before it begins.
    fn prepend_field<B: ReverseBuf>(tag: u32, value: &T, buf: &mut B, tw: &mut TagRevWriter)
        requires
            old(tw).spec_pending() matches Some((t, _)) ==> tag <= t,
            old(buf).is_valid(),
            pending_key(old(tw).spec_pending(), tag).len() + Self::value_encoding(value).len()
                <= old(buf).writable(),
        ensures
            final(buf).is_valid(),
            final(buf).contents() == Self::value_encoding(value) + pending_key(
                old(tw).spec_pending(),
                tag,
            ) + old(buf).contents(),
            final(buf).writable() == old(buf).writable() - pending_key(
                old(tw).spec_pending(),
                tag,
            ).len() - Self::value_encoding(value).len(),
            final(tw).spec_pending() == Some((tag, Self::WIRE_TYPE)),
    ;

    /// Returns the encoded length of the field, its key included.
    fn field_encoded_len(tag: u32, value: &T, tm: &mut TagMeasurer) -> (r: usize)
        requires
            old(tm).spec_last_tag() <= tag,
            key_encoding(old(tm).spec_last_tag(), tag, Self::WIRE_TYPE).len()
                + Self::value_encoding(value).len() <= usize::MAX,
        ensures
            r == key_encoding(old(tm).spec_last_tag(), tag, Self::WIRE_TYPE).len()
                + Self::value_encoding(value).len(),
            final(tm).spec_last_tag() == tag,
    ;
}

impl<E, T> FieldEncoder<E, T> for () where (): ValueEncoder<E, T> {
    fn encode_field(tag: u32, value: &T, buf: &mut BytesMut, tw: &mut TagWriter) {
        tw.encode_key(tag, <() as Wiretyped<E, T>>::WIRE_TYPE, buf);
        <() as ValueEncoder<E, T>>::encode_value(value, buf);
    }

    fn prepend_field<B: ReverseBuf>(tag: u32, value: &T, buf: &mut B, tw: &mut TagRevWriter) {
        tw.begin_field(tag, <() as Wiretyped<E, T>>::WIRE_TYPE, buf);
        <() as ValueEncoder<E, T>>::prepend_value(value, buf);
    }

    fn field_encoded_len(tag: u32, value: &T, tm: &mut TagMeasurer) -> (r: usize) {
        let key = tm.key_len(tag);
        proof {
            assert(key == key_encoding(
                old(tm).spec_last_tag(),
                tag,
                <() as Wiretyped<E, T>>::WIRE_TYPE,
            ).len());
        }
        key + <() as ValueEncoder<E, T>>::value_encoded_len(value)
    }
}

/// A decoding call agrees with an outcome: it succeeded, left the value as the outcome says and
/// read exactly the bytes that the outcome counts, or failed with an error of the outcome's kind.
pub open spec fn decoded_as<T>(
    r: Result<(), DecodeError>,
    after: T,
    input: Seq<u8>,
    left: Seq<u8>,
    outcome: Result<(T, nat), DecodeErrorKind>,
) -> bool {
    match outcome {
        Ok((v, n)) => r is Ok && after == v && left == input.skip(n as int),
        Err(k) => r matches Err(e) && e.spec_kind() == k,
    }
}

/// A distinguished decoding call agrees with an outcome: as `decoded_as`, and on success it
/// returns the canonicity that the outcome gives.
pub open spec fn decoded_distinguished_as<T>(
    r: Result<Canonicity, DecodeError>,
    after: T,
    input: Seq<u8>,
    left: Seq<u8>,
    outcome: Result<(T, nat, Canonicity), DecodeErrorKind>,
) -> bool {
    match outcome {
        Ok((v, n, c)) => r == Ok::<Canonicity, DecodeError>(c) && after == v && left == input.skip(
            n as int,
        ),
        Err(k) => r matches Err(e) && e.spec_kind() == k,
    }
}

/// A decoding call that found the wrong wire type: it failed with `WrongWireType` and touched
/// neither the value nor the input.
pub open spec fn refused_wire_type<T, C>(
    r: Result<C, DecodeError>,
    before: T,
    after: T,
    input: Seq<u8>,
    left: Seq<u8>,
) -> bool {
    &&& r matches Err(e) && e.spec_kind() == DecodeErrorKind::WrongWireType
    &&& after == before
    &&& left == input
}

/// Decodes single values in relaxed mode, copying the data out of the buffer.
pub trait ValueDecoder<E, T>: ValueEncoder<E, T> {
    /// What decoding a value from the front of `input` into `value` gives: the value afterwards
    /// and how many bytes were read, or the kind of error. `depth` is how many more levels of
    /// nesting may be entered.
    spec fn value_decoding(value: &T, input: Seq<u8>, depth: u32) -> Result<(T, nat), DecodeErrorKind>;

    /// A value is read from within the input.
    proof fn lemma_value_decoding_within(value: &T, input: Seq<u8>, depth: u32)
        ensures
            Self::value_decoding(value, input, depth) matches Ok((_, n)) ==> n <= input.len(),
    ;

    /// Decodes a value of the encoder's wire type from the front of the buffer.
    fn decode_value(value: &mut T, buf: &mut Bytes, ctx: DecodeContext) -> (r: Result<
        (),
        DecodeError,
    >)
        ensures
            read_from_front(bytes_contents(*old(buf)), bytes_contents(*final(buf))),
            decoded_as(
                r,
                *final(value),
                bytes_contents(*old(buf)),
                bytes_contents(*final(buf)),
                Self::value_decoding(&*old(value), bytes_contents(*old(buf)), ctx.depth_left()),
            ),
    ;
}

/// Decodes single values in distinguished mode, also checking that the value would encode to
/// exactly the bytes it was read from.
pub trait DistinguishedValueDecoder<E, T>: ValueEncoder<E, T> + Eq {
    /// Whether decoding itself reports an empty value as `NotCanonical` when empty values are
    /// not allowed; when it does not, the caller checks for emptiness.
    const CHECKS_EMPTY: bool;

    /// What decoding a value from the front of `input` into `value` gives in distinguished
    /// mode: the value afterwards, how many bytes were read and how canonical they were, or the
    /// kind of error. Decoding stops with an error when the canonicity falls below
    /// `restrict_to`.
    spec fn value_decoding_distinguished(
        value: &T,
        input: Seq<u8>,
        depth: u32,
        restrict_to: Canonicity,
        allow_empty: bool,
    ) -> Result<(T, nat, Canonicity), DecodeErrorKind>;

    /// A value is read from within the input.
    proof fn lemma_value_decoding_distinguished_within(
        value: &T,
        input: Seq<u8>,
        depth: u32,
        restrict_to: Canonicity,
        allow_empty: bool,
    )
        ensures
            Self::value_decoding_distinguished(
                value,
                input,
                depth,
                restrict_to,
                allow_empty,
            ) matches Ok((_, n, _)) ==> n <= input.len(),
    ;

    /// Decodes a value of the encoder's wire type from the front of the buffer in distinguished
    /// mode.
    fn decode_value_distinguished<const ALLOW_EMPTY: bool>(
        value: &mut T,
        buf: &mut Bytes,
        ctx: RestrictedDecodeContext,
    ) -> (r: Result<Canonicity, DecodeError>)
        ensures
            read_from_front(bytes_contents(*old(buf)), bytes_contents(*final(buf))),
            decoded_distinguished_as(
                r,
                *final(value),
                bytes_contents(*old(buf)),
                bytes_contents(*final(buf)),
                Self::value_decoding_distinguished(
                    &*old(value),
                    bytes_contents(*old(buf)),
                    ctx.spec_context().depth_left(),
                    ctx.spec_restrict_to(),
                    ALLOW_EMPTY,
                ),
            ),
    ;
}

/// Decodes single values in relaxed mode, possibly borrowing from the input.
pub trait ValueBorrowDecoder<'a, E, T>: ValueEncoder<E, T> {
    /// What decoding a value from the front of `input` into `value` gives: the value afterwards
    /// and how many bytes were read, or the kind of error.
    spec fn value_borrow_decoding(value: &T, input: Seq<u8>, depth: u32) -> Result<
        (T, nat),
        DecodeErrorKind,
    >;

    /// A value is read from within the input.
    proof fn lemma_value_borrow_decoding_within(value: &T, input: Seq<u8>, depth: u32)
        ensures
            Self::value_borrow_decoding(value, input, depth) matches Ok((_, n)) ==> n
                <= input.len(),
    ;

    /// Decodes a value of the encoder's wire type from the front of the slice.
    fn borrow_decode_value(value: &mut T, buf: &mut &'a [u8], ctx: DecodeContext) -> (r: Result<
        (),
        DecodeError,
    >)
        ensures
            read_from_front((*old(buf))@, (*final(buf))@),
            decoded_as(
                r,
                *final(value),
                (*old(buf))@,
                (*final(buf))@,
                Self::value_borrow_decoding(&*old(value), (*old(buf))@, ctx.depth_left()),
            ),
    ;
}

/// Decodes single values in distinguished mode, possibly borrowing from the input.
pub trait DistinguishedValueBorrowDecoder<'a, E, T>: ValueEncoder<E, T> + Eq {
    /// Whether decoding itself reports an empty value as `NotCanonical` when empty values are
    /// not allowed; when it does not, the caller checks for emptiness.
    const CHECKS_EMPTY: bool;

    /// What decoding a value from the front of `input` into `value` gives in distinguished
    /// mode: the value afterwards, how many bytes were read and how canonical they were, or the
    /// kind of error.
    spec fn value_borrow_decoding_distinguished(
        value: &T,
        input: Seq<u8>,
        depth: u32,
        restrict_to: Canonicity,
        allow_empty: bool,
    ) -> Result<(T, nat, Canonicity), DecodeErrorKind>;

    /// A value is read from within the input.
    proof fn lemma_value_borrow_decoding_distinguished_within(
        value: &T,
        input: Seq<u8>,
        depth: u32,
        restrict_to: Canonicity,
        allow_empty: bool,
    )
        ensures
            Self::value_borrow_decoding_distinguished(
                value,
                input,
                depth,
                restrict_to,
                allow_empty,
            ) matches Ok((_, n, _)) ==> n <= input.len(),
    ;

    /// Decodes a value of the encoder's wire type from the front of the slice in distinguished
    /// mode.
    fn borrow_decode_value_distinguished<const ALLOW_EMPTY: bool>(
        value: &mut T,
        buf: &mut &'a [u8],
        ctx: RestrictedDecodeContext,
    ) -> (r: Result<Canonicity, DecodeError>)
        ensures
            read_from_front((*old(buf))@, (*final(buf))@),
            decoded_distinguished_as(
                r,
                *final(value),
                (*old(buf))@,
                (*final(buf))@,
                Self::value_borrow_decoding_distinguished(
                    &*old(value),
                    (*old(buf))@,
                    ctx.spec_context().depth_left(),
                    ctx.spec_restrict_to(),
                    ALLOW_EMPTY,
                ),
            ),
    ;
}

/// Decodes fields in relaxed mode: checks the field's wire type, then decodes its value.
pub trait FieldDecoder<E, T>: ValueDecoder<E, T> {
    /// Decodes a field's value from the buffer, its key already read; a wire type other than
    /// the encoder's is refused.
    fn decode_field(wire_type: WireType, value: &mut T, buf: &mut Bytes, ctx: DecodeContext) -> (r:
        Result<(), DecodeError>)
        ensures
            wire_type != Self::WIRE_TYPE ==> refused_wire_type(
                r,
                *old(value),
                *final(value),
                bytes_contents(*old(buf)),
                bytes_contents(*final(buf)),
            ),
            read_from_front(bytes_contents(*old(buf)), bytes_contents(*final(buf))),
            wire_type == Self::WIRE_TYPE ==> decoded_as(
                r,
                *final(value),
                bytes_contents(*old(buf)),
                bytes_contents(*final(buf)),
                Self::value_decoding(&*old(value), bytes_contents(*old(buf)), ctx.depth_left()),
            ),
    ;
}

impl<E, T> FieldDecoder<E, T> for () where (): ValueDecoder<E, T> {
    fn decode_field(wire_type: WireType, value: &mut T, buf: &mut Bytes, ctx: DecodeContext) -> (r:
        Result<(), DecodeError>) {
        proof {
            assert(bytes_contents(*buf).skip(0) =~= bytes_contents(*buf));
        }
        match check_wire_type(<() as Wiretyped<E, T>>::WIRE_TYPE, wire_type) {
            Ok(()) => {},
            Err(e) => return Err(e),
        }
        <() as ValueDecoder<E, T>>::decode_value(value, buf, ctx)
    }
}

/// Decodes fields in distinguished mode: checks the field's wire type, then decodes its value.
pub trait DistinguishedFieldDecoder<E, T>: DistinguishedValueDecoder<E, T> {
    /// Decodes a field's value from the buffer in distinguished mode, its key already read; a
    /// wire type other than the encoder's is refused.
    fn decode_field_distinguished<const ALLOW_EMPTY: bool>(
        wire_type: WireType,
        value: &mut T,
        buf: &mut Bytes,
        ctx: RestrictedDecodeContext,
    ) -> (r: Result<Canonicity, DecodeError>)
        ensures
            wire_type != Self::WIRE_TYPE ==> refused_wire_type(
                r,
                *old(value),
                *final(value),
                bytes_contents(*old(buf)),
                bytes_contents(*final(buf)),
            ),
            read_from_front(bytes_contents(*old(buf)), bytes_contents(*final(buf))),
            wire_type == Self::WIRE_TYPE ==> decoded_distinguished_as(
                r,
                *final(value),
                bytes_contents(*old(buf)),
                bytes_contents(*final(buf)),
                Self::value_decoding_distinguished(
                    &*old(value),
                    bytes_contents(*old(buf)),
                    ctx.spec_context().depth_left(),
                    ctx.spec_restrict_to(),
                    ALLOW_EMPTY,
                ),
            ),
    ;
}

impl<E, T> DistinguishedFieldDecoder<E, T> for () where (): DistinguishedValueDecoder<E, T> {
    fn decode_field_distinguished<const ALLOW_EMPTY: bool>(
        wire_type: WireType,
        value: &mut T,
        buf: &mut Bytes,
        ctx: RestrictedDecodeContext,
    ) -> (r: Result<Canonicity, DecodeError>) {
        proof {
            assert(bytes_contents(*buf).skip(0) =~= bytes_contents(*buf));
        }
        match check_wire_type(<() as Wiretyped<E, T>>::WIRE_TYPE, wire_type) {
            Ok(()) => {},
            Err(e) => return Err(e),
        }
        <() as DistinguishedValueDecoder<E, T>>::decode_value_distinguished::<ALLOW_EMPTY>(
            value,
            buf,
            ctx,
        )
    }
}

/// Decodes fields in relaxed mode, possibly borrowing from the input.
pub trait FieldBorrowDecoder<'a, E, T>: ValueBorrowDecoder<'a, E, T> {
    /// Decodes a field's value from the slice, its key already read; a wire type other than the
    /// encoder's is refused.
    fn borrow_decode_field(
        wire_type: WireType,
        value: &mut T,
        buf: &mut &'a [u8],
        ctx: DecodeContext,
    ) -> (r: Result<(), DecodeError>)
        ensures
            wire_type != Self::WIRE_TYPE ==> refused_wire_type(
                r,
                *old(value),
                *final(value),
                (*old(buf))@,
                (*final(buf))@,
            ),
            read_from_front((*old(buf))@, (*final(buf))@),
            wire_type == Self::WIRE_TYPE ==> decoded_as(
                r,
                *final(value),
                (*old(buf))@,
                (*final(buf))@,
                Self::value_borrow_decoding(&*old(value), (*old(buf))@, ctx.depth_left()),
            ),
    ;
}

impl<'a, E, T> FieldBorrowDecoder<'a, E, T> for () where (): ValueBorrowDecoder<'a, E, T> {
    fn borrow_decode_field(
        wire_type: WireType,
        value: &mut T,
        buf: &mut &'a [u8],
        ctx: DecodeContext,
    ) -> (r: Result<(), DecodeError>) {
        proof {
            assert((*buf)@.skip(0) =~= (*buf)@);
        }
        match check_wire_type(<() as Wiretyped<E, T>>::WIRE_TYPE, wire_type) {
            Ok(()) => {},
            Err(e) => return Err(e),
        }
        <() as ValueBorrowDecoder<'a, E, T>>::borrow_decode_value(value, buf, ctx)
    }
}

/// Decodes fields in distinguished mode, possibly borrowing from the input.
pub trait DistinguishedFieldBorrowDecoder<'a, E, T>: DistinguishedValueBorrowDecoder<'a, E, T> {
    /// Decodes a field's value from the slice in distinguished mode, its key already read; a wire
    /// type other than the encoder's is refused.
    fn borrow_decode_field_distinguished<const ALLOW_EMPTY: bool>(
        wire_type: WireType,
        value: &mut T,
        buf: &mut &'a [u8],
        ctx: RestrictedDecodeContext,
    ) -> (r: Result<Canonicity, DecodeError>)
        ensures
            wire_type != Self::WIRE_TYPE ==> refused_wire_type(
                r,
                *old(value),
                *final(value),
                (*old(buf))@,
                (*final(buf))@,
            ),
            read_from_front((*old(buf))@, (*final(buf))@),
            wire_type == Self::WIRE_TYPE ==> decoded_distinguished_as(
                r,
                *final(value),
                (*old(buf))@,
                (*final(buf))@,
                Self::value_borrow_decoding_distinguished(
                    &*old(value),
                    (*old(buf))@,
                    ctx.spec_context().depth_left(),
                    ctx.spec_restrict_to(),
                    ALLOW_EMPTY,
                ),
            ),
    ;
}

impl<'a, E, T> DistinguishedFieldBorrowDecoder<'a, E, T> for () where
    (): DistinguishedValueBorrowDecoder<'a, E, T>,
 {
    fn borrow_decode_field_distinguished<const ALLOW_EMPTY: bool>(
        wire_type: WireType,
        value: &mut T,
        buf: &mut &'a [u8],
        ctx: RestrictedDecodeContext,
    ) -> (r: Result<Canonicity, DecodeError>) {
        proof {
            assert((*buf)@.skip(0) =~= (*buf)@);
        }
        match check_wire_type(<() as Wiretyped<E, T>>::WIRE_TYPE, wire_type) {
            Ok(()) => {},
            Err(e) => return Err(e),
        }
        <() as DistinguishedValueBorrowDecoder<'a, E, T>>::borrow_decode_value_distinguished::<
            ALLOW_EMPTY,
        >(value, buf, ctx)
    }
}

/// The bytes of a field's occurrences, each a wire type and the bytes of a value, written as
/// fields with tag `tag` after a field with tag `last_tag`; the occurrences after the first
/// repeat the tag.
pub open spec fn occurrences_encoding(
    last_tag: u32,
    tag: u32,
    occurrences: Seq<(WireType, Seq<u8>)>,
) -> Seq<u8>
    decreases occurrences.len(),
{
    if occurrences.len() == 0 {
        Seq::empty()
    } else {
        key_encoding(last_tag, tag, occurrences[0].0) + occurrences[0].1 + occurrences_encoding(
            tag,
            tag,
            occurrences.drop_first(),
        )
    }
}

/// The tag a `TagWriter` holds once the occurrences are written: unchanged when there are none.
pub open spec fn tag_after(last_tag: u32, tag: u32, occurrences: Seq<(WireType, Seq<u8>)>) -> u32 {
    if occurrences.len() == 0 {
        last_tag
    } else {
        tag
    }
}

/// The bytes that prepending a field's occurrences puts in front of a buffer while the field
/// `pending` is owed its key: the occurrences are prepended last first, and each occurrence's
/// value is followed by the key owed to what follows it.
pub open spec fn occurrences_prepended(
    pending: Option<(u32, WireType)>,
    tag: u32,
    occurrences: Seq<(WireType, Seq<u8>)>,
) -> Seq<u8>
    decreases occurrences.len(),
{
    if occurrences.len() == 0 {
        Seq::empty()
    } else {
        occurrences_prepended(Some((tag, occurrences.last().0)), tag, occurrences.drop_last())
            + occurrences.last().1 + pending_key(pending, tag)
    }
}

/// The field that is owed its key once the occurrences are prepended: the first occurrence, or
/// the field pending before when there are none.
pub open spec fn pending_after(
    pending: Option<(u32, WireType)>,
    tag: u32,
    occurrences: Seq<(WireType, Seq<u8>)>,
) -> Option<(u32, WireType)> {
    if occurrences.len() == 0 {
        pending
    } else {
        Some((tag, occurrences[0].0))
    }
}

/// Encodes fields of type `T` with the encoding `E`; a field may encode to any number of
/// occurrences of its tag.
pub trait Encoder<E, T> {
    /// The occurrences that the field encodes to, in order: the wire type and the value bytes of
    /// each.
    spec fn field_occurrences(value: &T) -> Seq<(WireType, Seq<u8>)>;

    /// Encodes the field with the given tag and value at the end of the buffer.
    fn encode(tag: u32, value: &T, buf: &mut BytesMut, tw: &mut TagWriter)
        requires
            old(tw).spec_last_tag() <= tag,
            bytes_mut_contents(*old(buf)).len() + occurrences_encoding(
                old(tw).spec_last_tag(),
                tag,
                Self::field_occurrences(value),
            ).len() <= isize::MAX,
        ensures
            bytes_mut_contents(*final(buf)) == bytes_mut_contents(*old(buf))
                + occurrences_encoding(old(tw).spec_last_tag(), tag, Self::field_occurrences(value)),
            final(tw).spec_last_tag() == tag_after(
                old(tw).spec_last_tag(),
                tag,
                Self::field_occurrences(value),
            ),
    ;

    /// Prepends the field with the given tag and value to the buffer.
    fn prepend_encode<B: ReverseBuf>(tag: u32, value: &T, buf: &mut B, tw: &mut TagRevWriter)
        requires
            old(tw).spec_pending() matches Some((t, _)) ==> tag <= t,
            old(buf).is_valid(),
            occurrences_prepended(
                old(tw).spec_pending(),
                tag,
                Self::field_occurrences(value),
            ).len() <= old(buf).writable(),
        ensures
            final(buf).is_valid(),
            final(buf).contents() == occurrences_prepended(
                old(tw).spec_pending(),
                tag,
                Self::field_occurrences(value),
            ) + old(buf).contents(),
            final(buf).writable() == old(buf).writable() - occurrences_prepended(
                old(tw).spec_pending(),
                tag,
                Self::field_occurrences(value),
            ).len(),
            final(tw).spec_pending() == pending_after(
                old(tw).spec_pending(),
                tag,
                Self::field_occurrences(value),
            ),
    ;

    /// Returns the encoded length of the field, keys included.
    fn encoded_len(tag: u32, value: &T, tm: &mut TagMeasurer) -> (r: usize)
        requires
            old(tm).spec_last_tag() <= tag,
            occurrences_encoding(
                old(tm).spec_last_tag(),
                tag,
                Self::field_occurrences(value),
            ).len() <= usize::MAX,
        ensures
            r == occurrences_encoding(
                old(tm).spec_last_tag(),
                tag,
                Self::field_occurrences(value),
            ).len(),
            final(tm).spec_last_tag() == tag_after(
                old(tm).spec_last_tag(),
                tag,
                Self::field_occurrences(value),
            ),
    ;
}

/// Decodes fields in relaxed mode, copying the data out of the buffer.
pub trait Decoder<E, T>: Encoder<E, T> {
    /// What decoding one occurrence of the field, of the given wire type, from the front of
    /// `input` into `value` gives: the value afterwards and how many bytes were read, or the kind
    /// of error.
    spec fn field_decoding(value: &T, wire_type: WireType, input: Seq<u8>, depth: u32) -> Result<
        (T, nat),
        DecodeErrorKind,
    >;

    /// An occurrence is read from within the input.
    proof fn lemma_field_decoding_within(
        value: &T,
        wire_type: WireType,
        input: Seq<u8>,
        depth: u32,
    )
        ensures
            Self::field_decoding(value, wire_type, input, depth) matches Ok((_, n)) ==> n
                <= input.len(),
    ;

    /// Decodes one occurrence of the field from the buffer, its key already read.
    fn decode(wire_type: WireType, value: &mut T, buf: &mut Bytes, ctx: DecodeContext) -> (r:
        Result<(), DecodeError>)
        ensures
            read_from_front(bytes_contents(*old(buf)), bytes_contents(*final(buf))),
            decoded_as(
                r,
                *final(value),
                bytes_contents(*old(buf)),
                bytes_contents(*final(buf)),
                Self::field_decoding(
                    &*old(value),
                    wire_type,
                    bytes_contents(*old(buf)),
                    ctx.depth_left(),
                ),
            ),
    ;
}

/// Decodes fields in distinguished mode, copying the data out of the buffer.
pub trait DistinguishedDecoder<E, T>: Encoder<E, T> {
    /// What decoding one occurrence of the field in distinguished mode gives: the value
    /// afterwards, how many bytes were read and how canonical they were, or the kind of error.
    spec fn field_decoding_distinguished(
        value: &T,
        wire_type: WireType,
        input: Seq<u8>,
        depth: u32,
        restrict_to: Canonicity,
    ) -> Result<(T, nat, Canonicity), DecodeErrorKind>;

    /// An occurrence is read from within the input.
    proof fn lemma_field_decoding_distinguished_within(
        value: &T,
        wire_type: WireType,
        input: Seq<u8>,
        depth: u32,
        restrict_to: Canonicity,
    )
        ensures
            Self::field_decoding_distinguished(
                value,
                wire_type,
                input,
                depth,
                restrict_to,
            ) matches Ok((_, n, _)) ==> n <= input.len(),
    ;

    /// Decodes one occurrence of the field from the buffer in distinguished mode, its key
    /// already read.
    fn decode_distinguished(
        wire_type: WireType,
        value: &mut T,
        buf: &mut Bytes,
        ctx: RestrictedDecodeContext,
    ) -> (r: Result<Canonicity, DecodeError>)
        ensures
            read_from_front(bytes_contents(*old(buf)), bytes_contents(*final(buf))),
            decoded_distinguished_as(
                r,
                *final(value),
                bytes_contents(*old(buf)),
                bytes_contents(*final(buf)),
                Self::field_decoding_distinguished(
                    &*old(value),
                    wire_type,
                    bytes_contents(*old(buf)),
                    ctx.spec_context().depth_left(),
                    ctx.spec_restrict_to(),
                ),
            ),
    ;
}

/// Decodes fields in relaxed mode, possibly borrowing from the input.
pub trait BorrowDecoder<'a, E, T>: Encoder<E, T> {
    /// What decoding one occurrence of the field from the front of `input` into `value` gives.
    spec fn field_borrow_decoding(
        value: &T,
        wire_type: WireType,
        input: Seq<u8>,
        depth: u32,
    ) -> Result<(T, nat), DecodeErrorKind>;

    /// An occurrence is read from within the input.
    proof fn lemma_field_borrow_decoding_within(
        value: &T,
        wire_type: WireType,
        input: Seq<u8>,
        depth: u32,
    )
        ensures
            Self::field_borrow_decoding(value, wire_type, input, depth) matches Ok((_, n)) ==> n
                <= input.len(),
    ;

    /// Decodes one occurrence of the field from the slice, its key already read.
    fn borrow_decode(
        wire_type: WireType,
        value: &mut T,
        buf: &mut &'a [u8],
        ctx: DecodeContext,
    ) -> (r: Result<(), DecodeError>)
        ensures
            read_from_front((*old(buf))@, (*final(buf))@),
            decoded_as(
                r,
                *final(value),
                (*old(buf))@,
                (*final(buf))@,
                Self::field_borrow_decoding(&*old(value), wire_type, (*old(buf))@, ctx.depth_left()),
            ),
    ;
}

/// Decodes fields in distinguished mode, possibly borrowing from the input.
pub trait DistinguishedBorrowDecoder<'a, E, T>: Encoder<E, T> {
    /// What decoding one occurrence of the field in distinguished mode gives.
    spec fn field_borrow_decoding_distinguished(
        value: &T,
        wire_type: WireType,
        input: Seq<u8>,
        depth: u32,
        restrict_to: Canonicity,
    ) -> Result<(T, nat, Canonicity), DecodeErrorKind>;

    /// An occurrence is read from within the input.
    proof fn lemma_field_borrow_decoding_distinguished_within(
        value: &T,
        wire_type: WireType,
        input: Seq<u8>,
        depth: u32,
        restrict_to: Canonicity,
    )
        ensures
            Self::field_borrow_decoding_distinguished(
                value,
                wire_type,
                input,
                depth,
                restrict_to,
            ) matches Ok((_, n, _)) ==> n <= input.len(),
    ;

    /// Decodes one occurrence of the field from the slice in distinguished mode, its key already
    /// read.
    fn borrow_decode_distinguished(
        wire_type: WireType,
        value: &mut T,
        buf: &mut &'a [u8],
        ctx: RestrictedDecodeContext,
    ) -> (r: Result<Canonicity, DecodeError>)
        ensures
            read_from_front((*old(buf))@, (*final(buf))@),
            decoded_distinguished_as(
                r,
                *final(value),
                (*old(buf))@,
                (*final(buf))@,
                Self::field_borrow_decoding_distinguished(
                    &*old(value),
                    wire_type,
                    (*old(buf))@,
                    ctx.spec_context().depth_left(),
                    ctx.spec_restrict_to(),
                ),
            ),
    ;
}

/// Creates the values that decoding then fills in.
pub trait ForOverwrite<E, T> {
    /// The value that `for_overwrite` creates.
    spec fn overwrite_value() -> T;

    /// Creates a value for decoding to fill in.
    fn for_overwrite() -> (r: T)
        ensures
            r == Self::overwrite_value(),
    ;
}

/// A value encoding whose encodings decode back to the values they encode: the implementation
/// proves that decoding a value's encoding, followed by any bytes, into a new value gives the
/// value back and reads exactly the encoding, as long as decoding may enter the levels of nesting
/// the value holds.
pub trait ValueRoundTrip<E, T>: ValueDecoder<E, T> + ForOverwrite<E, T> {
    /// How many levels of nested messages the value holds.
    spec fn value_nesting(value: &T) -> nat;

    /// A value decodes from its encoding to itself, reading exactly the encoding.
    proof fn lemma_value_roundtrip(value: &T, rest: Seq<u8>, depth: u32)
        requires
            Self::value_nesting(value) <= depth,
        ensures
            Self::value_decoding(&Self::overwrite_value(), Self::value_encoding(value) + rest, depth)
                == Ok::<(T, nat), DecodeErrorKind>((*value, Self::value_encoding(value).len())),
    ;
}

/// A value encoding with a distinguished representation: the implementation proves that a value
/// decodes canonically from its encoding to itself, and that whatever decodes canonically is the
/// encoding of the value it decodes to.
pub trait DistinguishedValueRoundTrip<E, T>: ValueRoundTrip<E, T> + DistinguishedValueDecoder<
    E,
    T,
> {
    /// A value decodes canonically from its encoding to itself, reading exactly the encoding,
    /// where empty values are allowed.
    proof fn lemma_value_decodes_canonically(
        value: &T,
        rest: Seq<u8>,
        depth: u32,
        restrict_to: Canonicity,
    )
        requires
            Self::value_nesting(value) <= depth,
        ensures
            Self::value_decoding_distinguished(
                &Self::overwrite_value(),
                Self::value_encoding(value) + rest,
                depth,
                restrict_to,
                true,
            ) == Ok::<(T, nat, Canonicity), DecodeErrorKind>(
                (*value, Self::value_encoding(value).len(), Canonicity::Canonical),
            ),
    ;

    /// Bytes that decode canonically into a new value are the encoding of the value they decode
    /// to.
    proof fn lemma_canonical_value_is_encoding(
        input: Seq<u8>,
        depth: u32,
        restrict_to: Canonicity,
        allow_empty: bool,
    )
        ensures
            Self::value_decoding_distinguished(
                &Self::overwrite_value(),
                input,
                depth,
                restrict_to,
                allow_empty,
            ) matches Ok((d, n, Canonicity::Canonical)) ==> input.take(n as int)
                == Self::value_encoding(&d),
    ;
}

/// What an optional field holds for decoding to fill in: its value, or a new one.
pub open spec fn value_or_new<E, T>(value: &Option<T>) -> T where (): ForOverwrite<E, T> {
    match value {
        Some(v) => *v,
        None => <() as ForOverwrite<E, T>>::overwrite_value(),
    }
}

/// An outcome of decoding the value of an optional field, as an outcome for the field.
pub open spec fn present<T>(outcome: Result<(T, nat), DecodeErrorKind>) -> Result<
    (Option<T>, nat),
    DecodeErrorKind,
> {
    match outcome {
        Ok((v, n)) => Ok((Some(v), n)),
        Err(k) => Err(k),
    }
}

/// An outcome of decoding the value of an optional field in distinguished mode, as an outcome
/// for the field.
pub open spec fn present_distinguished<T>(
    outcome: Result<(T, nat, Canonicity), DecodeErrorKind>,
) -> Result<(Option<T>, nat, Canonicity), DecodeErrorKind> {
    match outcome {
        Ok((v, n, c)) => Ok((Some(v), n, c)),
        Err(k) => Err(k),
    }
}

/// An optional value is a field that is present, once, exactly when the value is.
impl<E, T> Encoder<E, Option<T>> for () where (): ValueEncoder<E, T> + ForOverwrite<E, T> {
    open spec fn field_occurrences(value: &Option<T>) -> Seq<(WireType, Seq<u8>)> {
        match value {
            Some(v) => seq![
                (<() as Wiretyped<E, T>>::WIRE_TYPE, <() as ValueEncoder<E, T>>::value_encoding(v)),
            ],
            None => Seq::empty(),
        }
    }

    fn encode(tag: u32, value: &Option<T>, buf: &mut BytesMut, tw: &mut TagWriter) {
        let ghost occurrences = <() as Encoder<E, Option<T>>>::field_occurrences(value);
        match value {
            Some(v) => {
                proof {
                    let last = tw.spec_last_tag();
                    assert(occurrences =~= seq![
                        (
                            <() as Wiretyped<E, T>>::WIRE_TYPE,
                            <() as ValueEncoder<E, T>>::value_encoding(v),
                        ),
                    ]);
                    assert(occurrences.drop_first() =~= Seq::<(WireType, Seq<u8>)>::empty());
                    assert(occurrences_encoding(tag, tag, occurrences.drop_first()) =~= Seq::<
                        u8,
                    >::empty());
                    assert(occurrences_encoding(last, tag, occurrences) =~= key_encoding(
                        last,
                        tag,
                        <() as Wiretyped<E, T>>::WIRE_TYPE,
                    ) + <() as ValueEncoder<E, T>>::value_encoding(v));
                }
                let ghost before = bytes_mut_contents(*buf);
                <() as FieldEncoder<E, T>>::encode_field(tag, v, buf, tw);
                assert(bytes_mut_contents(*buf) =~= before + occurrences_encoding(
                    old(tw).spec_last_tag(),
                    tag,
                    occurrences,
                ));
            },
            None => {
                assert(bytes_mut_contents(*buf) + Seq::<u8>::empty() =~= bytes_mut_contents(*buf));
            },
        }
    }

    fn prepend_encode<B: ReverseBuf>(
        tag: u32,
        value: &Option<T>,
        buf: &mut B,
        tw: &mut TagRevWriter,
    ) {
        let ghost occurrences = <() as Encoder<E, Option<T>>>::field_occurrences(value);
        match value {
            Some(v) => {
                proof {
                    assert(occurrences =~= seq![
                        (
                            <() as Wiretyped<E, T>>::WIRE_TYPE,
                            <() as ValueEncoder<E, T>>::value_encoding(v),
                        ),
                    ]);
                    assert(occurrences.drop_last() =~= Seq::<(WireType, Seq<u8>)>::empty());
                    assert(occurrences_prepended(
                        Some((tag, occurrences.last().0)),
                        tag,
                        occurrences.drop_last(),
                    ) =~= Seq::<u8>::empty());
                    assert(occurrences_prepended(tw.spec_pending(), tag, occurrences)
                        =~= <() as ValueEncoder<E, T>>::value_encoding(v) + pending_key(
                        tw.spec_pending(),
                        tag,
                    ));
                }
                let ghost before = buf.contents();
                <() as FieldEncoder<E, T>>::prepend_field(tag, v, buf, tw);
                assert(buf.contents() =~= occurrences_prepended(
                    old(tw).spec_pending(),
                    tag,
                    occurrences,
                ) + before);
            },
            None => {
                assert(Seq::<u8>::empty() + buf.contents() =~= buf.contents());
            },
        }
    }

    fn encoded_len(tag: u32, value: &Option<T>, tm: &mut TagMeasurer) -> (r: usize) {
        let ghost occurrences = <() as Encoder<E, Option<T>>>::field_occurrences(value);
        match value {
            Some(v) => {
                proof {
                    let last = tm.spec_last_tag();
                    assert(occurrences =~= seq![
                        (
                            <() as Wiretyped<E, T>>::WIRE_TYPE,
                            <() as ValueEncoder<E, T>>::value_encoding(v),
                        ),
                    ]);
                    assert(occurrences.drop_first() =~= Seq::<(WireType, Seq<u8>)>::empty());
                    assert(occurrences_encoding(tag, tag, occurrences.drop_first()) =~= Seq::<
                        u8,
                    >::empty());
                    assert(occurrences_encoding(last, tag, occurrences) =~= key_encoding(
                        last,
                        tag,
                        <() as Wiretyped<E, T>>::WIRE_TYPE,
                    ) + <() as ValueEncoder<E, T>>::value_encoding(v));
                }
                <() as FieldEncoder<E, T>>::field_encoded_len(tag, v, tm)
            },
            None => 0,
        }
    }
}

impl<E, T> Decoder<E, Option<T>> for () where (): ValueDecoder<E, T> + ForOverwrite<E, T> {
    open spec fn field_decoding(
        value: &Option<T>,
        wire_type: WireType,
        input: Seq<u8>,
        depth: u32,
    ) -> Result<(Option<T>, nat), DecodeErrorKind> {
        if wire_type != <() as Wiretyped<E, T>>::WIRE_TYPE {
            Err(DecodeErrorKind::WrongWireType)
        } else {
            present(
                <() as ValueDecoder<E, T>>::value_decoding(
                    &value_or_new::<E, T>(value),
                    input,
                    depth,
                ),
            )
        }
    }

    proof fn lemma_field_decoding_within(
        value: &Option<T>,
        wire_type: WireType,
        input: Seq<u8>,
        depth: u32,
    ) {
        <() as ValueDecoder<E, T>>::lemma_value_decoding_within(
            &value_or_new::<E, T>(value),
            input,
            depth,
        );
    }

    fn decode(wire_type: WireType, value: &mut Option<T>, buf: &mut Bytes, ctx: DecodeContext) -> (r:
        Result<(), DecodeError>)
        ensures
            *final(value) is Some,
            wire_type != <() as Wiretyped<E, T>>::WIRE_TYPE ==> refused_wire_type(
                r,
                Some(value_or_new::<E, T>(&*old(value))),
                *final(value),
                bytes_contents(*old(buf)),
                bytes_contents(*final(buf)),
            ),
    {
        match value {
            Some(v) => <() as FieldDecoder<E, T>>::decode_field(wire_type, v, buf, ctx),
            None => {
                let mut v = <() as ForOverwrite<E, T>>::for_overwrite();
                let r = <() as FieldDecoder<E, T>>::decode_field(wire_type, &mut v, buf, ctx);
                *value = Some(v);
                r
            },
        }
    }
}

impl<E, T> DistinguishedDecoder<E, Option<T>> for () where
    Option<T>: Eq,
    (): DistinguishedValueDecoder<E, T> + ForOverwrite<E, T>,
 {
    open spec fn field_decoding_distinguished(
        value: &Option<T>,
        wire_type: WireType,
        input: Seq<u8>,
        depth: u32,
        restrict_to: Canonicity,
    ) -> Result<(Option<T>, nat, Canonicity), DecodeErrorKind> {
        if wire_type != <() as Wiretyped<E, T>>::WIRE_TYPE {
            Err(DecodeErrorKind::WrongWireType)
        } else {
            present_distinguished(
                <() as DistinguishedValueDecoder<E, T>>::value_decoding_distinguished(
                    &value_or_new::<E, T>(value),
                    input,
                    depth,
                    restrict_to,
                    true,
                ),
            )
        }
    }

    proof fn lemma_field_decoding_distinguished_within(
        value: &Option<T>,
        wire_type: WireType,
        input: Seq<u8>,
        depth: u32,
        restrict_to: Canonicity,
    ) {
        <() as DistinguishedValueDecoder<E, T>>::lemma_value_decoding_distinguished_within(
            &value_or_new::<E, T>(value),
            input,
            depth,
            restrict_to,
            true,
        );
    }

    fn decode_distinguished(
        wire_type: WireType,
        value: &mut Option<T>,
        buf: &mut Bytes,
        ctx: RestrictedDecodeContext,
    ) -> (r: Result<Canonicity, DecodeError>)
        ensures
            wire_type != <() as Wiretyped<E, T>>::WIRE_TYPE ==> refused_wire_type(
                r,
                *old(value),
                *final(value),
                bytes_contents(*old(buf)),
                bytes_contents(*final(buf)),
            ),
            wire_type == <() as Wiretyped<E, T>>::WIRE_TYPE ==> *final(value) is Some,
    {
        proof {
            assert(bytes_contents(*buf).skip(0) =~= bytes_contents(*buf));
        }
        match check_wire_type(<() as Wiretyped<E, T>>::WIRE_TYPE, wire_type) {
            Ok(()) => {},
            Err(e) => return Err(e),
        }
        match value {
            Some(v) => <() as DistinguishedValueDecoder<E, T>>::decode_value_distinguished::<true>(
                v,
                buf,
                ctx,
            ),
            None => {
                let mut v = <() as ForOverwrite<E, T>>::for_overwrite();
                let r = <() as DistinguishedValueDecoder<E, T>>::decode_value_distinguished::<true>(
                    &mut v,
                    buf,
                    ctx,
                );
                *value = Some(v);
                r
            },
        }
    }
}

impl<'a, E, T> BorrowDecoder<'a, E, Option<T>> for () where
    (): ValueBorrowDecoder<'a, E, T> + ForOverwrite<E, T>,
 {
    open spec fn field_borrow_decoding(
        value: &Option<T>,
        wire_type: WireType,
        input: Seq<u8>,
        depth: u32,
    ) -> Result<(Option<T>, nat), DecodeErrorKind> {
        if wire_type != <() as Wiretyped<E, T>>::WIRE_TYPE {
            Err(DecodeErrorKind::WrongWireType)
        } else {
            present(
                <() as ValueBorrowDecoder<'a, E, T>>::value_borrow_decoding(
                    &value_or_new::<E, T>(value),
                    input,
                    depth,
                ),
            )
        }
    }

    proof fn lemma_field_borrow_decoding_within(
        value: &Option<T>,
        wire_type: WireType,
        input: Seq<u8>,
        depth: u32,
    ) {
        <() as ValueBorrowDecoder<'a, E, T>>::lemma_value_borrow_decoding_within(
            &value_or_new::<E, T>(value),
            input,
            depth,
        );
    }

    fn borrow_decode(
        wire_type: WireType,
        value: &mut Option<T>,
        buf: &mut &'a [u8],
        ctx: DecodeContext,
    ) -> (r: Result<(), DecodeError>)
        ensures
            *final(value) is Some,
            wire_type != <() as Wiretyped<E, T>>::WIRE_TYPE ==> refused_wire_type(
                r,
                Some(value_or_new::<E, T>(&*old(value))),
                *final(value),
                (*old(buf))@,
                (*final(buf))@,
            ),
    {
        match value {
            Some(v) => <() as FieldBorrowDecoder<'a, E, T>>::borrow_decode_field(
                wire_type,
                v,
                buf,
                ctx,
            ),
            None => {
                let mut v = <() as ForOverwrite<E, T>>::for_overwrite();
                let r = <() as FieldBorrowDecoder<'a, E, T>>::borrow_decode_field(
                    wire_type,
                    &mut v,
                    buf,
                    ctx,
                );
                *value = Some(v);
                r
            },
        }
    }
}

impl<'a, E, T> DistinguishedBorrowDecoder<'a, E, Option<T>> for () where
    Option<T>: Eq,
    (): DistinguishedValueBorrowDecoder<'a, E, T> + ForOverwrite<E, T>,
 {
    open spec fn field_borrow_decoding_distinguished(
        value: &Option<T>,
        wire_type: WireType,
        input: Seq<u8>,
        depth: u32,
        restrict_to: Canonicity,
    ) -> Result<(Option<T>, nat, Canonicity), DecodeErrorKind> {
        if wire_type != <() as Wiretyped<E, T>>::WIRE_TYPE {
            Err(DecodeErrorKind::WrongWireType)
        } else {
            present_distinguished(
                <() as DistinguishedValueBorrowDecoder<
                    'a,
                    E,
                    T,
                >>::value_borrow_decoding_distinguished(
                    &value_or_new::<E, T>(value),
                    input,
                    depth,
                    restrict_to,
                    true,
                ),
            )
        }
    }

    proof fn lemma_field_borrow_decoding_distinguished_within(
        value: &Option<T>,
        wire_type: WireType,
        input: Seq<u8>,
        depth: u32,
        restrict_to: Canonicity,
    ) {
        <() as DistinguishedValueBorrowDecoder<
            'a,
            E,
            T,
        >>::lemma_value_borrow_decoding_distinguished_within(
            &value_or_new::<E, T>(value),
            input,
            depth,
            restrict_to,
            true,
        );
    }

    fn borrow_decode_distinguished(
        wire_type: WireType,
        value: &mut Option<T>,
        buf: &mut &'a [u8],
        ctx: RestrictedDecodeContext,
    ) -> (r: Result<Canonicity, DecodeError>)
        ensures
            wire_type != <() as Wiretyped<E, T>>::WIRE_TYPE ==> refused_wire_type(
                r,
                *old(value),
                *final(value),
                (*old(buf))@,
                (*final(buf))@,
            ),
            wire_type == <() as Wiretyped<E, T>>::WIRE_TYPE ==> *final(value) is Some,
    {
        proof {
            assert((*buf)@.skip(0) =~= (*buf)@);
        }
        match check_wire_type(<() as Wiretyped<E, T>>::WIRE_TYPE, wire_type) {
            Ok(()) => {},
            Err(e) => return Err(e),
        }
        match value {
            Some(v) => <() as DistinguishedValueBorrowDecoder<
                'a,
                E,
                T,
            >>::borrow_decode_value_distinguished::<true>(v, buf, ctx),
            None => {
                let mut v = <() as ForOverwrite<E, T>>::for_overwrite();
                let r = <() as DistinguishedValueBorrowDecoder<
                    'a,
                    E,
                    T,
                >>::borrow_decode_value_distinguished::<true>(&mut v, buf, ctx);
                *value = Some(v);
                r
            },
        }
    }
}

} // verus!
