//! Two value encodings: `Varint`, which writes unsigned integers as varints, and `Fixed`, which
//! writes 32-bit integers as four little-endian bytes.
use crate::buf::{int_bytes, le_bytes, lemma_le_bytes_len, ReverseBuf};
use crate::byte_bufs::bytes_mut_put_slice;
use crate::encoding::encoding_traits::{
    Decoder, DistinguishedValueBorrowDecoder, DistinguishedValueDecoder,
    DistinguishedValueRoundTrip, Encoder, ForOverwrite, ValueBorrowDecoder, ValueDecoder,
    ValueEncoder, ValueRoundTrip, Wiretyped,
};
use crate::encoding::{Canonicity, DecodeContext, RestrictedDecodeContext, WireType};
use crate::error::{DecodeError, DecodeErrorKind};
use crate::varint::{
    decode_varint, decode_varint_slice, encode_varint, encoded_len_varint, prepend_varint,
    varint_decode, varint_encoding,
};
use bytes::{Bytes, BytesMut};
use vstd::prelude::*;

verus! {

/// Unsigned integers encoded as varints.
pub struct Varint;

/// 32-bit integers encoded as four little-endian bytes.
pub struct Fixed;

impl Wiretyped<Varint, u64> for () {
    const WIRE_TYPE: WireType = WireType::Varint;
}

impl ValueEncoder<Varint, u64> for () {
    open spec fn value_encoding(value: &u64) -> Seq<u8> {
        varint_encoding(*value)
    }

    proof fn lemma_value_encoding_size(value: &u64) {
        crate::varint::lemma_varint_encoding_len(*value);
    }

    fn encode_value(value: &u64, buf: &mut BytesMut) {
        encode_varint(*value, buf);
    }

    fn prepend_value<B: ReverseBuf>(value: &u64, buf: &mut B) {
        prepend_varint(*value, buf);
    }

    fn value_encoded_len(value: &u64) -> (r: usize) {
        encoded_len_varint(*value)
    }
}

/// The outcome of decoding a varint value from the front of `input`.
pub open spec fn varint_value_decoding(input: Seq<u8>) -> Result<(u64, nat), DecodeErrorKind> {
    match varint_decode(input) {
        Ok((v, n)) => Ok((v, n)),
        Err(k) => Err(k),
    }
}

impl ValueDecoder<Varint, u64> for () {
    open spec fn value_decoding(value: &u64, input: Seq<u8>, depth: u32) -> Result<
        (u64, nat),
        DecodeErrorKind,
    > {
        varint_value_decoding(input)
    }

    proof fn lemma_value_decoding_within(value: &u64, input: Seq<u8>, depth: u32) {
        if varint_decode(input) is Ok {
            crate::varint::lemma_varint_decode_extent(input);
        }
    }

    fn decode_value(value: &mut u64, buf: &mut Bytes, ctx: DecodeContext) -> (r: Result<
        (),
        DecodeError,
    >) {
        proof {
            let s = crate::byte_bufs::bytes_contents(*buf);
            if varint_decode(s) is Ok {
                crate::varint::lemma_varint_decode_extent(s);
            }
            assert(s.skip(0) =~= s);
        }
        let ghost s = crate::byte_bufs::bytes_contents(*buf);
        match decode_varint(buf) {
            Ok(v) => {
                *value = v;
                assert(crate::byte_bufs::bytes_contents(*buf) =~= s.skip(
                    s.len() - crate::byte_bufs::bytes_contents(*buf).len(),
                ));
                Ok(())
            },
            Err(e) => Err(e),
        }
    }
}

impl<'a> ValueBorrowDecoder<'a, Varint, u64> for () {
    open spec fn value_borrow_decoding(value: &u64, input: Seq<u8>, depth: u32) -> Result<
        (u64, nat),
        DecodeErrorKind,
    > {
        varint_value_decoding(input)
    }

    proof fn lemma_value_borrow_decoding_within(value: &u64, input: Seq<u8>, depth: u32) {
        if varint_decode(input) is Ok {
            crate::varint::lemma_varint_decode_extent(input);
        }
    }

    fn borrow_decode_value(value: &mut u64, buf: &mut &'a [u8], ctx: DecodeContext) -> (r: Result<
        (),
        DecodeError,
    >) {
        let s: &'a [u8] = *buf;
        proof {
            assert(s@.skip(0) =~= s@);
        }
        match decode_varint_slice(s) {
            Ok((v, n)) => {
                *value = v;
                *buf = vstd::slice::slice_subrange(s, n, s.len());
                assert((*buf)@ =~= s@.skip(n as int));
                Ok(())
            },
            Err(e) => Err(e),
        }
    }
}

/// The outcome of decoding a varint value from the front of `input` in distinguished mode: every
/// varint has exactly one encoding, so the value is canonical unless it is the empty value 0 where
/// empty values are not allowed.
pub open spec fn varint_value_decoding_distinguished(input: Seq<u8>, allow_empty: bool) -> Result<
    (u64, nat, Canonicity),
    DecodeErrorKind,
> {
    match varint_decode(input) {
        Ok((v, n)) => Ok(
            (
                v,
                n,
                if !allow_empty && v == 0 {
                    Canonicity::NotCanonical
                } else {
                    Canonicity::Canonical
                },
            ),
        ),
        Err(k) => Err(k),
    }
}

/// Returns the canonicity of a decoded varint value.
fn varint_value_canonicity(v: u64, allow_empty: bool) -> (r: Canonicity)
    ensures
        r == (if !allow_empty && v == 0 {
            Canonicity::NotCanonical
        } else {
            Canonicity::Canonical
        }),
{
    if !allow_empty && v == 0 {
        Canonicity::NotCanonical
    } else {
        Canonicity::Canonical
    }
}

impl DistinguishedValueDecoder<Varint, u64> for () {
    const CHECKS_EMPTY: bool = true;

    open spec fn value_decoding_distinguished(
        value: &u64,
        input: Seq<u8>,
        depth: u32,
        restrict_to: Canonicity,
        allow_empty: bool,
    ) -> Result<(u64, nat, Canonicity), DecodeErrorKind> {
        varint_value_decoding_distinguished(input, allow_empty)
    }

    proof fn lemma_value_decoding_distinguished_within(
        value: &u64,
        input: Seq<u8>,
        depth: u32,
        restrict_to: Canonicity,
        allow_empty: bool,
    ) {
        if varint_decode(input) is Ok {
            crate::varint::lemma_varint_decode_extent(input);
        }
    }

    fn decode_value_distinguished<const ALLOW_EMPTY: bool>(
        value: &mut u64,
        buf: &mut Bytes,
        ctx: RestrictedDecodeContext,
    ) -> (r: Result<Canonicity, DecodeError>) {
        match <() as ValueDecoder<Varint, u64>>::decode_value(value, buf, ctx.context()) {
            Ok(()) => Ok(varint_value_canonicity(*value, ALLOW_EMPTY)),
            Err(e) => Err(e),
        }
    }
}

impl<'a> DistinguishedValueBorrowDecoder<'a, Varint, u64> for () {
    const CHECKS_EMPTY: bool = true;

    open spec fn value_borrow_decoding_distinguished(
        value: &u64,
        input: Seq<u8>,
        depth: u32,
        restrict_to: Canonicity,
        allow_empty: bool,
    ) -> Result<(u64, nat, Canonicity), DecodeErrorKind> {
        varint_value_decoding_distinguished(input, allow_empty)
    }

    proof fn lemma_value_borrow_decoding_distinguished_within(
        value: &u64,
        input: Seq<u8>,
        depth: u32,
        restrict_to: Canonicity,
        allow_empty: bool,
    ) {
        if varint_decode(input) is Ok {
            crate::varint::lemma_varint_decode_extent(input);
        }
    }

    fn borrow_decode_value_distinguished<const ALLOW_EMPTY: bool>(
        value: &mut u64,
        buf: &mut &'a [u8],
        ctx: RestrictedDecodeContext,
    ) -> (r: Result<Canonicity, DecodeError>) {
        match <() as ValueBorrowDecoder<'a, Varint, u64>>::borrow_decode_value(
            value,
            buf,
            ctx.context(),
        ) {
            Ok(()) => Ok(varint_value_canonicity(*value, ALLOW_EMPTY)),
            Err(e) => Err(e),
        }
    }
}

impl ForOverwrite<Varint, u64> for () {
    open spec fn overwrite_value() -> u64 {
        0
    }

    fn for_overwrite() -> (r: u64) {
        0
    }
}

impl Wiretyped<Fixed, u32> for () {
    const WIRE_TYPE: WireType = WireType::ThirtyTwoBit;
}

impl ValueEncoder<Fixed, u32> for () {
    open spec fn value_encoding(value: &u32) -> Seq<u8> {
        le_bytes(*value as nat, 4)
    }

    proof fn lemma_value_encoding_size(value: &u32) {
        lemma_le_bytes_len(*value as nat, 4);
    }

    fn encode_value(value: &u32, buf: &mut BytesMut) {
        let bytes = int_bytes(*value as u64, 4, false);
        bytes_mut_put_slice(buf, bytes.as_slice());
    }

    fn prepend_value<B: ReverseBuf>(value: &u32, buf: &mut B) {
        proof {
            lemma_le_bytes_len(*value as nat, 4);
        }
        buf.prepend_u32_le(*value);
    }

    fn value_encoded_len(value: &u32) -> (r: usize) {
        proof {
            lemma_le_bytes_len(*value as nat, 4);
        }
        4
    }
}

/// A `Varint` value decodes, from its encoding followed by any bytes, back to itself, reading
/// exactly the encoding, whatever the value decoded into held before.
pub proof fn lemma_varint_value_roundtrip(v: u64, before: u64, rest: Seq<u8>, depth: u32)
    ensures
        <() as ValueDecoder<Varint, u64>>::value_decoding(
            &before,
            <() as ValueEncoder<Varint, u64>>::value_encoding(&v) + rest,
            depth,
        ) == Ok::<(u64, nat), DecodeErrorKind>(
            (v, <() as ValueEncoder<Varint, u64>>::value_encoding(&v).len()),
        ),
{
    crate::varint::lemma_varint_roundtrip(v, rest);
}

/// A `Varint` value has a distinguished representation: it decodes canonically, from its encoding
/// followed by any bytes, back to itself, reading exactly the encoding (where empty values are not
/// allowed, the empty value 0 is not canonical); and whatever decodes canonically is the encoding
/// of the value it decodes to.
pub proof fn lemma_varint_value_distinguished(
    v: u64,
    before: u64,
    input: Seq<u8>,
    rest: Seq<u8>,
    depth: u32,
    restrict_to: Canonicity,
    allow_empty: bool,
)
    ensures
        <() as DistinguishedValueDecoder<Varint, u64>>::value_decoding_distinguished(
            &before,
            <() as ValueEncoder<Varint, u64>>::value_encoding(&v) + rest,
            depth,
            restrict_to,
            allow_empty,
        ) == Ok::<(u64, nat, Canonicity), DecodeErrorKind>(
            (
                v,
                <() as ValueEncoder<Varint, u64>>::value_encoding(&v).len(),
                if !allow_empty && v == 0 {
                    Canonicity::NotCanonical
                } else {
                    Canonicity::Canonical
                },
            ),
        ),
        <() as DistinguishedValueDecoder<Varint, u64>>::value_decoding_distinguished(
            &before,
            input,
            depth,
            restrict_to,
            allow_empty,
        ) matches Ok((d, n, Canonicity::Canonical)) ==> input.take(n as int)
            == <() as ValueEncoder<Varint, u64>>::value_encoding(&d),
{
    crate::varint::lemma_varint_roundtrip(v, rest);
    if varint_decode(input) is Ok {
        crate::varint::lemma_varint_canonical(input);
    }
}

/// Varints carry no nesting, and each value has exactly one encoding.
impl ValueRoundTrip<Varint, u64> for () {
    open spec fn value_nesting(value: &u64) -> nat {
        0
    }

    proof fn lemma_value_roundtrip(value: &u64, rest: Seq<u8>, depth: u32) {
        lemma_varint_value_roundtrip(*value, 0, rest, depth);
    }
}

impl DistinguishedValueRoundTrip<Varint, u64> for () {
    proof fn lemma_value_decodes_canonically(
        value: &u64,
        rest: Seq<u8>,
        depth: u32,
        restrict_to: Canonicity,
    ) {
        lemma_varint_value_distinguished(*value, 0, Seq::empty(), rest, depth, restrict_to, true);
    }

    proof fn lemma_canonical_value_is_encoding(
        input: Seq<u8>,
        depth: u32,
        restrict_to: Canonicity,
        allow_empty: bool,
    ) {
        lemma_varint_value_distinguished(0, 0, input, Seq::empty(), depth, restrict_to, allow_empty);
    }
}

/// An optional `Varint` field holding a value encodes to one occurrence, and decoding that
/// occurrence, followed by any bytes, into any optional value gives back the value, reading
/// exactly the occurrence's bytes.
pub proof fn lemma_optional_varint_field_roundtrip(
    v: u64,
    before: Option<u64>,
    rest: Seq<u8>,
    depth: u32,
)
    ensures
        ({
            let occurrences = <() as Encoder<Varint, Option<u64>>>::field_occurrences(&Some(v));
            &&& occurrences.len() == 1
            &&& <() as Decoder<Varint, Option<u64>>>::field_decoding(
                &before,
                occurrences[0].0,
                occurrences[0].1 + rest,
                depth,
            ) == Ok::<(Option<u64>, nat), DecodeErrorKind>(
                (Some(v), occurrences[0].1.len()),
            )
        }),
{
    crate::varint::lemma_varint_roundtrip(v, rest);
}

} // verus!
