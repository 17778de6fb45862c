use bilrost::encoding::oneof::{
    NonEmptyOneof, NonEmptyOneofDecoder, Oneof, OneofDecoder,
};
use bilrost::buf::{ReverseBuf, ReverseBuffer};
use bilrost::encoding::encoding_traits::FieldEncoder;
use bilrost::encoding::value_encodings::Varint;
use bilrost::encoding::{DecodeContext, TagMeasurer, TagRevWriter, TagWriter, WireType};
use bilrost::varint::decode_varint;
use bilrost::{DecodeError, DecodeErrorKind, FieldName};
use bytes::{Bytes, BytesMut};
use vstd::prelude::nat;
use vstd::seq::Seq;

#[derive(Debug, PartialEq)]
enum Choice {
    Small(u64),
    Large(u64),
}

impl Choice {
    fn parts(&self) -> (u32, u64) {
        match self {
            Choice::Small(v) => (1, *v),
            Choice::Large(v) => (2, *v),
        }
    }
}

impl NonEmptyOneof for Choice {
    const FIELD_TAGS: &'static [u32] = &[1, 2];

    fn spec_current_tag(&self) -> u32 {
        self.oneof_current_tag()
    }

    fn spec_variant_name(tag: u32) -> (&'static str, &'static str) {
        Self::oneof_variant_name(tag)
    }

    fn oneof_occurrences(&self) -> Seq<(WireType, Seq<u8>)> {
        unreachable!()
    }

    fn oneof_encode(&self, buf: &mut BytesMut, tw: &mut TagWriter) {
        let (tag, v) = self.parts();
        <() as FieldEncoder<Varint, u64>>::encode_field(tag, &v, buf, tw);
    }

    fn oneof_prepend<B: ReverseBuf>(&self, buf: &mut B, tw: &mut TagRevWriter) {
        let (tag, v) = self.parts();
        <() as FieldEncoder<Varint, u64>>::prepend_field(tag, &v, buf, tw);
    }

    fn oneof_encoded_len(&self, tm: &mut TagMeasurer) -> usize {
        let (tag, v) = self.parts();
        <() as FieldEncoder<Varint, u64>>::field_encoded_len(tag, &v, tm)
    }

    fn oneof_current_tag(&self) -> u32 {
        match self {
            Choice::Small(_) => 1,
            Choice::Large(_) => 2,
        }
    }

    fn oneof_variant_name(tag: u32) -> (&'static str, &'static str) {
        match tag {
            1 => ("Choice", "small"),
            _ => ("Choice", "large"),
        }
    }
}

impl NonEmptyOneofDecoder for Choice {
    fn oneof_field_decoding(
        _tag: u32,
        _wire_type: WireType,
        _input: Seq<u8>,
        _depth: u32,
    ) -> Result<(Self, nat), DecodeErrorKind> {
        unreachable!()
    }

    fn oneof_field_error_path(
        _tag: u32,
        _wire_type: WireType,
        _input: Seq<u8>,
        _depth: u32,
    ) -> Seq<FieldName> {
        unreachable!()
    }

    fn oneof_decode_field(
        tag: u32,
        wire_type: WireType,
        buf: &mut Bytes,
        _ctx: DecodeContext,
    ) -> Result<Self, DecodeError> {
        bilrost::encoding::check_wire_type(WireType::Varint, wire_type)?;
        let v = decode_varint(buf)?;
        Ok(if tag == 1 { Choice::Small(v) } else { Choice::Large(v) })
    }
}

#[test]
fn optional_oneof_decodes_one_field() {
    let mut value: Option<Choice> = Oneof::empty();
    assert!(Oneof::is_empty(&value));
    assert_eq!(Oneof::oneof_current_tag(&value), None);
    assert_eq!(<Option<Choice> as Oneof>::FIELD_TAGS, &[1, 2]);
    let mut buf = Bytes::from_static(&[5, 6]);
    OneofDecoder::oneof_decode_field(&mut value, 2, WireType::Varint, &mut buf, DecodeContext::new())
        .unwrap();
    assert_eq!(value, Some(Choice::Large(5)));
    assert_eq!(Oneof::oneof_current_tag(&value), Some(2));

    // the same field again is a repetition; the value is kept
    let err = OneofDecoder::oneof_decode_field(
        &mut value,
        2,
        WireType::Varint,
        &mut buf,
        DecodeContext::new(),
    )
    .unwrap_err();
    assert_eq!(err.kind(), DecodeErrorKind::UnexpectedlyRepeated);
    assert_eq!(err.path(), &[FieldName { message: "Choice", field: "large" }]);
    assert_eq!(value, Some(Choice::Large(5)));
    assert_eq!(&buf[..], &[6]);

    // another field is a conflict
    let err = OneofDecoder::oneof_decode_field(
        &mut value,
        1,
        WireType::Varint,
        &mut buf,
        DecodeContext::new(),
    )
    .unwrap_err();
    assert_eq!(err.kind(), DecodeErrorKind::ConflictingFields);
    assert_eq!(err.path(), &[FieldName { message: "Choice", field: "small" }]);
    assert_eq!(&buf[..], &[6]);

    Oneof::clear(&mut value);
    assert!(Oneof::is_empty(&value));
}

#[test]
fn optional_oneof_names_the_field_in_decoding_errors() {
    let mut value: Option<Choice> = None;
    let mut buf = Bytes::from_static(&[0x80]);
    let err = OneofDecoder::oneof_decode_field(
        &mut value,
        1,
        WireType::Varint,
        &mut buf,
        DecodeContext::new(),
    )
    .unwrap_err();
    assert_eq!(err.kind(), DecodeErrorKind::Truncated);
    assert_eq!(err.path(), &[FieldName { message: "Choice", field: "small" }]);
    assert_eq!(value, None);

    let err = OneofDecoder::oneof_decode_field(
        &mut value,
        1,
        WireType::SixtyFourBit,
        &mut buf,
        DecodeContext::new(),
    )
    .unwrap_err();
    assert_eq!(err.kind(), DecodeErrorKind::WrongWireType);
}

#[test]
fn boxed_oneofs_behave_like_their_contents() {
    let mut value: Box<Option<Choice>> = Oneof::empty();
    let mut buf = Bytes::from_static(&[7]);
    OneofDecoder::oneof_decode_field(&mut value, 1, WireType::Varint, &mut buf, DecodeContext::new())
        .unwrap();
    assert_eq!(*value, Some(Choice::Small(7)));
    assert_eq!(Oneof::oneof_current_tag(&value), Some(1));
    assert_eq!(<Box<Option<Choice>> as Oneof>::oneof_variant_name(2), ("Choice", "large"));

    let mut boxed: Option<Box<Choice>> = None;
    let mut buf = Bytes::from_static(&[9]);
    OneofDecoder::oneof_decode_field(&mut boxed, 2, WireType::Varint, &mut buf, DecodeContext::new())
        .unwrap();
    assert_eq!(boxed, Some(Box::new(Choice::Large(9))));
}

#[test]
fn optional_oneof_encodes_the_field_it_holds() {
    let mut buf = BytesMut::new();
    let mut tw = TagWriter::new();
    let empty: Option<Choice> = None;
    Oneof::oneof_encode(&empty, &mut buf, &mut tw);
    assert!(buf.is_empty());
    let mut tm = TagMeasurer::new();
    assert_eq!(Oneof::oneof_encoded_len(&empty, &mut tm), 0);

    let large = Some(Choice::Large(300));
    Oneof::oneof_encode(&large, &mut buf, &mut tw);
    assert_eq!(&buf[..], &[8, 0xac, 0x01]);
    assert_eq!(Oneof::oneof_encoded_len(&large, &mut tm), 3);

    let mut rb = ReverseBuffer::new();
    let mut rtw = TagRevWriter::new();
    let boxed: Box<Option<Choice>> = Box::new(Some(Choice::Small(4)));
    Oneof::oneof_prepend(&boxed, &mut rb, &mut rtw);
    Oneof::oneof_prepend(&empty, &mut rb, &mut rtw);
    rtw.finalize(&mut rb);
    assert_eq!(rb.into_vec(), vec![4, 4]);
}
