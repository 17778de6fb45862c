use bilrost::buf::ReverseBuffer;
use bilrost::encoding::encoding_traits::{
    BorrowDecoder, Decoder, DistinguishedBorrowDecoder, DistinguishedDecoder,
    DistinguishedFieldBorrowDecoder, DistinguishedFieldDecoder, DistinguishedValueDecoder,
    Encoder, FieldBorrowDecoder, FieldDecoder, FieldEncoder, ValueEncoder,
};
use bilrost::encoding::value_encodings::{Fixed, Varint};
use bilrost::encoding::{
    Canonicity, DecodeContext, RestrictedDecodeContext, TagMeasurer, TagRevWriter, TagWriter,
    WireType,
};
use bilrost::DecodeErrorKind;
use bytes::{Bytes, BytesMut};

#[test]
fn field_encoder_writes_key_then_value() {
    let mut buf = BytesMut::new();
    let mut tw = TagWriter::new();
    <() as FieldEncoder<Varint, u64>>::encode_field(2, &5, &mut buf, &mut tw);
    assert_eq!(&buf[..], &[8, 5]);
    // the same tag again has a key of delta 0; 300 takes two bytes
    <() as FieldEncoder<Varint, u64>>::encode_field(2, &300, &mut buf, &mut tw);
    assert_eq!(&buf[..], &[8, 5, 0, 0xac, 0x01]);

    let mut tm = TagMeasurer::new();
    assert_eq!(<() as FieldEncoder<Varint, u64>>::field_encoded_len(2, &5, &mut tm), 2);
    assert_eq!(<() as FieldEncoder<Varint, u64>>::field_encoded_len(2, &300, &mut tm), 3);
}

#[test]
fn prepended_fields_read_like_written_ones() {
    let mut rb = ReverseBuffer::new();
    let mut tw = TagRevWriter::new();
    <() as FieldEncoder<Varint, u64>>::prepend_field(3, &7, &mut rb, &mut tw);
    <() as FieldEncoder<Varint, u64>>::prepend_field(1, &1, &mut rb, &mut tw);
    tw.finalize(&mut rb);

    let mut forward = BytesMut::new();
    let mut writer = TagWriter::new();
    <() as FieldEncoder<Varint, u64>>::encode_field(1, &1, &mut forward, &mut writer);
    <() as FieldEncoder<Varint, u64>>::encode_field(3, &7, &mut forward, &mut writer);

    assert_eq!(rb.into_vec(), vec![4, 1, 8, 7]);
    assert_eq!(&forward[..], &[4, 1, 8, 7]);
}

#[test]
fn many_values_encoded_len_sums_or_multiplies() {
    assert_eq!(<() as ValueEncoder<Varint, u64>>::many_values_encoded_len(&[1, 200, 300]), 5);
    assert_eq!(<() as ValueEncoder<Varint, u64>>::many_values_encoded_len(&[]), 0);
    assert_eq!(<() as ValueEncoder<Fixed, u32>>::many_values_encoded_len(&[1, 2, 3]), 12);
}

#[test]
fn fixed_values_are_little_endian() {
    let mut buf = BytesMut::new();
    <() as ValueEncoder<Fixed, u32>>::encode_value(&0x0102_0304, &mut buf);
    assert_eq!(&buf[..], &[4, 3, 2, 1]);
    let mut rb = ReverseBuffer::new();
    <() as ValueEncoder<Fixed, u32>>::prepend_value(&0x0a0b_0c0d, &mut rb);
    assert_eq!(rb.into_vec(), vec![0x0d, 0x0c, 0x0b, 0x0a]);
}

#[test]
fn optional_fields_are_present_only_with_a_value() {
    let mut buf = BytesMut::new();
    let mut tw = TagWriter::new();
    <() as Encoder<Varint, Option<u64>>>::encode(1, &None, &mut buf, &mut tw);
    assert!(buf.is_empty());
    <() as Encoder<Varint, Option<u64>>>::encode(2, &Some(5), &mut buf, &mut tw);
    <() as Encoder<Varint, Option<u64>>>::encode(4, &None, &mut buf, &mut tw);
    <() as Encoder<Varint, Option<u64>>>::encode(5, &Some(6), &mut buf, &mut tw);
    // the absent field with tag 4 left the writer at tag 2, so tag 5 is three more
    assert_eq!(&buf[..], &[8, 5, 12, 6]);

    let mut tm = TagMeasurer::new();
    assert_eq!(<() as Encoder<Varint, Option<u64>>>::encoded_len(1, &None, &mut tm), 0);
    assert_eq!(<() as Encoder<Varint, Option<u64>>>::encoded_len(2, &Some(5), &mut tm), 2);

    let mut rb = ReverseBuffer::new();
    let mut rtw = TagRevWriter::new();
    <() as Encoder<Varint, Option<u64>>>::prepend_encode(5, &Some(6), &mut rb, &mut rtw);
    <() as Encoder<Varint, Option<u64>>>::prepend_encode(4, &None, &mut rb, &mut rtw);
    <() as Encoder<Varint, Option<u64>>>::prepend_encode(2, &Some(5), &mut rb, &mut rtw);
    rtw.finalize(&mut rb);
    assert_eq!(rb.into_vec(), vec![8, 5, 12, 6]);
}

#[test]
fn optional_fields_decode_into_a_new_value() {
    let mut value: Option<u64> = None;
    let mut buf = Bytes::from_static(&[0xac, 0x01, 9]);
    <() as Decoder<Varint, Option<u64>>>::decode(
        WireType::Varint,
        &mut value,
        &mut buf,
        DecodeContext::new(),
    )
    .unwrap();
    assert_eq!(value, Some(300));
    assert_eq!(&buf[..], &[9]);

    let err = <() as Decoder<Varint, Option<u64>>>::decode(
        WireType::SixtyFourBit,
        &mut value,
        &mut buf,
        DecodeContext::new(),
    )
    .unwrap_err();
    assert_eq!(err.kind(), DecodeErrorKind::WrongWireType);
    assert_eq!(&buf[..], &[9]);

    let mut slice: &[u8] = &[7, 1];
    let mut borrowed: Option<u64> = None;
    <() as BorrowDecoder<Varint, Option<u64>>>::borrow_decode(
        WireType::Varint,
        &mut borrowed,
        &mut slice,
        DecodeContext::new(),
    )
    .unwrap();
    assert_eq!(borrowed, Some(7));
    assert_eq!(slice, &[1]);
}

#[test]
fn field_decoders_check_the_wire_type() {
    let mut value: u64 = 3;
    let mut buf = Bytes::from_static(&[5]);
    let err = <() as FieldDecoder<Varint, u64>>::decode_field(
        WireType::LengthDelimited,
        &mut value,
        &mut buf,
        DecodeContext::new(),
    )
    .unwrap_err();
    assert_eq!(err.kind(), DecodeErrorKind::WrongWireType);
    assert_eq!((value, buf.len()), (3, 1));
    <() as FieldDecoder<Varint, u64>>::decode_field(
        WireType::Varint,
        &mut value,
        &mut buf,
        DecodeContext::new(),
    )
    .unwrap();
    assert_eq!((value, buf.len()), (5, 0));

    let mut slice: &[u8] = &[0x80];
    let err = <() as FieldBorrowDecoder<Varint, u64>>::borrow_decode_field(
        WireType::Varint,
        &mut value,
        &mut slice,
        DecodeContext::new(),
    )
    .unwrap_err();
    assert_eq!(err.kind(), DecodeErrorKind::Truncated);
}

#[test]
fn distinguished_varints_are_canonical_unless_empty() {
    let ctx = RestrictedDecodeContext::new(Canonicity::NotCanonical);
    let mut value: u64 = 9;
    let mut buf = Bytes::from_static(&[0, 5]);
    assert_eq!(
        <() as DistinguishedValueDecoder<Varint, u64>>::decode_value_distinguished::<false>(
            &mut value, &mut buf, ctx,
        )
        .unwrap(),
        Canonicity::NotCanonical
    );
    assert_eq!(value, 0);
    assert_eq!(
        <() as DistinguishedFieldDecoder<Varint, u64>>::decode_field_distinguished::<false>(
            WireType::Varint,
            &mut value,
            &mut buf,
            ctx,
        )
        .unwrap(),
        Canonicity::Canonical
    );
    assert_eq!(value, 5);

    // an optional field allows the empty value: it is present
    let mut optional: Option<u64> = None;
    let mut buf = Bytes::from_static(&[0]);
    assert_eq!(
        <() as DistinguishedDecoder<Varint, Option<u64>>>::decode_distinguished(
            WireType::Varint,
            &mut optional,
            &mut buf,
            ctx,
        )
        .unwrap(),
        Canonicity::Canonical
    );
    assert_eq!(optional, Some(0));
    let mut buf = Bytes::from_static(&[1, 2, 3, 4]);
    assert_eq!(
        <() as DistinguishedDecoder<Varint, Option<u64>>>::decode_distinguished(
            WireType::ThirtyTwoBit,
            &mut optional,
            &mut buf,
            ctx,
        )
        .unwrap_err()
        .kind(),
        DecodeErrorKind::WrongWireType
    );
    assert_eq!((optional, buf.len()), (Some(0), 4));

    let mut slice: &[u8] = &[0, 7];
    let mut borrowed: Option<u64> = None;
    assert_eq!(
        <() as DistinguishedBorrowDecoder<Varint, Option<u64>>>::borrow_decode_distinguished(
            WireType::Varint,
            &mut borrowed,
            &mut slice,
            ctx,
        )
        .unwrap(),
        Canonicity::Canonical
    );
    assert_eq!(borrowed, Some(0));
    let mut plain: u64 = 1;
    assert_eq!(
        <() as DistinguishedFieldBorrowDecoder<Varint, u64>>::borrow_decode_field_distinguished::<
            true,
        >(WireType::Varint, &mut plain, &mut slice, ctx)
        .unwrap(),
        Canonicity::Canonical
    );
    assert_eq!((plain, slice.len()), (7, 0));
}

#[test]
fn optional_fields_with_the_wrong_wire_type() {
    // relaxed decoding makes room for the value before it checks the wire type
    let mut value: Option<u64> = None;
    let mut buf = Bytes::from_static(&[5]);
    let err = <() as Decoder<Varint, Option<u64>>>::decode(
        WireType::LengthDelimited,
        &mut value,
        &mut buf,
        DecodeContext::new(),
    )
    .unwrap_err();
    assert_eq!(err.kind(), DecodeErrorKind::WrongWireType);
    assert_eq!(value, Some(0));
    assert_eq!(&buf[..], &[5]);

    let mut slice: &[u8] = &[5];
    let mut borrowed: Option<u64> = None;
    let err = <() as BorrowDecoder<Varint, Option<u64>>>::borrow_decode(
        WireType::LengthDelimited,
        &mut borrowed,
        &mut slice,
        DecodeContext::new(),
    )
    .unwrap_err();
    assert_eq!(err.kind(), DecodeErrorKind::WrongWireType);
    assert_eq!((borrowed, slice), (Some(0), &[5u8][..]));

    // distinguished decoding checks the wire type first and leaves the field as it was
    let mut value: Option<u64> = None;
    let mut buf = Bytes::from_static(&[5]);
    let err = <() as DistinguishedDecoder<Varint, Option<u64>>>::decode_distinguished(
        WireType::LengthDelimited,
        &mut value,
        &mut buf,
        RestrictedDecodeContext::new(Canonicity::NotCanonical),
    )
    .unwrap_err();
    assert_eq!(err.kind(), DecodeErrorKind::WrongWireType);
    assert_eq!(value, None);
    assert_eq!(&buf[..], &[5]);

    let mut slice: &[u8] = &[5];
    let mut borrowed: Option<u64> = None;
    let err = <() as DistinguishedBorrowDecoder<Varint, Option<u64>>>::borrow_decode_distinguished(
        WireType::LengthDelimited,
        &mut borrowed,
        &mut slice,
        RestrictedDecodeContext::new(Canonicity::NotCanonical),
    )
    .unwrap_err();
    assert_eq!(err.kind(), DecodeErrorKind::WrongWireType);
    assert_eq!((borrowed, slice), (None, &[5u8][..]));

    // a field decoded in distinguished mode is present afterwards
    <() as DistinguishedDecoder<Varint, Option<u64>>>::decode_distinguished(
        WireType::Varint,
        &mut value,
        &mut buf,
        RestrictedDecodeContext::new(Canonicity::NotCanonical),
    )
    .unwrap();
    assert_eq!(value, Some(5));
}
