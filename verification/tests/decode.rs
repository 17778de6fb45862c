use bilrost::encoding::{
    borrow_merge, merge, merge_distinguished, skip_field, skip_field_in_slice, Canonicity,
    DecodeContext, RestrictedDecodeContext, TagReader, TagWriter, WireType,
};
use bilrost::message::{
    BorrowedMessage, DistinguishedBorrowedMessage, DistinguishedOwnedMessage, Message,
    OwnedMessage,
};
use bilrost::varint::encode_varint;
use bilrost::{DecodeError, DecodeErrorKind};
use bytes::{Bytes, BytesMut};

fn unknown_fields() -> Vec<u8> {
    let mut v = Vec::new();
    v.extend_from_slice(&[4, 5]); // tag 1, varint 5
    v.extend_from_slice(&[5, 3, b'a', b'b', b'c']); // tag 2, three bytes
    v.extend_from_slice(&[2, 1, 2, 3, 4]); // tag 2 again, four bytes
    v.extend_from_slice(&[7, 1, 2, 3, 4, 5, 6, 7, 8]); // tag 3, eight bytes
    v
}

#[test]
fn tag_reader_accumulates_deltas() {
    let mut buf = Bytes::from(unknown_fields());
    let mut reader = TagReader::new();
    assert_eq!(reader.decode_key(&mut buf).unwrap(), (1, WireType::Varint));
    skip_field(WireType::Varint, &mut buf).unwrap();
    assert_eq!(reader.decode_key(&mut buf).unwrap(), (2, WireType::LengthDelimited));
    skip_field(WireType::LengthDelimited, &mut buf).unwrap();
    assert_eq!(reader.decode_key(&mut buf).unwrap(), (2, WireType::ThirtyTwoBit));
    skip_field(WireType::ThirtyTwoBit, &mut buf).unwrap();
    assert_eq!(reader.decode_key(&mut buf).unwrap(), (3, WireType::SixtyFourBit));
    skip_field(WireType::SixtyFourBit, &mut buf).unwrap();
    assert!(buf.is_empty());
}

#[test]
fn tag_overflow_is_an_error() {
    let mut key = BytesMut::new();
    encode_varint((u32::MAX as u64 + 1) << 2, &mut key);
    let mut buf = key.freeze();
    let mut reader = TagReader::new();
    assert_eq!(reader.decode_key(&mut buf).unwrap_err().kind(), DecodeErrorKind::TagOverflowed);
    let mut key = BytesMut::new();
    encode_varint((u32::MAX as u64) << 2, &mut key);
    let mut buf = key.freeze();
    let mut reader = TagReader::new();
    assert_eq!(reader.decode_key(&mut buf).unwrap(), (u32::MAX, WireType::Varint));
}

#[test]
fn skip_field_errors_leave_the_buffer() {
    let mut buf = Bytes::from_static(&[10, 1, 2]);
    assert_eq!(
        skip_field(WireType::LengthDelimited, &mut buf).unwrap_err().kind(),
        DecodeErrorKind::Truncated
    );
    assert_eq!(buf.len(), 3);
    assert_eq!(
        skip_field(WireType::SixtyFourBit, &mut buf).unwrap_err().kind(),
        DecodeErrorKind::Truncated
    );
    let mut empty = Bytes::new();
    assert_eq!(
        skip_field(WireType::Varint, &mut empty).unwrap_err().kind(),
        DecodeErrorKind::Truncated
    );
}

#[test]
fn unit_message_skips_unknown_fields() {
    assert!(<() as OwnedMessage>::decode(Bytes::from(unknown_fields())).is_ok());
    let mut unit = ();
    assert!(unit.replace_from_slice(&unknown_fields()).is_ok());
    let mut buf = Bytes::from(unknown_fields());
    assert!(merge(&mut unit, &mut buf, DecodeContext::new()).is_ok());
    assert!(buf.is_empty());
    let truncated = Bytes::from_static(&[5, 10, 1]);
    assert_eq!(
        <() as OwnedMessage>::decode(truncated).unwrap_err().kind(),
        DecodeErrorKind::Truncated
    );
}

#[test]
fn unit_message_length_delimited_roundtrip() {
    let encoded = ().encode_length_delimited_to_vec();
    assert!(<() as OwnedMessage>::decode_length_delimited(Bytes::from(encoded)).is_ok());
    let mut delimited = vec![unknown_fields().len() as u8];
    delimited.extend_from_slice(&unknown_fields());
    delimited.extend_from_slice(&[0xff, 0xff]); // bytes after the message are not read
    let mut unit = ();
    assert!(unit.replace_from_length_delimited_slice(&delimited).is_ok());
    assert!(unit.replace_from_length_delimited(Bytes::from(delimited)).is_ok());
    assert_eq!(
        <() as OwnedMessage>::decode_length_delimited(Bytes::from_static(&[3, 1]))
            .unwrap_err()
            .kind(),
        DecodeErrorKind::Truncated
    );
    assert_eq!(
        unit.replace_from(Bytes::from_static(&[0x80])).unwrap_err().kind(),
        DecodeErrorKind::Truncated
    );
}

#[test]
fn tag_writer_keys_read_back() {
    let mut buf = BytesMut::new();
    let mut writer = TagWriter::new();
    writer.encode_key(1, WireType::Varint, &mut buf);
    writer.encode_key(3, WireType::LengthDelimited, &mut buf);
    writer.encode_key(3, WireType::ThirtyTwoBit, &mut buf);
    writer.encode_key(40, WireType::SixtyFourBit, &mut buf);
    // deltas 1, 2, 0, 37 shifted past the wire type bits; 37 * 4 + 3 takes two bytes, the
    // second holding what is left above the first byte's range
    assert_eq!(&buf[..], &[4, 9, 2, 0x97, 0x00]);
    let mut bytes = buf.freeze();
    let mut reader = TagReader::new();
    assert_eq!(reader.decode_key(&mut bytes).unwrap(), (1, WireType::Varint));
    assert_eq!(reader.decode_key(&mut bytes).unwrap(), (3, WireType::LengthDelimited));
    assert_eq!(reader.decode_key(&mut bytes).unwrap(), (3, WireType::ThirtyTwoBit));
    assert_eq!(reader.decode_key(&mut bytes).unwrap(), (40, WireType::SixtyFourBit));
    assert!(bytes.is_empty());
}

#[test]
fn unit_message_decodes_from_slices() {
    let fields = unknown_fields();
    assert!(<() as BorrowedMessage>::decode_borrowed(&fields).is_ok());
    let mut unit = ();
    assert!(unit.replace_borrowed_from(&fields).is_ok());
    let mut slice: &[u8] = &fields;
    assert!(borrow_merge(&mut unit, &mut slice, DecodeContext::new()).is_ok());
    assert!(slice.is_empty());
    assert_eq!(
        <() as BorrowedMessage>::decode_borrowed(&[5, 10, 1]).unwrap_err().kind(),
        DecodeErrorKind::Truncated
    );

    let mut slice: &[u8] = &[2, 1, 2, 3];
    skip_field_in_slice(WireType::LengthDelimited, &mut slice).unwrap();
    assert_eq!(slice, &[3]);
    assert_eq!(
        skip_field_in_slice(WireType::SixtyFourBit, &mut slice).unwrap_err().kind(),
        DecodeErrorKind::Truncated
    );
    assert_eq!(slice, &[3]);
}

#[test]
fn length_delimited_slices_are_left_after_the_message() {
    let mut delimited = vec![unknown_fields().len() as u8];
    delimited.extend_from_slice(&unknown_fields());
    delimited.extend_from_slice(&[0xff, 0xff]);
    let mut slice: &[u8] = &delimited;
    assert!(<() as BorrowedMessage>::decode_borrowed_length_delimited(&mut slice).is_ok());
    assert_eq!(slice, &[0xff, 0xff]);

    // correctly delimited, but the two bytes do not decode: the slice still moves past them
    let mut slice: &[u8] = &[2, 5, 10, 9];
    let err = <() as BorrowedMessage>::decode_borrowed_length_delimited(&mut slice).unwrap_err();
    assert_eq!(err.kind(), DecodeErrorKind::Truncated);
    assert_eq!(slice, &[9]);
    let mut unit = ();
    let mut slice: &[u8] = &[2, 5, 10, 9];
    assert!(unit.replace_borrowed_from_length_delimited(&mut slice).is_err());
    assert_eq!(slice, &[9]);

    // the delimiter claims more bytes than there are
    let mut slice: &[u8] = &[3, 1];
    assert_eq!(
        <() as BorrowedMessage>::decode_borrowed_length_delimited(&mut slice)
            .unwrap_err()
            .kind(),
        DecodeErrorKind::Truncated
    );
}

#[test]
fn canonicity_is_the_least_of_its_parts() {
    let mut canon = Canonicity::Canonical;
    canon.update(Canonicity::HasExtensions);
    assert_eq!(canon, Canonicity::HasExtensions);
    canon.update(Canonicity::Canonical);
    assert_eq!(canon, Canonicity::HasExtensions);
    canon.update(Canonicity::NotCanonical);
    assert_eq!(canon, Canonicity::NotCanonical);

    let strict = RestrictedDecodeContext::new(Canonicity::Canonical);
    assert_eq!(strict.check(Canonicity::Canonical).unwrap(), Canonicity::Canonical);
    assert_eq!(
        strict.check(Canonicity::HasExtensions).unwrap_err().kind(),
        DecodeErrorKind::UnknownField
    );
    assert_eq!(
        strict.check(Canonicity::NotCanonical).unwrap_err().kind(),
        DecodeErrorKind::NotCanonical
    );
    let lenient = RestrictedDecodeContext::new(Canonicity::HasExtensions);
    assert_eq!(lenient.check(Canonicity::HasExtensions).unwrap(), Canonicity::HasExtensions);
    assert_eq!(
        lenient.check(Canonicity::NotCanonical).unwrap_err().kind(),
        DecodeErrorKind::NotCanonical
    );
}

#[test]
fn unit_message_fields_are_extensions_in_distinguished_mode() {
    let fields = Bytes::from(unknown_fields());
    assert_eq!(
        <() as DistinguishedOwnedMessage>::decode_distinguished(Bytes::new()).unwrap().1,
        Canonicity::Canonical
    );
    assert_eq!(
        <() as DistinguishedOwnedMessage>::decode_distinguished(fields.clone()).unwrap().1,
        Canonicity::HasExtensions
    );
    assert_eq!(
        <() as DistinguishedOwnedMessage>::decode_restricted(
            fields.clone(),
            Canonicity::HasExtensions
        )
        .unwrap()
        .1,
        Canonicity::HasExtensions
    );
    assert_eq!(
        <() as DistinguishedOwnedMessage>::decode_restricted(fields.clone(), Canonicity::Canonical)
            .unwrap_err()
            .kind(),
        DecodeErrorKind::UnknownField
    );
    assert!(<() as DistinguishedOwnedMessage>::decode_canonical(Bytes::new()).is_ok());
    assert_eq!(
        <() as DistinguishedOwnedMessage>::decode_canonical(fields.clone()).unwrap_err().kind(),
        DecodeErrorKind::UnknownField
    );

    let mut unit = ();
    assert_eq!(
        unit.replace_distinguished_from(fields.clone()).unwrap(),
        Canonicity::HasExtensions
    );
    assert_eq!(
        unit.replace_distinguished_from_slice(&unknown_fields()).unwrap(),
        Canonicity::HasExtensions
    );
    assert!(unit.replace_canonical_from_slice(&[]).is_ok());
    assert_eq!(
        unit.replace_canonical_from(fields.clone()).unwrap_err().kind(),
        DecodeErrorKind::UnknownField
    );
    let mut buf = fields.clone();
    assert_eq!(
        merge_distinguished(&mut unit, &mut buf, RestrictedDecodeContext::new(Canonicity::NotCanonical))
            .unwrap(),
        Canonicity::HasExtensions
    );
    assert!(buf.is_empty());

    let mut delimited = vec![unknown_fields().len() as u8];
    delimited.extend_from_slice(&unknown_fields());
    assert_eq!(
        <() as DistinguishedOwnedMessage>::decode_distinguished_length_delimited(Bytes::from(
            delimited.clone()
        ))
        .unwrap()
        .1,
        Canonicity::HasExtensions
    );
    assert_eq!(
        unit.replace_restricted_from_length_delimited_slice(&delimited, Canonicity::Canonical)
            .unwrap_err()
            .kind(),
        DecodeErrorKind::UnknownField
    );
    assert!(<() as DistinguishedOwnedMessage>::decode_canonical_length_delimited(
        Bytes::from_static(&[0])
    )
    .is_ok());
}

#[test]
fn unit_message_distinguished_decoding_from_slices() {
    let fields = unknown_fields();
    assert_eq!(
        <() as DistinguishedBorrowedMessage>::decode_distinguished_borrowed(&fields).unwrap().1,
        Canonicity::HasExtensions
    );
    assert_eq!(
        <() as DistinguishedBorrowedMessage>::decode_canonical_borrowed(&fields)
            .unwrap_err()
            .kind(),
        DecodeErrorKind::UnknownField
    );
    let mut unit = ();
    assert_eq!(
        unit.replace_restricted_borrowed_from(&fields, Canonicity::HasExtensions).unwrap(),
        Canonicity::HasExtensions
    );
    assert!(unit.replace_canonical_borrowed_from(&[]).is_ok());

    let mut delimited = vec![fields.len() as u8];
    delimited.extend_from_slice(&fields);
    delimited.push(0x42);
    let mut slice: &[u8] = &delimited;
    assert_eq!(
        <() as DistinguishedBorrowedMessage>::decode_distinguished_borrowed_length_delimited(
            &mut slice
        )
        .unwrap()
        .1,
        Canonicity::HasExtensions
    );
    assert_eq!(slice, &[0x42]);
    // refused by the restriction, but correctly delimited: the slice still moves past it
    let mut slice: &[u8] = &delimited;
    assert_eq!(
        unit.replace_canonical_borrowed_from_length_delimited(&mut slice)
            .unwrap_err()
            .kind(),
        DecodeErrorKind::UnknownField
    );
    assert_eq!(slice, &[0x42]);
}

#[test]
fn errors_convert_to_and_from_kinds() {
    let err: DecodeError = DecodeErrorKind::Oversize.into();
    assert_eq!(err.kind(), DecodeErrorKind::Oversize);
    assert!(err.path().is_empty());
    let kind: DecodeErrorKind = (&err).into();
    assert_eq!(kind, DecodeErrorKind::Oversize);
    let kind: DecodeErrorKind = err.into();
    assert_eq!(kind, DecodeErrorKind::Oversize);
}
