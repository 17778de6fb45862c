use bilrost::encoding::{
    check_wire_type, Canonicity, DecodeContext, RestrictedDecodeContext, WireType,
};
use bilrost::iter::FlatAdapter;
use bilrost::schema::{MessageFields, Schema};
use bilrost::{Blob, DecodeError, DecodeErrorKind, FieldName};

#[test]
fn decode_error_path_and_kind() {
    let mut err = DecodeError::new(DecodeErrorKind::InvalidValue);
    assert_eq!(err.kind(), DecodeErrorKind::InvalidValue);
    assert!(err.path().is_empty());
    err.push("Inner", "field");
    err.push("Outer", "inner");
    assert_eq!(
        err.path(),
        &[
            FieldName { message: "Inner", field: "field" },
            FieldName { message: "Outer", field: "inner" }
        ]
    );
    let copy = err.clone();
    assert_eq!(copy, err);
    assert_eq!(DecodeErrorKind::from(&err), DecodeErrorKind::InvalidValue);
    assert_eq!(DecodeErrorKind::from(err), DecodeErrorKind::InvalidValue);
    assert_eq!(DecodeErrorKind::from(&DecodeErrorKind::Other), DecodeErrorKind::Other);
}

#[test]
fn encode_error_reports_capacities() {
    let mut buf = bytes::BytesMut::new();
    assert!(bilrost::encode_length_delimiter(5, &mut buf).is_ok());
    assert_eq!(&buf[..], &[5]);
}

#[test]
fn blob_wraps_bytes() {
    let blob = Blob::new();
    assert!(blob.is_empty());
    let mut blob = Blob::from_vec(vec![1, 2, 3]);
    assert_eq!(&*blob, &vec![1, 2, 3]);
    blob.push(4);
    assert_eq!(blob.as_ref(), &vec![1, 2, 3, 4]);
    blob.as_mut().push(5);
    assert_eq!(blob.clone().into_inner(), vec![1, 2, 3, 4, 5]);
    let from: Blob = vec![9u8].into();
    assert_eq!(Vec::from(from), vec![9]);
    assert_eq!(Blob::default(), Blob::new());
    assert!(Blob::from_vec(vec![1]) < Blob::from_vec(vec![2]));
}

#[test]
fn flat_adapter_yields_groups_in_order() {
    let mut groups = FlatAdapter(vec![("a", vec![1, 2]), ("b", vec![]), ("c", vec![3])]);
    assert_eq!(groups.len(), 3);
    let mut first = groups.next().unwrap();
    assert_eq!(first.len(), 2);
    assert_eq!(first.next(), Some(("a", 1)));
    assert_eq!(first.next_back(), Some(("a", 2)));
    assert_eq!(first.next(), None);
    let mut last = groups.next_back().unwrap();
    assert_eq!(last.next(), Some(("c", 3)));
    assert_eq!(last.next_back(), None);
    let mut middle = groups.next().unwrap();
    assert_eq!(middle.next(), None);
    assert!(groups.next().is_none());
    assert!(groups.next_back().is_none());
    assert_eq!(groups.len(), 0);
}

#[test]
fn wire_types_and_contexts() {
    assert_eq!(WireType::Varint.fixed_size(), None);
    assert_eq!(WireType::LengthDelimited.fixed_size(), None);
    assert_eq!(WireType::ThirtyTwoBit.fixed_size(), Some(4));
    assert_eq!(WireType::SixtyFourBit.fixed_size(), Some(8));
    assert!(check_wire_type(WireType::Varint, WireType::Varint).is_ok());
    assert_eq!(
        check_wire_type(WireType::Varint, WireType::SixtyFourBit).unwrap_err().kind(),
        DecodeErrorKind::WrongWireType
    );
    let mut ctx = DecodeContext::new();
    for _ in 0..bilrost::RECURSION_LIMIT {
        assert!(ctx.limit_reached().is_ok());
        ctx = ctx.enter_recursion();
    }
    assert_eq!(ctx.limit_reached().unwrap_err().kind(), DecodeErrorKind::RecursionLimitReached);
    let _restricted = RestrictedDecodeContext::new(Canonicity::HasExtensions);
}

#[test]
fn schema_registers_each_type_once() {
    let mut schema = Schema::new();
    let mut fields = MessageFields::new();
    fields.add_field("unpacked_varint_arrayvec", 74, String::from("unpacked<varint>"));
    fields.add_field("recursive_message", 114, String::from("general<message>"));
    assert_eq!(fields.len(), 2);
    assert!(!schema.is_registered(1));
    assert!(schema.register_message(1, fields));
    assert!(schema.is_registered(1));
    assert!(!schema.register_message(1, MessageFields::new()));
    assert!(schema.is_registered(1));
    assert_eq!(schema.fields_of(1).unwrap().len(), 2);
    assert!(!schema.is_registered(2));
    assert!(schema.fields_of(2).is_none());
}

/// Registers a message whose second field holds the message itself, the way derived code does:
/// reserve the type, describe its fields (registering the types they hold), then set them.
fn register_recursive(schema: &mut Schema, type_key: u64, depth: &mut u32) {
    *depth += 1;
    if !schema.reserve_message(type_key) {
        return;
    }
    let mut fields = MessageFields::new();
    fields.add_field("value", 1, String::from("general<varint>"));
    register_recursive(schema, type_key, depth);
    fields.add_field("recursive_message", 114, String::from("general<message>"));
    assert!(schema.set_fields(type_key, fields));
}

#[test]
fn schema_registers_recursive_messages_in_two_steps() {
    let mut schema = Schema::new();
    let mut depth = 0;
    register_recursive(&mut schema, 7, &mut depth);
    assert_eq!(depth, 2);
    assert!(schema.is_registered(7));
    assert_eq!(schema.fields_of(7).unwrap().len(), 2);
    assert!(!schema.reserve_message(7));
    assert_eq!(schema.fields_of(7).unwrap().len(), 2);
    assert!(!schema.set_fields(8, MessageFields::new()));
    assert!(!schema.is_registered(8));
    assert!(schema.set_fields(7, MessageFields::new()));
    assert_eq!(schema.fields_of(7).unwrap().len(), 0);
}

#[test]
fn blobs_convert_from_byte_containers() {
    let slice: &[u8] = &[1, 2, 3];
    assert_eq!(Blob::from(slice).into_inner(), vec![1, 2, 3]);
    let mut bytes = [4u8, 5];
    let mutable: &mut [u8] = &mut bytes;
    assert_eq!(Blob::from(mutable).into_inner(), vec![4, 5]);
    assert_eq!(Blob::from(&[6u8, 7]).into_inner(), vec![6, 7]);
    assert_eq!(Blob::from([8u8]).into_inner(), vec![8]);
    let boxed: Box<[u8]> = vec![9, 10].into_boxed_slice();
    assert_eq!(Blob::from(boxed).into_inner(), vec![9, 10]);
    assert_eq!(Blob::from("hi").into_inner(), b"hi".to_vec());
}
