use bilrost::buf::{ReverseBuf, ReverseBuffer};
use bilrost::varint::{
    decode_varint, decode_varint_slice, encode_varint, encoded_len_varint, prepend_varint,
};
use bilrost::{
    assert_tags_are_equal, decode_length_delimiter, encode_length_delimiter, length_delimiter_len,
    tags_are_equal,
};
use bilrost::{DecodeErrorKind, RECURSION_LIMIT};
use bytes::{Bytes, BytesMut};

fn encode(value: u64) -> Vec<u8> {
    let mut buf = BytesMut::new();
    encode_varint(value, &mut buf);
    buf.to_vec()
}

#[test]
fn varint_known_encodings() {
    assert_eq!(encode(0), vec![0]);
    assert_eq!(encode(1), vec![1]);
    assert_eq!(encode(127), vec![0x7f]);
    assert_eq!(encode(128), vec![0x80, 0]);
    assert_eq!(encode(129), vec![0x81, 0]);
    assert_eq!(encode(255), vec![0xff, 0]);
    assert_eq!(encode(256), vec![0x80, 1]);
    assert_eq!(encode(0x407f), vec![0xff, 0x7f]);
    assert_eq!(encode(0x4080), vec![0x80, 0x80, 0]);
    assert_eq!(
        encode(u64::MAX),
        vec![0xff, 0xfe, 0xfe, 0xfe, 0xfe, 0xfe, 0xfe, 0xfe, 0xfe]
    );
}

#[test]
fn varint_length_table() {
    let bounds: [(u64, usize); 9] = [
        (0x7f, 1),
        (0x407f, 2),
        (0x20_407f, 3),
        (0x1020_407f, 4),
        (0x08_1020_407f, 5),
        (0x0408_1020_407f, 6),
        (0x02_0408_1020_407f, 7),
        (0x0102_0408_1020_407f, 8),
        (u64::MAX, 9),
    ];
    for (last, len) in bounds {
        assert_eq!(encoded_len_varint(last), len);
        assert_eq!(encode(last).len(), len);
        if len < 9 {
            assert_eq!(encoded_len_varint(last + 1), len + 1);
            assert_eq!(encode(last + 1).len(), len + 1);
        }
    }
}

#[test]
fn varint_roundtrip_with_trailing_bytes() {
    for value in [0u64, 1, 127, 128, 300, 0x4080, 1 << 40, u64::MAX - 1, u64::MAX] {
        let mut bytes = encode(value);
        let n = bytes.len();
        bytes.extend_from_slice(&[0x80, 0x80, 7]);
        assert_eq!(decode_varint_slice(&bytes).unwrap(), (value, n));
        let mut b = Bytes::from(bytes);
        assert_eq!(decode_varint(&mut b).unwrap(), value);
        assert_eq!(&b[..], &[0x80, 0x80, 7]);
    }
}

#[test]
fn varint_errors() {
    assert_eq!(decode_varint_slice(&[]).unwrap_err().kind(), DecodeErrorKind::Truncated);
    assert_eq!(
        decode_varint_slice(&[0x80, 0x80]).unwrap_err().kind(),
        DecodeErrorKind::Truncated
    );
    // nine bytes that would encode a value above u64::MAX
    assert_eq!(
        decode_varint_slice(&[0xff; 9]).unwrap_err().kind(),
        DecodeErrorKind::InvalidVarint
    );
    assert_eq!(
        decode_varint_slice(&[0xff, 0xfe, 0xfe, 0xfe, 0xfe, 0xfe, 0xfe, 0xfe, 0xff])
            .unwrap_err()
            .kind(),
        DecodeErrorKind::InvalidVarint
    );
    // the ninth byte always ends the varint, whatever its high bit
    assert_eq!(
        decode_varint_slice(&[0x80, 0x80, 0x80, 0x80, 0x80, 0x80, 0x80, 0x80, 0x80, 1]).unwrap(),
        (0x0102_0408_1020_4080 + (0x80u64 << 56), 9)
    );
    let mut b = Bytes::from(vec![0x80u8]);
    assert!(decode_varint(&mut b).is_err());
    assert_eq!(b.len(), 1);
}

#[test]
fn prepend_varint_matches_encode() {
    let mut rb = ReverseBuffer::new();
    let mut expected = Vec::new();
    for value in [5u64, 300, u64::MAX, 0, 1 << 20] {
        prepend_varint(value, &mut rb);
        let mut next = encode(value);
        next.extend_from_slice(&expected);
        expected = next;
    }
    assert_eq!(rb.len(), expected.len());
    assert_eq!(rb.remaining_writable(), isize::MAX as usize - expected.len());
    assert_eq!(rb.into_vec(), expected);
}

#[test]
fn length_delimiters() {
    for len in [0usize, 1, 127, 128, 16_511, 16_512, 1 << 30] {
        let mut buf = BytesMut::new();
        encode_length_delimiter(len, &mut buf).unwrap();
        assert_eq!(buf.len(), length_delimiter_len(len));
        assert!((1..=9).contains(&length_delimiter_len(len)));
        buf.extend_from_slice(b"rest");
        let mut input = buf.freeze();
        assert_eq!(decode_length_delimiter(&mut input).unwrap(), len);
        assert_eq!(&input[..], b"rest");
    }
    let mut truncated = Bytes::from_static(&[0x80]);
    assert_eq!(
        decode_length_delimiter(&mut truncated).unwrap_err().kind(),
        DecodeErrorKind::Truncated
    );
    assert_eq!(&truncated[..], &[0x80]);
    let mut invalid = Bytes::from_static(&[0xff; 9]);
    assert_eq!(
        decode_length_delimiter(&mut invalid).unwrap_err().kind(),
        DecodeErrorKind::InvalidVarint
    );
    assert_eq!(invalid.len(), 9);
    assert_eq!(RECURSION_LIMIT, 100);
}

#[test]
fn tag_lists_compare_elementwise() {
    assert!(tags_are_equal(&[1, 2, 3], &[1, 2, 3]));
    assert!(tags_are_equal(&[], &[]));
    assert!(!tags_are_equal(&[1, 2, 3], &[1, 2]));
    assert!(!tags_are_equal(&[1, 2, 3], &[1, 2, 4]));
    assert_tags_are_equal("tags differ", &[5, 9], &[5, 9]);
}

#[test]
fn remaining_mut_is_what_a_buffer_can_still_take() {
    let mut buf = BytesMut::new();
    assert_eq!(bilrost::byte_bufs::remaining_mut(&buf), isize::MAX as usize);
    encode_length_delimiter(300, &mut buf).unwrap();
    assert_eq!(bilrost::byte_bufs::remaining_mut(&buf), isize::MAX as usize - 2);
}
