use bilrost::buf::{ReverseBuf, ReverseBuffer};
use bytes::Bytes;

fn compare_reader(buf: &ReverseBuffer, expected: &[u8]) {
    let mut reader = buf.buf_reader();
    assert_eq!(reader.remaining(), expected.len());
    let mut seen = Vec::new();
    while reader.remaining() > 0 {
        let chunk = reader.chunk();
        assert!(!chunk.is_empty());
        seen.extend_from_slice(chunk);
        let n = chunk.len();
        reader.advance(n);
    }
    assert_eq!(seen, expected);
    assert!(reader.chunk().is_empty());
}

fn drain(mut buf: ReverseBuffer, expected: &[u8]) {
    let mut seen = Vec::new();
    while buf.remaining() > 0 {
        let chunk = buf.chunk().to_vec();
        assert!(!chunk.is_empty());
        seen.extend_from_slice(&chunk);
        buf.advance(chunk.len());
    }
    assert_eq!(seen, expected);
    assert!(buf.is_empty());
}

#[allow(clippy::len_zero)]
fn check_read(buf: ReverseBuffer, expected: &[u8]) {
    assert_eq!(buf.len(), expected.len());
    assert_eq!(buf.is_empty(), expected.len() == 0);
    assert!(buf.capacity() >= buf.len());
    compare_reader(&buf, expected);
    if let Some(contiguous) = buf.contiguous() {
        assert_eq!(contiguous, expected);
    }
    if let Some(contiguous) = buf.buf_reader().contiguous() {
        assert_eq!(contiguous, expected);
    }
    assert_eq!(buf.contiguous().is_some(), buf.buf_reader().contiguous().is_some());
    drain(buf.clone(), expected);
    assert_eq!(buf.into_vec(), expected);
}

#[test]
fn fresh() {
    let buf = ReverseBuffer::new();
    assert_eq!(buf.capacity(), 0);
    assert!(buf.contiguous().is_some());
    check_read(buf, &[]);
}

#[test]
fn fresh_with_plan_still_empty() {
    let mut buf = ReverseBuffer::new();
    buf.plan_reservation(100);
    assert_eq!(buf.capacity(), 0);
    buf.plan_reservation_exact(50);
    assert_eq!(buf.capacity(), 0);
    check_read(buf, &[]);
}

#[test]
fn build_and_read() {
    let mut buf = ReverseBuffer::new();
    buf.prepend_slice(b"!");
    buf.prepend_slice(b"world");
    buf.prepend_slice(b" ");
    buf.prepend_slice(b"hello");
    check_read(buf, b"hello world!");
}

#[test]
fn build_bigger_and_read() {
    let mut buf = ReverseBuffer::new();
    let mut expected = Vec::new();
    for i in 0..1000u32 {
        buf.prepend_u32_be(i);
        let mut next = i.to_be_bytes().to_vec();
        next.extend_from_slice(&expected);
        expected = next;
    }
    assert!(buf.contiguous().is_none());
    check_read(buf, &expected);
}

#[test]
fn build_with_planned_reservation() {
    let mut buf = ReverseBuffer::new();
    buf.plan_reservation(200);
    assert_eq!(buf.capacity(), 0);
    let mut expected = Vec::new();
    for i in 0..100u16 {
        buf.prepend_u16_le(i);
        let mut next = i.to_le_bytes().to_vec();
        next.extend_from_slice(&expected);
        expected = next;
    }
    assert!(buf.capacity() >= 200);
    assert!(buf.contiguous().is_some());
    check_read(buf, &expected);
}

#[test]
fn build_with_initial_planned_reservation() {
    let mut buf = ReverseBuffer::new();
    buf.plan_reservation(5);
    buf.prepend_slice(b"world");
    let capacity = buf.capacity();
    assert!(capacity >= 5);
    assert!(buf.contiguous().is_some());
    buf.plan_reservation(1000);
    assert_eq!(buf.capacity(), capacity);
    let big = vec![7u8; 995];
    buf.prepend_slice(&big);
    assert!(buf.capacity() >= 1000);
    let mut expected = big.clone();
    expected.extend_from_slice(b"world");
    check_read(buf, &expected);
}

#[test]
fn build_with_exact_planned_reservation() {
    let mut buf = ReverseBuffer::new();
    buf.plan_reservation_exact(10);
    buf.prepend_slice(b"0123456789");
    assert_eq!(buf.capacity(), 10);
    assert!(buf.contiguous().is_some());
    buf.plan_reservation_exact(3);
    buf.prepend_slice(b"abc");
    assert_eq!(buf.capacity(), 13);
    assert!(buf.contiguous().is_none());
    check_read(buf, b"abc0123456789");
}

#[test]
fn build_with_capacity() {
    let mut buf = ReverseBuffer::with_capacity(10);
    assert_eq!(buf.capacity(), 10);
    assert!(buf.is_empty());
    buf.prepend_slice(b"12345");
    assert_eq!(buf.capacity(), 10);
    buf.prepend_slice(b"67890");
    assert_eq!(buf.capacity(), 10);
    assert_eq!(buf.contiguous(), Some(&b"6789012345"[..]));
    buf.prepend_slice(b"x");
    assert!(buf.capacity() > 10);
    check_read(buf.clone(), b"x6789012345");
    buf.clear();
    assert_eq!(buf.capacity(), 10);
    check_read(buf, b"");
}

#[test]
fn single_prepend_allocates_once() {
    let mut buf = ReverseBuffer::new();
    buf.prepend_slice(b"tail");
    let capacity = buf.capacity();
    let big = vec![1u8; 10_000];
    buf.prepend_slice(&big);
    let grown = buf.capacity();
    // exactly one new chunk, just big enough for what did not fit in the first one
    assert_eq!(grown, capacity + 10_000 - (capacity - 4));
    let mut reader = buf.buf_reader();
    assert_eq!(reader.chunk().len(), grown - capacity);
    reader.advance(grown - capacity);
    assert_eq!(reader.chunk().len(), capacity);
    let mut expected = big.clone();
    expected.extend_from_slice(b"tail");
    check_read(buf, &expected);
}

#[test]
fn fully_advancing_keep_back_reversebuffer_does_not_drop_back() {
    let mut buf = ReverseBuffer::with_capacity(8);
    buf.prepend_slice(b"0123456789abcdef");
    assert!(buf.capacity() > 8);
    let n = buf.len();
    buf.advance(n);
    assert!(buf.is_empty());
    assert_eq!(buf.capacity(), 8);
    buf.prepend_slice(b"again");
    assert_eq!(buf.capacity(), 8);
    check_read(buf, b"again");
}

#[test]
fn prepending_small_bufs() {
    let mut buf = ReverseBuffer::new();
    let mut expected = Vec::new();
    for i in 0..200u8 {
        let piece = vec![i; (i % 7) as usize];
        buf.prepend(Bytes::from(piece.clone()));
        let mut next = piece;
        next.extend_from_slice(&expected);
        expected = next;
    }
    check_read(buf, &expected);
}

#[test]
fn prepending_integers_of_every_width() {
    let mut buf = ReverseBuffer::new();
    buf.prepend_i64_be(-2);
    buf.prepend_u64_le(0x0102_0304_0506_0708);
    buf.prepend_i32_le(-3);
    buf.prepend_u32_be(0xdead_beef);
    buf.prepend_i16_be(-4);
    buf.prepend_u16_le(0x1234);
    buf.prepend_i8(-1);
    buf.prepend_u8(9);
    buf.prepend_array([1, 2, 3]);
    let mut expected = vec![1, 2, 3, 9, 0xff, 0x34, 0x12];
    expected.extend_from_slice(&(-4i16).to_be_bytes());
    expected.extend_from_slice(&0xdead_beefu32.to_be_bytes());
    expected.extend_from_slice(&(-3i32).to_le_bytes());
    expected.extend_from_slice(&0x0102_0304_0506_0708u64.to_le_bytes());
    expected.extend_from_slice(&(-2i64).to_be_bytes());
    check_read(buf, &expected);
}

#[test]
fn remaining_writable_shrinks_by_what_is_prepended() {
    let mut buf = ReverseBuffer::new();
    let before = buf.remaining_writable();
    assert_eq!(before, isize::MAX as usize);
    buf.prepend_slice(b"abc");
    assert_eq!(buf.remaining_writable(), before - 3);
}

#[test]
fn reader_does_not_drain() {
    let mut buf = ReverseBuffer::with_capacity(4);
    buf.prepend_slice(b"defgh");
    buf.prepend_slice(b"abc");
    let mut reader = buf.buf_reader();
    reader.advance(2);
    assert_eq!(reader.remaining(), 6);
    assert_eq!(buf.len(), 8);
    let mut rest = Vec::new();
    while reader.remaining() > 0 {
        let c = reader.chunk();
        rest.extend_from_slice(c);
        let n = c.len();
        reader.advance(n);
    }
    assert_eq!(rest, b"cdefgh");
    check_read(buf, b"abcdefgh");
}

#[test]
fn slices_are_front_chunk_then_earlier_chunks_whole() {
    let mut buf = ReverseBuffer::new();
    buf.prepend_slice(&[1u8; 32]);
    assert_eq!(buf.capacity(), 32);
    buf.prepend_slice(&[2u8; 5]);
    assert_eq!(buf.capacity(), 64);
    assert!(buf.contiguous().is_none());
    let slices = buf.slices();
    assert_eq!(slices.len(), 2);
    assert_eq!(slices[0], &[2u8; 5][..]);
    assert_eq!(slices[1], &[1u8; 32][..]);

    let mut reader = buf.buf_reader();
    reader.advance(3);
    let rest = reader.slices();
    assert_eq!(rest.len(), 2);
    assert_eq!(rest[0], &[2u8; 2][..]);
    assert_eq!(rest[1], &[1u8; 32][..]);
    assert!(reader.contiguous().is_none());
    reader.advance(2);
    assert_eq!(reader.slices(), vec![&[1u8; 32][..]]);
    assert_eq!(reader.contiguous(), Some(&[1u8; 32][..]));

    let empty = ReverseBuffer::new();
    assert!(empty.slices().is_empty());
    assert_eq!(empty.contiguous(), Some(&[][..]));
}

#[test]
fn one_prepend_of_bytes_into_an_empty_buffer_is_contiguous() {
    let mut buf = ReverseBuffer::new();
    let data = Bytes::from(vec![7u8; 100]);
    buf.prepend(data);
    assert!(buf.capacity() >= 100);
    assert_eq!(buf.contiguous(), Some(&[7u8; 100][..]));
    assert_eq!(buf.slices().len(), 1);
}

#[test]
fn planned_reservation_serves_many_prepends_with_one_chunk() {
    let mut buf = ReverseBuffer::new();
    buf.plan_reservation(1000);
    assert_eq!(buf.capacity(), 0);
    buf.prepend_slice(b"");
    assert_eq!(buf.capacity(), 0);
    let mut expected: Vec<u8> = Vec::new();
    for i in 0..10u8 {
        let piece = vec![i; 100];
        buf.prepend_slice(&piece);
        let mut next = piece.clone();
        next.extend_from_slice(&expected);
        expected = next;
    }
    assert!(buf.capacity() >= 1000);
    assert_eq!(buf.contiguous(), Some(&expected[..]));
}

#[test]
fn vectors_convert_to_buffers_and_back() {
    let v: Vec<u8> = (0..50u8).collect();
    let buf = ReverseBuffer::from_vec(v.clone());
    assert_eq!(buf.len(), v.len());
    assert_eq!(buf.into_vec(), v);
    assert_eq!(ReverseBuffer::from_vec(Vec::new()).into_vec(), Vec::<u8>::new());
}
