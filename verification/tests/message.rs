use bilrost::buf::ReverseBuffer;
use bilrost::encoding::RawMessage;
use bilrost::encoding::Canonicity;
use bilrost::message::{
    BorrowedMessage, DistinguishedBorrowedMessage, DistinguishedOwnedMessage, Message,
    OwnedMessage,
};
use bytes::BytesMut;

#[test]
fn unit_message_encodes_to_nothing() {
    let msg: () = Message::new_empty();
    assert!(msg.message_is_empty());
    assert_eq!(msg.encoded_len(), 0);
    assert!(msg.encode_to_vec().is_empty());
    assert!(msg.encode_to_bytes().is_empty());
    assert_eq!(msg.encode_length_delimited_to_vec(), vec![0]);
    assert_eq!(&msg.encode_length_delimited_to_bytes()[..], &[0]);
    let fast = msg.encode_fast();
    assert!(fast.is_empty());
    assert_eq!(msg.encode_length_delimited_fast().into_vec(), vec![0]);
    let contiguous = msg.encode_contiguous();
    assert_eq!(contiguous.capacity(), 0);
    let delimited = msg.encode_length_delimited_contiguous();
    assert_eq!(delimited.capacity(), 1);
    assert_eq!(delimited.contiguous(), Some(&[0u8][..]));
}

#[test]
fn unit_message_writes_into_buffers() {
    let mut buf = BytesMut::new();
    ().encode(&mut buf).unwrap();
    assert!(buf.is_empty());
    ().encode_length_delimited(&mut buf).unwrap();
    assert_eq!(&buf[..], &[0]);
    let mut rb = ReverseBuffer::new();
    Message::prepend(&(), &mut rb);
    assert!(rb.is_empty());
    let mut unit = ();
    unit.clear_message();
    assert!(RawMessage::is_empty(&unit));
}

fn use_dyn_owned_messages<M: DistinguishedOwnedMessage>(
    safe: &mut dyn DistinguishedOwnedMessage,
    mut msg: M,
) {
    let fields: &[u8] = &[4, 5];
    assert_eq!(safe.encoded_len(), msg.encoded_len());
    assert_eq!(safe.encode_to_vec(), msg.encode_to_vec());
    assert_eq!(
        safe.replace_distinguished_from_slice(fields).unwrap(),
        msg.replace_distinguished_from_slice(fields).unwrap()
    );
    safe.replace_from_slice(fields).unwrap();
    msg.replace_from_slice(fields).unwrap();
    assert_eq!(safe.message_is_empty(), msg.message_is_empty());
}

fn use_dyn_borrowed_messages<'a, M: DistinguishedBorrowedMessage<'a>>(
    safe: &mut dyn DistinguishedBorrowedMessage<'a>,
    mut msg: M,
) {
    let fields: &'a [u8] = &[4, 5];
    assert_eq!(
        safe.replace_distinguished_borrowed_from(fields).unwrap(),
        msg.replace_distinguished_borrowed_from(fields).unwrap()
    );
    safe.replace_borrowed_from(fields).unwrap();
    msg.replace_borrowed_from(fields).unwrap();
}

#[test]
fn using_dyn_messages() {
    let dyn_msg: &dyn Message = &();
    assert_eq!(dyn_msg.encoded_len(), 0);
    assert!(dyn_msg.encode_to_vec().is_empty());
    let mut buf = BytesMut::new();
    dyn_msg.encode_length_delimited(&mut buf).unwrap();
    assert_eq!(&buf[..], &[0]);

    let mut unit = ();
    let owned: &mut dyn OwnedMessage = &mut unit;
    owned.replace_from_slice(&[4, 5]).unwrap();
    let distinguished: &mut dyn DistinguishedOwnedMessage = &mut unit;
    assert_eq!(
        distinguished.replace_distinguished_from_slice(&[4, 5]).unwrap(),
        Canonicity::HasExtensions
    );
    let borrowed: &mut dyn BorrowedMessage = &mut unit;
    borrowed.replace_borrowed_from(&[4, 5]).unwrap();

    use_dyn_owned_messages(&mut (), ());
    use_dyn_borrowed_messages(&mut (), ());
}
