use messaging::buffer::{Message, MessageBuffer, MESSAGE_HISTORY, MESSAGE_LENGTH, MESSAGE_SIZE};
use messaging::error::MessageError;

fn construct_basic_message(marker: Option<u8>) -> Message {
    let mut rval = Message {
        writer: vec![marker.unwrap_or(0); 32],
        length: if marker.is_some() { 1 } else { 0 },
        bytes: vec![0; MESSAGE_LENGTH],
    };
    if let Some(marker) = marker {
        rval.bytes[0] = marker;
    }
    rval
}

fn construct_buffer() -> MessageBuffer {
    let mut messages = Vec::new();
    for _ in 0..MESSAGE_HISTORY {
        messages.push(construct_basic_message(None));
    }
    MessageBuffer { queue_head: 0, messages }
}

fn check_error(expected: MessageError, minput: Result<Message, MessageError>) {
    match minput {
        Ok(_) => panic!("Expected {:?}", expected),
        Err(e) => assert_eq!(expected, e),
    }
}

#[test]
fn test_push() {
    let mut buffer = construct_buffer();
    let initial = 1 + buffer.queue_head as usize;
    for i in 0..MESSAGE_HISTORY {
        assert_eq!(buffer.queue_head, i as u32);
        buffer.append(&construct_basic_message(Some(i as u8)));
        assert_eq!(buffer.queue_head, (i + 1) as u32 % MESSAGE_HISTORY as u32);
        for j in 0..=i {
            let index = initial + j;
            let index = index % MESSAGE_HISTORY;
            assert_eq!(buffer.messages[index].length, 1);
            assert_eq!(buffer.messages[index].bytes[0], j as u8);
        }

        for j in (i + 1)..MESSAGE_HISTORY {
            let index = initial + j;
            let index = index % MESSAGE_HISTORY;
            assert_eq!(buffer.messages[index].length, 0);
            assert_eq!(buffer.messages[index].bytes[0], 0);
        }
    }
    assert_eq!(buffer.queue_head, 0);
    assert_eq!(buffer.messages[1].length, 1);
    assert_eq!(buffer.messages[1].bytes[0], 0);
    buffer.append(&construct_basic_message(Some(MESSAGE_HISTORY as u8)));
    assert_eq!(buffer.queue_head, 1);
    assert_eq!(buffer.messages[1].length, 1);
    assert_eq!(buffer.messages[1].bytes[0], MESSAGE_HISTORY as u8);
}

#[test]
fn test_unpack() {
    let orig_message = construct_basic_message(Some(1));
    let bytes = orig_message.encode();
    assert_eq!(bytes.len(), MESSAGE_SIZE);
    let message = Message::unpack(&bytes).unwrap();
    assert_eq!(message.writer, orig_message.writer);
    assert_eq!(message.length, orig_message.length);
    assert!(message
        .bytes
        .iter()
        .zip(orig_message.bytes.iter())
        .all(|(a, b)| *a == *b));
}

#[test]
fn test_unpack_all_zero() {
    let mut orig_message = construct_basic_message(None);
    // The largest length an 8-bit field can declare, with every payload byte zero.
    orig_message.length = (MESSAGE_LENGTH - 1) as u8;
    let bytes = orig_message.encode();
    let message = Message::unpack(&bytes).unwrap();
    assert_eq!(message.writer, orig_message.writer);
    assert_eq!(message.length, orig_message.length);
    assert!(message
        .bytes
        .iter()
        .zip(orig_message.bytes.iter())
        .all(|(a, b)| *a == *b));
}

#[test]
fn test_unpack_large() {
    let orig_message = construct_basic_message(Some(1));
    let mut big = orig_message.encode();
    big.extend(orig_message.encode());
    check_error(MessageError::MessageTooLarge, Message::unpack(&big));
}

#[test]
fn test_unpack_small() {
    let orig_message = construct_basic_message(Some(1));
    let bytes = orig_message.encode();
    check_error(MessageError::MessageTooSmall, Message::unpack(&bytes[1..]));
}

#[test]
fn test_unpack_short_length() {
    let mut orig_message = construct_basic_message(Some(1));
    orig_message.bytes[1] = 2;
    let bytes = orig_message.encode();
    check_error(MessageError::MessageLengthTooSmall, Message::unpack(&bytes));
}

#[test]
fn test_unpack_empty() {
    let orig_message = construct_basic_message(None);
    let bytes = orig_message.encode();
    check_error(MessageError::MessageEmpty, Message::unpack(&bytes));
}
