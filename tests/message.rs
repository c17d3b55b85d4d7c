use websocket::frame::{Frame, FrameHeader, Opcode, PayloadLen};
use websocket::message::{Message, MessageError, StatusCode};
use websocket::role::{
    encode_outgoing, encode_outgoing_with_key, outgoing_frame, outgoing_frame_with_key, Client,
    Receiver, Role, Server, Side,
};

fn frame(fin: bool, opcode: Opcode, payload: &[u8]) -> Frame {
    Frame {
        header: FrameHeader::new(fin, opcode, false, payload.len() as u64),
        masking_key: None,
        payload: payload.to_vec(),
    }
}

#[test]
fn fragments_reassemble() {
    let frames = vec![
        frame(false, Opcode::Text, b"ab"),
        frame(false, Opcode::Continue, b"cd"),
        frame(true, Opcode::Continue, b"ef"),
    ];
    assert_eq!(Message::from_frames(frames), Ok(Message::Text("abcdef".to_string())));
}

#[test]
fn lone_non_final_frame_is_incomplete() {
    let result = Message::from_frame(frame(false, Opcode::Text, b"ab"));
    assert_eq!(result, Err(MessageError::IsNotFinal));
    let result = Message::from_frames(vec![frame(false, Opcode::Text, b"ab")]);
    assert_eq!(result, Err(MessageError::IsNotFinal));
}

#[test]
fn fragment_sequence_errors() {
    assert_eq!(
        Message::from_frames(vec![]),
        Err(MessageError::ProtocolViolated(StatusCode::ProtocolError))
    );
    let frames = vec![frame(false, Opcode::Text, b"ab"), frame(true, Opcode::Text, b"cd")];
    assert_eq!(
        Message::from_frames(frames),
        Err(MessageError::ProtocolViolated(StatusCode::ProtocolError))
    );
    let frames = vec![frame(true, Opcode::Text, b"ab"), frame(true, Opcode::Continue, b"cd")];
    assert_eq!(
        Message::from_frames(frames),
        Err(MessageError::ProtocolViolated(StatusCode::ProtocolError))
    );
}

#[test]
fn single_frame_messages() {
    assert_eq!(
        Message::from_frame(frame(true, Opcode::Binary, &[0, 255])),
        Ok(Message::Binary(vec![0, 255]))
    );
    assert_eq!(
        Message::from_frame(frame(true, Opcode::Ping, &[1])),
        Ok(Message::Ping(vec![1]))
    );
    assert_eq!(
        Message::from_frame(frame(true, Opcode::Pong, &[])),
        Ok(Message::Pong(vec![]))
    );
    assert_eq!(
        Message::from_frame(frame(true, Opcode::Text, "héllo".as_bytes())),
        Ok(Message::Text("héllo".to_string()))
    );
    assert_eq!(
        Message::from_frame(frame(true, Opcode::Text, &[0xff, 0xfe])),
        Err(MessageError::ProtocolViolated(StatusCode::InvalidPayloadData))
    );
    assert_eq!(
        Message::from_frame(frame(true, Opcode::Continue, b"x")),
        Err(MessageError::ProtocolViolated(StatusCode::ProtocolError))
    );
    assert_eq!(
        Message::from_frame(frame(true, Opcode::Close, &[3])),
        Err(MessageError::ProtocolViolated(StatusCode::InvalidPayloadData))
    );
}

#[test]
fn close_round_trip() {
    let message = Message::Close(StatusCode::ProtocolError, Some("bye".to_string()));
    let frame = Frame::from_message(message.clone());
    assert_eq!(frame.payload, vec![0x03, 0xea, b'b', b'y', b'e']);
    assert!(frame.header.fin);
    assert_eq!(frame.header.opcode, Opcode::Close);
    assert_eq!(Message::from_frame(frame), Ok(message));
}

#[test]
fn close_without_reason() {
    assert_eq!(
        Message::from_frame(frame(true, Opcode::Close, &[0x03, 0xe8])),
        Ok(Message::Close(StatusCode::Normal, None))
    );
    assert_eq!(
        Message::from_frame(frame(true, Opcode::Close, &[0x03, 0xe9, 0xff, 0xc0])),
        Ok(Message::Close(StatusCode::GoingAway, None))
    );
    assert_eq!(
        Message::from_frame(frame(true, Opcode::Close, &[0x03, 0xec, b'x'])),
        Ok(Message::Close(StatusCode::UnsupportedData, Some("x".to_string())))
    );
    let sent = Frame::from_message(Message::Close(StatusCode::Normal, Some(String::new())));
    assert_eq!(sent.payload, vec![0x03, 0xe8]);
    assert_eq!(Message::from_frame(sent), Ok(Message::Close(StatusCode::Normal, None)));
}

#[test]
fn status_codes() {
    assert_eq!(StatusCode::from(1000u16), StatusCode::Normal);
    assert_eq!(StatusCode::from(1011u16), StatusCode::InternalServerError);
    assert_eq!(StatusCode::from(1004u16), StatusCode::UnsupportedData);
    assert_eq!(StatusCode::from(4000u16), StatusCode::UnsupportedData);
    assert_eq!(StatusCode::MessageTooBig.number(), 1009);
    assert_eq!(StatusCode::NoStatus.number(), 1005);
}

#[test]
fn outgoing_payloads_are_cut() {
    let long_reason = "r".repeat(200);
    let frame = Frame::from_message(Message::Close(StatusCode::Normal, Some(long_reason)));
    assert_eq!(frame.payload.len(), 2 + 123);
    let frame = Frame::from_message(Message::Ping(vec![9; 300]));
    assert_eq!(frame.payload.len(), 125);
    assert_eq!(frame.header.payload_len, PayloadLen::ExactU8(125));
    let frame = Frame::from_message(Message::Pong(vec![9; 10]));
    assert_eq!(frame.payload.len(), 10);
    let frame = Frame::from_message(Message::Binary(vec![5; 300]));
    assert_eq!(frame.payload.len(), 300);
    assert_eq!(frame.header.payload_len, PayloadLen::ExactU16(300));
    assert_eq!(Message::Text("hé".to_string()).into_payload(), vec![b'h', 0xc3, 0xa9]);
    assert_eq!(Opcode::from(&Message::Pong(vec![])), Opcode::Pong);
}

#[test]
fn initiator_masks_acceptor_does_not() {
    let message = Message::Binary(vec![1, 2, 3, 4, 5]);
    let sent = outgoing_frame(Role::Initiator, message.clone());
    assert!(sent.header.masked);
    let key = sent.masking_key.unwrap().to_be_bytes();
    let expected: Vec<u8> = [1u8, 2, 3, 4, 5].iter().enumerate().map(|(i, b)| b ^ key[i % 4]).collect();
    assert_eq!(sent.payload, expected);

    let sent = outgoing_frame(Role::Acceptor, message.clone());
    assert!(!sent.header.masked);
    assert_eq!(sent.masking_key, None);
    assert_eq!(sent.payload, vec![1, 2, 3, 4, 5]);

    let bytes = encode_outgoing(Role::Acceptor, message.clone());
    assert_eq!(bytes, vec![0x82, 5, 1, 2, 3, 4, 5]);
    let bytes = encode_outgoing(Role::Initiator, message);
    assert_eq!(bytes[1], 0x80 | 5);
    assert_eq!(bytes.len(), 2 + 4 + 5);

    assert_eq!(<Server as Side>::role(), Role::Initiator);
    assert_eq!(<Client as Side>::role(), Role::Acceptor);
}

#[test]
fn acceptor_unmasks_received_frames() {
    let sent = outgoing_frame(Role::Initiator, Message::Text("hello".to_string()));
    let bytes = sent.to_bytes();
    let received = Frame::parse(&bytes).unwrap();
    let mut receiver = Receiver::new(Role::Acceptor);
    assert_eq!(receiver.role(), Role::Acceptor);
    assert_eq!(receiver.accept(received), Some(Ok(Message::Text("hello".to_string()))));
}

#[test]
fn receiver_gathers_fragments() {
    let mut receiver = Receiver::new(Role::Initiator);
    assert_eq!(receiver.accept(frame(false, Opcode::Binary, &[1])), None);
    assert_eq!(receiver.accept(frame(false, Opcode::Continue, &[2])), None);
    assert_eq!(
        receiver.accept(frame(true, Opcode::Continue, &[3])),
        Some(Ok(Message::Binary(vec![1, 2, 3])))
    );
    assert_eq!(
        receiver.accept(frame(true, Opcode::Ping, &[4])),
        Some(Ok(Message::Ping(vec![4])))
    );
}

#[test]
fn broken_sequences_are_violations_before_the_end() {
    let frames = vec![frame(false, Opcode::Text, b"ab"), frame(false, Opcode::Text, b"cd")];
    assert_eq!(
        Message::from_frames(frames),
        Err(MessageError::ProtocolViolated(StatusCode::ProtocolError))
    );
    let frames = vec![frame(true, Opcode::Text, b"ab"), frame(false, Opcode::Continue, b"cd")];
    assert_eq!(
        Message::from_frames(frames),
        Err(MessageError::ProtocolViolated(StatusCode::ProtocolError))
    );
    let frames = vec![frame(false, Opcode::Text, b"ab"), frame(false, Opcode::Continue, b"cd")];
    assert_eq!(Message::from_frames(frames), Err(MessageError::IsNotFinal));
}

#[test]
fn drawn_key_is_the_frame_key() {
    let frame = Frame::with_key(true, Opcode::Binary, vec![1, 2], 0x0a0b_0c0d);
    assert_eq!(frame.masking_key, Some(0x0a0b_0c0d));
    assert!(frame.header.masked);
    let frame = Frame::message_frame(Message::Ping(vec![7]), 99);
    assert_eq!(frame.masking_key, Some(99));
    assert_eq!(frame.payload, vec![7]);

    let sent = outgoing_frame_with_key(Role::Initiator, Message::Binary(vec![0x10, 0x20]), 0x0102_0304);
    assert_eq!(sent.masking_key, Some(0x0102_0304));
    assert_eq!(sent.payload, vec![0x11, 0x22]);
    assert_eq!(
        encode_outgoing_with_key(Role::Initiator, Message::Binary(vec![0x10, 0x20]), 0x0102_0304),
        vec![0x82, 0x82, 1, 2, 3, 4, 0x11, 0x22]
    );
    assert_eq!(
        encode_outgoing_with_key(Role::Acceptor, Message::Binary(vec![0x10, 0x20]), 0x0102_0304),
        vec![0x82, 0x02, 0x10, 0x20]
    );
}

#[test]
fn receiver_takes_bytes() {
    let mut receiver = Receiver::new(Role::Initiator);
    assert_eq!(receiver.accept_bytes(&[0x01, 0x02, b'h', b'i']), None);
    assert_eq!(
        receiver.accept_bytes(&[0x80, 0x01, b'!']),
        Some(Ok(Message::Text("hi!".to_string())))
    );
    assert_eq!(
        receiver.accept_bytes(&[0x83, 0x00]),
        Some(Err(MessageError::ProtocolViolated(StatusCode::ProtocolError)))
    );
    assert_eq!(receiver.accept_bytes(&[0x02, 0x01, 5]), None);
    assert_eq!(
        receiver.read_failed(),
        MessageError::ProtocolViolated(StatusCode::CloseAbnormal)
    );
    assert_eq!(
        receiver.accept_bytes(&[0x82, 0x01, 6]),
        Some(Ok(Message::Binary(vec![6])))
    );
}

#[test]
fn conversion_traits() {
    let frame: Frame = Message::Binary(vec![1, 2]).into();
    assert_eq!(frame.payload, vec![1, 2]);
    assert!(frame.masking_key.is_some());
    let plain = Frame { header: FrameHeader::new(true, Opcode::Binary, false, 2), masking_key: None, payload: vec![1, 2] };
    let bytes: Vec<u8> = plain.clone().into();
    assert_eq!(bytes, vec![0x82, 0x02, 1, 2]);
    let header_bytes: Vec<u8> = plain.header.into();
    assert_eq!(header_bytes, vec![0x82, 0x02]);
    let back: Frame = bytes.try_into().unwrap();
    assert_eq!(back.payload, vec![1, 2]);
    let message: Result<Message, MessageError> = back.try_into();
    assert_eq!(message, Ok(Message::Binary(vec![1, 2])));
    let message: Result<Message, MessageError> = vec![frame_of(false, b"a"), frame_of(true, b"b")].try_into();
    assert_eq!(message, Ok(Message::Binary(b"ab".to_vec())));
}

fn frame_of(fin: bool, payload: &[u8]) -> Frame {
    let opcode = if fin { Opcode::Continue } else { Opcode::Binary };
    frame(fin, opcode, payload)
}
