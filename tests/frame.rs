use websocket::frame::{missing_bytes, Frame, FrameError, FrameHeader, Opcode, PayloadLen};

#[test]
fn frame_unmasked_64bit_frame_into_bytes() {
    let unmasked_long = Frame {
        header: FrameHeader {
            fin: false,
            rsv: 0,
            opcode: Opcode::Binary,
            masked: false,
            payload_len: PayloadLen::ExactU64(69420),
        },
        masking_key: None,
        payload: vec![0xde, 0xad, 0xbe, 0xef],
    };
    let bytes: Vec<u8> = unmasked_long.clone().to_bytes();

    println!("Unmasked 64-bit length: {unmasked_long:?}");
    for byte in &bytes {
        println!("{byte:08b}");
    }
    println!("\n");

    assert_eq!(bytes[0] >> 7, 0, "incorrect FIN bit");
    assert_eq!((bytes[0] & 0b0111_0000) >> 4, 0, "incorrect RSV bits");
    assert_eq!(bytes[1] >> 7, 0, "incorrect masked bit");
    assert_eq!(bytes[1] & 0b0111_1111, 127, "incorrect payload length");
}

#[test]
fn frame_masked_7bit_frame_into_bytes() {
    let mut masked_7bit = Frame {
        header: FrameHeader {
            fin: true,
            rsv: 3,
            opcode: Opcode::Continue,
            masked: true,
            payload_len: PayloadLen::ExactU8(3),
        },
        masking_key: Some(12345),
        payload: vec![0xff, 0x00, 0xff],
    };
    let bytes: Vec<u8> = masked_7bit.clone().to_bytes();

    println!("Yet to be masked 7-bit length: {masked_7bit:?}");
    for byte in &bytes {
        println!("{byte:08b}");
    }
    println!();

    assert_eq!(masked_7bit.payload[2], 0xff);

    masked_7bit.mask();
    let bytes: Vec<u8> = masked_7bit.clone().to_bytes();
    println!("Masked:");
    for byte in &bytes {
        println!("{byte:08b}");
    }
    println!();

    assert_eq!(masked_7bit.payload[2], 0xcf, "invalid masked payload");

    assert_eq!(bytes[0] >> 7, 1, "incorrect FIN bit");
    assert_eq!((bytes[0] & 0b0111_0000) >> 4, 3, "incorrect RSV bits");
    assert_eq!(bytes[1] >> 7, 1, "incorrect masked bit");
    assert_eq!(bytes[1] & 0b0111_1111, 3, "incorrect payload length");
}

#[test]
fn frame_unmasked_64bit_raw_into_frame() {
    let unmasked_long_bytes = vec![2_u8, 127, 0, 0, 0, 0, 0, 0, 0, 4, 222, 173, 190, 239];
    println!("Raw unmasked 64-bit length:");
    for byte in &unmasked_long_bytes {
        println!("{byte:08b}");
    }
    println!();

    let frame: Frame = Frame::parse(&unmasked_long_bytes).unwrap();
    println!("Reconstructed: {frame:?}\n");

    assert!(!frame.header.fin, "incorrect FIN bit");
    assert_eq!(frame.header.rsv, 0, "incorrect RSV bits");
    assert!(!frame.header.masked, "incorrect masked bit");
    assert_eq!(
        frame.header.payload_len,
        PayloadLen::ExactU64(4),
        "incorrect payload length"
    );
}

#[test]
fn frame_masked_7bit_raw_into_frame() {
    let masked_7bit_bytes = vec![176, 131, 0, 0, 48, 57, 255, 0, 207];
    println!("Raw masked 7-bit length:");
    for byte in &masked_7bit_bytes {
        println!("{byte:08b}");
    }
    println!();

    let mut frame: Frame = Frame::parse(&masked_7bit_bytes).unwrap();

    assert_eq!(frame.payload[2], 0xcf, "invalid masked payload");
    frame.mask();
    assert_eq!(frame.payload[2], 0xff, "invalid unmasked payload");

    println!("Unmasked 7-bit: {frame:?}");

    assert!(frame.header.fin, "incorrect FIN bit");
    assert_eq!(frame.header.rsv, 3, "incorrect RSV bits");
    // Byte 131 = 0b1000_0011 has the MASK bit set, and unmasking the
    // payload leaves the header as it was read.
    assert!(frame.header.masked, "incorrect masked bit");
    assert_eq!(
        frame.header.payload_len,
        PayloadLen::ExactU8(3),
        "incorrect payload length"
    );
}

#[test]
fn protocol_unmasked_64bit_frame_into_bytes() {
    let unmasked_long = Frame {
        header: FrameHeader {
            fin: false,
            rsv: 0,
            opcode: Opcode::Binary,
            masked: false,
            payload_len: PayloadLen::ExactU64(69420),
        },
        masking_key: None,
        payload: vec![0xde, 0xad, 0xbe, 0xef],
    };
    let bytes: Vec<u8> = unmasked_long.clone().to_bytes();

    println!("Unmasked 64-bit length: {:?}", unmasked_long);
    for byte in &bytes {
        println!("{:08b}", byte);
    }
    println!("\n");
}

#[test]
fn protocol_masked_7bit_frame_into_bytes() {
    let mut masked_7bit = Frame {
        header: FrameHeader {
            fin: true,
            rsv: 3,
            opcode: Opcode::Continue,
            masked: true,
            payload_len: PayloadLen::ExactU8(3),
        },
        masking_key: Some(12345),
        payload: vec![0xff, 0x00, 0xff],
    };
    let bytes: Vec<u8> = masked_7bit.clone().to_bytes();

    println!("Yet to be masked 7-bit length: {:?}", masked_7bit);
    for byte in &bytes {
        println!("{:08b}", byte);
    }
    println!();

    masked_7bit.mask();
    let bytes: Vec<u8> = masked_7bit.clone().to_bytes();
    println!("Masked:");
    for byte in &bytes {
        println!("{:08b}", byte);
    }
    println!();
}

#[test]
fn protocol_unmasked_64bit_raw_into_frame() {
    let unmasked_long_bytes = vec![2_u8, 127, 0, 0, 0, 0, 0, 1, 15, 44, 222, 173, 190, 239];
    println!("Raw unmasked 64-bit length:");
    for byte in &unmasked_long_bytes {
        println!("{:08b}", byte);
    }
    println!();

    // The header states 69420 payload bytes and only four follow.
    let frame = Frame::parse(&unmasked_long_bytes);
    println!("Reconstructed: {:?}\n", frame);
    assert_eq!(frame.unwrap_err(), FrameError::PayloadTooShort);
}

#[test]
fn protocol_masked_7bit_raw_into_frame() {
    let masked_7bit_bytes = vec![176, 131, 0, 0, 48, 57, 255, 0, 207];
    println!("Raw masked 7-bit length:");
    for byte in &masked_7bit_bytes {
        println!("{:08b}", byte);
    }
    println!();

    let mut frame: Frame = Frame::parse(&masked_7bit_bytes).unwrap();
    frame.mask();
    println!("Unmasked 7-bit: {:?}", frame);
}

fn second_byte_and_len(len: u64) -> (u8, usize) {
    let bytes = FrameHeader::new(true, Opcode::Binary, false, len).to_bytes();
    (bytes[1], bytes.len())
}

#[test]
fn length_class_boundaries() {
    assert_eq!(second_byte_and_len(125), (125, 2));
    assert_eq!(second_byte_and_len(126), (126, 4));
    assert_eq!(second_byte_and_len(65535), (126, 4));
    assert_eq!(second_byte_and_len(65536), (127, 10));
    assert_eq!(
        FrameHeader::new(true, Opcode::Binary, false, 65535).to_bytes(),
        vec![0x82, 126, 0xff, 0xff]
    );
    assert_eq!(
        FrameHeader::new(false, Opcode::Text, true, 65536).to_bytes(),
        vec![0x01, 0xff, 0, 0, 0, 0, 0, 1, 0, 0]
    );
    assert_eq!(PayloadLen::from(125u64), PayloadLen::ExactU8(125));
    assert_eq!(PayloadLen::from(126u64), PayloadLen::ExactU16(126));
    assert_eq!(PayloadLen::from(65536u64), PayloadLen::ExactU64(65536));
}

#[test]
fn literal_binary_frame() {
    let frame = Frame {
        header: FrameHeader::new(false, Opcode::Binary, false, 4),
        masking_key: None,
        payload: vec![1, 2, 3, 4],
    };
    let bytes = frame.to_bytes();
    assert_eq!(bytes, vec![0x02, 0x04, 1, 2, 3, 4]);
    let back = Frame::parse(&bytes).unwrap();
    assert_eq!(back.header, frame.header);
    assert_eq!(back.masking_key, None);
    assert_eq!(back.payload, frame.payload);
}

#[test]
fn masked_frame_round_trip() {
    let payload: Vec<u8> = (0..300u32).map(|i| (i % 251) as u8).collect();
    let frame = Frame {
        header: FrameHeader::new(true, Opcode::Text, true, 300),
        masking_key: Some(0xa1b2_c3d4),
        payload: payload.clone(),
    };
    let bytes = frame.to_bytes();
    assert_eq!(bytes.len(), 2 + 2 + 4 + 300);
    assert_eq!(&bytes[4..8], &[0xa1, 0xb2, 0xc3, 0xd4]);
    let back = Frame::parse(&bytes).unwrap();
    assert_eq!(back.header, frame.header);
    assert_eq!(back.masking_key, Some(0xa1b2_c3d4));
    assert_eq!(back.payload, payload);
}

#[test]
fn parse_ignores_bytes_after_the_frame() {
    let back = Frame::parse(&[0x89, 0x02, 7, 8, 9, 9]).unwrap();
    assert_eq!(back.header.opcode, Opcode::Ping);
    assert_eq!(back.payload, vec![7, 8]);
}

#[test]
fn masking_twice_restores_payload() {
    let mut frame = Frame {
        header: FrameHeader::new(true, Opcode::Binary, true, 6),
        masking_key: Some(0x0102_0304),
        payload: vec![0x10, 0x20, 0x30, 0x40, 0x50, 0x60],
    };
    frame.mask();
    assert_eq!(frame.payload, vec![0x11, 0x22, 0x33, 0x44, 0x51, 0x62]);
    frame.mask();
    assert_eq!(frame.payload, vec![0x10, 0x20, 0x30, 0x40, 0x50, 0x60]);

    let mut empty = Frame {
        header: FrameHeader::new(true, Opcode::Binary, true, 0),
        masking_key: Some(7),
        payload: vec![],
    };
    empty.mask();
    assert!(empty.payload.is_empty());
}

#[test]
fn frame_errors() {
    assert_eq!(Frame::parse(&[0x81]).unwrap_err(), FrameError::FrameTooShort);
    assert_eq!(Frame::parse(&[0x83, 0x00]).unwrap_err(), FrameError::InvalidOpcode);
    assert_eq!(Frame::parse(&[0x82, 126, 0]).unwrap_err(), FrameError::LengthParsing);
    assert_eq!(Frame::parse(&[0x82, 0x81, 1, 2]).unwrap_err(), FrameError::MaskingKeyParsing);
    assert_eq!(Frame::parse(&[0x82, 0x03, 1, 2]).unwrap_err(), FrameError::PayloadTooShort);
}

#[test]
fn header_parse_keeps_markers() {
    let h = FrameHeader::parse(&[0x82, 126]).unwrap();
    assert_eq!(h.payload_len, PayloadLen::HintU16);
    assert_eq!(h.payload_len.ext_len(), 2);
    let h = FrameHeader::parse(&[0x82, 0xff]).unwrap();
    assert_eq!(h.payload_len, PayloadLen::HintU64);
    assert_eq!(h.payload_len.ext_len(), 8);
    assert_eq!(h.key_len(), 4);
    let h = FrameHeader::try_from(&[0x82u8, 126, 1, 0][..]).unwrap();
    assert_eq!(h.payload_len, PayloadLen::ExactU16(256));
    assert_eq!(h.payload_len.value(), Some(256));
}

#[test]
fn opcode_numbers() {
    assert_eq!(Opcode::try_from(10u8), Ok(Opcode::Pong));
    assert!(Opcode::try_from(3u8).is_err());
    assert_eq!(Opcode::Close.bits(), 8);
}

#[test]
fn new_frame_has_fresh_key() {
    let frame = Frame::new(true, Opcode::Text, vec![1, 2, 3]);
    assert!(frame.header.masked);
    assert!(frame.masking_key.is_some());
    assert_eq!(frame.header.payload_len, PayloadLen::ExactU8(3));
    assert_eq!(frame.payload, vec![1, 2, 3]);
}

#[test]
fn missing_bytes_never_over_reads() {
    assert_eq!(missing_bytes(&[]), Ok(2));
    assert_eq!(missing_bytes(&[0x82]), Ok(1));
    assert_eq!(missing_bytes(&[0x82, 126]), Ok(2));
    assert_eq!(missing_bytes(&[0x82, 126, 0, 5]), Ok(5));
    assert_eq!(missing_bytes(&[0x82, 0xff]), Ok(8));
    assert_eq!(missing_bytes(&[0x82, 0x85]), Ok(9));
    assert_eq!(missing_bytes(&[0x82, 0x85, 1, 2, 3, 4, 5]), Ok(4));
    assert_eq!(missing_bytes(&[0x82, 0x01, 7]), Ok(0));
    assert_eq!(missing_bytes(&[0x83, 0x01]), Err(FrameError::InvalidOpcode));
    assert_eq!(
        missing_bytes(&[0x82, 0xff, 0xff, 0xff, 0xff, 0xff, 0xff, 0xff, 0xff, 0xff]),
        Ok(u64::MAX)
    );
}
