use websocket_server::frame::{
    append_bytes, OpCode, ProtocolViolation, ReadError, WebSocketFrame, WebSocketFrameHeader,
    PAYLOAD_LEN_U16, PAYLOAD_LEN_U64,
};

fn header(fin: bool, opcode: OpCode, masked: bool, payload_length: u8) -> WebSocketFrameHeader {
    WebSocketFrameHeader {
        fin,
        rsv1: false,
        rsv2: false,
        rsv3: false,
        masked,
        opcode,
        payload_length,
    }
}

fn encoded(frame: &WebSocketFrame) -> Vec<u8> {
    let mut out = Vec::new();
    frame.write(&mut out);
    out
}

fn round_trip_of_length(len: usize) -> (Vec<u8>, WebSocketFrame, usize) {
    let payload: Vec<u8> = (0..len).map(|i| (i % 251) as u8).collect();
    let frame = WebSocketFrame::new(OpCode::BinaryFrame, payload);
    let bytes = encoded(&frame);
    let (back, used) = WebSocketFrame::read(&bytes).unwrap();
    (bytes, back, used)
}

#[test]
fn name() {
    println!("{:b}", 0x80);
    println!("{:b}", 0x40);
    println!("{:b}", 0x20);
    println!("{:b}", 0x10);
    println!("{:b}", 0x7F);
}

#[test]
fn opcode_from_wire_value() {
    assert_eq!(OpCode::from(0), Some(OpCode::Continuation));
    assert_eq!(OpCode::from(1), Some(OpCode::TextFrame));
    assert_eq!(OpCode::from(2), Some(OpCode::BinaryFrame));
    assert_eq!(OpCode::from(8), Some(OpCode::ConnectionClose));
    assert_eq!(OpCode::from(9), Some(OpCode::Ping));
    assert_eq!(OpCode::from(10), Some(OpCode::Pong));
    for op in [3u8, 4, 5, 6, 7, 11, 12, 13, 14, 15, 16, 255] {
        assert_eq!(OpCode::from(op), None);
    }
}

#[test]
fn opcode_code_and_from_agree() {
    for op in [
        OpCode::Continuation,
        OpCode::TextFrame,
        OpCode::BinaryFrame,
        OpCode::ConnectionClose,
        OpCode::Ping,
        OpCode::Pong,
    ] {
        assert_eq!(OpCode::from(op.code()), Some(op));
    }
    assert_eq!(OpCode::Ping.code(), 9);
    assert_eq!(OpCode::Pong.code(), 10);
}

#[test]
fn control_opcodes() {
    assert!(OpCode::ConnectionClose.is_control());
    assert!(OpCode::Ping.is_control());
    assert!(OpCode::Pong.is_control());
    assert!(!OpCode::Continuation.is_control());
    assert!(!OpCode::TextFrame.is_control());
    assert!(!OpCode::BinaryFrame.is_control());
}

#[test]
fn determine_len_at_the_boundaries() {
    assert_eq!(WebSocketFrameHeader::determine_len(0), 0);
    assert_eq!(WebSocketFrameHeader::determine_len(125), 125);
    assert_eq!(WebSocketFrameHeader::determine_len(126), PAYLOAD_LEN_U16);
    assert_eq!(WebSocketFrameHeader::determine_len(65535), PAYLOAD_LEN_U16);
    assert_eq!(WebSocketFrameHeader::determine_len(65536), PAYLOAD_LEN_U64);
    assert_eq!(PAYLOAD_LEN_U16, 126);
    assert_eq!(PAYLOAD_LEN_U64, 127);
}

#[test]
fn new_header_is_final_and_unmasked() {
    let hdr = WebSocketFrameHeader::new_header(300, OpCode::TextFrame);
    assert_eq!(hdr, header(true, OpCode::TextFrame, false, 126));
}

#[test]
fn parse_header_takes_the_bits_apart() {
    let hdr = WebSocketFrame::parse_header(0x8185).unwrap();
    assert_eq!(hdr, header(true, OpCode::TextFrame, true, 5));
    let hdr = WebSocketFrame::parse_header(0x027e).unwrap();
    assert_eq!(hdr, header(false, OpCode::BinaryFrame, false, 126));
    let hdr = WebSocketFrame::parse_header(0xf9ff).unwrap();
    assert!(hdr.fin && hdr.rsv1 && hdr.rsv2 && hdr.rsv3 && hdr.masked);
    assert_eq!(hdr.opcode, OpCode::Ping);
    assert_eq!(hdr.payload_length, 127);
}

#[test]
fn parse_header_rejects_unknown_opcode() {
    assert_eq!(
        WebSocketFrame::parse_header(0x8300),
        Err(ProtocolViolation::UnknownOpcode)
    );
    assert_eq!(
        WebSocketFrame::parse_header(0x8f00),
        Err(ProtocolViolation::UnknownOpcode)
    );
}

#[test]
fn serialize_header_puts_the_bits_together() {
    assert_eq!(
        WebSocketFrame::serialize_header(&header(true, OpCode::TextFrame, true, 5)),
        0x8185
    );
    assert_eq!(
        WebSocketFrame::serialize_header(&header(false, OpCode::Continuation, false, 0)),
        0x0000
    );
    assert_eq!(
        WebSocketFrame::serialize_header(&header(true, OpCode::Pong, false, 125)),
        0x8a7d
    );
}

#[test]
fn header_bits_round_trip_for_every_assigned_opcode() {
    for first in 0u16..256 {
        for second in [0u16, 1, 125, 126, 127, 128, 200, 255] {
            let buf = first * 256 + second;
            if let Ok(hdr) = WebSocketFrame::parse_header(buf) {
                assert_eq!(WebSocketFrame::serialize_header(&hdr), buf);
            } else {
                assert_eq!(OpCode::from((first % 16) as u8), None);
            }
        }
    }
}

#[test]
fn header_check_names_the_rule() {
    let mut hdr = header(true, OpCode::TextFrame, true, 1);
    assert_eq!(hdr.check(), Ok(()));
    hdr.rsv2 = true;
    assert_eq!(hdr.check(), Err(ProtocolViolation::ReservedBits));
    assert_eq!(
        header(false, OpCode::Ping, true, 1).check(),
        Err(ProtocolViolation::FragmentedControl)
    );
    assert_eq!(
        header(true, OpCode::ConnectionClose, true, 126).check(),
        Err(ProtocolViolation::OversizedControl)
    );
    assert_eq!(header(true, OpCode::Pong, true, 125).check(), Ok(()));
}

#[test]
fn apply_mask_uses_the_key_byte_by_index() {
    let mut bytes = vec![0x7f, 0x9f, 0x4d, 0x51, 0x58];
    WebSocketFrame::apply_mask([0x37, 0xfa, 0x21, 0x3d], &mut bytes);
    assert_eq!(bytes, b"Hello".to_vec());
}

#[test]
fn apply_mask_twice_gives_the_payload_back() {
    let mask = [0xde, 0xad, 0xbe, 0xef];
    for len in [0usize, 1, 3, 4, 5, 127, 1000] {
        let payload: Vec<u8> = (0..len).map(|i| (i * 7 % 256) as u8).collect();
        let mut bytes = payload.clone();
        WebSocketFrame::apply_mask(mask, &mut bytes);
        if len > 0 {
            assert_ne!(bytes, payload);
        }
        WebSocketFrame::apply_mask(mask, &mut bytes);
        assert_eq!(bytes, payload);
    }
}

#[test]
fn read_mask_needs_four_bytes() {
    assert_eq!(WebSocketFrame::read_mask(&[1, 2, 3]), None);
    assert_eq!(WebSocketFrame::read_mask(&[1, 2, 3, 4]), Some([1, 2, 3, 4]));
    assert_eq!(
        WebSocketFrame::read_mask(&[9, 8, 7, 6, 5]),
        Some([9, 8, 7, 6])
    );
}

#[test]
fn read_payload_takes_exactly_the_length() {
    assert_eq!(WebSocketFrame::read_payload(3, &[1, 2]), None);
    assert_eq!(
        WebSocketFrame::read_payload(3, &[1, 2, 3, 4]),
        Some(vec![1, 2, 3])
    );
    assert_eq!(WebSocketFrame::read_payload(0, &[]), Some(vec![]));
}

#[test]
fn read_length_follows_the_length_field() {
    assert_eq!(WebSocketFrame::read_length(5, &[]), Some((5, 0)));
    assert_eq!(WebSocketFrame::read_length(125, &[9, 9]), Some((125, 0)));
    assert_eq!(
        WebSocketFrame::read_length(126, &[0x01, 0x02, 0xff]),
        Some((0x0102, 2))
    );
    assert_eq!(WebSocketFrame::read_length(126, &[0x01]), None);
    assert_eq!(
        WebSocketFrame::read_length(127, &[0, 0, 0, 0, 0, 1, 0, 0]),
        Some((65536, 8))
    );
    assert_eq!(
        WebSocketFrame::read_length(127, &[1, 2, 3, 4, 5, 6, 7, 8]),
        Some((0x0102030405060708, 8))
    );
    assert_eq!(WebSocketFrame::read_length(127, &[0, 0, 0, 0, 0, 1, 0]), None);
}

#[test]
fn read_short_text_frame() {
    let input = [0x81u8, 0x02, 0x48, 0x69];
    let (frame, used) = WebSocketFrame::read(&input).unwrap();
    assert_eq!(used, 4);
    assert_eq!(frame.get_opcode(), OpCode::TextFrame);
    assert_eq!(frame.header, header(true, OpCode::TextFrame, false, 2));
    assert_eq!(frame.mask, None);
    assert_eq!(frame.payload, vec![0x48, 0x69]);
}

#[test]
fn read_masked_text_frame() {
    let input = [
        0x81u8, 0x85, 0x37, 0xfa, 0x21, 0x3d, 0x7f, 0x9f, 0x4d, 0x51, 0x58,
    ];
    let (frame, used) = WebSocketFrame::read(&input).unwrap();
    assert_eq!(used, 11);
    assert_eq!(frame.header, header(true, OpCode::TextFrame, true, 5));
    assert_eq!(frame.mask, Some([0x37, 0xfa, 0x21, 0x3d]));
    assert_eq!(frame.payload, b"Hello".to_vec());
}

#[test]
fn read_stops_at_the_frame_boundary() {
    let input = [0x81u8, 0x02, 0x48, 0x69, 0x89, 0x00, 0xff];
    let (frame, used) = WebSocketFrame::read(&input).unwrap();
    assert_eq!(used, 4);
    assert_eq!(frame.payload, vec![0x48, 0x69]);
    let (next, used) = WebSocketFrame::read(&input[4..]).unwrap();
    assert_eq!(used, 2);
    assert_eq!(next.get_opcode(), OpCode::Ping);
    assert!(next.payload.is_empty());
}

#[test]
fn read_asks_for_more_data_at_every_cut() {
    let input = [
        0x81u8, 0x85, 0x37, 0xfa, 0x21, 0x3d, 0x7f, 0x9f, 0x4d, 0x51, 0x58,
    ];
    for cut in 0..input.len() {
        assert_eq!(
            WebSocketFrame::read(&input[..cut]).unwrap_err(),
            ReadError::NeedMoreData
        );
    }
    assert!(WebSocketFrame::read(&input).is_ok());
}

#[test]
fn read_asks_for_more_data_within_the_extended_length() {
    assert_eq!(
        WebSocketFrame::read(&[0x82, 0x7e, 0x00]).unwrap_err(),
        ReadError::NeedMoreData
    );
    assert_eq!(
        WebSocketFrame::read(&[0x82, 0x7f, 0, 0, 0, 0, 0, 1, 0]).unwrap_err(),
        ReadError::NeedMoreData
    );
    assert_eq!(
        WebSocketFrame::read(&[0x82, 0x7f, 0xff, 0xff, 0xff, 0xff, 0xff, 0xff, 0xff, 0xff, 1])
            .unwrap_err(),
        ReadError::NeedMoreData
    );
}

#[test]
fn read_reports_each_violation() {
    assert_eq!(
        WebSocketFrame::read(&[0x83, 0x00]).unwrap_err(),
        ReadError::ProtocolError(ProtocolViolation::UnknownOpcode)
    );
    assert_eq!(
        WebSocketFrame::read(&[0xc1, 0x00]).unwrap_err(),
        ReadError::ProtocolError(ProtocolViolation::ReservedBits)
    );
    assert_eq!(
        WebSocketFrame::read(&[0xa1, 0x00]).unwrap_err(),
        ReadError::ProtocolError(ProtocolViolation::ReservedBits)
    );
    assert_eq!(
        WebSocketFrame::read(&[0x91, 0x00]).unwrap_err(),
        ReadError::ProtocolError(ProtocolViolation::ReservedBits)
    );
    assert_eq!(
        WebSocketFrame::read(&[0x09, 0x00]).unwrap_err(),
        ReadError::ProtocolError(ProtocolViolation::FragmentedControl)
    );
    assert_eq!(
        WebSocketFrame::read(&[0x88, 0x7e, 0x00, 0x7e]).unwrap_err(),
        ReadError::ProtocolError(ProtocolViolation::OversizedControl)
    );
}

#[test]
fn read_prefers_the_opcode_over_the_reserved_bits() {
    assert_eq!(
        WebSocketFrame::read(&[0xf3, 0x00]).unwrap_err(),
        ReadError::ProtocolError(ProtocolViolation::UnknownOpcode)
    );
}

#[test]
fn write_short_frame() {
    let frame = WebSocketFrame::new(OpCode::TextFrame, b"Hello".to_vec());
    assert_eq!(
        encoded(&frame),
        vec![0x81, 0x05, 0x48, 0x65, 0x6c, 0x6c, 0x6f]
    );
}

#[test]
fn write_appends_to_what_is_there() {
    let mut out = vec![1u8, 2, 3];
    WebSocketFrame::new(OpCode::Pong, vec![7]).write(&mut out);
    assert_eq!(out, vec![1, 2, 3, 0x8a, 0x01, 7]);
}

#[test]
fn write_never_masks() {
    let frame = WebSocketFrame {
        header: header(true, OpCode::TextFrame, true, 2),
        mask: Some([1, 2, 3, 4]),
        payload: b"Hi".to_vec(),
    };
    let bytes = encoded(&frame);
    assert_eq!(bytes, vec![0x81, 0x02, 0x48, 0x69]);
    let (back, used) = WebSocketFrame::read(&bytes).unwrap();
    assert_eq!(used, bytes.len());
    assert_eq!(back.header, header(true, OpCode::TextFrame, false, 2));
    assert_eq!(back.mask, None);
    assert_eq!(back.payload, frame.payload);
}

#[test]
fn write_keeps_the_fin_bit() {
    let frame = WebSocketFrame {
        header: header(false, OpCode::BinaryFrame, false, 1),
        mask: None,
        payload: vec![0xab],
    };
    assert_eq!(encoded(&frame), vec![0x02, 0x01, 0xab]);
}

#[test]
fn length_zero_is_literal() {
    let (bytes, back, used) = round_trip_of_length(0);
    assert_eq!(bytes, vec![0x82, 0x00]);
    assert_eq!(used, 2);
    assert_eq!(back.payload.len(), 0);
    assert_eq!(back.header.payload_length, 0);
}

#[test]
fn length_125_is_literal() {
    let (bytes, back, used) = round_trip_of_length(125);
    assert_eq!(&bytes[..2], &[0x82, 125]);
    assert_eq!(bytes.len(), 2 + 125);
    assert_eq!(used, bytes.len());
    assert_eq!(back.payload.len(), 125);
    assert_eq!(back.header.payload_length, 125);
}

#[test]
fn length_126_takes_sixteen_bits() {
    let (bytes, back, used) = round_trip_of_length(126);
    assert_eq!(&bytes[..4], &[0x82, 126, 0x00, 0x7e]);
    assert_eq!(bytes.len(), 4 + 126);
    assert_eq!(used, bytes.len());
    assert_eq!(back.payload.len(), 126);
    assert_eq!(back.header.payload_length, 126);
}

#[test]
fn length_65535_takes_sixteen_bits() {
    let (bytes, back, used) = round_trip_of_length(65535);
    assert_eq!(&bytes[..4], &[0x82, 126, 0xff, 0xff]);
    assert_eq!(bytes.len(), 4 + 65535);
    assert_eq!(used, bytes.len());
    assert_eq!(back.payload.len(), 65535);
    assert_eq!(back.header.payload_length, 126);
}

#[test]
fn length_65536_takes_sixty_four_bits() {
    let (bytes, back, used) = round_trip_of_length(65536);
    assert_eq!(&bytes[..10], &[0x82, 127, 0, 0, 0, 0, 0, 1, 0, 0]);
    assert_eq!(bytes.len(), 10 + 65536);
    assert_eq!(used, bytes.len());
    assert_eq!(back.payload.len(), 65536);
    assert_eq!(back.header.payload_length, 127);
}

#[test]
fn round_trip_gives_the_frame_back() {
    for opcode in [OpCode::TextFrame, OpCode::BinaryFrame, OpCode::Ping, OpCode::Pong] {
        for len in [0usize, 1, 17, 125] {
            let payload: Vec<u8> = (0..len).map(|i| (255 - i % 256) as u8).collect();
            let frame = WebSocketFrame::new(opcode, payload.clone());
            let bytes = encoded(&frame);
            let (back, used) = WebSocketFrame::read(&bytes).unwrap();
            assert_eq!(used, bytes.len());
            assert_eq!(back.header, frame.header);
            assert_eq!(back.mask, frame.mask);
            assert_eq!(back.payload, payload);
        }
    }
}

#[test]
fn round_trip_ignores_what_follows() {
    let frame = WebSocketFrame::new(OpCode::BinaryFrame, vec![1, 2, 3]);
    let mut bytes = encoded(&frame);
    let own = bytes.len();
    bytes.extend_from_slice(&[0xff, 0xff, 0xff]);
    let (back, used) = WebSocketFrame::read(&bytes).unwrap();
    assert_eq!(used, own);
    assert_eq!(back.payload, vec![1, 2, 3]);
}

#[test]
fn text_frame_from_str() {
    let frame = WebSocketFrame::from("Hello");
    assert_eq!(frame.header, header(true, OpCode::TextFrame, false, 5));
    assert_eq!(frame.mask, None);
    assert_eq!(frame.payload, b"Hello".to_vec());
    let long = "x".repeat(200);
    let frame = WebSocketFrame::from(long.as_str());
    assert_eq!(frame.header.payload_length, 126);
    assert_eq!(frame.payload.len(), 200);
}

#[test]
fn text_frame_from_str_holds_utf8() {
    let frame = WebSocketFrame::from("h\u{e9}");
    assert_eq!(frame.payload, vec![0x68, 0xc3, 0xa9]);
    assert_eq!(frame.header.payload_length, 3);
}

#[test]
fn append_bytes_keeps_the_order() {
    let mut out = vec![1u8];
    append_bytes(&mut out, &[2, 3]);
    append_bytes(&mut out, &[]);
    append_bytes(&mut out, &[4]);
    assert_eq!(out, vec![1, 2, 3, 4]);
}
