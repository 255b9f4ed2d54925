use tokio_util::bytes::BytesMut;
use websockets::error::{InvalidFrameReason, WsReadError, WsWriteError};
use websockets::websocket::frame::{encode_with_key, Frame, FrameType, WsFrameCodec};
use websockets::websocket::wire;
use websockets::websocket::wire::{AnnouncedLength, ReadFront};
use websockets::WebSocketError;

fn buffer(bytes: &[u8]) -> BytesMut {
    BytesMut::from(bytes)
}

fn decode_one(bytes: &[u8]) -> Frame {
    let mut src = buffer(bytes);
    let frame = WsFrameCodec::new().decode(&mut src).unwrap().unwrap();
    assert!(src.is_empty());
    frame
}

fn reason_of(bytes: &[u8]) -> InvalidFrameReason {
    match WsFrameCodec::new().decode(&mut buffer(bytes)) {
        Err(WsReadError(WebSocketError::InvalidFrame(reason))) => reason,
        other => panic!("{:?}", other),
    }
}

/// The bytes of a frame as a server sends it.
fn server_bytes(first: u8, body: &[u8]) -> Vec<u8> {
    let mut bytes = vec![first];
    if body.len() <= 125 {
        bytes.push(body.len() as u8);
    } else if body.len() < 65535 {
        bytes.push(126);
        bytes.extend_from_slice(&(body.len() as u16).to_be_bytes());
    } else {
        bytes.push(127);
        bytes.extend_from_slice(&(body.len() as u64).to_be_bytes());
    }
    bytes.extend_from_slice(body);
    bytes
}

#[test]
fn decodes_an_echoed_text() {
    assert_eq!(decode_one(&[0x81, 3, b'f', b'o', b'o']), Frame::text("foo".to_string()));
}

#[test]
fn decodes_every_kind() {
    assert_eq!(decode_one(&[0x82, 2, 1, 2]), Frame::binary(vec![1, 2]));
    assert_eq!(decode_one(&[0x88, 0]), Frame::close(None));
    assert_eq!(
        decode_one(&[0x88, 5, 0x03, 0xe8, b'b', b'y', b'e']),
        Frame::close(Some((1000, "bye".to_string())))
    );
    assert_eq!(decode_one(&[0x89, 0]), Frame::ping(None));
    assert_eq!(decode_one(&[0x89, 1, 7]), Frame::ping(Some(vec![7])));
    assert_eq!(decode_one(&[0x8a, 0]), Frame::pong(None));
    assert_eq!(decode_one(&[0x8a, 1, 7]), Frame::pong(Some(vec![7])));
}

#[test]
fn reserved_bits_are_ignored() {
    assert_eq!(decode_one(&[0xf1, 1, b'x']), Frame::text("x".to_string()));
}

#[test]
fn decodes_all_length_forms() {
    for len in [0usize, 1, 125, 126, 127, 255, 256, 65534, 65535, 65536, 2_000_000] {
        let body = vec![0x5a; len];
        assert_eq!(decode_one(&server_bytes(0x82, &body)), Frame::binary(body));
    }
}

#[test]
fn long_forms_of_short_lengths_are_read() {
    assert_eq!(decode_one(&[0x82, 126, 0, 1, 9]), Frame::binary(vec![9]));
    assert_eq!(decode_one(&[0x82, 127, 0, 0, 0, 0, 0, 0, 0, 1, 9]), Frame::binary(vec![9]));
}

#[test]
fn incomplete_frames_wait_and_take_nothing() {
    let whole = server_bytes(0x82, &vec![3; 70_000]);
    let mut codec = WsFrameCodec::new();
    for cut in [0usize, 1, 2, 5, 9, 10, 11, 70_009] {
        let mut src = buffer(&whole[..cut]);
        assert!(matches!(codec.decode(&mut src), Ok(None)));
        assert_eq!(src.len(), cut);
    }
    let mut src = buffer(&whole[..10]);
    assert!(matches!(codec.decode(&mut src), Ok(None)));
    src.extend_from_slice(&whole[10..]);
    src.extend_from_slice(&[0x89, 0]);
    assert_eq!(codec.decode(&mut src).unwrap(), Some(Frame::binary(vec![3; 70_000])));
    assert_eq!(codec.decode(&mut src).unwrap(), Some(Frame::ping(None)));
    assert!(matches!(codec.decode(&mut src), Ok(None)));
}

#[test]
fn masked_frames_are_refused_and_left() {
    let mut src = buffer(&[0x81, 0x83, 0, 0, 0, 0, 1, 2, 3]);
    let mut codec = WsFrameCodec::new();
    assert!(matches!(
        codec.decode(&mut src),
        Err(WsReadError(WebSocketError::ReceivedMaskedFrame))
    ));
    assert_eq!(src.len(), 9);
}

#[test]
fn too_large_payloads_are_refused() {
    let mut src = buffer(&[0x82, 127, 0, 0, 0, 0, 0, 0x1e, 0x84, 0x81]);
    assert!(matches!(
        WsFrameCodec::new().decode(&mut src),
        Err(WsReadError(WebSocketError::PayloadTooLarge))
    ));
    assert_eq!(src.len(), 10);
    let mut src = buffer(&[0x82, 127, 0xff, 0xff, 0xff, 0xff, 0xff, 0xff, 0xff, 0xff]);
    assert!(matches!(
        WsFrameCodec::new().decode(&mut src),
        Err(WsReadError(WebSocketError::PayloadTooLarge))
    ));
}

#[test]
fn invalid_frames_have_reasons() {
    assert_eq!(reason_of(&[0x80, 0]), InvalidFrameReason::FalseContinuation);
    assert_eq!(reason_of(&[0x88, 1, 0]), InvalidFrameReason::BadCloseFramePayload);
    assert_eq!(reason_of(&[0x88, 3, 3, 0xe8, 0xff]), InvalidFrameReason::BadUtf8);
    for opcode in 0x3..=0x7u8 {
        assert_eq!(reason_of(&[0x80 | opcode, 0]), InvalidFrameReason::ReservedDataOpcode);
    }
    for opcode in 0xb..=0xfu8 {
        assert_eq!(reason_of(&[0x80 | opcode, 0]), InvalidFrameReason::ReservedControlOpcode);
    }
}

#[test]
fn invalid_frames_are_taken_off() {
    let mut src = buffer(&[0x83, 1, 9, 0x89, 0]);
    let mut codec = WsFrameCodec::new();
    assert!(codec.decode(&mut src).is_err());
    assert_eq!(codec.decode(&mut src).unwrap(), Some(Frame::ping(None)));
}

#[test]
fn continuations_have_the_type_of_their_message() {
    let mut codec = WsFrameCodec::new();
    let mut src = buffer(&[
        0x01, 1, b'a', 0x89, 0, 0x00, 1, b'b', 0x80, 1, b'c', 0x02, 0, 0x80, 1, 7, 0x80, 0,
    ]);
    let text = |byte: u8, continuation: bool, fin: bool| Frame::Text {
        payload: vec![byte],
        continuation,
        fin,
    };
    assert_eq!(codec.decode(&mut src).unwrap(), Some(text(b'a', false, false)));
    assert_eq!(codec.decode(&mut src).unwrap(), Some(Frame::ping(None)));
    assert_eq!(codec.decode(&mut src).unwrap(), Some(text(b'b', true, false)));
    assert_eq!(codec.decode(&mut src).unwrap(), Some(text(b'c', true, true)));
    assert_eq!(
        codec.decode(&mut src).unwrap(),
        Some(Frame::binary(vec![]).set_fin(false))
    );
    assert_eq!(
        codec.decode(&mut src).unwrap(),
        Some(Frame::binary(vec![7]).set_continuation(true))
    );
    assert!(matches!(
        codec.decode(&mut src),
        Err(WsReadError(WebSocketError::InvalidFrame(InvalidFrameReason::FalseContinuation)))
    ));
}

#[test]
fn the_specifier_has_seven_bits() {
    assert_eq!(wire::announced_length(&[0, 0], 128), AnnouncedLength::BadSpecifier);
    assert_eq!(wire::announced_length(&[0, 0], 255), AnnouncedLength::BadSpecifier);
    assert_eq!(
        wire::announced_length(&[0, 0], 125),
        AnnouncedLength::Known { len: 125, header: 2 }
    );
    assert_eq!(wire::announced_length(&[0, 126, 1], 126), AnnouncedLength::Incomplete);
    assert_eq!(
        wire::announced_length(&[0, 126, 1, 2], 126),
        AnnouncedLength::Known { len: 258, header: 4 }
    );
    assert_eq!(
        wire::announced_length(&[0, 127, 0, 0, 0, 0, 0, 1, 2, 3], 127),
        AnnouncedLength::Known { len: 66051, header: 10 }
    );
}

#[test]
fn numbers_are_read_as_they_were_written() {
    for n in [0u64, 1, 255, 256, 65535, 1 << 40, u64::MAX] {
        let mut out = vec![9u8];
        wire::push_be(&mut out, n, 8);
        assert_eq!(out[1..], n.to_be_bytes());
        assert_eq!(wire::read_be(&out, 1, 9), n);
    }
    let mut out = vec![];
    wire::push_be(&mut out, 0x1234, 2);
    assert_eq!(out, vec![0x12, 0x34]);
}

#[test]
fn encodes_exact_bytes() {
    let key = vec![1u8, 2, 3, 4];
    let mut dst = buffer(&[0xee]);
    encode_with_key(Frame::text("Hello".to_string()), &key, &mut dst).unwrap();
    assert_eq!(
        &dst[..],
        &[0xee, 0x81, 0x85, 1, 2, 3, 4, b'H' ^ 1, b'e' ^ 2, b'l' ^ 3, b'l' ^ 4, b'o' ^ 1]
    );
    let mut dst = buffer(&[]);
    encode_with_key(Frame::close(Some((1001, "x".to_string()))), &key, &mut dst).unwrap();
    assert_eq!(&dst[..], &[0x88, 0x83, 1, 2, 3, 4, 0x03 ^ 1, 0xe9 ^ 2, b'x' ^ 3]);
    let mut dst = buffer(&[]);
    let middle = Frame::binary(vec![]).set_continuation(true).set_fin(false);
    encode_with_key(middle, &key, &mut dst).unwrap();
    assert_eq!(&dst[..], &[0x00, 0x80, 1, 2, 3, 4]);
}

#[test]
fn encodes_length_forms() {
    let key = vec![0u8; 4];
    for (len, field) in [
        (125usize, vec![0xfdu8]),
        (126, vec![0xfe, 0, 126]),
        (65534, vec![0xfe, 0xff, 0xfe]),
        (65535, vec![0xff, 0, 0, 0, 0, 0, 0, 0xff, 0xff]),
        (65536, vec![0xff, 0, 0, 0, 0, 0, 1, 0, 0]),
    ] {
        let mut dst = buffer(&[]);
        encode_with_key(Frame::binary(vec![5; len]), &key, &mut dst).unwrap();
        assert_eq!(dst[0], 0x82);
        assert_eq!(dst[1..1 + field.len()], field[..]);
        assert_eq!(dst.len(), 1 + field.len() + 4 + len);
    }
}

#[test]
fn large_control_frames_are_refused() {
    let key = vec![0u8; 4];
    let mut dst = buffer(&[1]);
    for frame in [
        Frame::ping(Some(vec![0; 126])),
        Frame::pong(Some(vec![0; 126])),
        Frame::close(Some((1000, "x".repeat(124)))),
    ] {
        assert!(matches!(
            encode_with_key(frame, &key, &mut dst),
            Err(WsWriteError(WebSocketError::ControlFrameTooLarge))
        ));
        assert_eq!(&dst[..], &[1]);
    }
    assert!(encode_with_key(Frame::ping(Some(vec![0; 125])), &key, &mut dst).is_ok());
}

#[test]
fn encoded_frames_are_masked_with_fresh_keys() {
    let mut codec = WsFrameCodec::new();
    let mut keys = Vec::new();
    for _ in 0..8 {
        let mut dst = buffer(&[]);
        codec.encode(Frame::binary(vec![10, 20, 30, 40, 50]), &mut dst).unwrap();
        assert_eq!(dst[..2], [0x82, 0x85]);
        let key = dst[2..6].to_vec();
        let mut body = dst[6..].to_vec();
        wire::mask(&mut body, &key);
        assert_eq!(body, vec![10, 20, 30, 40, 50]);
        assert!(matches!(
            WsFrameCodec::new().decode(&mut dst),
            Err(WsReadError(WebSocketError::ReceivedMaskedFrame))
        ));
        keys.push(key);
    }
    assert!(keys.iter().any(|key| *key != vec![0; 4]));
    assert!(keys.iter().any(|key| *key != keys[0]));
}

#[test]
fn masking_twice_changes_nothing() {
    let mut payload: Vec<u8> = (0..=255).collect();
    let key = vec![0xaa, 0x55, 0x0f, 0xf0];
    wire::mask(&mut payload, &key);
    assert_eq!(payload[..5], [0xaa, 0x54, 0x0d, 0xf3, 0xae]);
    wire::mask(&mut payload, &key);
    assert_eq!(payload, (0..=255).collect::<Vec<u8>>());
}

#[test]
fn what_a_server_sends_is_decoded() {
    let frames = vec![
        Frame::text("a".to_string()).set_fin(false),
        Frame::ping(Some(vec![1, 2])),
        Frame::text("b".to_string()).set_continuation(true),
        Frame::close(Some((1011, "fin".to_string()))),
    ];
    let mut src = BytesMut::new();
    for frame in &frames {
        let body = match frame {
            Frame::Text { payload, .. } => payload.clone(),
            Frame::Ping { payload } => payload.clone().unwrap(),
            Frame::Close { payload } => {
                let (code, reason) = payload.clone().unwrap();
                let mut body = code.to_be_bytes().to_vec();
                body.extend_from_slice(reason.as_bytes());
                body
            }
            _ => unreachable!(),
        };
        src.extend_from_slice(&server_bytes(frame.opcode() + frame.fin(), &body));
    }
    let mut codec = WsFrameCodec::new();
    for frame in frames {
        assert_eq!(codec.decode(&mut src).unwrap(), Some(frame));
    }
    assert!(src.is_empty());
}

#[test]
fn bytes_may_arrive_one_by_one() {
    let mut bytes = server_bytes(0x01, b"ab");
    bytes.extend(server_bytes(0x89, &[1; 125]));
    bytes.extend(server_bytes(0x80, b"c"));
    bytes.extend(server_bytes(0x82, &[2; 300]));
    let mut at_once = buffer(&bytes);
    let mut codec = WsFrameCodec::new();
    let mut expected = Vec::new();
    while let Some(frame) = codec.decode(&mut at_once).unwrap() {
        expected.push(frame);
    }
    assert_eq!(expected.len(), 4);
    let mut codec = WsFrameCodec::new();
    let mut src = BytesMut::new();
    let mut frames = Vec::new();
    for byte in bytes {
        src.extend_from_slice(&[byte]);
        frames.extend(codec.decode(&mut src).unwrap());
    }
    assert_eq!(frames, expected);
}

#[test]
fn fronts_of_buffers() {
    assert!(matches!(wire::read_front(&[]), ReadFront::Incomplete));
    assert!(matches!(wire::read_front(&[0x81, 0x80]), ReadFront::Masked));
    assert!(matches!(
        wire::read_front(&[0x82, 127, 0, 0, 0, 0, 1, 0, 0, 0]),
        ReadFront::TooLarge
    ));
    match wire::read_front(&[0x0a, 1, 5, 6]) {
        ReadFront::Whole { fin, opcode, payload, size } => {
            assert!(!fin);
            assert_eq!(opcode, 0xa);
            assert_eq!(payload, vec![5]);
            assert_eq!(size, 3);
        }
        other => panic!("{:?}", other),
    }
}

#[test]
fn frames_tell_what_they_are() {
    let text = Frame::text("hi".to_string());
    let binary = Frame::binary(vec![1]);
    let close = Frame::close(None);
    let ping = Frame::ping(None);
    let pong = Frame::pong(Some(vec![2]));
    assert!(text.is_text() && !binary.is_text());
    assert!(binary.is_binary() && !text.is_binary());
    assert!(close.is_close() && !ping.is_close());
    assert!(ping.is_ping() && !pong.is_ping());
    assert!(pong.is_pong() && !close.is_pong());
    assert_eq!(
        [&text, &binary, &close, &ping, &pong].map(|f| f.is_control()),
        [false, false, true, true, true]
    );
    assert_eq!(
        [&text, &binary, &close, &ping, &pong].map(|f| f.opcode()),
        [1, 2, 8, 9, 10]
    );
    assert_eq!(text.clone().set_continuation(true).opcode(), 0);
    assert_eq!(binary.clone().set_continuation(true).opcode(), 0);
    assert_eq!(text.fin(), 0x80);
    assert_eq!(binary.clone().set_fin(false).fin(), 0);
    assert_eq!(close.fin(), 0x80);
    assert_eq!(text.frame_type(), FrameType::Text);
    assert_eq!(binary.frame_type(), FrameType::Binary);
    assert_eq!(pong.frame_type(), FrameType::Control);
    assert_eq!(FrameType::default(), FrameType::Control);
}

#[test]
fn frames_give_their_data() {
    let mut text = Frame::text("hi".to_string());
    assert_eq!(text.as_text(), Some((&b"hi"[..], &false, &true)));
    assert_eq!(text.as_binary(), None);
    {
        let (payload, continuation, fin) = text.as_text_mut().unwrap();
        payload.push(b'!');
        *continuation = true;
        *fin = false;
    }
    assert!(text.as_binary_mut().is_none());
    assert_eq!(text.into_text(), Some((b"hi!".to_vec(), true, false)));

    let mut binary = Frame::binary(vec![1]);
    assert_eq!(binary.as_binary(), Some((&vec![1], &false, &true)));
    binary.as_binary_mut().unwrap().0.clear();
    assert_eq!(binary.clone().into_text(), None);
    assert_eq!(binary.into_binary(), Some((vec![], false, true)));

    let mut close = Frame::close(Some((1000, "a".to_string())));
    assert_eq!(close.as_close(), Some(&(1000, "a".to_string())));
    close.as_close_mut().unwrap().0 = 1001;
    assert_eq!(close.into_close(), Some((1001, "a".to_string())));
    assert_eq!(Frame::close(None).as_close(), None);
    assert!(Frame::close(None).as_close_mut().is_none());
    assert_eq!(Frame::ping(Some(vec![1])).into_close(), None);

    let mut ping = Frame::ping(Some(vec![1]));
    assert_eq!(ping.as_ping(), Some(&vec![1]));
    ping.as_ping_mut().unwrap().push(2);
    assert_eq!(ping.as_pong(), None);
    assert!(ping.as_pong_mut().is_none());
    assert_eq!(ping.into_ping(), Some(vec![1, 2]));

    let mut pong = Frame::pong(Some(vec![3]));
    assert_eq!(pong.as_pong(), Some(&vec![3]));
    pong.as_pong_mut().unwrap().push(4);
    assert_eq!(pong.as_ping(), None);
    assert_eq!(pong.into_pong(), Some(vec![3, 4]));
    assert_eq!(Frame::pong(None).into_pong(), None);
}

#[test]
fn flags_are_set_on_data_frames_only() {
    assert_eq!(
        Frame::text("x".to_string()).set_continuation(true).set_fin(false),
        Frame::Text { payload: b"x".to_vec(), continuation: true, fin: false }
    );
    assert_eq!(Frame::ping(None).set_continuation(true).set_fin(false), Frame::ping(None));
}

#[test]
fn io_errors_become_read_and_write_errors() {
    let error = || std::io::Error::from(std::io::ErrorKind::BrokenPipe);
    assert!(matches!(WsReadError::from(error()).0, WebSocketError::ReadError(_)));
    assert!(matches!(WsWriteError::from(error()).0, WebSocketError::WriteError(_)));
    assert_eq!(WebSocketError::ChannelError.message(), "error using channel");
    assert_eq!(
        WebSocketError::SchemeError.message(),
        r#"invalid websocket scheme (use "ws" or "wss")"#
    );
}
