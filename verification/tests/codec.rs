use vnc::protocol::{
    AppleAuthHandshake, AppleAuthResponse, ClientInit, Colour, CopyRect, Encoding, Message,
    PixelFormat, Rect, Rectangle, SecurityResult, SecurityType, SecurityTypes, ServerInit,
    Version, C2S, S2C,
};
use vnc::{Error, IoError, Reader};

fn encode<M: Message>(message: &M) -> Vec<u8> {
    let mut bytes = Vec::new();
    message.write_to(&mut bytes).unwrap();
    bytes
}

fn round_trip<M: Message + PartialEq + std::fmt::Debug>(message: M) -> Vec<u8> {
    let mut bytes = vec![0xAA];
    message.write_to(&mut bytes).unwrap();
    assert_eq!(bytes[0], 0xAA);
    let written = bytes.len() - 1;
    bytes.extend_from_slice(&[0xDE, 0xAD, 0xBE, 0xEF]);
    let mut reader = Reader::new(&bytes[1..]);
    let back = M::read_from(&mut reader).unwrap();
    assert_eq!(back, message);
    assert_eq!(reader.available(), 4);
    assert_eq!(bytes.len() - 1 - reader.available(), written);
    bytes[1..1 + written].to_vec()
}

fn decode_all<M: Message>(bytes: &[u8]) -> M {
    let mut reader = Reader::new(bytes);
    let message = M::read_from(&mut reader).unwrap();
    assert_eq!(reader.available(), 0);
    message
}

/// Reads from `bytes`, which must fail, and returns the error. Bytes that
/// break off and a source at its end take nothing; any other error has
/// taken what was read to see it, which is returned with it.
fn decode_fault<M: Message + std::fmt::Debug>(bytes: &[u8]) -> (Error, usize) {
    let mut reader = Reader::new(bytes);
    let error = M::read_from(&mut reader).unwrap_err();
    (error, bytes.len() - reader.available())
}

fn decode_error<M: Message + std::fmt::Debug>(bytes: &[u8]) -> Error {
    let (error, taken) = decode_fault::<M>(bytes);
    if matches!(error, Error::Io(_) | Error::Disconnected) {
        assert_eq!(taken, 0);
    }
    error
}

#[test]
fn reader_reads_big_endian_integers() {
    let bytes = [0x01, 0x02, 0x03, 0x04, 0x05, 0x06, 0x07, 0xFF, 0xFF, 0xFF, 0xFE, 0x09];
    let mut reader = Reader::new(&bytes);
    assert_eq!(reader.read_u8(), Ok(0x01));
    assert_eq!(reader.read_u16(), Ok(0x0203));
    assert_eq!(reader.read_u32(), Ok(0x04050607));
    assert_eq!(reader.read_i32(), Ok(-2));
    assert_eq!(reader.available(), 1);
    assert_eq!(reader.read_u16(), Err(Error::Io(IoError::UnexpectedEof)));
    assert_eq!(reader.available(), 1);
    assert_eq!(reader.read_u8(), Ok(0x09));
    assert_eq!(reader.read_u8(), Err(Error::Io(IoError::UnexpectedEof)));
}

#[test]
fn reader_skips_and_reads_bytes() {
    let bytes = [1, 2, 3, 4, 5];
    let mut reader = Reader::new(&bytes);
    assert_eq!(reader.skip(2), Ok(()));
    assert_eq!(reader.read_bytes(2), Ok(vec![3, 4]));
    assert_eq!(reader.read_bytes(2), Err(Error::Io(IoError::UnexpectedEof)));
    assert_eq!(reader.skip(2), Err(Error::Io(IoError::UnexpectedEof)));
    assert_eq!(reader.available(), 1);
    assert_eq!(reader.read_bytes(0), Ok(vec![]));
}

#[test]
fn byte_string_round_trips() {
    assert_eq!(round_trip(vec![1u8, 2, 3]), vec![0, 0, 0, 3, 1, 2, 3]);
    assert_eq!(round_trip(Vec::<u8>::new()), vec![0, 0, 0, 0]);
    let long: Vec<u8> = (0..70000u32).map(|i| (i % 251) as u8).collect();
    let bytes = round_trip(long);
    assert_eq!(&bytes[..4], &[0x00, 0x01, 0x11, 0x70]);
}

#[test]
fn byte_string_truncated() {
    assert_eq!(decode_error::<Vec<u8>>(&[0, 0]), Error::Io(IoError::UnexpectedEof));
    assert_eq!(decode_error::<Vec<u8>>(&[0, 0, 0, 3, 1, 2]), Error::Io(IoError::UnexpectedEof));
}

#[test]
fn empty_string_round_trips() {
    assert_eq!(round_trip(String::new()), vec![0, 0, 0, 0]);
    assert_eq!(decode_all::<String>(&[0, 0, 0, 0]), "");
}

#[test]
fn latin1_string_round_trips_bit_exactly() {
    let bytes: Vec<u8> = (0x80..=0xFFu8).collect();
    let mut wire = vec![0, 0, 0, 0x80];
    wire.extend_from_slice(&bytes);
    let text: String = decode_all(&wire);
    assert_eq!(text.chars().count(), 128);
    assert!(text.chars().zip(bytes.iter()).all(|(c, b)| c as u32 == *b as u32));
    assert_eq!(encode(&text), wire);
    assert_eq!(round_trip(String::from("d\u{e9}mo \u{ff}")), vec![0, 0, 0, 6, b'd', 0xE9, b'm', b'o', b' ', 0xFF]);
}

#[test]
fn string_outside_latin1_is_rejected_on_write() {
    let mut bytes = vec![7u8];
    let result = String::from("price: 5\u{20ac}").write_to(&mut bytes);
    assert_eq!(result, Err(Error::Unexpected("string character")));
    assert_eq!(bytes, vec![7u8]);
    let mut bytes = Vec::new();
    assert_eq!(String::from("\u{100}").write_to(&mut bytes), Err(Error::Unexpected("string character")));
    assert!(bytes.is_empty());
}

#[test]
fn version_round_trips() {
    assert_eq!(round_trip(Version::Rfb33), b"RFB 003.003\n".to_vec());
    assert_eq!(round_trip(Version::Rfb37), b"RFB 003.007\n".to_vec());
    assert_eq!(round_trip(Version::Rfb38), b"RFB 003.008\n".to_vec());
}

#[test]
fn apple_version_is_read_as_3_8() {
    assert_eq!(decode_all::<Version>(b"RFB 003.889\n"), Version::Rfb38);
}

#[test]
fn unknown_version_takes_its_twelve_bytes() {
    for text in [&b"RFB 004.000\n"[..], b"RFB 003.008\r", b"RFB 003.0080", b"rfb 003.008\n", b"RFB 003.008\nmore"] {
        if text.len() > 12 {
            let mut reader = Reader::new(text);
            assert_eq!(Version::read_from(&mut reader), Ok(Version::Rfb38));
            assert_eq!(reader.available(), 4);
        } else {
            assert_eq!(decode_fault::<Version>(text), (Error::Unexpected("protocol version"), 12));
        }
    }
    let mut longer = b"RFB 009.999\n".to_vec();
    longer.extend_from_slice(&[1, 2, 3]);
    assert_eq!(decode_fault::<Version>(&longer), (Error::Unexpected("protocol version"), 12));
    assert_eq!(decode_fault::<Version>(b"RFB 009.999"), (Error::Io(IoError::UnexpectedEof), 0));
}

#[test]
fn unknown_version_is_unexpected() {
    assert_eq!(decode_error::<Version>(b"RFB 004.000\n"), Error::Unexpected("protocol version"));
    assert_eq!(decode_error::<Version>(b"RFB 003.009\n"), Error::Unexpected("protocol version"));
    assert_eq!(decode_error::<Version>(b"RFB 003.008\r"), Error::Unexpected("protocol version"));
    assert_eq!(decode_error::<Version>(b"rfb 003.008\n"), Error::Unexpected("protocol version"));
    assert_eq!(decode_error::<Version>(b"RFB 003.08"), Error::Io(IoError::UnexpectedEof));
}

#[test]
fn security_type_round_trips() {
    assert_eq!(round_trip(SecurityType::Invalid), vec![0]);
    assert_eq!(round_trip(SecurityType::NoAuthentication), vec![1]);
    assert_eq!(round_trip(SecurityType::VncAuthentication), vec![2]);
    assert_eq!(round_trip(SecurityType::AppleRemoteDesktop), vec![30]);
    assert_eq!(round_trip(SecurityType::Unknown(19)), vec![19]);
    assert_eq!(decode_error::<SecurityType>(&[]), Error::Io(IoError::UnexpectedEof));
}

#[test]
fn security_types_round_trip() {
    let list = SecurityTypes(vec![
        SecurityType::VncAuthentication,
        SecurityType::Unknown(5),
        SecurityType::NoAuthentication,
    ]);
    assert_eq!(round_trip(list), vec![3, 2, 5, 1]);
    assert_eq!(round_trip(SecurityTypes(vec![])), vec![0]);
    assert_eq!(decode_error::<SecurityTypes>(&[2, 1]), Error::Io(IoError::UnexpectedEof));
}

#[test]
fn security_types_too_many_are_rejected() {
    let list = SecurityTypes(vec![SecurityType::NoAuthentication; 256]);
    let mut bytes = vec![9u8];
    assert_eq!(list.write_to(&mut bytes), Err(Error::Unexpected("security type count")));
    assert_eq!(bytes, vec![9u8]);
    let list = SecurityTypes(vec![SecurityType::NoAuthentication; 255]);
    assert_eq!(encode(&list).len(), 256);
}

#[test]
fn security_result_round_trips() {
    assert_eq!(round_trip(SecurityResult::Succeeded), vec![0, 0, 0, 0]);
    assert_eq!(round_trip(SecurityResult::Failed), vec![0, 0, 0, 1]);
    assert_eq!(decode_error::<SecurityResult>(&[0, 0, 0, 2]), Error::Unexpected("security result"));
    assert_eq!(decode_error::<SecurityResult>(&[1, 0, 0, 0]), Error::Unexpected("security result"));
    assert_eq!(decode_error::<SecurityResult>(&[0, 0, 0]), Error::Io(IoError::UnexpectedEof));
}

#[test]
fn apple_auth_handshake_round_trips() {
    let message = AppleAuthHandshake { generator: 2, prime: vec![0xF1, 0xF2, 0xF3], peer_key: vec![7, 8, 9] };
    assert_eq!(round_trip(message), vec![0, 2, 0, 3, 0xF1, 0xF2, 0xF3, 7, 8, 9]);
    assert_eq!(decode_error::<AppleAuthHandshake>(&[0, 2, 0, 3, 1, 2, 3, 7, 8]), Error::Io(IoError::UnexpectedEof));
    let uneven = AppleAuthHandshake { generator: 2, prime: vec![1, 2], peer_key: vec![3] };
    let mut bytes = Vec::new();
    assert_eq!(uneven.write_to(&mut bytes), Err(Error::Unexpected("Apple authentication key length")));
    assert!(bytes.is_empty());
}

#[test]
fn apple_auth_response_round_trips() {
    let mut ciphertext = [0u8; 128];
    for (i, b) in ciphertext.iter_mut().enumerate() {
        *b = i as u8 ^ 0x5A;
    }
    let response = AppleAuthResponse { ciphertext, pub_key: vec![1, 2, 3, 4] };
    let mut bytes = Vec::new();
    response.write_to(&mut bytes).unwrap();
    assert_eq!(bytes.len(), 132);
    assert_eq!(&bytes[..128], &ciphertext[..]);
    assert_eq!(&bytes[128..], &[1, 2, 3, 4]);
    bytes.push(0x77);
    let mut reader = Reader::new(&bytes);
    assert_eq!(AppleAuthResponse::read_from(&mut reader, 4), Ok(response));
    assert_eq!(reader.available(), 1);
    let mut reader = Reader::new(&bytes);
    assert_eq!(AppleAuthResponse::read_from(&mut reader, 6), Err(Error::Io(IoError::UnexpectedEof)));
    assert_eq!(reader.available(), bytes.len());
}

#[test]
fn client_init_round_trips() {
    assert_eq!(round_trip(ClientInit { shared: true }), vec![1]);
    assert_eq!(round_trip(ClientInit { shared: false }), vec![0]);
    assert_eq!(decode_all::<ClientInit>(&[7]), ClientInit { shared: true });
}

#[test]
fn pixel_format_takes_sixteen_bytes() {
    let bytes = round_trip(PixelFormat::rgb8888());
    assert_eq!(bytes, vec![32, 24, 1, 1, 0, 255, 0, 255, 0, 255, 0, 8, 16, 0, 0, 0]);
    let format = PixelFormat {
        bits_per_pixel: 16,
        depth: 15,
        big_endian: false,
        true_colour: true,
        red_max: 0x1F,
        green_max: 0x3F0,
        blue_max: 0xFFFF,
        red_shift: 10,
        green_shift: 5,
        blue_shift: 0,
    };
    assert_eq!(round_trip(format), vec![16, 15, 0, 1, 0, 0x1F, 0x03, 0xF0, 0xFF, 0xFF, 10, 5, 0, 0, 0, 0]);
    assert_eq!(decode_error::<PixelFormat>(&[32, 24, 1, 1, 0, 255, 0, 255, 0, 255, 0, 8, 16, 0, 0]), Error::Io(IoError::UnexpectedEof));
}

#[test]
fn pixel_format_padding_is_read_and_dropped() {
    let wire = [8, 8, 9, 0, 0, 7, 0, 7, 0, 3, 0, 3, 6, 0xAA, 0xBB, 0xCC, 0x55];
    let mut reader = Reader::new(&wire);
    let format = PixelFormat::read_from(&mut reader).unwrap();
    assert_eq!(reader.available(), 1);
    assert!(format.big_endian);
    assert!(!format.true_colour);
    assert_eq!(encode(&format), vec![8, 8, 1, 0, 0, 7, 0, 7, 0, 3, 0, 3, 6, 0, 0, 0]);
}

#[test]
fn rgb8888_is_the_documented_format() {
    let format = PixelFormat::rgb8888();
    assert_eq!(format.bits_per_pixel, 32);
    assert_eq!(format.depth, 24);
    assert!(format.big_endian);
    assert!(format.true_colour);
    assert_eq!((format.red_max, format.green_max, format.blue_max), (255, 255, 255));
    assert_eq!((format.red_shift, format.green_shift, format.blue_shift), (0, 8, 16));
}

#[test]
fn server_init_round_trips() {
    let init = ServerInit {
        framebuffer_width: 640,
        framebuffer_height: 480,
        pixel_format: PixelFormat::rgb8888(),
        name: String::from("demo"),
    };
    let bytes = round_trip(init);
    assert_eq!(
        bytes,
        vec![
            0x02, 0x80, 0x01, 0xE0, 32, 24, 1, 1, 0, 255, 0, 255, 0, 255, 0, 8, 16, 0, 0, 0, 0, 0, 0, 4,
            b'd', b'e', b'm', b'o'
        ]
    );
    assert_eq!(decode_error::<ServerInit>(&bytes[..27]), Error::Io(IoError::UnexpectedEof));
    assert_eq!(decode_error::<ServerInit>(&bytes[..10]), Error::Io(IoError::UnexpectedEof));
}

#[test]
fn server_init_with_bad_name_is_rejected_whole() {
    let init = ServerInit {
        framebuffer_width: 1,
        framebuffer_height: 1,
        pixel_format: PixelFormat::rgb8888(),
        name: String::from("\u{4e2d}"),
    };
    let mut bytes = vec![1u8, 2];
    assert_eq!(init.write_to(&mut bytes), Err(Error::Unexpected("string character")));
    assert_eq!(bytes, vec![1u8, 2]);
}

#[test]
fn rect_colour_copy_rect_round_trip() {
    assert_eq!(round_trip(Rect::new(1, 2, 0x0304, 0xFFFF)), vec![0, 1, 0, 2, 3, 4, 0xFF, 0xFF]);
    assert_eq!(round_trip(Rect::empty()), vec![0; 8]);
    assert_eq!(round_trip(Colour { red: 0x1234, green: 0, blue: 0xFFFF }), vec![0x12, 0x34, 0, 0, 0xFF, 0xFF]);
    assert_eq!(round_trip(CopyRect { src_x_position: 0x0102, src_y_position: 0x0304 }), vec![1, 2, 3, 4]);
    assert_eq!(decode_error::<Rect>(&[0; 7]), Error::Io(IoError::UnexpectedEof));
    assert_eq!(decode_error::<Colour>(&[0; 5]), Error::Io(IoError::UnexpectedEof));
    assert_eq!(decode_error::<CopyRect>(&[0; 3]), Error::Io(IoError::UnexpectedEof));
}

#[test]
fn rect_constructors() {
    assert_eq!(Rect::new(3, 4, 5, 6), Rect { left: 3, top: 4, width: 5, height: 6 });
    assert_eq!(Rect::empty(), Rect { left: 0, top: 0, width: 0, height: 0 });
}

fn named_encodings() -> Vec<(Encoding, i32)> {
    vec![
        (Encoding::Raw, 0),
        (Encoding::CopyRect, 1),
        (Encoding::Rre, 2),
        (Encoding::CoRre, 4),
        (Encoding::Hextile, 5),
        (Encoding::Zlib, 6),
        (Encoding::Tight, 7),
        (Encoding::ZlibHex, 8),
        (Encoding::Zrle, 16),
        (Encoding::DesktopSize, -223),
        (Encoding::LastRect, -224),
        (Encoding::PointerPosition, -232),
        (Encoding::RichCursor, -239),
        (Encoding::XCursor, -240),
        (Encoding::PointerMotion, -257),
        (Encoding::ExtendedKeyEvent, -258),
        (Encoding::Audio, -259),
        (Encoding::TightPng, -260),
        (Encoding::Led, -261),
        (Encoding::Gii, -305),
        (Encoding::DesktopName, -307),
        (Encoding::ExtendedDesktopSize, -308),
        (Encoding::Xvp, -309),
        (Encoding::Fence, -312),
        (Encoding::ContinuousUpdate, -313),
        (Encoding::CursorWithAlpha, -314),
        (Encoding::VmwareCursor, 0x574d5664),
        (Encoding::VmwareCursorState, 0x574d5665),
        (Encoding::VmwareCursorPosition, 0x574d5666),
        (Encoding::VmwareKeyRepeat, 0x574d5667),
        (Encoding::VmwareLed, 0x574d5668),
        (Encoding::VmwareDisplayMode, 0x574d5669),
        (Encoding::VmwareVMState, 0x574d566a),
        (Encoding::ExtendedClipboard, -1063131698),
    ]
}

#[test]
fn every_named_encoding_round_trips() {
    for (encoding, code) in named_encodings() {
        assert_eq!(round_trip(encoding), code.to_be_bytes().to_vec());
    }
}

#[test]
fn ranged_encodings_round_trip() {
    for n in -32..=-23 {
        assert_eq!(round_trip(Encoding::Jpeg(n)), n.to_be_bytes().to_vec());
    }
    for n in -256..=-247 {
        assert_eq!(round_trip(Encoding::CompressionLevel(n)), n.to_be_bytes().to_vec());
    }
    for n in -512..=-412 {
        assert_eq!(round_trip(Encoding::JpegFineGrained(n)), n.to_be_bytes().to_vec());
    }
    for n in -768..=-763 {
        assert_eq!(round_trip(Encoding::JpegSubSampling(n)), n.to_be_bytes().to_vec());
    }
}

#[test]
fn unknown_encoding_survives() {
    for n in [3, 9, 15, 17, -1, -22, -33, -222, -246, -411, -513, -762, -769, i32::MAX, i32::MIN, 0x574d5663, 0x574d566b] {
        let wire = n.to_be_bytes();
        assert_eq!(decode_all::<Encoding>(&wire), Encoding::Unknown(n));
        assert_eq!(round_trip(Encoding::Unknown(n)), wire.to_vec());
    }
}

#[test]
fn extended_clipboard_tag_is_c0a1e5ce() {
    assert_eq!(encode(&Encoding::ExtendedClipboard), vec![0xC0, 0xA1, 0xE5, 0xCE]);
}

#[test]
fn rectangle_header_round_trips() {
    let rectangle = Rectangle { x_position: 1, y_position: 2, width: 3, height: 4, encoding: Encoding::Zrle };
    assert_eq!(round_trip(rectangle), vec![0, 1, 0, 2, 0, 3, 0, 4, 0, 0, 0, 16]);
    let cursor = Rectangle { x_position: 0, y_position: 0, width: 16, height: 16, encoding: Encoding::RichCursor };
    assert_eq!(round_trip(cursor), vec![0, 0, 0, 0, 0, 16, 0, 16, 0xFF, 0xFF, 0xFF, 0x11]);
    assert_eq!(decode_error::<Rectangle>(&[0; 11]), Error::Io(IoError::UnexpectedEof));
}

#[test]
fn c2s_set_pixel_format_round_trips() {
    let bytes = round_trip(C2S::SetPixelFormat(PixelFormat::rgb8888()));
    assert_eq!(bytes, vec![0, 0, 0, 0, 32, 24, 1, 1, 0, 255, 0, 255, 0, 255, 0, 8, 16, 0, 0, 0]);
}

#[test]
fn c2s_set_encodings_round_trips() {
    let message = C2S::SetEncodings(vec![Encoding::Zrle, Encoding::Raw, Encoding::Unknown(99), Encoding::Jpeg(-25)]);
    assert_eq!(
        round_trip(message),
        vec![2, 0, 0, 4, 0, 0, 0, 16, 0, 0, 0, 0, 0, 0, 0, 99, 0xFF, 0xFF, 0xFF, 0xE7]
    );
}

#[test]
fn c2s_set_encodings_with_none_round_trips() {
    assert_eq!(round_trip(C2S::SetEncodings(vec![])), vec![2, 0, 0, 0]);
    assert_eq!(decode_all::<C2S>(&[2, 0, 0, 0]), C2S::SetEncodings(vec![]));
}

#[test]
fn c2s_set_encodings_too_many_are_rejected() {
    let message = C2S::SetEncodings(vec![Encoding::Raw; 65536]);
    let mut bytes = Vec::new();
    assert_eq!(message.write_to(&mut bytes), Err(Error::Unexpected("encoding count")));
    assert!(bytes.is_empty());
    let message = C2S::SetEncodings(vec![Encoding::Raw; 65535]);
    let bytes = encode(&message);
    assert_eq!(bytes.len(), 4 + 4 * 65535);
    assert_eq!(&bytes[..4], &[2, 0, 0xFF, 0xFF]);
    assert_eq!(decode_all::<C2S>(&bytes), message);
}

#[test]
fn c2s_framebuffer_update_request_decodes() {
    let bytes = [0x03, 0x01, 0x00, 0x10, 0x00, 0x20, 0x01, 0x40, 0x00, 0xF0];
    let message: C2S = decode_all(&bytes);
    assert_eq!(
        message,
        C2S::FramebufferUpdateRequest { incremental: true, x_position: 16, y_position: 32, width: 320, height: 240 }
    );
    assert_eq!(encode(&message), bytes.to_vec());
}

#[test]
fn c2s_key_and_pointer_events_round_trip() {
    assert_eq!(round_trip(C2S::KeyEvent { down: true, key: 0xFF0D }), vec![4, 1, 0, 0, 0, 0, 0xFF, 0x0D]);
    assert_eq!(round_trip(C2S::KeyEvent { down: false, key: 0x61 }), vec![4, 0, 0, 0, 0, 0, 0, 0x61]);
    assert_eq!(
        round_trip(C2S::PointerEvent { button_mask: 0x05, x_position: 0x0102, y_position: 0x0304 }),
        vec![5, 5, 1, 2, 3, 4]
    );
}

#[test]
fn c2s_cut_text_has_type_byte_and_padding() {
    assert_eq!(
        round_trip(C2S::CutText(String::from("hi"))),
        vec![6, 0, 0, 0, 0, 0, 0, 2, b'h', b'i']
    );
    assert_eq!(round_trip(C2S::CutText(String::new())), vec![6, 0, 0, 0, 0, 0, 0, 0]);
}

#[test]
fn c2s_qemu_extended_key_event_round_trips() {
    let bytes = [0xFF, 0x00, 0x00, 0x01, 0x00, 0x00, 0xFF, 0x41, 0x00, 0x00, 0x00, 0x26];
    let message: C2S = decode_all(&bytes);
    assert_eq!(message, C2S::ExtendedKeyEvent { down: true, keysym: 0xFF41, keycode: 0x26 });
    assert_eq!(round_trip(message), bytes.to_vec());
}

#[test]
fn c2s_unknown_types_are_unexpected() {
    assert_eq!(decode_error::<C2S>(&[1, 0, 0, 0]), Error::Unexpected("client to server message type"));
    assert_eq!(decode_error::<C2S>(&[7]), Error::Unexpected("client to server message type"));
    assert_eq!(
        decode_error::<C2S>(&[255, 1, 0, 0, 0, 0, 0, 0, 0, 0, 0, 0]),
        Error::Unexpected("client to server QEMU submessage type")
    );
    assert_eq!(decode_error::<C2S>(&[255, 9]), Error::Unexpected("client to server QEMU submessage type"));
}

#[test]
fn unexpected_values_take_what_was_read_to_see_them() {
    for first in 0..=255u8 {
        let known = [0u8, 2, 3, 4, 5, 6, 255].contains(&first);
        let fault = decode_fault::<C2S>(&[first]);
        assert_eq!(fault == (Error::Unexpected("client to server message type"), 1), !known, "type {}", first);
        let mut padded = vec![first];
        padded.extend_from_slice(&[0; 40]);
        let mut reader = Reader::new(&padded);
        match C2S::read_from(&mut reader) {
            Ok(_) => assert!(known),
            Err(e) => {
                assert_eq!(e, Error::Unexpected("client to server message type"));
                assert!(!known);
                assert_eq!(reader.available(), 40);
            }
        }
        let known = first <= 3;
        let mut reader = Reader::new(&padded);
        match S2C::read_from(&mut reader) {
            Ok(_) => assert!(known),
            Err(e) => {
                assert_eq!(e, Error::Unexpected("server to client message type"));
                assert!(!known);
                assert_eq!(reader.available(), 40);
            }
        }
    }
    assert_eq!(
        decode_fault::<C2S>(&[255, 7, 0, 0, 0, 0, 0, 0, 0, 0, 0, 0]),
        (Error::Unexpected("client to server QEMU submessage type"), 2)
    );
    assert_eq!(decode_fault::<C2S>(&[255, 7]), (Error::Unexpected("client to server QEMU submessage type"), 2));
    assert_eq!(decode_fault::<C2S>(&[255]), (Error::Io(IoError::UnexpectedEof), 0));
    assert_eq!(decode_fault::<SecurityResult>(&[0, 0, 0, 2, 9]), (Error::Unexpected("security result"), 4));
    assert_eq!(decode_fault::<SecurityResult>(&[0, 0, 0]), (Error::Io(IoError::UnexpectedEof), 0));
    assert_eq!(decode_fault::<S2C>(&[]), (Error::Disconnected, 0));
    assert_eq!(decode_fault::<C2S>(&[]), (Error::Disconnected, 0));
}

#[test]
fn c2s_empty_stream_is_disconnected() {
    assert_eq!(decode_error::<C2S>(&[]), Error::Disconnected);
}

#[test]
fn c2s_truncated_message_is_io() {
    for kind in [0u8, 2, 3, 4, 5, 6, 255] {
        assert_eq!(decode_error::<C2S>(&[kind]), Error::Io(IoError::UnexpectedEof));
    }
    let full = encode(&C2S::SetEncodings(vec![Encoding::Raw, Encoding::Zrle]));
    for cut in 1..full.len() {
        assert_eq!(decode_error::<C2S>(&full[..cut]), Error::Io(IoError::UnexpectedEof));
    }
    let full = encode(&C2S::CutText(String::from("clip")));
    for cut in 1..full.len() {
        assert_eq!(decode_error::<C2S>(&full[..cut]), Error::Io(IoError::UnexpectedEof));
    }
}

#[test]
fn s2c_round_trips() {
    assert_eq!(round_trip(S2C::FramebufferUpdate { count: 0x0102 }), vec![0, 0, 1, 2]);
    assert_eq!(round_trip(S2C::Bell), vec![2]);
    assert_eq!(round_trip(S2C::CutText(String::from("ok"))), vec![3, 0, 0, 0, 0, 0, 0, 2, b'o', b'k']);
    let colours = vec![Colour { red: 1, green: 2, blue: 3 }, Colour { red: 0xFFFF, green: 0, blue: 0x8000 }];
    assert_eq!(
        round_trip(S2C::SetColourMapEntries { first_colour: 7, colours }),
        vec![1, 0, 0, 7, 0, 2, 0, 1, 0, 2, 0, 3, 0xFF, 0xFF, 0, 0, 0x80, 0]
    );
    assert_eq!(
        round_trip(S2C::SetColourMapEntries { first_colour: 0, colours: vec![] }),
        vec![1, 0, 0, 0, 0, 0]
    );
}

#[test]
fn s2c_framebuffer_update_with_most_rectangles() {
    assert_eq!(round_trip(S2C::FramebufferUpdate { count: 65535 }), vec![0, 0, 0xFF, 0xFF]);
}

#[test]
fn s2c_errors() {
    assert_eq!(decode_error::<S2C>(&[]), Error::Disconnected);
    assert_eq!(decode_error::<S2C>(&[0]), Error::Io(IoError::UnexpectedEof));
    assert_eq!(decode_error::<S2C>(&[1, 0, 0, 0, 0, 1, 0, 0, 0, 0, 0]), Error::Io(IoError::UnexpectedEof));
    assert_eq!(decode_error::<S2C>(&[3, 0, 0, 0, 0, 0, 0, 1]), Error::Io(IoError::UnexpectedEof));
    assert_eq!(decode_error::<S2C>(&[4]), Error::Unexpected("server to client message type"));
    let colours = vec![Colour { red: 0, green: 0, blue: 0 }; 65536];
    let mut bytes = Vec::new();
    assert_eq!(
        S2C::SetColourMapEntries { first_colour: 0, colours }.write_to(&mut bytes),
        Err(Error::Unexpected("colour count"))
    );
    assert!(bytes.is_empty());
}

#[test]
fn padding_is_written_as_zero_whatever_was_read() {
    let message: C2S = decode_all(&[4, 9, 0xAA, 0xBB, 0, 0, 0, 0x20]);
    assert_eq!(message, C2S::KeyEvent { down: true, key: 0x20 });
    assert_eq!(encode(&message), vec![4, 1, 0, 0, 0, 0, 0, 0x20]);
    let message: S2C = decode_all(&[0, 0x7F, 0, 1]);
    assert_eq!(encode(&message), vec![0, 0, 0, 1]);
}

#[test]
fn error_messages() {
    assert_eq!(Error::Unexpected("protocol version").message(), "unexpected protocol version");
    assert_eq!(Error::Server(String::from("hello")).message(), "server error: hello");
    assert_eq!(Error::AuthenticationFailure(String::from("no")).message(), "authentication failure: no");
    assert_eq!(Error::AuthenticationUnavailable.message(), "authentication unavailable");
    assert_eq!(Error::Disconnected.message(), "disconnected");
    assert_eq!(Error::Io(IoError::UnexpectedEof).message(), "failed to fill whole buffer");
    assert_eq!(Error::Io(IoError::InvalidData).message(), "deflate decompression error");
}

#[test]
fn error_cause_and_conversion() {
    assert_eq!(Error::Io(IoError::InvalidData).cause(), Some(IoError::InvalidData));
    assert_eq!(Error::Disconnected.cause(), None);
    assert_eq!(Error::from(IoError::UnexpectedEof), Error::Io(IoError::UnexpectedEof));
}
