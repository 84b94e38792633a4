//! The messages that a client sends to a server.
use vstd::prelude::*;
use crate::protocol::Message;
use crate::protocol::encoding::{Encoding, encodings_bytes, encodings_at, all_canonical, lemma_encodings_round_trip, lemma_encodings_bytes_of_read, lemma_encodings_bytes_push};
use crate::protocol::pixel::PixelFormat;
use crate::wire::{be_u16, be_u32, u16_bytes, u32_bytes, flag_byte, zeros, put_u16, put_u32, put_bytes, put_flag, put_zeros, lemma_u16_round_trip, lemma_u16_bytes_of_read, lemma_u32_round_trip, lemma_u32_bytes_of_read, Reader};
use crate::{Error, IoError, Result};

verus! {

/// A message from client to server.
#[derive(Debug, PartialEq, Eq)]
pub enum C2S {
    SetPixelFormat(PixelFormat),
    SetEncodings(Vec<Encoding>),
    FramebufferUpdateRequest { incremental: bool, x_position: u16, y_position: u16, width: u16, height: u16 },
    KeyEvent { down: bool, key: u32 },
    PointerEvent { button_mask: u8, x_position: u16, y_position: u16 },
    CutText(String),
    /// The QEMU extended key event: a key symbol together with the
    /// hardware key code.
    ExtendedKeyEvent { down: bool, keysym: u32, keycode: u32 },
}

/// The mathematical view of a [`C2S`] message.
pub ghost enum C2SView {
    SetPixelFormat(PixelFormat),
    SetEncodings(Seq<Encoding>),
    FramebufferUpdateRequest { incremental: bool, x_position: u16, y_position: u16, width: u16, height: u16 },
    KeyEvent { down: bool, key: u32 },
    PointerEvent { button_mask: u8, x_position: u16, y_position: u16 },
    CutText(Seq<char>),
    ExtendedKeyEvent { down: bool, keysym: u32, keycode: u32 },
}

impl View for C2S {
    type V = C2SView;

    open spec fn view(&self) -> C2SView {
        match *self {
            C2S::SetPixelFormat(pixel_format) => C2SView::SetPixelFormat(pixel_format),
            C2S::SetEncodings(encodings) => C2SView::SetEncodings(encodings@),
            C2S::FramebufferUpdateRequest { incremental, x_position, y_position, width, height } =>
                C2SView::FramebufferUpdateRequest {
                    incremental,
                    x_position,
                    y_position,
                    width,
                    height,
                },
            C2S::KeyEvent { down, key } => C2SView::KeyEvent { down, key },
            C2S::PointerEvent { button_mask, x_position, y_position } => C2SView::PointerEvent {
                button_mask,
                x_position,
                y_position,
            },
            C2S::CutText(text) => C2SView::CutText(text@),
            C2S::ExtendedKeyEvent { down, keysym, keycode } => C2SView::ExtendedKeyEvent {
                down,
                keysym,
                keycode,
            },
        }
    }
}


/// Whether `v`, written and followed by `rest`, is read back as itself
/// with exactly its own bytes taken, and is laid out to the letter.
pub open spec fn read_back(v: C2SView, rest: Seq<u8>) -> bool {
    &&& C2S::decoding(C2S::encoding(v)->Ok_0 + rest) == Ok::<(C2SView, nat), (Error, nat)>(
        (v, C2S::encoding(v)->Ok_0.len()),
    )
    &&& C2S::legal(C2S::encoding(v)->Ok_0 + rest)
}

proof fn lemma_set_pixel_format_read_back(v: C2SView, rest: Seq<u8>)
    requires
        v is SetPixelFormat,
    ensures
        read_back(v, rest),
{
    let all = C2S::encoding(v)->Ok_0 + rest;
    let pixel_format = v->SetPixelFormat_0;
    let body = PixelFormat::encoding(pixel_format)->Ok_0;
    assert(all.skip(4) =~= body + rest);
    PixelFormat::lemma_decode_encoded(pixel_format, rest);
}

proof fn lemma_set_encodings_read_back(v: C2SView, rest: Seq<u8>)
    requires
        v is SetEncodings,
        C2S::canonical(v),
        C2S::encoding(v) is Ok,
    ensures
        read_back(v, rest),
{
    let all = C2S::encoding(v)->Ok_0 + rest;
    let encodings = v->SetEncodings_0;
    let body = encodings_bytes(encodings);
    lemma_encodings_round_trip(encodings, rest);
    assert(all.skip(2) =~= u16_bytes(encodings.len() as u16) + (body + rest));
    lemma_u16_round_trip(encodings.len() as u16, body + rest);
    assert(all.skip(4) =~= body + rest);
}

proof fn lemma_update_request_read_back(v: C2SView, rest: Seq<u8>)
    requires
        v is FramebufferUpdateRequest,
    ensures
        read_back(v, rest),
{
    let all = C2S::encoding(v)->Ok_0 + rest;
    if let C2SView::FramebufferUpdateRequest { incremental, x_position, y_position, width, height } = v {
        assert(all.skip(2) =~= u16_bytes(x_position) + all.skip(4));
        lemma_u16_round_trip(x_position, all.skip(4));
        assert(all.skip(4) =~= u16_bytes(y_position) + all.skip(6));
        lemma_u16_round_trip(y_position, all.skip(6));
        assert(all.skip(6) =~= u16_bytes(width) + all.skip(8));
        lemma_u16_round_trip(width, all.skip(8));
        assert(all.skip(8) =~= u16_bytes(height) + rest);
        lemma_u16_round_trip(height, rest);
    }
}

proof fn lemma_key_event_read_back(v: C2SView, rest: Seq<u8>)
    requires
        v is KeyEvent,
    ensures
        read_back(v, rest),
{
    let all = C2S::encoding(v)->Ok_0 + rest;
    if let C2SView::KeyEvent { down, key } = v {
        assert(all.skip(4) =~= u32_bytes(key) + rest);
        lemma_u32_round_trip(key, rest);
    }
}

proof fn lemma_pointer_event_read_back(v: C2SView, rest: Seq<u8>)
    requires
        v is PointerEvent,
    ensures
        read_back(v, rest),
{
    let all = C2S::encoding(v)->Ok_0 + rest;
    if let C2SView::PointerEvent { button_mask, x_position, y_position } = v {
        assert(all.skip(2) =~= u16_bytes(x_position) + all.skip(4));
        lemma_u16_round_trip(x_position, all.skip(4));
        assert(all.skip(4) =~= u16_bytes(y_position) + rest);
        lemma_u16_round_trip(y_position, rest);
    }
}

proof fn lemma_cut_text_read_back(v: C2SView, rest: Seq<u8>)
    requires
        v is CutText,
        C2S::encoding(v) is Ok,
    ensures
        read_back(v, rest),
{
    let all = C2S::encoding(v)->Ok_0 + rest;
    let text = v->CutText_0;
    let body = String::encoding(text)->Ok_0;
    assert(all.skip(4) =~= body + rest);
    String::lemma_decode_encoded(text, rest);
}

proof fn lemma_extended_key_event_read_back(v: C2SView, rest: Seq<u8>)
    requires
        v is ExtendedKeyEvent,
    ensures
        read_back(v, rest),
{
    let all = C2S::encoding(v)->Ok_0 + rest;
    if let C2SView::ExtendedKeyEvent { down, keysym, keycode } = v {
        assert(all.skip(2) =~= u16_bytes(flag_byte(down) as u16) + all.skip(4));
        lemma_u16_round_trip(flag_byte(down) as u16, all.skip(4));
        assert(all.skip(4) =~= u32_bytes(keysym) + all.skip(8));
        lemma_u32_round_trip(keysym, all.skip(8));
        assert(all.skip(8) =~= u32_bytes(keycode) + rest);
        lemma_u32_round_trip(keycode, rest);
    }
}

impl Message for C2S {
    open spec fn canonical(v: C2SView) -> bool {
        v matches C2SView::SetEncodings(encodings) ==> all_canonical(encodings)
    }

    open spec fn encoding(v: C2SView) -> core::result::Result<Seq<u8>, Error> {
        match v {
            C2SView::SetPixelFormat(pixel_format) => Ok(
                seq![0u8] + zeros(3) + PixelFormat::encoding(pixel_format)->Ok_0,
            ),
            C2SView::SetEncodings(encodings) => if encodings.len() > 0xFFFF {
                Err(Error::Unexpected("encoding count"))
            } else {
                Ok(seq![2u8, 0u8] + u16_bytes(encodings.len() as u16) + encodings_bytes(encodings))
            },
            C2SView::FramebufferUpdateRequest { incremental, x_position, y_position, width, height } =>
                Ok(
                seq![3u8, flag_byte(incremental)] + u16_bytes(x_position) + u16_bytes(y_position)
                    + u16_bytes(width) + u16_bytes(height),
            ),
            C2SView::KeyEvent { down, key } => Ok(
                seq![4u8, flag_byte(down)] + zeros(2) + u32_bytes(key),
            ),
            C2SView::PointerEvent { button_mask, x_position, y_position } => Ok(
                seq![5u8, button_mask] + u16_bytes(x_position) + u16_bytes(y_position),
            ),
            C2SView::CutText(text) => match String::encoding(text) {
                Err(e) => Err(e),
                Ok(body) => Ok(seq![6u8] + zeros(3) + body),
            },
            C2SView::ExtendedKeyEvent { down, keysym, keycode } => Ok(
                seq![255u8, 0u8] + u16_bytes(flag_byte(down) as u16) + u32_bytes(keysym)
                    + u32_bytes(keycode),
            ),
        }
    }

    open spec fn decoding(bytes: Seq<u8>) -> core::result::Result<(C2SView, nat), (Error, nat)> {
        if bytes.len() == 0 {
            Err((Error::Disconnected, 0))
        } else if bytes[0] == 0 {
            if bytes.len() < 20 {
                Err((Error::Io(IoError::UnexpectedEof), 0))
            } else {
                Ok((C2SView::SetPixelFormat(PixelFormat::decoding(bytes.skip(4))->Ok_0.0), 20))
            }
        } else if bytes[0] == 2 {
            if bytes.len() < 4 || bytes.len() < 4 + 4 * be_u16(bytes.skip(2)) {
                Err((Error::Io(IoError::UnexpectedEof), 0))
            } else {
                let count = be_u16(bytes.skip(2)) as nat;
                Ok((C2SView::SetEncodings(encodings_at(bytes.skip(4), count)), 4 + 4 * count))
            }
        } else if bytes[0] == 3 {
            if bytes.len() < 10 {
                Err((Error::Io(IoError::UnexpectedEof), 0))
            } else {
                Ok(
                    (
                        C2SView::FramebufferUpdateRequest {
                            incremental: bytes[1] != 0,
                            x_position: be_u16(bytes.skip(2)),
                            y_position: be_u16(bytes.skip(4)),
                            width: be_u16(bytes.skip(6)),
                            height: be_u16(bytes.skip(8)),
                        },
                        10,
                    ),
                )
            }
        } else if bytes[0] == 4 {
            if bytes.len() < 8 {
                Err((Error::Io(IoError::UnexpectedEof), 0))
            } else {
                Ok((C2SView::KeyEvent { down: bytes[1] != 0, key: be_u32(bytes.skip(4)) }, 8))
            }
        } else if bytes[0] == 5 {
            if bytes.len() < 6 {
                Err((Error::Io(IoError::UnexpectedEof), 0))
            } else {
                Ok(
                    (
                        C2SView::PointerEvent {
                            button_mask: bytes[1],
                            x_position: be_u16(bytes.skip(2)),
                            y_position: be_u16(bytes.skip(4)),
                        },
                        6,
                    ),
                )
            }
        } else if bytes[0] == 6 {
            if bytes.len() < 4 {
                Err((Error::Io(IoError::UnexpectedEof), 0))
            } else {
                match String::decoding(bytes.skip(4)) {
                    Err(e) => Err(e),
                    Ok((text, n)) => Ok((C2SView::CutText(text), 4 + n)),
                }
            }
        } else if bytes[0] == 255 {
            if bytes.len() < 2 {
                Err((Error::Io(IoError::UnexpectedEof), 0))
            } else if bytes[1] != 0 {
                Err((Error::Unexpected("client to server QEMU submessage type"), 2))
            } else if bytes.len() < 12 {
                Err((Error::Io(IoError::UnexpectedEof), 0))
            } else {
                Ok(
                    (
                        C2SView::ExtendedKeyEvent {
                            down: be_u16(bytes.skip(2)) != 0,
                            keysym: be_u32(bytes.skip(4)),
                            keycode: be_u32(bytes.skip(8)),
                        },
                        12,
                    ),
                )
            }
        } else {
            Err((Error::Unexpected("client to server message type"), 1))
        }
    }

    open spec fn legal(bytes: Seq<u8>) -> bool {
        if bytes.len() == 0 {
            true
        } else if bytes[0] == 0 {
            bytes.len() >= 20 ==> bytes[1] == 0 && bytes[2] == 0 && bytes[3] == 0
                && PixelFormat::legal(bytes.skip(4))
        } else if bytes[0] == 2 {
            bytes.len() >= 4 ==> bytes[1] == 0
        } else if bytes[0] == 3 {
            bytes.len() >= 10 ==> bytes[1] <= 1
        } else if bytes[0] == 4 {
            bytes.len() >= 8 ==> bytes[1] <= 1 && bytes[2] == 0 && bytes[3] == 0
        } else if bytes[0] == 6 {
            bytes.len() >= 4 ==> bytes[1] == 0 && bytes[2] == 0 && bytes[3] == 0
        } else if bytes[0] == 255 {
            bytes.len() >= 12 ==> be_u16(bytes.skip(2)) <= 1
        } else {
            true
        }
    }

    proof fn lemma_decode_encoded(v: C2SView, rest: Seq<u8>) {
        match v {
            C2SView::SetPixelFormat(_) => lemma_set_pixel_format_read_back(v, rest),
            C2SView::SetEncodings(_) => lemma_set_encodings_read_back(v, rest),
            C2SView::FramebufferUpdateRequest { .. } => lemma_update_request_read_back(v, rest),
            C2SView::KeyEvent { .. } => lemma_key_event_read_back(v, rest),
            C2SView::PointerEvent { .. } => lemma_pointer_event_read_back(v, rest),
            C2SView::CutText(_) => lemma_cut_text_read_back(v, rest),
            C2SView::ExtendedKeyEvent { .. } => lemma_extended_key_event_read_back(v, rest),
        }
    }

    proof fn lemma_encode_decoded(bytes: Seq<u8>) {
        let (v, n) = Self::decoding(bytes)->Ok_0;
        match v {
            C2SView::SetPixelFormat(pixel_format) => {
                PixelFormat::lemma_encode_decoded(bytes.skip(4));
                if Self::legal(bytes) {
                    assert(PixelFormat::encoding(pixel_format)->Ok_0 == bytes.skip(4).take(16));
                    assert(Self::encoding(v)->Ok_0 =~= bytes.take(20));
                }
            },
            C2SView::SetEncodings(encodings) => {
                let count = be_u16(bytes.skip(2)) as nat;
                lemma_u16_bytes_of_read(bytes.skip(2));
                lemma_encodings_bytes_of_read(bytes.skip(4), count);
                assert(encodings_bytes(encodings).len() == 4 * count);
                if Self::legal(bytes) {
                    assert(Self::encoding(v)->Ok_0 =~= bytes.take(4 + 4 * count as int));
                }
            },
            C2SView::FramebufferUpdateRequest { incremental, x_position, y_position, width, height } => {
                lemma_u16_bytes_of_read(bytes.skip(2));
                lemma_u16_bytes_of_read(bytes.skip(4));
                lemma_u16_bytes_of_read(bytes.skip(6));
                lemma_u16_bytes_of_read(bytes.skip(8));
                if Self::legal(bytes) {
                    assert(Self::encoding(v)->Ok_0 =~= bytes.take(10));
                }
            },
            C2SView::KeyEvent { down, key } => {
                lemma_u32_bytes_of_read(bytes.skip(4));
                if Self::legal(bytes) {
                    assert(Self::encoding(v)->Ok_0 =~= bytes.take(8));
                }
            },
            C2SView::PointerEvent { button_mask, x_position, y_position } => {
                lemma_u16_bytes_of_read(bytes.skip(2));
                lemma_u16_bytes_of_read(bytes.skip(4));
                assert(Self::encoding(v)->Ok_0 =~= bytes.take(6));
            },
            C2SView::CutText(text) => {
                String::lemma_encode_decoded(bytes.skip(4));
                let body = String::encoding(text)->Ok_0;
                if Self::legal(bytes) {
                    assert(body == bytes.skip(4).take(n - 4));
                    assert(Self::encoding(v)->Ok_0 =~= bytes.take(n as int));
                }
            },
            C2SView::ExtendedKeyEvent { down, keysym, keycode } => {
                lemma_u16_bytes_of_read(bytes.skip(2));
                lemma_u32_bytes_of_read(bytes.skip(4));
                lemma_u32_bytes_of_read(bytes.skip(8));
                if Self::legal(bytes) {
                    assert(flag_byte(down) as u16 == be_u16(bytes.skip(2)));
                    assert(Self::encoding(v)->Ok_0 =~= bytes.take(12));
                }
            },
        }
    }

    fn read_from(reader: &mut Reader) -> (r: Result<C2S>) {
        let ghost bytes = reader.remaining();
        let mut cursor = *reader;
        if cursor.available() == 0 {
            return Err(Error::Disconnected);
        }
        let message_type = cursor.read_u8()?;
        let message = match message_type {
            0 => {
                cursor.skip(3)?;
                assert(cursor.remaining() == bytes.skip(4));
                let pixel_format = PixelFormat::read_from(&mut cursor)?;
                assert(cursor.remaining() == bytes.skip(20));
                C2S::SetPixelFormat(pixel_format)
            },
            2 => {
                cursor.skip(1)?;
                assert(cursor.remaining() == bytes.skip(2));
                let count = cursor.read_u16()?;
                assert(cursor.remaining() == bytes.skip(4));
                let mut encodings: Vec<Encoding> = Vec::new();
                let mut i: u16 = 0;
                while i < count
                    invariant
                        i <= count,
                        bytes.len() >= 4 + 4 * i,
                        cursor.remaining() == bytes.skip(4 + 4 * i),
                        encodings@ == encodings_at(bytes.skip(4), i as nat),
                        *reader == *old(reader),
                        bytes == reader.remaining(),
                        bytes.len() >= 4,
                        bytes[0] == 2,
                        count == be_u16(bytes.skip(2)),
                    decreases count - i,
                {
                    assert(cursor.remaining() =~= bytes.skip(4).skip(4 * i));
                    let encoding = Encoding::read_from(&mut cursor)?;
                    encodings.push(encoding);
                    i = i + 1;
                    assert(encodings@ =~= encodings_at(bytes.skip(4), i as nat));
                }
                C2S::SetEncodings(encodings)
            },
            3 => {
                let incremental = cursor.read_u8()? != 0;
                assert(cursor.remaining() == bytes.skip(2));
                let x_position = cursor.read_u16()?;
                assert(cursor.remaining() == bytes.skip(4));
                let y_position = cursor.read_u16()?;
                assert(cursor.remaining() == bytes.skip(6));
                let width = cursor.read_u16()?;
                assert(cursor.remaining() == bytes.skip(8));
                let height = cursor.read_u16()?;
                assert(cursor.remaining() == bytes.skip(10));
                C2S::FramebufferUpdateRequest { incremental, x_position, y_position, width, height }
            },
            4 => {
                let down = cursor.read_u8()? != 0;
                cursor.skip(2)?;
                assert(cursor.remaining() == bytes.skip(4));
                let key = cursor.read_u32()?;
                assert(cursor.remaining() == bytes.skip(8));
                C2S::KeyEvent { down, key }
            },
            5 => {
                let button_mask = cursor.read_u8()?;
                assert(cursor.remaining() == bytes.skip(2));
                let x_position = cursor.read_u16()?;
                assert(cursor.remaining() == bytes.skip(4));
                let y_position = cursor.read_u16()?;
                assert(cursor.remaining() == bytes.skip(6));
                C2S::PointerEvent { button_mask, x_position, y_position }
            },
            6 => {
                cursor.skip(3)?;
                assert(cursor.remaining() == bytes.skip(4));
                let text = String::read_from(&mut cursor)?;
                assert(cursor.remaining() == bytes.skip(
                    4 + String::decoding(bytes.skip(4))->Ok_0.1 as int,
                ));
                C2S::CutText(text)
            },
            255 => {
                let submessage_type = cursor.read_u8()?;
                assert(cursor.remaining() == bytes.skip(2));
                match submessage_type {
                    0 => {
                        let down = cursor.read_u16()? != 0;
                        assert(cursor.remaining() == bytes.skip(4));
                        let keysym = cursor.read_u32()?;
                        assert(cursor.remaining() == bytes.skip(8));
                        let keycode = cursor.read_u32()?;
                        assert(cursor.remaining() == bytes.skip(12));
                        C2S::ExtendedKeyEvent { down, keysym, keycode }
                    },
                    _ => {
                        *reader = cursor;
                        return Err(Error::Unexpected("client to server QEMU submessage type"));
                    },
                }
            },
            _ => {
                *reader = cursor;
                return Err(Error::Unexpected("client to server message type"));
            },
        };
        *reader = cursor;
        Ok(message)
    }

    fn write_to(&self, writer: &mut Vec<u8>) -> (r: Result<()>) {
        match self {
            C2S::SetPixelFormat(pixel_format) => {
                writer.push(0);
                put_zeros(writer, 3);
                let _ = pixel_format.write_to(writer);
            },
            C2S::SetEncodings(encodings) => {
                if encodings.len() > 0xFFFF {
                    return Err(Error::Unexpected("encoding count"));
                }
                writer.push(2);
                writer.push(0);
                put_u16(writer, encodings.len() as u16);
                let ghost head = writer@;
                let mut i: usize = 0;
                while i < encodings.len()
                    invariant
                        i <= encodings@.len(),
                        writer@ == head + encodings_bytes(encodings@.take(i as int)),
                    decreases encodings@.len() - i,
                {
                    let ghost before = writer@;
                    let _ = encodings[i].write_to(writer);
                    i = i + 1;
                    proof {
                        let done = encodings@.take(i - 1);
                        lemma_encodings_bytes_push(done, encodings@[i - 1]);
                        assert(encodings@.take(i as int) =~= done.push(encodings@[i - 1]));
                    }
                }
                assert(encodings@.take(i as int) =~= encodings@);
            },
            C2S::FramebufferUpdateRequest { incremental, x_position, y_position, width, height } => {
                writer.push(3);
                put_flag(writer, *incremental);
                put_u16(writer, *x_position);
                put_u16(writer, *y_position);
                put_u16(writer, *width);
                put_u16(writer, *height);
            },
            C2S::KeyEvent { down, key } => {
                writer.push(4);
                put_flag(writer, *down);
                put_zeros(writer, 2);
                put_u32(writer, *key);
            },
            C2S::PointerEvent { button_mask, x_position, y_position } => {
                writer.push(5);
                writer.push(*button_mask);
                put_u16(writer, *x_position);
                put_u16(writer, *y_position);
            },
            C2S::CutText(text) => {
                let mut body: Vec<u8> = Vec::new();
                text.write_to(&mut body)?;
                writer.push(6);
                put_zeros(writer, 3);
                put_bytes(writer, body.as_slice());
            },
            C2S::ExtendedKeyEvent { down, keysym, keycode } => {
                writer.push(255);
                writer.push(0);
                put_u16(writer, if *down { 1 } else { 0 });
                put_u32(writer, *keysym);
                put_u32(writer, *keycode);
            },
        }
        assert(writer@ =~= old(writer)@ + Self::encoding(self@)->Ok_0);
        Ok(())
    }
}

/// A first byte that names no message is an error that takes that byte and
/// no more; every other first byte is none.
pub proof fn lemma_unknown_type_takes_one(bytes: Seq<u8>)
    requires
        bytes.len() >= 1,
    ensures
        C2S::decoding(bytes) == Err::<(C2SView, nat), (Error, nat)>(
            (Error::Unexpected("client to server message type"), 1),
        ) <==> !(bytes[0] == 0 || bytes[0] == 2 || bytes[0] == 3 || bytes[0] == 4 || bytes[0] == 5
            || bytes[0] == 6 || bytes[0] == 255),
        bytes[0] == 255 && bytes.len() >= 2 ==> (C2S::decoding(bytes) == Err::<
            (C2SView, nat),
            (Error, nat),
        >((Error::Unexpected("client to server QEMU submessage type"), 2)) <==> bytes[1] != 0),
{
}

/// A client that closes the stream between two messages has disconnected:
/// reading from a source with nothing left gives `Disconnected`, and takes
/// nothing.
pub proof fn lemma_empty_is_disconnected()
    ensures
        C2S::decoding(Seq::<u8>::empty()) == Err::<(C2SView, nat), (Error, nat)>(
            (Error::Disconnected, 0),
        ),
{
}

/// A message that breaks off is an I/O failure: reading from a source that
/// holds some but not all of the bytes of a message gives `Io`, and takes
/// nothing.
pub proof fn lemma_truncated_is_io(v: C2SView, k: int)
    requires
        C2S::canonical(v),
        C2S::encoding(v) is Ok,
        0 < k < C2S::encoding(v)->Ok_0.len(),
    ensures
        C2S::decoding(C2S::encoding(v)->Ok_0.take(k)) == Err::<(C2SView, nat), (Error, nat)>(
            (Error::Io(IoError::UnexpectedEof), 0),
        ),
{
    let w = C2S::encoding(v)->Ok_0;
    let cut = w.take(k);
    assert(cut[0] == w[0]);
    match v {
        C2SView::SetEncodings(encodings) => {
            let body = encodings_bytes(encodings);
            if k >= 4 {
                assert(cut.skip(2) =~= u16_bytes(encodings.len() as u16) + cut.skip(4));
                lemma_u16_round_trip(encodings.len() as u16, cut.skip(4));
                assert(body.len() == 4 * encodings.len());
            }
        },
        C2SView::CutText(text) => {
            let body = String::encoding(text)->Ok_0;
            if k >= 4 {
                assert(cut.skip(4) =~= body.take(k - 4));
                if k >= 8 {
                    assert(body.take(k - 4) =~= u32_bytes(text.len() as u32) + body.take(
                        k - 4,
                    ).skip(4));
                    lemma_u32_round_trip(text.len() as u32, body.take(k - 4).skip(4));
                }
            }
        },
        C2SView::ExtendedKeyEvent { down, keysym, keycode } => {
            if k >= 2 {
                assert(cut[1] == w[1]);
            }
        },
        _ => {},
    }
}

} // verus!
