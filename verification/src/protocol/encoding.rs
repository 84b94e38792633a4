//! Encoding tags and the rectangle header that carries one.
use vstd::prelude::*;
use crate::protocol::Message;
use crate::wire::{be_u16, be_i32, u16_bytes, i32_bytes, put_u16, put_i32, lemma_u16_round_trip, lemma_u16_bytes_of_read, lemma_i32_round_trip, lemma_i32_bytes_of_read, Reader};
use crate::{Error, IoError, Result};

verus! {

/// How the pixels of a rectangle are encoded, or a capability that a client
/// announces: a signed 32-bit tag on the wire.
#[derive(Debug, Clone, Copy, PartialEq, Eq)]
pub enum Encoding {
    /// A tag that this library does not know, kept as it came.
    Unknown(i32),
    Raw,
    CopyRect,
    Rre,
    CoRre,
    Hextile,
    Zlib,
    Tight,
    ZlibHex,
    Zrle,
    /// JPEG quality level, a tag from -32 to -23.
    Jpeg(i32),
    DesktopSize,
    LastRect,
    PointerPosition,
    RichCursor,
    XCursor,
    /// Compression level, a tag from -256 to -247.
    CompressionLevel(i32),
    PointerMotion,
    ExtendedKeyEvent,
    Audio,
    TightPng,
    Led,
    Gii,
    DesktopName,
    ExtendedDesktopSize,
    Xvp,
    Fence,
    ContinuousUpdate,
    CursorWithAlpha,
    /// Fine-grained JPEG quality, a tag from -512 to -412.
    JpegFineGrained(i32),
    /// JPEG chroma subsampling, a tag from -768 to -763.
    JpegSubSampling(i32),
    VmwareCursor,
    VmwareCursorState,
    VmwareCursorPosition,
    VmwareKeyRepeat,
    VmwareLed,
    VmwareDisplayMode,
    VmwareVMState,
    ExtendedClipboard,
}

impl View for Encoding {
    type V = Encoding;

    open spec fn view(&self) -> Encoding {
        *self
    }
}

impl Encoding {
    /// The tag that stands for the encoding on the wire.
    pub open spec fn code(self) -> i32 {
        match self {
            Encoding::Raw => 0,
            Encoding::CopyRect => 1,
            Encoding::Rre => 2,
            Encoding::CoRre => 4,
            Encoding::Hextile => 5,
            Encoding::Zlib => 6,
            Encoding::Tight => 7,
            Encoding::ZlibHex => 8,
            Encoding::Zrle => 16,
            Encoding::DesktopSize => (-223) as i32,
            Encoding::LastRect => (-224) as i32,
            Encoding::PointerPosition => (-232) as i32,
            Encoding::RichCursor => (-239) as i32,
            Encoding::XCursor => (-240) as i32,
            Encoding::PointerMotion => (-257) as i32,
            Encoding::ExtendedKeyEvent => (-258) as i32,
            Encoding::Audio => (-259) as i32,
            Encoding::TightPng => (-260) as i32,
            Encoding::Led => (-261) as i32,
            Encoding::Gii => (-305) as i32,
            Encoding::DesktopName => (-307) as i32,
            Encoding::ExtendedDesktopSize => (-308) as i32,
            Encoding::Xvp => (-309) as i32,
            Encoding::Fence => (-312) as i32,
            Encoding::ContinuousUpdate => (-313) as i32,
            Encoding::CursorWithAlpha => (-314) as i32,
            Encoding::VmwareCursor => 0x574d5664,
            Encoding::VmwareCursorState => 0x574d5665,
            Encoding::VmwareCursorPosition => 0x574d5666,
            Encoding::VmwareKeyRepeat => 0x574d5667,
            Encoding::VmwareLed => 0x574d5668,
            Encoding::VmwareDisplayMode => 0x574d5669,
            Encoding::VmwareVMState => 0x574d566a,
            Encoding::ExtendedClipboard => (-1063131698) as i32,
            Encoding::Jpeg(n) => n,
            Encoding::CompressionLevel(n) => n,
            Encoding::JpegFineGrained(n) => n,
            Encoding::JpegSubSampling(n) => n,
            Encoding::Unknown(n) => n,
        }
    }

    /// The encoding that a tag stands for.
    pub open spec fn of_code(n: i32) -> Encoding {
        if n == 0 {
            Encoding::Raw
        } else if n == 1 {
            Encoding::CopyRect
        } else if n == 2 {
            Encoding::Rre
        } else if n == 4 {
            Encoding::CoRre
        } else if n == 5 {
            Encoding::Hextile
        } else if n == 6 {
            Encoding::Zlib
        } else if n == 7 {
            Encoding::Tight
        } else if n == 8 {
            Encoding::ZlibHex
        } else if n == 16 {
            Encoding::Zrle
        } else if -32 <= n <= -23 {
            Encoding::Jpeg(n)
        } else if n == -223 {
            Encoding::DesktopSize
        } else if n == -224 {
            Encoding::LastRect
        } else if n == -232 {
            Encoding::PointerPosition
        } else if n == -239 {
            Encoding::RichCursor
        } else if n == -240 {
            Encoding::XCursor
        } else if -256 <= n <= -247 {
            Encoding::CompressionLevel(n)
        } else if n == -257 {
            Encoding::PointerMotion
        } else if n == -258 {
            Encoding::ExtendedKeyEvent
        } else if n == -259 {
            Encoding::Audio
        } else if n == -260 {
            Encoding::TightPng
        } else if n == -261 {
            Encoding::Led
        } else if n == -305 {
            Encoding::Gii
        } else if n == -307 {
            Encoding::DesktopName
        } else if n == -308 {
            Encoding::ExtendedDesktopSize
        } else if n == -309 {
            Encoding::Xvp
        } else if n == -312 {
            Encoding::Fence
        } else if n == -313 {
            Encoding::ContinuousUpdate
        } else if n == -314 {
            Encoding::CursorWithAlpha
        } else if -512 <= n <= -412 {
            Encoding::JpegFineGrained(n)
        } else if -768 <= n <= -763 {
            Encoding::JpegSubSampling(n)
        } else if n == 0x574d5664 {
            Encoding::VmwareCursor
        } else if n == 0x574d5665 {
            Encoding::VmwareCursorState
        } else if n == 0x574d5666 {
            Encoding::VmwareCursorPosition
        } else if n == 0x574d5667 {
            Encoding::VmwareKeyRepeat
        } else if n == 0x574d5668 {
            Encoding::VmwareLed
        } else if n == 0x574d5669 {
            Encoding::VmwareDisplayMode
        } else if n == 0x574d566a {
            Encoding::VmwareVMState
        } else if n == -1063131698 {
            Encoding::ExtendedClipboard
        } else {
            Encoding::Unknown(n)
        }
    }

    /// Whether the tag is one of those that this library knows by name.
    pub open spec fn known(n: i32) -> bool {
        !(Encoding::of_code(n) is Unknown)
    }
}

impl Message for Encoding {
    /// An encoding is canonical when it is the one its own tag stands for:
    /// a parameter lies in the range of its variant, and `Unknown` holds no
    /// tag that has a name.
    open spec fn canonical(v: Encoding) -> bool {
        Encoding::of_code(v.code()) == v
    }

    open spec fn encoding(v: Encoding) -> core::result::Result<Seq<u8>, Error> {
        Ok(i32_bytes(v.code()))
    }

    open spec fn decoding(bytes: Seq<u8>) -> core::result::Result<(Encoding, nat), (Error, nat)> {
        if bytes.len() < 4 {
            Err((Error::Io(IoError::UnexpectedEof), 0))
        } else {
            Ok((Encoding::of_code(be_i32(bytes)), 4))
        }
    }

    open spec fn legal(bytes: Seq<u8>) -> bool {
        true
    }

    proof fn lemma_decode_encoded(v: Encoding, rest: Seq<u8>) {
        lemma_i32_round_trip(v.code(), rest);
    }

    proof fn lemma_encode_decoded(bytes: Seq<u8>) {
        lemma_of_code(be_i32(bytes));
        lemma_i32_bytes_of_read(bytes);
    }

    fn read_from(reader: &mut Reader) -> (r: Result<Encoding>) {
        let mut cursor = *reader;
        let encoding = cursor.read_i32()?;
        *reader = cursor;
        Ok(match encoding {
            0 => Encoding::Raw,
            1 => Encoding::CopyRect,
            2 => Encoding::Rre,
            4 => Encoding::CoRre,
            5 => Encoding::Hextile,
            6 => Encoding::Zlib,
            7 => Encoding::Tight,
            8 => Encoding::ZlibHex,
            16 => Encoding::Zrle,
            -32..=-23 => Encoding::Jpeg(encoding),
            -223 => Encoding::DesktopSize,
            -224 => Encoding::LastRect,
            -232 => Encoding::PointerPosition,
            -239 => Encoding::RichCursor,
            -240 => Encoding::XCursor,
            -256..=-247 => Encoding::CompressionLevel(encoding),
            -257 => Encoding::PointerMotion,
            -258 => Encoding::ExtendedKeyEvent,
            -259 => Encoding::Audio,
            -260 => Encoding::TightPng,
            -261 => Encoding::Led,
            -305 => Encoding::Gii,
            -307 => Encoding::DesktopName,
            -308 => Encoding::ExtendedDesktopSize,
            -309 => Encoding::Xvp,
            -312 => Encoding::Fence,
            -313 => Encoding::ContinuousUpdate,
            -314 => Encoding::CursorWithAlpha,
            -512..=-412 => Encoding::JpegFineGrained(encoding),
            -768..=-763 => Encoding::JpegSubSampling(encoding),
            0x574d5664 => Encoding::VmwareCursor,
            0x574d5665 => Encoding::VmwareCursorState,
            0x574d5666 => Encoding::VmwareCursorPosition,
            0x574d5667 => Encoding::VmwareKeyRepeat,
            0x574d5668 => Encoding::VmwareLed,
            0x574d5669 => Encoding::VmwareDisplayMode,
            0x574d566a => Encoding::VmwareVMState,
            -1063131698 => Encoding::ExtendedClipboard,
            n => Encoding::Unknown(n),
        })
    }

    fn write_to(&self, writer: &mut Vec<u8>) -> (r: Result<()>) {
        let encoding: i32 = match self {
            Encoding::Raw => 0,
            Encoding::CopyRect => 1,
            Encoding::Rre => 2,
            Encoding::CoRre => 4,
            Encoding::Hextile => 5,
            Encoding::Zlib => 6,
            Encoding::Tight => 7,
            Encoding::ZlibHex => 8,
            Encoding::Zrle => 16,
            Encoding::DesktopSize => -223,
            Encoding::LastRect => -224,
            Encoding::PointerPosition => -232,
            Encoding::RichCursor => -239,
            Encoding::XCursor => -240,
            Encoding::PointerMotion => -257,
            Encoding::ExtendedKeyEvent => -258,
            Encoding::Audio => -259,
            Encoding::TightPng => -260,
            Encoding::Led => -261,
            Encoding::Gii => -305,
            Encoding::DesktopName => -307,
            Encoding::ExtendedDesktopSize => -308,
            Encoding::Xvp => -309,
            Encoding::Fence => -312,
            Encoding::ContinuousUpdate => -313,
            Encoding::CursorWithAlpha => -314,
            Encoding::VmwareCursor => 0x574d5664,
            Encoding::VmwareCursorState => 0x574d5665,
            Encoding::VmwareCursorPosition => 0x574d5666,
            Encoding::VmwareKeyRepeat => 0x574d5667,
            Encoding::VmwareLed => 0x574d5668,
            Encoding::VmwareDisplayMode => 0x574d5669,
            Encoding::VmwareVMState => 0x574d566a,
            Encoding::ExtendedClipboard => -1063131698,
            Encoding::Jpeg(n) => *n,
            Encoding::CompressionLevel(n) => *n,
            Encoding::JpegFineGrained(n) => *n,
            Encoding::JpegSubSampling(n) => *n,
            Encoding::Unknown(n) => *n,
        };
        put_i32(writer, encoding);
        Ok(())
    }
}

/// A tag without a name survives reading and writing: it is read as
/// `Unknown` of itself, and that is written as the tag, byte for byte.
pub proof fn lemma_unknown_survives(n: i32, rest: Seq<u8>)
    requires
        !Encoding::known(n),
    ensures
        Encoding::decoding(i32_bytes(n) + rest) == Ok::<(Encoding, nat), (Error, nat)>(
            (Encoding::Unknown(n), 4),
        ),
        Encoding::encoding(Encoding::Unknown(n)) == Ok::<Seq<u8>, Error>(i32_bytes(n)),
{
    lemma_i32_round_trip(n, rest);
}

/// The tags of a list of encodings, four bytes each, one after the other.
pub open spec fn encodings_bytes(list: Seq<Encoding>) -> Seq<u8> {
    Seq::new(4 * list.len(), |k: int| i32_bytes(list[k / 4].code())[k % 4])
}

/// The `count` encodings whose tags stand at the head of `bytes`.
pub open spec fn encodings_at(bytes: Seq<u8>, count: nat) -> Seq<Encoding> {
    Seq::new(count, |i: int| Encoding::of_code(be_i32(bytes.skip(4 * i))))
}

/// Whether every encoding of the list is canonical.
pub open spec fn all_canonical(list: Seq<Encoding>) -> bool {
    forall|i: int| 0 <= i < list.len() ==> Encoding::canonical(#[trigger] list[i])
}

/// The tags of a list with one more encoding are the tags of the list and
/// then the tag of that encoding.
pub proof fn lemma_encodings_bytes_push(list: Seq<Encoding>, last: Encoding)
    ensures
        encodings_bytes(list.push(last)) == encodings_bytes(list) + i32_bytes(last.code()),
{
    let longer = list.push(last);
    let joined = encodings_bytes(list) + i32_bytes(last.code());
    assert forall|k: int| 0 <= k < 4 * longer.len() implies encodings_bytes(longer)[k]
        == joined[k] by {
        if k < 4 * list.len() {
            assert(longer[k / 4] == list[k / 4]);
        } else {
            assert(k / 4 == list.len() && k % 4 == k - 4 * list.len());
        }
    }
    assert(encodings_bytes(longer) =~= joined);
}

/// A list of canonical encodings is read back from its tags.
pub proof fn lemma_encodings_round_trip(list: Seq<Encoding>, rest: Seq<u8>)
    requires
        all_canonical(list),
    ensures
        encodings_bytes(list).len() == 4 * list.len(),
        encodings_at(encodings_bytes(list) + rest, list.len()) == list,
{
    let w = encodings_bytes(list) + rest;
    assert forall|i: int| 0 <= i < list.len() implies encodings_at(w, list.len())[i]
        == list[i] by {
        let tag = i32_bytes(list[i].code());
        assert forall|j: int| 0 <= j < 4 implies w.skip(4 * i)[j] == tag[j] by {
            assert((4 * i + j) / 4 == i && (4 * i + j) % 4 == j);
        }
        assert(w.skip(4 * i) =~= tag + w.skip(4 * i + 4));
        lemma_i32_round_trip(list[i].code(), w.skip(4 * i + 4));
        assert(Encoding::canonical(list[i]));
    }
    assert(encodings_at(w, list.len()) =~= list);
}

/// The encoding that a tag stands for has that tag, and is canonical.
pub proof fn lemma_of_code(n: i32)
    ensures
        Encoding::of_code(n).code() == n,
        Encoding::canonical(Encoding::of_code(n)),
{
}

/// What is read as a list of encodings is canonical, and its tags are the
/// bytes read.
pub proof fn lemma_encodings_bytes_of_read(bytes: Seq<u8>, count: nat)
    requires
        bytes.len() >= 4 * count,
    ensures
        all_canonical(encodings_at(bytes, count)),
        encodings_bytes(encodings_at(bytes, count)) == bytes.take(4 * count as int),
{
    let list = encodings_at(bytes, count);
    assert forall|i: int| 0 <= i < list.len() implies Encoding::canonical(#[trigger] list[i]) by {
        lemma_of_code(be_i32(bytes.skip(4 * i)));
    }
    assert forall|k: int| 0 <= k < 4 * count implies encodings_bytes(list)[k] == bytes[k] by {
        let i = k / 4;
        let j = k % 4;
        lemma_of_code(be_i32(bytes.skip(4 * i)));
        lemma_i32_bytes_of_read(bytes.skip(4 * i));
        assert(list[i].code() == be_i32(bytes.skip(4 * i)));
        assert(i32_bytes(be_i32(bytes.skip(4 * i)))[j] == bytes.skip(4 * i).take(4)[j]);
    }
    assert(encodings_bytes(list) =~= bytes.take(4 * count as int));
}

/// The header of one rectangle of a framebuffer update. What follows it on
/// the wire depends on the encoding.
#[derive(Debug, Clone, Copy, PartialEq, Eq)]
pub struct Rectangle {
    pub x_position: u16,
    pub y_position: u16,
    pub width: u16,
    pub height: u16,
    pub encoding: Encoding,
}

impl View for Rectangle {
    type V = Rectangle;

    open spec fn view(&self) -> Rectangle {
        *self
    }
}

impl Message for Rectangle {
    open spec fn canonical(v: Rectangle) -> bool {
        Encoding::canonical(v.encoding)
    }

    open spec fn encoding(v: Rectangle) -> core::result::Result<Seq<u8>, Error> {
        Ok(
            u16_bytes(v.x_position) + u16_bytes(v.y_position) + u16_bytes(v.width) + u16_bytes(
                v.height,
            ) + i32_bytes(v.encoding.code()),
        )
    }

    open spec fn decoding(bytes: Seq<u8>) -> core::result::Result<(Rectangle, nat), (Error, nat)> {
        if bytes.len() < 12 {
            Err((Error::Io(IoError::UnexpectedEof), 0))
        } else {
            Ok(
                (
                    Rectangle {
                        x_position: be_u16(bytes),
                        y_position: be_u16(bytes.skip(2)),
                        width: be_u16(bytes.skip(4)),
                        height: be_u16(bytes.skip(6)),
                        encoding: Encoding::of_code(be_i32(bytes.skip(8))),
                    },
                    12,
                ),
            )
        }
    }

    open spec fn legal(bytes: Seq<u8>) -> bool {
        true
    }

    proof fn lemma_decode_encoded(v: Rectangle, rest: Seq<u8>) {
        let w = Self::encoding(v)->Ok_0;
        assert(w.len() == 12);
        assert((w + rest) =~= u16_bytes(v.x_position) + (w + rest).skip(2));
        lemma_u16_round_trip(v.x_position, (w + rest).skip(2));
        assert((w + rest).skip(2) =~= u16_bytes(v.y_position) + (w + rest).skip(4));
        lemma_u16_round_trip(v.y_position, (w + rest).skip(4));
        assert((w + rest).skip(4) =~= u16_bytes(v.width) + (w + rest).skip(6));
        lemma_u16_round_trip(v.width, (w + rest).skip(6));
        assert((w + rest).skip(6) =~= u16_bytes(v.height) + (w + rest).skip(8));
        lemma_u16_round_trip(v.height, (w + rest).skip(8));
        assert((w + rest).skip(8) =~= i32_bytes(v.encoding.code()) + rest);
        lemma_i32_round_trip(v.encoding.code(), rest);
    }

    proof fn lemma_encode_decoded(bytes: Seq<u8>) {
        let v = Self::decoding(bytes)->Ok_0.0;
        let w = Self::encoding(v)->Ok_0;
        lemma_u16_bytes_of_read(bytes);
        lemma_u16_bytes_of_read(bytes.skip(2));
        lemma_u16_bytes_of_read(bytes.skip(4));
        lemma_u16_bytes_of_read(bytes.skip(6));
        lemma_of_code(be_i32(bytes.skip(8)));
        lemma_i32_bytes_of_read(bytes.skip(8));
        assert(w =~= bytes.take(12));
    }

    fn read_from(reader: &mut Reader) -> (r: Result<Rectangle>) {
        let ghost bytes = reader.remaining();
        let mut cursor = *reader;
        let x_position = cursor.read_u16()?;
        assert(cursor.remaining() == bytes.skip(2));
        let y_position = cursor.read_u16()?;
        assert(cursor.remaining() == bytes.skip(4));
        let width = cursor.read_u16()?;
        assert(cursor.remaining() == bytes.skip(6));
        let height = cursor.read_u16()?;
        assert(cursor.remaining() == bytes.skip(8));
        let encoding = Encoding::read_from(&mut cursor)?;
        assert(cursor.remaining() == bytes.skip(12));
        *reader = cursor;
        Ok(Rectangle { x_position, y_position, width, height, encoding })
    }

    fn write_to(&self, writer: &mut Vec<u8>) -> (r: Result<()>) {
        put_u16(writer, self.x_position);
        put_u16(writer, self.y_position);
        put_u16(writer, self.width);
        put_u16(writer, self.height);
        let _ = self.encoding.write_to(writer);
        assert(writer@ =~= old(writer)@ + Self::encoding(*self)->Ok_0);
        Ok(())
    }
}

} // verus!
