//! Pixel formats, colours and rectangles.
use vstd::prelude::*;
use crate::protocol::Message;
use crate::wire::{be_u16, u16_bytes, flag_byte, zeros, put_u16, put_flag, put_zeros, lemma_u16_round_trip, lemma_u16_bytes_of_read, Reader};
use crate::{Error, IoError, Result};

verus! {

/// How a pixel is laid out in memory and on the wire.
#[derive(Debug, Clone, Copy, PartialEq, Eq)]
pub struct PixelFormat {
    pub bits_per_pixel: u8,
    pub depth: u8,
    pub big_endian: bool,
    pub true_colour: bool,
    pub red_max: u16,
    pub green_max: u16,
    pub blue_max: u16,
    pub red_shift: u8,
    pub green_shift: u8,
    pub blue_shift: u8,
}

impl View for PixelFormat {
    type V = PixelFormat;

    open spec fn view(&self) -> PixelFormat {
        *self
    }
}

impl PixelFormat {
    /// The format with four bytes to a pixel, of which three hold the colour:
    /// red in the lowest byte, then green, then blue, most significant byte
    /// first on the wire.
    pub fn rgb8888() -> (format: PixelFormat)
        ensures
            format == (PixelFormat {
                bits_per_pixel: 32,
                depth: 24,
                big_endian: true,
                true_colour: true,
                red_max: 255,
                green_max: 255,
                blue_max: 255,
                red_shift: 0,
                green_shift: 8,
                blue_shift: 16,
            }),
    {
        PixelFormat {
            bits_per_pixel: 32,
            depth: 24,
            big_endian: true,
            true_colour: true,
            red_max: 255,
            green_max: 255,
            blue_max: 255,
            red_shift: 0,
            green_shift: 8,
            blue_shift: 16,
        }
    }
}

impl Message for PixelFormat {
    open spec fn canonical(v: PixelFormat) -> bool {
        true
    }

    open spec fn encoding(v: PixelFormat) -> core::result::Result<Seq<u8>, Error> {
        Ok(
            seq![v.bits_per_pixel, v.depth, flag_byte(v.big_endian), flag_byte(v.true_colour)]
                + u16_bytes(v.red_max) + u16_bytes(v.green_max) + u16_bytes(v.blue_max)
                + seq![v.red_shift, v.green_shift, v.blue_shift] + zeros(3),
        )
    }

    open spec fn decoding(bytes: Seq<u8>) -> core::result::Result<(PixelFormat, nat), (Error, nat)> {
        if bytes.len() < 16 {
            Err((Error::Io(IoError::UnexpectedEof), 0))
        } else {
            Ok(
                (
                    PixelFormat {
                        bits_per_pixel: bytes[0],
                        depth: bytes[1],
                        big_endian: bytes[2] != 0,
                        true_colour: bytes[3] != 0,
                        red_max: be_u16(bytes.skip(4)),
                        green_max: be_u16(bytes.skip(6)),
                        blue_max: be_u16(bytes.skip(8)),
                        red_shift: bytes[10],
                        green_shift: bytes[11],
                        blue_shift: bytes[12],
                    },
                    16,
                ),
            )
        }
    }

    open spec fn legal(bytes: Seq<u8>) -> bool {
        bytes.len() >= 16 ==> bytes[2] <= 1 && bytes[3] <= 1 && bytes[13] == 0 && bytes[14] == 0
            && bytes[15] == 0
    }

    proof fn lemma_decode_encoded(v: PixelFormat, rest: Seq<u8>) {
        let w = Self::encoding(v)->Ok_0;
        assert(w.len() == 16);
        assert((w + rest).skip(4) =~= u16_bytes(v.red_max) + (w + rest).skip(6));
        assert((w + rest).skip(6) =~= u16_bytes(v.green_max) + (w + rest).skip(8));
        assert((w + rest).skip(8) =~= u16_bytes(v.blue_max) + (w + rest).skip(10));
        lemma_u16_round_trip(v.red_max, (w + rest).skip(6));
        lemma_u16_round_trip(v.green_max, (w + rest).skip(8));
        lemma_u16_round_trip(v.blue_max, (w + rest).skip(10));
    }

    proof fn lemma_encode_decoded(bytes: Seq<u8>) {
        let v = Self::decoding(bytes)->Ok_0.0;
        let w = Self::encoding(v)->Ok_0;
        assert(w.len() == 16);
        if Self::legal(bytes) {
            lemma_u16_bytes_of_read(bytes.skip(4));
            lemma_u16_bytes_of_read(bytes.skip(6));
            lemma_u16_bytes_of_read(bytes.skip(8));
            assert(w =~= bytes.take(16));
        }
    }

    fn read_from(reader: &mut Reader) -> (r: Result<PixelFormat>) {
        let ghost bytes = reader.remaining();
        let mut cursor = *reader;
        let bits_per_pixel = cursor.read_u8()?;
        let depth = cursor.read_u8()?;
        let big_endian = cursor.read_u8()? != 0;
        let true_colour = cursor.read_u8()? != 0;
        assert(cursor.remaining() == bytes.skip(4));
        let red_max = cursor.read_u16()?;
        assert(cursor.remaining() == bytes.skip(6));
        let green_max = cursor.read_u16()?;
        assert(cursor.remaining() == bytes.skip(8));
        let blue_max = cursor.read_u16()?;
        assert(cursor.remaining() == bytes.skip(10));
        let red_shift = cursor.read_u8()?;
        let green_shift = cursor.read_u8()?;
        let blue_shift = cursor.read_u8()?;
        assert(cursor.remaining() == bytes.skip(13));
        cursor.skip(3)?;
        assert(cursor.remaining() == bytes.skip(16));
        *reader = cursor;
        Ok(
            PixelFormat {
                bits_per_pixel,
                depth,
                big_endian,
                true_colour,
                red_max,
                green_max,
                blue_max,
                red_shift,
                green_shift,
                blue_shift,
            },
        )
    }

    fn write_to(&self, writer: &mut Vec<u8>) -> (r: Result<()>) {
        writer.push(self.bits_per_pixel);
        writer.push(self.depth);
        put_flag(writer, self.big_endian);
        put_flag(writer, self.true_colour);
        put_u16(writer, self.red_max);
        put_u16(writer, self.green_max);
        put_u16(writer, self.blue_max);
        writer.push(self.red_shift);
        writer.push(self.green_shift);
        writer.push(self.blue_shift);
        put_zeros(writer, 3);
        assert(writer@ =~= old(writer)@ + Self::encoding(*self)->Ok_0);
        Ok(())
    }
}

/// One entry of a colour map: the three channel intensities.
#[derive(Debug, Clone, Copy, PartialEq, Eq)]
pub struct Colour {
    pub red: u16,
    pub green: u16,
    pub blue: u16,
}

impl View for Colour {
    type V = Colour;

    open spec fn view(&self) -> Colour {
        *self
    }
}

impl Message for Colour {
    open spec fn canonical(v: Colour) -> bool {
        true
    }

    open spec fn encoding(v: Colour) -> core::result::Result<Seq<u8>, Error> {
        Ok(u16_bytes(v.red) + u16_bytes(v.green) + u16_bytes(v.blue))
    }

    open spec fn decoding(bytes: Seq<u8>) -> core::result::Result<(Colour, nat), (Error, nat)> {
        if bytes.len() < 6 {
            Err((Error::Io(IoError::UnexpectedEof), 0))
        } else {
            Ok(
                (
                    Colour {
                        red: be_u16(bytes),
                        green: be_u16(bytes.skip(2)),
                        blue: be_u16(bytes.skip(4)),
                    },
                    6,
                ),
            )
        }
    }

    open spec fn legal(bytes: Seq<u8>) -> bool {
        true
    }

    proof fn lemma_decode_encoded(v: Colour, rest: Seq<u8>) {
        let w = Self::encoding(v)->Ok_0;
        assert(w.len() == 6);
        assert((w + rest) =~= u16_bytes(v.red) + (w + rest).skip(2));
        lemma_u16_round_trip(v.red, (w + rest).skip(2));
        assert((w + rest).skip(2) =~= u16_bytes(v.green) + (w + rest).skip(4));
        lemma_u16_round_trip(v.green, (w + rest).skip(4));
        assert((w + rest).skip(4) =~= u16_bytes(v.blue) + (w + rest).skip(6));
        lemma_u16_round_trip(v.blue, (w + rest).skip(6));
    }

    proof fn lemma_encode_decoded(bytes: Seq<u8>) {
        let v = Self::decoding(bytes)->Ok_0.0;
        let w = Self::encoding(v)->Ok_0;
        lemma_u16_bytes_of_read(bytes);
        lemma_u16_bytes_of_read(bytes.skip(2));
        lemma_u16_bytes_of_read(bytes.skip(4));
        assert(w =~= bytes.take(6));
    }

    fn read_from(reader: &mut Reader) -> (r: Result<Colour>) {
        let ghost bytes = reader.remaining();
        let mut cursor = *reader;
        let red = cursor.read_u16()?;
        assert(cursor.remaining() == bytes.skip(2));
        let green = cursor.read_u16()?;
        assert(cursor.remaining() == bytes.skip(4));
        let blue = cursor.read_u16()?;
        assert(cursor.remaining() == bytes.skip(6));
        *reader = cursor;
        Ok(Colour { red, green, blue })
    }

    fn write_to(&self, writer: &mut Vec<u8>) -> (r: Result<()>) {
        put_u16(writer, self.red);
        put_u16(writer, self.green);
        put_u16(writer, self.blue);
        assert(writer@ =~= old(writer)@ + Self::encoding(*self)->Ok_0);
        Ok(())
    }
}

/// A pixel format is sixteen bytes on the wire: writing one gives sixteen
/// bytes, reading one succeeds just when sixteen bytes are there, and it
/// takes all sixteen.
pub proof fn lemma_sixteen_bytes(v: PixelFormat, bytes: Seq<u8>)
    ensures
        PixelFormat::encoding(v) is Ok,
        PixelFormat::encoding(v)->Ok_0.len() == 16,
        PixelFormat::decoding(bytes) is Ok <==> bytes.len() >= 16,
        PixelFormat::decoding(bytes) is Ok ==> PixelFormat::decoding(bytes)->Ok_0.1 == 16,
{
}

/// The wire form of a list of colours, six bytes each, one after the other.
pub open spec fn colours_bytes(list: Seq<Colour>) -> Seq<u8> {
    Seq::new(6 * list.len(), |k: int| Colour::encoding(list[k / 6])->Ok_0[k % 6])
}

/// The `count` colours that stand at the head of `bytes`.
pub open spec fn colours_at(bytes: Seq<u8>, count: nat) -> Seq<Colour> {
    Seq::new(count, |i: int| Colour::decoding(bytes.skip(6 * i))->Ok_0.0)
}

/// The wire form of a list with one more colour is that of the list and
/// then that of the colour.
pub proof fn lemma_colours_bytes_push(list: Seq<Colour>, last: Colour)
    ensures
        colours_bytes(list.push(last)) == colours_bytes(list) + Colour::encoding(last)->Ok_0,
{
    let longer = list.push(last);
    let joined = colours_bytes(list) + Colour::encoding(last)->Ok_0;
    assert forall|k: int| 0 <= k < 6 * longer.len() implies colours_bytes(longer)[k]
        == joined[k] by {
        if k < 6 * list.len() {
            assert(longer[k / 6] == list[k / 6]);
        } else {
            assert(k / 6 == list.len() && k % 6 == k - 6 * list.len());
        }
    }
    assert(colours_bytes(longer) =~= joined);
}

/// A list of colours is read back from its wire form.
pub proof fn lemma_colours_round_trip(list: Seq<Colour>, rest: Seq<u8>)
    ensures
        colours_bytes(list).len() == 6 * list.len(),
        colours_at(colours_bytes(list) + rest, list.len()) == list,
{
    let w = colours_bytes(list) + rest;
    assert forall|i: int| 0 <= i < list.len() implies colours_at(w, list.len())[i]
        == list[i] by {
        let one = Colour::encoding(list[i])->Ok_0;
        assert forall|j: int| 0 <= j < 6 implies w.skip(6 * i)[j] == one[j] by {
            assert((6 * i + j) / 6 == i && (6 * i + j) % 6 == j);
        }
        assert(w.skip(6 * i) =~= one + w.skip(6 * i + 6));
        Colour::lemma_decode_encoded(list[i], w.skip(6 * i + 6));
    }
    assert(colours_at(w, list.len()) =~= list);
}

/// The wire form of what is read as a list of colours is the bytes read.
pub proof fn lemma_colours_bytes_of_read(bytes: Seq<u8>, count: nat)
    requires
        bytes.len() >= 6 * count,
    ensures
        colours_bytes(colours_at(bytes, count)) == bytes.take(6 * count as int),
{
    let list = colours_at(bytes, count);
    assert forall|k: int| 0 <= k < 6 * count implies colours_bytes(list)[k] == bytes[k] by {
        let i = k / 6;
        let j = k % 6;
        Colour::lemma_encode_decoded(bytes.skip(6 * i));
        assert(Colour::encoding(list[i])->Ok_0[j] == bytes.skip(6 * i).take(6)[j]);
    }
    assert(colours_bytes(list) =~= bytes.take(6 * count as int));
}

/// The payload of a CopyRect rectangle: where on the screen to copy from.
#[derive(Debug, Clone, Copy, PartialEq, Eq)]
pub struct CopyRect {
    pub src_x_position: u16,
    pub src_y_position: u16,
}

impl View for CopyRect {
    type V = CopyRect;

    open spec fn view(&self) -> CopyRect {
        *self
    }
}

impl Message for CopyRect {
    open spec fn canonical(v: CopyRect) -> bool {
        true
    }

    open spec fn encoding(v: CopyRect) -> core::result::Result<Seq<u8>, Error> {
        Ok(u16_bytes(v.src_x_position) + u16_bytes(v.src_y_position))
    }

    open spec fn decoding(bytes: Seq<u8>) -> core::result::Result<(CopyRect, nat), (Error, nat)> {
        if bytes.len() < 4 {
            Err((Error::Io(IoError::UnexpectedEof), 0))
        } else {
            Ok(
                (
                    CopyRect {
                        src_x_position: be_u16(bytes),
                        src_y_position: be_u16(bytes.skip(2)),
                    },
                    4,
                ),
            )
        }
    }

    open spec fn legal(bytes: Seq<u8>) -> bool {
        true
    }

    proof fn lemma_decode_encoded(v: CopyRect, rest: Seq<u8>) {
        let w = Self::encoding(v)->Ok_0;
        assert(w.len() == 4);
        assert((w + rest) =~= u16_bytes(v.src_x_position) + (w + rest).skip(2));
        lemma_u16_round_trip(v.src_x_position, (w + rest).skip(2));
        assert((w + rest).skip(2) =~= u16_bytes(v.src_y_position) + (w + rest).skip(4));
        lemma_u16_round_trip(v.src_y_position, (w + rest).skip(4));
    }

    proof fn lemma_encode_decoded(bytes: Seq<u8>) {
        let v = Self::decoding(bytes)->Ok_0.0;
        let w = Self::encoding(v)->Ok_0;
        lemma_u16_bytes_of_read(bytes);
        lemma_u16_bytes_of_read(bytes.skip(2));
        assert(w =~= bytes.take(4));
    }

    fn read_from(reader: &mut Reader) -> (r: Result<CopyRect>) {
        let ghost bytes = reader.remaining();
        let mut cursor = *reader;
        let src_x_position = cursor.read_u16()?;
        assert(cursor.remaining() == bytes.skip(2));
        let src_y_position = cursor.read_u16()?;
        assert(cursor.remaining() == bytes.skip(4));
        *reader = cursor;
        Ok(CopyRect { src_x_position, src_y_position })
    }

    fn write_to(&self, writer: &mut Vec<u8>) -> (r: Result<()>) {
        put_u16(writer, self.src_x_position);
        put_u16(writer, self.src_y_position);
        assert(writer@ =~= old(writer)@ + Self::encoding(*self)->Ok_0);
        Ok(())
    }
}

/// A region of the framebuffer.
#[derive(Debug, Clone, Copy, PartialEq, Eq)]
pub struct Rect {
    pub left: u16,
    pub top: u16,
    pub width: u16,
    pub height: u16,
}

impl View for Rect {
    type V = Rect;

    open spec fn view(&self) -> Rect {
        *self
    }
}

impl Message for Rect {
    open spec fn canonical(v: Rect) -> bool {
        true
    }

    open spec fn encoding(v: Rect) -> core::result::Result<Seq<u8>, Error> {
        Ok(u16_bytes(v.left) + u16_bytes(v.top) + u16_bytes(v.width) + u16_bytes(v.height))
    }

    open spec fn decoding(bytes: Seq<u8>) -> core::result::Result<(Rect, nat), (Error, nat)> {
        if bytes.len() < 8 {
            Err((Error::Io(IoError::UnexpectedEof), 0))
        } else {
            Ok(
                (
                    Rect {
                        left: be_u16(bytes),
                        top: be_u16(bytes.skip(2)),
                        width: be_u16(bytes.skip(4)),
                        height: be_u16(bytes.skip(6)),
                    },
                    8,
                ),
            )
        }
    }

    open spec fn legal(bytes: Seq<u8>) -> bool {
        true
    }

    proof fn lemma_decode_encoded(v: Rect, rest: Seq<u8>) {
        let w = Self::encoding(v)->Ok_0;
        assert(w.len() == 8);
        assert((w + rest) =~= u16_bytes(v.left) + (w + rest).skip(2));
        lemma_u16_round_trip(v.left, (w + rest).skip(2));
        assert((w + rest).skip(2) =~= u16_bytes(v.top) + (w + rest).skip(4));
        lemma_u16_round_trip(v.top, (w + rest).skip(4));
        assert((w + rest).skip(4) =~= u16_bytes(v.width) + (w + rest).skip(6));
        lemma_u16_round_trip(v.width, (w + rest).skip(6));
        assert((w + rest).skip(6) =~= u16_bytes(v.height) + (w + rest).skip(8));
        lemma_u16_round_trip(v.height, (w + rest).skip(8));
    }

    proof fn lemma_encode_decoded(bytes: Seq<u8>) {
        let v = Self::decoding(bytes)->Ok_0.0;
        let w = Self::encoding(v)->Ok_0;
        lemma_u16_bytes_of_read(bytes);
        lemma_u16_bytes_of_read(bytes.skip(2));
        lemma_u16_bytes_of_read(bytes.skip(4));
        lemma_u16_bytes_of_read(bytes.skip(6));
        assert(w =~= bytes.take(8));
    }

    fn read_from(reader: &mut Reader) -> (r: Result<Rect>) {
        let ghost bytes = reader.remaining();
        let mut cursor = *reader;
        let left = cursor.read_u16()?;
        assert(cursor.remaining() == bytes.skip(2));
        let top = cursor.read_u16()?;
        assert(cursor.remaining() == bytes.skip(4));
        let width = cursor.read_u16()?;
        assert(cursor.remaining() == bytes.skip(6));
        let height = cursor.read_u16()?;
        assert(cursor.remaining() == bytes.skip(8));
        *reader = cursor;
        Ok(Rect { left, top, width, height })
    }

    fn write_to(&self, writer: &mut Vec<u8>) -> (r: Result<()>) {
        put_u16(writer, self.left);
        put_u16(writer, self.top);
        put_u16(writer, self.width);
        put_u16(writer, self.height);
        assert(writer@ =~= old(writer)@ + Self::encoding(*self)->Ok_0);
        Ok(())
    }
}

impl Rect {
    /// The region with the given corner and size.
    pub fn new(left: u16, top: u16, width: u16, height: u16) -> (rect: Rect)
        ensures
            rect == (Rect { left, top, width, height }),
    {
        Rect { left, top, width, height }
    }

    /// The region of no size at the origin.
    pub fn empty() -> (rect: Rect)
        ensures
            rect == (Rect { left: 0, top: 0, width: 0, height: 0 }),
    {
        Rect::new(0, 0, 0, 0)
    }
}

} // verus!
