//! The client's side of a framebuffer update: what follows the header of
//! each rectangle, and what the server's messages and rectangles come to
//! for the one who watches the screen.
use vstd::prelude::*;
use crate::protocol::Message;
use crate::protocol::encoding::{Encoding, Rectangle};
use crate::protocol::pixel::{Colour, CopyRect, PixelFormat, Rect};
use crate::protocol::s2c::{S2C, S2CView};
use crate::wire::Reader;
use crate::zrle::stream::{decoded, DecodedTile, Decoder};
use crate::{Error, IoError, Result};

verus! {

/// What follows the header of a rectangle on the wire.
#[derive(Debug, PartialEq, Eq)]
pub enum Payload {
    /// The pixels of the rectangle in the pixel format, row by row.
    Raw(Vec<u8>),
    /// Where on the screen to copy the rectangle from.
    CopyRect(CopyRect),
    /// The zlib bytes that carry the tiles of the rectangle, to be handed to
    /// the ZRLE decoder of the session.
    Zrle(Vec<u8>),
    /// The bytes of a pseudo-encoding, as they came. Only their number is
    /// known to this library.
    Pseudo(Vec<u8>),
}

/// The mathematical view of a [`Payload`].
pub ghost enum PayloadView {
    Raw(Seq<u8>),
    CopyRect(CopyRect),
    Zrle(Seq<u8>),
    Pseudo(Seq<u8>),
}

impl View for Payload {
    type V = PayloadView;

    open spec fn view(&self) -> PayloadView {
        match *self {
            Payload::Raw(pixels) => PayloadView::Raw(pixels@),
            Payload::CopyRect(source) => PayloadView::CopyRect(source),
            Payload::Zrle(data) => PayloadView::Zrle(data@),
            Payload::Pseudo(bytes) => PayloadView::Pseudo(bytes@),
        }
    }
}

/// How many bytes the pixels of a rectangle of `width` by `height` pixels
/// take in `format`.
pub open spec fn pixels_length(format: PixelFormat, width: u16, height: u16) -> nat {
    (width as nat) * (height as nat) * ((format.bits_per_pixel / 8) as nat)
}

/// How many bytes a bitmap of one bit to a pixel takes, its rows filled up
/// to whole bytes.
pub open spec fn bitmap_length(width: u16, height: u16) -> nat {
    (((width + 7) / 8) as nat) * (height as nat)
}

/// How many bytes follow the header of a rectangle with a pseudo-encoding,
/// for those whose length this library can account for: none for a change
/// of desktop size, the last rectangle and the pointer position; pixels
/// and a bitmap for a cursor; and for an X cursor two colours and two
/// bitmaps, or nothing if the cursor is empty.
pub open spec fn pseudo_length(rectangle: Rectangle, format: PixelFormat) -> Option<nat> {
    match rectangle.encoding {
        Encoding::DesktopSize => Some(0),
        Encoding::LastRect => Some(0),
        Encoding::PointerPosition => Some(0),
        Encoding::RichCursor => Some(
            pixels_length(format, rectangle.width, rectangle.height) + bitmap_length(
                rectangle.width,
                rectangle.height,
            ),
        ),
        Encoding::XCursor => Some(
            if rectangle.width == 0 || rectangle.height == 0 {
                0
            } else {
                6 + 2 * bitmap_length(rectangle.width, rectangle.height)
            },
        ),
        _ => None,
    }
}

/// What reading the payload of a rectangle from a source that holds
/// `bytes` gives: the payload and the number of bytes taken for it, or the
/// error. An encoding whose payload this library cannot measure is
/// `Unexpected`.
pub open spec fn payload_decoding(rectangle: Rectangle, format: PixelFormat, bytes: Seq<u8>) -> core::result::Result<
    (PayloadView, nat),
    Error,
> {
    match rectangle.encoding {
        Encoding::Raw => if bytes.len() < pixels_length(format, rectangle.width, rectangle.height) {
            Err(Error::Io(IoError::UnexpectedEof))
        } else {
            Ok(
                (
                    PayloadView::Raw(
                        bytes.take(
                            pixels_length(format, rectangle.width, rectangle.height) as int,
                        ),
                    ),
                    pixels_length(format, rectangle.width, rectangle.height),
                ),
            )
        },
        Encoding::CopyRect => match CopyRect::decoding(bytes) {
            Err((e, _)) => Err(e),
            Ok((source, n)) => Ok((PayloadView::CopyRect(source), n)),
        },
        Encoding::Zrle => match Vec::<u8>::decoding(bytes) {
            Err((e, _)) => Err(e),
            Ok((data, n)) => Ok((PayloadView::Zrle(data), n)),
        },
        _ => match pseudo_length(rectangle, format) {
            None => Err(Error::Unexpected("encoding")),
            Some(length) => if bytes.len() < length {
                Err(Error::Io(IoError::UnexpectedEof))
            } else {
                Ok((PayloadView::Pseudo(bytes.take(length as int)), length))
            },
        },
    }
}

/// How many bytes the pixels of a rectangle take.
fn length_of_pixels(format: &PixelFormat, width: u16, height: u16) -> (length: u64)
    ensures
        length == pixels_length(*format, width, height),
        length <= 0xFFFF * 0xFFFF * 31,
{
    assert(width * height <= 0xFFFF * 0xFFFF) by (nonlinear_arith)
        requires
            width <= 0xFFFF,
            height <= 0xFFFF,
    ;
    let area = width as u64 * height as u64;
    let size = (format.bits_per_pixel / 8) as u64;
    assert(area * size <= 0xFFFF * 0xFFFF * 31) by (nonlinear_arith)
        requires
            area <= 0xFFFF * 0xFFFF,
            size <= 31,
    ;
    area * size
}

/// How many bytes a bitmap of one bit to a pixel takes.
fn length_of_bitmap(width: u16, height: u16) -> (length: u64)
    ensures
        length == bitmap_length(width, height),
        length <= 0x2000 * 0xFFFF,
{
    let row = (width as u64 + 7) / 8;
    assert(row * height <= 0x2000 * 0xFFFF) by (nonlinear_arith)
        requires
            row <= 0x2000,
            height <= 0xFFFF,
    ;
    row * height as u64
}

/// How many bytes follow the header of a rectangle with a pseudo-encoding.
fn length_of_pseudo(rectangle: &Rectangle, format: &PixelFormat) -> (length: Option<u64>)
    ensures
        match pseudo_length(*rectangle, *format) {
            None => length is None,
            Some(n) => length == Some(n as u64) && n <= u64::MAX,
        },
{
    match rectangle.encoding {
        Encoding::DesktopSize => Some(0),
        Encoding::LastRect => Some(0),
        Encoding::PointerPosition => Some(0),
        Encoding::RichCursor => Some(
            length_of_pixels(format, rectangle.width, rectangle.height) + length_of_bitmap(
                rectangle.width,
                rectangle.height,
            ),
        ),
        Encoding::XCursor => Some(
            if rectangle.width == 0 || rectangle.height == 0 {
                0
            } else {
                6 + 2 * length_of_bitmap(rectangle.width, rectangle.height)
            },
        ),
        _ => None,
    }
}

/// Reads `length` bytes, of which there may be more than memory can hold.
fn read_long(cursor: &mut Reader, length: u64) -> (r: Result<Vec<u8>>)
    ensures
        old(cursor).remaining().len() >= length ==> r is Ok && r->Ok_0@ == old(cursor).remaining().take(length as int) && final(cursor).remaining() == old(cursor).remaining().skip(length as int),
        old(cursor).remaining().len() < length ==> r == Err::<Vec<u8>, Error>(
            Error::Io(IoError::UnexpectedEof),
        ) && final(cursor).remaining() == old(cursor).remaining(),
{
    if cursor.available() as u64 >= length {
        cursor.read_bytes(length as usize)
    } else {
        Err(Error::Io(IoError::UnexpectedEof))
    }
}

/// Reads what follows the header `rectangle` of a rectangle, for pixels in
/// `format`. On success the cursor has moved past exactly the bytes of the
/// payload; on failure it has not moved.
pub fn read_payload(reader: &mut Reader, rectangle: &Rectangle, format: &PixelFormat) -> (r: Result<
    Payload,
>)
    ensures
        match payload_decoding(*rectangle, *format, old(reader).remaining()) {
            Ok((v, n)) => r is Ok && r->Ok_0@ == v && final(reader).remaining() == old(reader).remaining().skip(n as int),
            Err(e) => r == Err::<Payload, Error>(e) && final(reader).remaining() == old(reader).remaining(),
        },
{
    let mut cursor = *reader;
    let payload = match rectangle.encoding {
        Encoding::Raw => Payload::Raw(
            read_long(&mut cursor, length_of_pixels(format, rectangle.width, rectangle.height))?,
        ),
        Encoding::CopyRect => Payload::CopyRect(CopyRect::read_from(&mut cursor)?),
        Encoding::Zrle => Payload::Zrle(Vec::<u8>::read_from(&mut cursor)?),
        _ => match length_of_pseudo(rectangle, format) {
            None => {
                return Err(Error::Unexpected("encoding"));
            },
            Some(length) => Payload::Pseudo(read_long(&mut cursor, length)?),
        },
    };
    *reader = cursor;
    Ok(payload)
}

/// What a rectangle holds, the payload made sense of.
#[derive(Debug, PartialEq, Eq)]
pub enum Content {
    /// The pixels of the rectangle in the pixel format, row by row.
    Raw(Vec<u8>),
    /// Where on the screen to copy the rectangle from.
    CopyRect(CopyRect),
    /// The tiles of the rectangle, each with its place and its pixels.
    Tiles(Vec<DecodedTile>),
    /// The bytes of a pseudo-encoding, as they came.
    Pseudo(Vec<u8>),
}

/// The mathematical view of a [`Content`].
pub ghost enum ContentView {
    Raw(Seq<u8>),
    CopyRect(CopyRect),
    Tiles(Seq<(Rect, Seq<u8>)>),
    Pseudo(Seq<u8>),
}

/// The places and pixels of a list of tiles.
pub open spec fn placed(tiles: Seq<DecodedTile>) -> Seq<(Rect, Seq<u8>)> {
    Seq::new(tiles.len(), |i: int| (tiles[i].rect, tiles[i].pixels@))
}

impl View for Content {
    type V = ContentView;

    open spec fn view(&self) -> ContentView {
        match *self {
            Content::Raw(pixels) => ContentView::Raw(pixels@),
            Content::CopyRect(source) => ContentView::CopyRect(source),
            Content::Tiles(tiles) => ContentView::Tiles(placed(tiles@)),
            Content::Pseudo(bytes) => ContentView::Pseudo(bytes@),
        }
    }
}

/// The region of the screen that a rectangle covers.
pub open spec fn region(rectangle: Rectangle) -> Rect {
    Rect {
        left: rectangle.x_position,
        top: rectangle.y_position,
        width: rectangle.width,
        height: rectangle.height,
    }
}

/// Makes sense of the payload of a rectangle. A ZRLE payload goes through
/// the decoder of the session, which may fail; every other payload is
/// taken as it is.
pub fn unfold(payload: Payload, rectangle: &Rectangle, format: &PixelFormat, decoder: &mut Decoder) -> (r:
    Result<Content>)
    ensures
        match payload@ {
            PayloadView::Raw(pixels) => r is Ok && r->Ok_0@ == ContentView::Raw(pixels),
            PayloadView::CopyRect(source) => r is Ok && r->Ok_0@ == ContentView::CopyRect(source),
            PayloadView::Pseudo(bytes) => r is Ok && r->Ok_0@ == ContentView::Pseudo(bytes),
            PayloadView::Zrle(data) => match r {
                Ok(content) => content matches Content::Tiles(tiles) && decoded(
                    *format,
                    region(*rectangle),
                    tiles@,
                ),
                Err(e) => e == Error::Io(IoError::InvalidData) || e == Error::Unexpected(
                    "ZRLE tile",
                ),
            },
        },
        final(decoder).fed() == (match payload@ {
            PayloadView::Zrle(data) => if Decoder::admits(*format, region(*rectangle)) {
                old(decoder).fed() + data
            } else {
                old(decoder).fed()
            },
            _ => old(decoder).fed(),
        }),
{
    match payload {
        Payload::Raw(pixels) => Ok(Content::Raw(pixels)),
        Payload::CopyRect(source) => Ok(Content::CopyRect(source)),
        Payload::Pseudo(bytes) => Ok(Content::Pseudo(bytes)),
        Payload::Zrle(data) => {
            let rect = Rect::new(
                rectangle.x_position,
                rectangle.y_position,
                rectangle.width,
                rectangle.height,
            );
            let tiles = decoder.decode(format, &rect, data.as_slice())?;
            Ok(Content::Tiles(tiles))
        },
    }
}

/// What the server shows or says, piece by piece.
#[derive(Debug, PartialEq, Eq)]
pub enum Event {
    /// The framebuffer has a new size.
    Resize(u16, u16),
    /// Pixels of the pixel format for a region of the framebuffer.
    PutPixels(Rect, Vec<u8>),
    /// A region of the framebuffer is to be copied to another place.
    CopyPixels { src: Rect, dst: Rect },
    /// A rectangle with a pseudo-encoding, its payload as it came.
    Pseudo(Rectangle, Vec<u8>),
    /// The last rectangle of a framebuffer update has been shown.
    EndOfFrame,
    SetColourMap { first_colour: u16, colours: Vec<Colour> },
    Bell,
    Clipboard(String),
}

/// The mathematical view of an [`Event`].
pub ghost enum EventView {
    Resize(u16, u16),
    PutPixels(Rect, Seq<u8>),
    CopyPixels { src: Rect, dst: Rect },
    Pseudo(Rectangle, Seq<u8>),
    EndOfFrame,
    SetColourMap { first_colour: u16, colours: Seq<Colour> },
    Bell,
    Clipboard(Seq<char>),
}

impl View for Event {
    type V = EventView;

    open spec fn view(&self) -> EventView {
        match *self {
            Event::Resize(width, height) => EventView::Resize(width, height),
            Event::PutPixels(rect, pixels) => EventView::PutPixels(rect, pixels@),
            Event::CopyPixels { src, dst } => EventView::CopyPixels { src, dst },
            Event::Pseudo(rectangle, bytes) => EventView::Pseudo(rectangle, bytes@),
            Event::EndOfFrame => EventView::EndOfFrame,
            Event::SetColourMap { first_colour, colours } => EventView::SetColourMap {
                first_colour,
                colours: colours@,
            },
            Event::Bell => EventView::Bell,
            Event::Clipboard(text) => EventView::Clipboard(text@),
        }
    }
}

/// The views of a list of events.
pub open spec fn views(events: Seq<Event>) -> Seq<EventView> {
    Seq::new(events.len(), |i: int| events[i]@)
}

/// What a message comes to when `left` rectangles of a framebuffer update
/// are outstanding: how many are outstanding after it, and the events. The
/// head of a framebuffer update says how many rectangles follow, and is
/// the end of the frame at once if none does; every other message is one
/// event.
pub open spec fn message_step(left: nat, message: S2CView) -> (nat, Seq<EventView>) {
    match message {
        S2CView::FramebufferUpdate { count } => (
            count as nat,
            if count == 0 {
                seq![EventView::EndOfFrame]
            } else {
                Seq::empty()
            },
        ),
        S2CView::SetColourMapEntries { first_colour, colours } => (
            left,
            seq![EventView::SetColourMap { first_colour, colours }],
        ),
        S2CView::Bell => (left, seq![EventView::Bell]),
        S2CView::CutText(text) => (left, seq![EventView::Clipboard(text)]),
    }
}

/// What a rectangle shows: raw pixels are put where the rectangle lies,
/// a copy is made from the place that the payload names to where the
/// rectangle lies, every tile is put at its own place, a change of desktop
/// size is a resize to the size of the rectangle, and any other
/// pseudo-encoding is passed on as it came.
pub open spec fn shown(rectangle: Rectangle, content: ContentView) -> Seq<EventView> {
    match content {
        ContentView::Raw(pixels) => seq![EventView::PutPixels(region(rectangle), pixels)],
        ContentView::CopyRect(source) => seq![
            EventView::CopyPixels {
                src: Rect {
                    left: source.src_x_position,
                    top: source.src_y_position,
                    width: rectangle.width,
                    height: rectangle.height,
                },
                dst: region(rectangle),
            },
        ],
        ContentView::Tiles(tiles) => Seq::new(
            tiles.len(),
            |i: int| EventView::PutPixels(tiles[i].0, tiles[i].1),
        ),
        ContentView::Pseudo(bytes) => if rectangle.encoding == Encoding::DesktopSize {
            seq![EventView::Resize(rectangle.width, rectangle.height)]
        } else {
            seq![EventView::Pseudo(rectangle, bytes)]
        },
    }
}

/// What a rectangle comes to when `left` rectangles of a framebuffer update
/// are outstanding, this one among them: how many are outstanding after
/// it, and the events. After the last rectangle the frame ends.
pub open spec fn rectangle_step(left: nat, rectangle: Rectangle, content: ContentView) -> (
    nat,
    Seq<EventView>,
) {
    if left <= 1 {
        (0, shown(rectangle, content) + seq![EventView::EndOfFrame])
    } else {
        ((left - 1) as nat, shown(rectangle, content))
    }
}

/// Where the client stands within a framebuffer update.
#[derive(Debug)]
pub struct Frame {
    rectangles_left: u16,
}

impl Frame {
    /// How many rectangles of the framebuffer update are outstanding.
    pub closed spec fn left(&self) -> nat {
        self.rectangles_left as nat
    }

    /// Between two framebuffer updates: no rectangle is outstanding.
    pub fn new() -> (frame: Frame)
        ensures
            frame.left() == 0,
    {
        Frame { rectangles_left: 0 }
    }

    /// Whether a rectangle is what comes next on the wire, and not a
    /// message: that is so while rectangles are outstanding.
    pub fn awaits_rectangle(&self) -> (awaited: bool)
        ensures
            awaited == (self.left() > 0),
    {
        self.rectangles_left > 0
    }

    /// Takes a message from the server and says what it comes to.
    pub fn message(&mut self, message: S2C) -> (events: Vec<Event>)
        ensures
            final(self).left() == message_step(old(self).left(), message@).0,
            views(events@) == message_step(old(self).left(), message@).1,
    {
        let mut events: Vec<Event> = Vec::new();
        match message {
            S2C::FramebufferUpdate { count } => {
                self.rectangles_left = count;
                if count == 0 {
                    events.push(Event::EndOfFrame);
                }
            },
            S2C::SetColourMapEntries { first_colour, colours } => {
                events.push(Event::SetColourMap { first_colour, colours });
            },
            S2C::Bell => {
                events.push(Event::Bell);
            },
            S2C::CutText(text) => {
                events.push(Event::Clipboard(text));
            },
        }
        assert(views(events@) =~= message_step(old(self).left(), message@).1);
        events
    }

    /// Takes a rectangle of the framebuffer update, its payload made sense
    /// of, and says what it comes to.
    pub fn rectangle(&mut self, rectangle: Rectangle, content: Content) -> (events: Vec<Event>)
        ensures
            final(self).left() == rectangle_step(old(self).left(), rectangle, content@).0,
            views(events@) == rectangle_step(old(self).left(), rectangle, content@).1,
    {
        let dst = Rect::new(
            rectangle.x_position,
            rectangle.y_position,
            rectangle.width,
            rectangle.height,
        );
        let ghost goal = shown(rectangle, content@);
        let mut events: Vec<Event> = Vec::new();
        match content {
            Content::Raw(pixels) => {
                events.push(Event::PutPixels(dst, pixels));
                assert(views(events@) =~= goal);
            },
            Content::CopyRect(source) => {
                let src = Rect::new(
                    source.src_x_position,
                    source.src_y_position,
                    rectangle.width,
                    rectangle.height,
                );
                events.push(Event::CopyPixels { src, dst });
                assert(views(events@) =~= goal);
            },
            Content::Tiles(tiles) => {
                let ghost all = placed(tiles@);
                let mut turned: Vec<DecodedTile> = Vec::new();
                let mut tiles = tiles;
                while tiles.len() > 0
                    invariant
                        placed(tiles@) + placed(turned@).reverse() == all,
                    decreases tiles@.len(),
                {
                    let ghost before = tiles@;
                    let ghost done = turned@;
                    match tiles.pop() {
                        Some(tile) => {
                            turned.push(tile);
                            assert(placed(tiles@) + placed(turned@).reverse() =~= placed(before)
                                + placed(done).reverse());
                        },
                        None => {},
                    }
                }
                assert(placed(turned@).reverse() =~= all);
                while turned.len() > 0
                    invariant
                        goal == Seq::new(all.len(), |i: int| EventView::PutPixels(all[i].0, all[i].1)),
                        views(events@).len() + turned@.len() == all.len(),
                        placed(turned@) =~= all.reverse().take(turned@.len() as int),
                        views(events@) =~= goal.take(events@.len() as int),
                    decreases turned@.len(),
                {
                    let ghost left = turned@.len();
                    let ghost before = turned@;
                    match turned.pop() {
                        Some(tile) => {
                            assert(tile.rect == all[all.len() - left].0 && tile.pixels@
                                == all[all.len() - left].1) by {
                                assert(placed(before)[left - 1] == all.reverse()[left - 1]);
                            }
                            events.push(Event::PutPixels(tile.rect, tile.pixels));
                        },
                        None => {},
                    }
                }
                assert(views(events@) =~= goal);
            },
            Content::Pseudo(bytes) => {
                match rectangle.encoding {
                    Encoding::DesktopSize => {
                        events.push(Event::Resize(rectangle.width, rectangle.height));
                    },
                    _ => {
                        events.push(Event::Pseudo(rectangle, bytes));
                    },
                }
                assert(views(events@) =~= goal);
            },
        }
        if self.rectangles_left <= 1 {
            self.rectangles_left = 0;
            events.push(Event::EndOfFrame);
            assert(views(events@) =~= goal + seq![EventView::EndOfFrame]);
        } else {
            self.rectangles_left = self.rectangles_left - 1;
        }
        events
    }
}

} // verus!
