//! The zlib streams that carry ZRLE rectangles, one for each direction of a
//! session, and the decoder and encoder that own them.
use vstd::prelude::*;
use flate2::{Compress, Compression, Decompress, FlushCompress, FlushDecompress, Status};
use crate::protocol::pixel::{PixelFormat, Rect};
use crate::wire::Reader;
use crate::zrle::cpixel::PixelLayout;
use crate::zrle::rectangle::{lemma_tile_rows_sized, lemma_tiles_size, in_space, pack_pixels, pixels_bytes, read_tiles, take_tiles, tile_sized, tiles_bytes, tiles_fit, tiles_of, tiling, views, write_tiles};
use crate::zrle::runs::{index_runs_shaped, runs_shaped};
use crate::zrle::tile::{Tile, TileView};
use crate::{Error, IoError, Result};

verus! {

#[verifier::external_type_specification]
#[verifier::external_body]
pub struct ExDecompress(Decompress);

#[verifier::external_type_specification]
#[verifier::external_body]
pub struct ExCompress(Compress);

/// How one step of a zlib stream ended.
#[derive(Debug, Clone, Copy, PartialEq, Eq)]
pub enum Step {
    /// The stream took input or gave output, or both.
    Moved,
    /// The stream can go no further: it needs more input or more room.
    Stalled,
    /// The stream has come to its end.
    Ended,
    /// The input is no zlib stream.
    Corrupt,
}

/// Whether a step of the deflating stream flushes it.
#[derive(Debug, Clone, Copy, PartialEq, Eq)]
pub enum Flush {
    /// The stream gathers input as it sees fit.
    Nothing,
    /// The stream gives out all that it has taken, so that the other side
    /// can read it.
    Sync,
}

/// `flate2::Decompress::new` for a stream with a zlib header.
#[verifier::external_body]
fn new_inflater() -> Decompress {
    Decompress::new(true)
}

/// `flate2::Compress::new` for a stream with a zlib header, at the default
/// level of compression.
#[verifier::external_body]
fn new_deflater() -> Compress {
    Compress::new(Compression::default(), true)
}

/// `flate2::Decompress::total_in`: how many bytes the stream has taken
/// since it was made. Nothing is claimed of the number.
#[verifier::external_body]
fn inflater_taken(stream: &Decompress) -> u64 {
    stream.total_in()
}

/// `flate2::Compress::total_in`: how many bytes the stream has taken since
/// it was made. Nothing is claimed of the number.
#[verifier::external_body]
fn deflater_taken(stream: &Compress) -> u64 {
    stream.total_in()
}

/// `flate2::Decompress::decompress_vec` without flushing: the stream takes
/// some of `input` and writes into the room that `output` has beyond its
/// length. What `output` held stays; nothing is claimed of what is added.
#[verifier::external_body]
fn inflate_step(stream: &mut Decompress, input: &[u8], output: &mut Vec<u8>) -> (step: Step)
    ensures
        old(output)@.len() <= final(output)@.len(),
        final(output)@.take(old(output)@.len() as int) == old(output)@,
{
    match stream.decompress_vec(input, output, FlushDecompress::None) {
        Ok(Status::Ok) => Step::Moved,
        Ok(Status::BufError) => Step::Stalled,
        Ok(Status::StreamEnd) => Step::Ended,
        Err(_) => Step::Corrupt,
    }
}

/// `flate2::Compress::compress_vec`, with a sync flush or without
/// flushing as `flush` says: the stream takes some of `input` and writes
/// into the room that `output` has beyond its length. What `output` held
/// stays; nothing is claimed of what is added.
#[verifier::external_body]
fn deflate_step(stream: &mut Compress, input: &[u8], output: &mut Vec<u8>, flush: Flush) -> (step:
    Step)
    ensures
        old(output)@.len() <= final(output)@.len(),
        final(output)@.take(old(output)@.len() as int) == old(output)@,
{
    let flush = match flush {
        Flush::Nothing => FlushCompress::None,
        Flush::Sync => FlushCompress::Sync,
    };
    match stream.compress_vec(input, output, flush) {
        Ok(Status::Ok) => Step::Moved,
        Ok(Status::BufError) => Step::Stalled,
        Ok(Status::StreamEnd) => Step::Ended,
        Err(_) => Step::Corrupt,
    }
}

/// How much room is made in the output before each step of a stream.
const ROOM: usize = 0x1_0000;

/// What comes next once a stream has taken a step.
#[derive(Debug, PartialEq, Eq)]
pub enum Onward {
    /// Another step: the stream has taken `taken` more bytes of the input,
    /// and the step is to flush the stream or comes after one that did if
    /// `flushing` is set.
    More { taken: usize, flushing: bool },
    /// Nothing: all of the input has been taken and all that it gave has
    /// come out.
    Done,
    /// Nothing: the stream has failed.
    Fail(Error),
}

/// What the stream says it took in a step: the difference of its counts
/// after and before, if that is a number of bytes that it can have taken
/// of `left`.
pub open spec fn step_taken(before: u64, after: u64, left: usize) -> Option<usize> {
    if before <= after && after - before <= left {
        Some((after - before) as usize)
    } else {
        None
    }
}

/// What comes next once the inflating stream has taken a step. `before`
/// and `after` are the stream's counts of the bytes it has taken, `left`
/// is how many bytes of the input it had not taken before the step, `grew`
/// says whether the step gave output, `length` is how much output there is
/// after the step and `limit` how much there may be.
///
/// A stream that is corrupt, has ended, or miscounts what it took has
/// failed, and so has one that stands still before the end of the input.
/// Output beyond the limit is more than the tiles of the rectangle can
/// be. A stream that stands still at the end of the input is done.
pub open spec fn after_inflating(
    step: Step,
    before: u64,
    after: u64,
    left: usize,
    grew: bool,
    length: usize,
    limit: usize,
) -> Onward {
    if step is Corrupt || step is Ended {
        Onward::Fail(Error::Io(IoError::InvalidData))
    } else {
        match step_taken(before, after, left) {
            None => Onward::Fail(Error::Io(IoError::InvalidData)),
            Some(taken) => if length > limit {
                Onward::Fail(Error::Unexpected("ZRLE tile"))
            } else if taken == 0 && !grew {
                if left > 0 {
                    Onward::Fail(Error::Io(IoError::InvalidData))
                } else {
                    Onward::Done
                }
            } else {
                Onward::More { taken, flushing: false }
            },
        }
    }
}

/// What comes next once the inflating stream has taken a step.
pub fn judge_inflating(
    step: Step,
    before: u64,
    after: u64,
    left: usize,
    grew: bool,
    length: usize,
    limit: usize,
) -> (onward: Onward)
    ensures
        onward == after_inflating(step, before, after, left, grew, length, limit),
{
    match step {
        Step::Corrupt => {
            return Onward::Fail(Error::Io(IoError::InvalidData));
        },
        Step::Ended => {
            return Onward::Fail(Error::Io(IoError::InvalidData));
        },
        _ => {},
    }
    if after < before || after - before > left as u64 {
        return Onward::Fail(Error::Io(IoError::InvalidData));
    }
    let taken = (after - before) as usize;
    if length > limit {
        Onward::Fail(Error::Unexpected("ZRLE tile"))
    } else if taken == 0 && !grew {
        if left > 0 {
            Onward::Fail(Error::Io(IoError::InvalidData))
        } else {
            Onward::Done
        }
    } else {
        Onward::More { taken, flushing: false }
    }
}

/// How the deflating stream takes its next step: with a sync flush once,
/// when all of the input has been taken, and without flushing before and
/// after.
pub open spec fn flush_for(left: usize, flushing: bool) -> Flush {
    if left == 0 && !flushing {
        Flush::Sync
    } else {
        Flush::Nothing
    }
}

/// How the deflating stream takes its next step.
pub fn choose_flush(left: usize, flushing: bool) -> (flush: Flush)
    ensures
        flush == flush_for(left, flushing),
{
    if left == 0 && !flushing {
        Flush::Sync
    } else {
        Flush::Nothing
    }
}

/// What comes next once the deflating stream has taken a step, with the
/// flush `flush`, `flushing` saying whether an earlier step has flushed the
/// stream; the other values are as for the inflating stream.
///
/// A stream that is corrupt, has ended, miscounts what it took or gives
/// output beyond the limit has failed. The step that flushes is followed
/// by steps that gather what the flush gives; when one of those gives
/// nothing, the stream is done. A stream that stands still before it was
/// flushed has failed.
pub open spec fn after_deflating(
    step: Step,
    before: u64,
    after: u64,
    left: usize,
    grew: bool,
    length: usize,
    limit: usize,
    flush: Flush,
    flushing: bool,
) -> Onward {
    if step is Corrupt || step is Ended {
        Onward::Fail(Error::Io(IoError::InvalidData))
    } else {
        match step_taken(before, after, left) {
            None => Onward::Fail(Error::Io(IoError::InvalidData)),
            Some(taken) => if length > limit {
                Onward::Fail(Error::Io(IoError::InvalidData))
            } else if flush is Sync {
                Onward::More { taken, flushing: true }
            } else if taken == 0 && !grew {
                if flushing {
                    Onward::Done
                } else {
                    Onward::Fail(Error::Io(IoError::InvalidData))
                }
            } else {
                Onward::More { taken, flushing }
            },
        }
    }
}

/// What comes next once the deflating stream has taken a step.
pub fn judge_deflating(
    step: Step,
    before: u64,
    after: u64,
    left: usize,
    grew: bool,
    length: usize,
    limit: usize,
    flush: Flush,
    flushing: bool,
) -> (onward: Onward)
    ensures
        onward == after_deflating(step, before, after, left, grew, length, limit, flush, flushing),
{
    match step {
        Step::Corrupt => {
            return Onward::Fail(Error::Io(IoError::InvalidData));
        },
        Step::Ended => {
            return Onward::Fail(Error::Io(IoError::InvalidData));
        },
        _ => {},
    }
    if after < before || after - before > left as u64 {
        return Onward::Fail(Error::Io(IoError::InvalidData));
    }
    let taken = (after - before) as usize;
    if length > limit {
        return Onward::Fail(Error::Io(IoError::InvalidData));
    }
    match flush {
        Flush::Sync => Onward::More { taken, flushing: true },
        Flush::Nothing => if taken == 0 && !grew {
            if flushing {
                Onward::Done
            } else {
                Onward::Fail(Error::Io(IoError::InvalidData))
            }
        } else {
            Onward::More { taken, flushing }
        },
    }
}

/// How much room the output is given before a step: what is left up to
/// the limit and one byte more, so that output beyond the limit shows, but
/// no more than `ROOM` at a time.
fn room_for(length: usize, limit: usize) -> (room: usize)
    requires
        length <= limit,
    ensures
        1 <= room <= ROOM,
{
    if limit - length < ROOM {
        limit - length + 1
    } else {
        ROOM
    }
}

/// Feeds all of `input` to the inflating stream and gathers what comes
/// out, which may be at most `limit` bytes. After every step of the stream
/// `judge_inflating` says what comes next.
fn inflate(stream: &mut Decompress, input: &[u8], limit: usize) -> (r: Result<Vec<u8>>)
    ensures
        match r {
            Ok(data) => data@.len() <= limit,
            Err(e) => e == Error::Io(IoError::InvalidData) || e == Error::Unexpected("ZRLE tile"),
        },
{
    let mut output: Vec<u8> = Vec::new();
    let mut fed: usize = 0;
    loop
        invariant
            fed <= input@.len(),
            output@.len() <= limit,
        decreases (input@.len() - fed) + (limit - output@.len()),
    {
        output.reserve(room_for(output.len(), limit));
        let before = inflater_taken(stream);
        let length = output.len();
        let step = inflate_step(
            stream,
            vstd::slice::slice_subrange(input, fed, input.len()),
            &mut output,
        );
        let after = inflater_taken(stream);
        match judge_inflating(
            step,
            before,
            after,
            input.len() - fed,
            output.len() > length,
            output.len(),
            limit,
        ) {
            Onward::More { taken, .. } => {
                fed = fed + taken;
            },
            Onward::Done => {
                return Ok(output);
            },
            Onward::Fail(e) => {
                return Err(e);
            },
        }
    }
}

/// Feeds all of `input` to the deflating stream, flushes it so that the
/// other side can read all of it, and gathers what comes out, which may be
/// at most `limit` bytes. Before every step of the stream `choose_flush`
/// says how it is taken, and after it `judge_deflating` says what comes
/// next.
fn deflate(stream: &mut Compress, input: &[u8], limit: usize) -> (r: Result<Vec<u8>>)
    ensures
        match r {
            Ok(data) => data@.len() <= limit,
            Err(e) => e == Error::Io(IoError::InvalidData),
        },
{
    let mut output: Vec<u8> = Vec::new();
    let mut fed: usize = 0;
    let mut flushing = false;
    loop
        invariant
            fed <= input@.len(),
            output@.len() <= limit,
            flushing ==> fed == input@.len(),
        decreases (input@.len() - fed) + (limit - output@.len()), if flushing { 0int } else { 1int },
    {
        output.reserve(room_for(output.len(), limit));
        let before = deflater_taken(stream);
        let length = output.len();
        let flush = choose_flush(input.len() - fed, flushing);
        let step = deflate_step(
            stream,
            vstd::slice::slice_subrange(input, fed, input.len()),
            &mut output,
            flush,
        );
        let after = deflater_taken(stream);
        match judge_deflating(
            step,
            before,
            after,
            input.len() - fed,
            output.len() > length,
            output.len(),
            limit,
            flush,
            flushing,
        ) {
            Onward::More { taken, flushing: next } => {
                fed = fed + taken;
                flushing = next;
            },
            Onward::Done => {
                return Ok(output);
            },
            Onward::Fail(e) => {
                return Err(e);
            },
        }
    }
}

/// One tile of a decoded rectangle: where it lies on the screen and its
/// pixels as raw pixels of the pixel format, row by row.
#[derive(Debug, PartialEq, Eq)]
pub struct DecodedTile {
    pub rect: Rect,
    pub pixels: Vec<u8>,
}

/// Whether `shown` is what the tiles `tiles`, read for the rectangles
/// `rects`, show: for each tile its rectangle and its pixels as raw pixels.
pub open spec fn shows(
    shown: Seq<DecodedTile>,
    layout: PixelLayout,
    rects: Seq<Rect>,
    tiles: Seq<TileView>,
) -> bool {
    &&& shown.len() == tiles.len()
    &&& forall|i: int|
        0 <= i < shown.len() ==> (#[trigger] shown[i]).rect == rects[i] && shown[i].pixels@
            == pixels_bytes(
            layout,
            tiles[i].pixels(rects[i].width as nat, rects[i].height as nat),
        )
}

/// What the tile stream `data` of the rectangle `rect` holds: one tile for
/// each tile that the rectangle is cut into and nothing after them, or
/// nothing when the rectangle sticks out of the coordinates that 16 bits
/// can name, a tile is malformed, or the stream is too short or too long.
pub open spec fn rectangle_tiles(layout: PixelLayout, rect: Rect, data: Seq<u8>) -> Option<
    Seq<TileView>,
> {
    if !in_space(rect) {
        None
    } else {
        match take_tiles(layout, tiling(rect), data) {
            None => None,
            Some((tiles, rest)) => if rest.len() == 0 {
                Some(tiles)
            } else {
                None
            },
        }
    }
}

/// Whether `shown` is what some tile stream of the rectangle `rect`, for
/// pixels of `format`, shows: the format has a layout, and there are bytes
/// that hold the tiles of the rectangle and nothing else, of which `shown`
/// is what they show.
pub open spec fn decoded(format: PixelFormat, rect: Rect, shown: Seq<DecodedTile>) -> bool {
    &&& PixelLayout::of(format) is Some
    &&& exists|data: Seq<u8>|
        (#[trigger] rectangle_tiles(PixelLayout::of(format)->Some_0, rect, data)) is Some && shows(
            shown,
            PixelLayout::of(format)->Some_0,
            tiling(rect),
            rectangle_tiles(PixelLayout::of(format)->Some_0, rect, data)->Some_0,
        )
}

/// Decodes the tile stream of one rectangle, as it comes out of the zlib
/// stream: the tiles of the rectangle in their order, each with its place
/// on the screen and its raw pixels.
pub fn decode_tiles(layout: &PixelLayout, rect: &Rect, data: &[u8]) -> (r: Result<Vec<DecodedTile>>)
    requires
        layout.well_formed(),
    ensures
        match rectangle_tiles(*layout, *rect, data@) {
            None => r == Err::<Vec<DecodedTile>, Error>(Error::Unexpected("ZRLE tile")),
            Some(tiles) => r is Ok && shows(r->Ok_0@, *layout, tiling(*rect), tiles),
        },
{
    let rects = match tiles_of(rect) {
        Some(rects) => rects,
        None => {
            return Err(Error::Unexpected("ZRLE tile"));
        },
    };
    let mut reader = Reader::new(data);
    let tiles = read_tiles(&mut reader, layout, rects.as_slice())?;
    if reader.available() != 0 {
        return Err(Error::Unexpected("ZRLE tile"));
    }
    let mut shown: Vec<DecodedTile> = Vec::new();
    let mut i: usize = 0;
    while i < tiles.len()
        invariant
            i <= tiles@.len(),
            layout.well_formed(),
            tile_sized(rects@),
            tiles@.len() == rects@.len(),
            tiles_fit(*layout, rects@, views(tiles@)),
            shown@.len() == i,
            forall|k: int|
                0 <= k < i ==> (#[trigger] shown@[k]).rect == rects@[k] && shown@[k].pixels@
                    == pixels_bytes(
                    *layout,
                    tiles@[k]@.pixels(rects@[k].width as nat, rects@[k].height as nat),
                ),
        decreases tiles@.len() - i,
    {
        let tile_rect = rects[i];
        assert(views(tiles@)[i as int].well_formed(
            *layout,
            rects@[i as int].width as nat,
            rects@[i as int].height as nat,
        ));
        let pixels = tiles[i].pixels(tile_rect.width as usize, tile_rect.height as usize);
        let bytes = pack_pixels(layout, pixels.as_slice());
        shown.push(DecodedTile { rect: tile_rect, pixels: bytes });
        i = i + 1;
    }
    Ok(shown)
}

/// The most bytes that the tiles of a rectangle cut into `tiles` tiles can
/// take: for each tile the sub-encoding byte, the largest palette, and for
/// each pixel a compact pixel and a run length of one byte.
pub open spec fn stream_limit(tiles: nat) -> nat {
    if tiles * 20989 <= usize::MAX {
        tiles * 20989
    } else {
        usize::MAX as nat
    }
}

/// The tile stream of a rectangle is never longer than the limit: a
/// stream that holds the tiles of the rectangle and nothing else takes at
/// most the limit for tiles for each tile that the rectangle is cut into,
/// and, where it fits into memory at all, at most the limit of the stream.
pub proof fn lemma_stream_within_limit(layout: PixelLayout, rect: Rect, data: Seq<u8>)
    requires
        layout.well_formed(),
        rectangle_tiles(layout, rect, data) is Some,
    ensures
        data.len() <= tiling(rect).len() * 20989,
        data.len() <= usize::MAX ==> data.len() <= stream_limit(tiling(rect).len()),
{
    lemma_tile_rows_sized(rect, 0);
    lemma_tiles_size(layout, tiling(rect), data);
}

/// The most bytes that the tiles of a rectangle cut into `tiles` tiles can
/// take.
fn limit_of(tiles: usize) -> (limit: usize)
    ensures
        limit == stream_limit(tiles as nat),
{
    match tiles.checked_mul(20989) {
        Some(limit) => limit,
        None => usize::MAX,
    }
}

/// The reading end of ZRLE: the inflating stream of a session. One decoder
/// serves all the ZRLE rectangles of a session, in the order they arrive.
/// What the stream gives for a rectangle depends on all the zlib bytes
/// that it was given before, so the decoder keeps count of them.
pub struct Decoder {
    stream: Decompress,
    fed: Ghost<Seq<u8>>,
}

impl Decoder {
    /// A decoder for a new session: its stream is at the start of a zlib
    /// stream and has been given nothing yet.
    pub fn new() -> (decoder: Decoder)
        ensures
            decoder.fed() == Seq::<u8>::empty(),
    {
        Decoder { stream: new_inflater(), fed: Ghost(Seq::empty()) }
    }

    /// The zlib bytes that the stream has been given since the session
    /// began, rectangle after rectangle.
    pub closed spec fn fed(&self) -> Seq<u8> {
        self.fed@
    }

    /// Whether a rectangle of `format` that covers `rect` goes to the
    /// stream at all: the format has a layout and the rectangle lies
    /// within the coordinates that 16 bits can name.
    pub open spec fn admits(format: PixelFormat, rect: Rect) -> bool {
        PixelLayout::of(format) is Some && in_space(rect)
    }

    /// Decodes one ZRLE rectangle from the zlib bytes that came with it.
    /// What is returned is what the inflated bytes hold as the tiles of
    /// the rectangle; a pixel format without a layout and inflated bytes
    /// that are not the tiles of the rectangle give `Unexpected`, bytes
    /// that are no zlib stream give `Io`. The zlib bytes are given to the
    /// stream of the session, whatever comes of them, unless the format
    /// or the rectangle is refused before.
    pub fn decode(&mut self, format: &PixelFormat, rect: &Rect, input: &[u8]) -> (r: Result<
        Vec<DecodedTile>,
    >)
        ensures
            match r {
                Ok(shown) => decoded(*format, *rect, shown@),
                Err(e) => e == Error::Io(IoError::InvalidData) || e == Error::Unexpected(
                    "ZRLE tile",
                ),
            },
            PixelLayout::of(*format) is None || !in_space(*rect) ==> r == Err::<
                Vec<DecodedTile>,
                Error,
            >(Error::Unexpected("ZRLE tile")),
            final(self).fed() == (if Decoder::admits(*format, *rect) {
                old(self).fed() + input@
            } else {
                old(self).fed()
            }),
    {
        let layout = match PixelLayout::new(format) {
            Some(layout) => layout,
            None => {
                return Err(Error::Unexpected("ZRLE tile"));
            },
        };
        let count = match tiles_of(rect) {
            Some(rects) => rects.len(),
            None => {
                return Err(Error::Unexpected("ZRLE tile"));
            },
        };
        self.fed = Ghost(self.fed@ + input@);
        let data = inflate(&mut self.stream, input, limit_of(count))?;
        decode_tiles(&layout, rect, data.as_slice())
    }
}

/// The writing end of ZRLE: the deflating stream of a session. One encoder
/// serves all the ZRLE rectangles of a session, in the order they are
/// sent. What the stream gives for a rectangle depends on all the tile
/// streams that it was given before, so the encoder keeps count of them.
pub struct Encoder {
    stream: Compress,
    fed: Ghost<Seq<u8>>,
}

impl Encoder {
    /// An encoder for a new session: its stream is at the start of a zlib
    /// stream and has been given nothing yet.
    pub fn new() -> (encoder: Encoder)
        ensures
            encoder.fed() == Seq::<u8>::empty(),
    {
        Encoder { stream: new_deflater(), fed: Ghost(Seq::empty()) }
    }

    /// The tile streams that the stream has been given since the session
    /// began, rectangle after rectangle: what the other side reads once it
    /// has inflated all that the encoder has given out.
    pub closed spec fn fed(&self) -> Seq<u8> {
        self.fed@
    }

    /// Whether the tiles `tiles` of a rectangle of `format` that covers
    /// `rect` go to the stream at all: the format has a layout, the
    /// rectangle lies within the coordinates that 16 bits can name, and
    /// the tiles are tiles for the rectangle, one for each tile it is cut
    /// into and each of the shape of its tile.
    pub open spec fn admits(format: PixelFormat, rect: Rect, tiles: Seq<TileView>) -> bool {
        PixelLayout::of(format) is Some && in_space(rect) && tiles_shaped(tiling(rect), tiles)
    }

    /// Encodes one ZRLE rectangle: the tiles, one for each tile that the
    /// rectangle is cut into and in their order, go through the zlib
    /// stream, and the zlib bytes that carry them are returned. The tiles
    /// are first laid down as `tiles_bytes` says; tiles that are not tiles
    /// for the rectangle are refused and never reach the stream.
    pub fn encode(&mut self, format: &PixelFormat, rect: &Rect, tiles: &[Tile]) -> (r: Result<
        Vec<u8>,
    >)
        ensures
            match r {
                Ok(_) => Encoder::admits(*format, *rect, views(tiles@)),
                Err(e) => e == Error::Io(IoError::InvalidData) || e == Error::Unexpected(
                    "ZRLE tile",
                ),
            },
            !Encoder::admits(*format, *rect, views(tiles@)) ==> r == Err::<Vec<u8>, Error>(
                Error::Unexpected("ZRLE tile"),
            ),
            Encoder::admits(*format, *rect, views(tiles@)) ==> r is Ok || r == Err::<
                Vec<u8>,
                Error,
            >(Error::Io(IoError::InvalidData)),
            final(self).fed() == (if Encoder::admits(*format, *rect, views(tiles@)) {
                old(self).fed() + tiles_bytes(
                    PixelLayout::of(*format)->Some_0,
                    tiling(*rect),
                    views(tiles@),
                )
            } else {
                old(self).fed()
            }),
    {
        let layout = match PixelLayout::new(format) {
            Some(layout) => layout,
            None => {
                return Err(Error::Unexpected("ZRLE tile"));
            },
        };
        let data = match lay_down(&layout, rect, tiles) {
            Some(data) => data,
            None => {
                return Err(Error::Unexpected("ZRLE tile"));
            },
        };
        self.fed = Ghost(self.fed@ + data@);
        let limit = match data.len().checked_add(data.len() / 8 + 1024) {
            Some(limit) => limit,
            None => usize::MAX,
        };
        deflate(&mut self.stream, data.as_slice(), limit)
    }
}

/// Whether each tile has the shape of the rectangle that it is for.
pub open spec fn tiles_shaped(rects: Seq<Rect>, tiles: Seq<TileView>) -> bool {
    &&& tiles.len() == rects.len()
    &&& forall|i: int|
        0 <= i < tiles.len() ==> (#[trigger] tiles[i]).shaped(
            rects[i].width as nat,
            rects[i].height as nat,
        )
}

/// Whether the tile has the shape of a tile of `width` by `height` pixels.
pub fn is_shaped(tile: &Tile, width: usize, height: usize) -> (shaped: bool)
    requires
        1 <= width <= 64,
        1 <= height <= 64,
    ensures
        shaped == tile@.shaped(width as nat, height as nat),
{
    assert(height * width <= 0x1000) by (nonlinear_arith)
        requires
            width <= 64,
            height <= 64,
    ;
    let count = height * width;
    match tile {
        Tile::Raw(pixels) => pixels.len() == count,
        Tile::Solid(_) => true,
        Tile::Packed { palette, indices } => 2 <= palette.len() && palette.len() <= 16
            && indices.len() == count && crate::zrle::packed::indices_below(
            indices.as_slice(),
            palette.len(),
        ),
        Tile::Rle(runs) => runs_shaped(runs.as_slice(), count),
        Tile::PaletteRle { palette, runs } => 2 <= palette.len() && palette.len() <= 127
            && index_runs_shaped(runs.as_slice(), palette.len(), count),
    }
}

/// The tile stream of a rectangle: its tiles laid down one after the
/// other, or `None` when the rectangle sticks out of the coordinates that
/// 16 bits can name or the tiles are not tiles for the rectangle, one for
/// each tile it is cut into and each of the shape of its tile.
pub fn lay_down(layout: &PixelLayout, rect: &Rect, tiles: &[Tile]) -> (data: Option<Vec<u8>>)
    requires
        layout.well_formed(),
    ensures
        in_space(*rect) && tiles_shaped(tiling(*rect), views(tiles@)) ==> data is Some
            && data->Some_0@ == tiles_bytes(*layout, tiling(*rect), views(tiles@)),
        !(in_space(*rect) && tiles_shaped(tiling(*rect), views(tiles@))) ==> data is None,
{
    let rects = match tiles_of(rect) {
        Some(rects) => rects,
        None => {
            return None;
        },
    };
    if tiles.len() != rects.len() {
        return None;
    }
    let mut i: usize = 0;
    while i < tiles.len()
        invariant
            i <= tiles@.len(),
            tiles@.len() == rects@.len(),
            tile_sized(rects@),
            in_space(*rect),
            rects@ == tiling(*rect),
            forall|k: int|
                0 <= k < i ==> (#[trigger] tiles@[k])@.shaped(
                    rects@[k].width as nat,
                    rects@[k].height as nat,
                ),
        decreases tiles@.len() - i,
    {
        if !is_shaped(&tiles[i], rects[i].width as usize, rects[i].height as usize) {
            assert(!views(tiles@)[i as int].shaped(
                rects@[i as int].width as nat,
                rects@[i as int].height as nat,
            ));
            return None;
        }
        i = i + 1;
    }
    assert forall|k: int| 0 <= k < views(tiles@).len() implies (#[trigger] views(
        tiles@,
    )[k]).shaped(rects@[k].width as nat, rects@[k].height as nat) by {
        assert(tiles@[k]@.shaped(rects@[k].width as nat, rects@[k].height as nat));
    }
    let mut data: Vec<u8> = Vec::new();
    write_tiles(&mut data, layout, rects.as_slice(), tiles);
    Some(data)
}

} // verus!
