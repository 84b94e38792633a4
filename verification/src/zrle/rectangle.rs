//! A ZRLE rectangle: how it is cut into tiles, and its tiles one after the
//! other.
use vstd::prelude::*;
use crate::protocol::pixel::Rect;
use crate::wire::Reader;
use crate::zrle::cpixel::PixelLayout;
use crate::zrle::tile::{Tile, TileView, take_tile, tile_limit, lemma_tile_round_trip, lemma_tile_size};
use crate::{Error, Result};

verus! {

/// How far a tile that starts at `at` reaches in a rectangle that is
/// `whole` across: 64 pixels, or what is left of the rectangle.
pub open spec fn extent(at: int, whole: int) -> int {
    if whole - at < 64 {
        whole - at
    } else {
        64
    }
}

/// The tiles of the row of tiles that starts `y` pixels down the
/// rectangle, from the tile that starts `x` pixels across on, left to
/// right.
pub open spec fn tile_row(rect: Rect, y: int, x: int) -> Seq<Rect>
    decreases rect.width + 64 - x,
{
    if x < 0 || x >= rect.width {
        Seq::empty()
    } else {
        seq![
            Rect {
                left: (rect.left + x) as u16,
                top: (rect.top + y) as u16,
                width: extent(x, rect.width as int) as u16,
                height: extent(y, rect.height as int) as u16,
            },
        ] + tile_row(rect, y, x + 64)
    }
}

/// The tiles of the rectangle from the row of tiles that starts `y` pixels
/// down on, row by row from the top, each row left to right.
pub open spec fn tile_rows(rect: Rect, y: int) -> Seq<Rect>
    decreases rect.height + 64 - y,
{
    if y < 0 || y >= rect.height {
        Seq::empty()
    } else {
        tile_row(rect, y, 0) + tile_rows(rect, y + 64)
    }
}

/// Whether the rectangle lies within the coordinates that 16 bits can
/// name.
pub open spec fn in_space(rect: Rect) -> bool {
    rect.left + rect.width <= 0x1_0000 && rect.top + rect.height <= 0x1_0000
}

/// The tiles that a rectangle is cut into: 64 by 64 pixels each, narrower
/// at the right edge and shorter at the bottom edge, row by row from the
/// top and left to right within a row.
pub open spec fn tiling(rect: Rect) -> Seq<Rect> {
    tile_rows(rect, 0)
}

/// Whether every rectangle of the list has the size of a tile.
pub open spec fn tile_sized(rects: Seq<Rect>) -> bool {
    forall|i: int|
        0 <= i < rects.len() ==> 1 <= (#[trigger] rects[i]).width <= 64 && 1 <= rects[i].height
            <= 64
}

/// Every tile of a row has the size of a tile.
pub proof fn lemma_tile_row_sized(rect: Rect, y: int, x: int)
    requires
        0 <= y < rect.height,
        0 <= x,
    ensures
        tile_sized(tile_row(rect, y, x)),
    decreases rect.width + 64 - x,
{
    if x < rect.width {
        lemma_tile_row_sized(rect, y, x + 64);
        let row = tile_row(rect, y, x);
        let tail = tile_row(rect, y, x + 64);
        assert forall|i: int| 0 <= i < row.len() implies 1 <= (#[trigger] row[i]).width <= 64 && 1
            <= row[i].height <= 64 by {
            if i > 0 {
                assert(row[i] == tail[i - 1]);
            }
        }
    }
}

/// Every tile of a rectangle has the size of a tile.
pub proof fn lemma_tile_rows_sized(rect: Rect, y: int)
    requires
        0 <= y,
    ensures
        tile_sized(tile_rows(rect, y)),
    decreases rect.height + 64 - y,
{
    if y < rect.height {
        lemma_tile_row_sized(rect, y, 0);
        lemma_tile_rows_sized(rect, y + 64);
        let first = tile_row(rect, y, 0);
        let tail = tile_rows(rect, y + 64);
        let all = tile_rows(rect, y);
        assert forall|i: int| 0 <= i < all.len() implies 1 <= (#[trigger] all[i]).width <= 64 && 1
            <= all[i].height <= 64 by {
            if i < first.len() {
                assert(all[i] == first[i]);
            } else {
                assert(all[i] == tail[i - first.len()]);
            }
        }
    }
}

/// The tiles that `rect` is cut into, or `None` when the rectangle sticks
/// out of the coordinates that 16 bits can name.
pub fn tiles_of(rect: &Rect) -> (tiles: Option<Vec<Rect>>)
    ensures
        in_space(*rect) ==> tiles is Some && tiles->Some_0@ == tiling(*rect) && tile_sized(
            tiling(*rect),
        ),
        !in_space(*rect) ==> tiles is None,
{
    if rect.left as u32 + rect.width as u32 > 0x1_0000 || rect.top as u32 + rect.height as u32
        > 0x1_0000 {
        return None;
    }
    proof {
        lemma_tile_rows_sized(*rect, 0);
    }
    let mut tiles: Vec<Rect> = Vec::new();
    let mut y: u32 = 0;
    assert(tiles@ + tile_rows(*rect, 0) =~= tile_rows(*rect, 0));
    while y < rect.height as u32
        invariant
            in_space(*rect),
            y <= rect.height + 63,
            tiling(*rect) == tiles@ + tile_rows(*rect, y as int),
        decreases rect.height + 64 - y,
    {
        let height = if rect.height as u32 - y < 64 {
            rect.height as u32 - y
        } else {
            64
        };
        let ghost before = tiles@;
        let mut x: u32 = 0;
        assert(tiles@ + tile_row(*rect, y as int, 0) =~= before + tile_row(*rect, y as int, 0));
        while x < rect.width as u32
            invariant
                in_space(*rect),
                y < rect.height,
                x <= rect.width + 63,
                height == extent(y as int, rect.height as int),
                before + tile_row(*rect, y as int, 0) == tiles@ + tile_row(
                    *rect,
                    y as int,
                    x as int,
                ),
            decreases rect.width + 64 - x,
        {
            let width = if rect.width as u32 - x < 64 {
                rect.width as u32 - x
            } else {
                64
            };
            let ghost done = tiles@;
            let tile = Rect {
                left: (rect.left as u32 + x) as u16,
                top: (rect.top as u32 + y) as u16,
                width: width as u16,
                height: height as u16,
            };
            tiles.push(tile);
            assert(done + (seq![tile] + tile_row(*rect, y as int, x + 64)) =~= tiles@ + tile_row(
                *rect,
                y as int,
                x + 64,
            ));
            x = x + 64;
        }
        assert(tiles@ + Seq::<Rect>::empty() =~= tiles@);
        assert(before + (tile_row(*rect, y as int, 0) + tile_rows(*rect, y + 64)) =~= tiles@
            + tile_rows(*rect, y + 64));
        y = y + 64;
    }
    assert(tiles@ + Seq::<Rect>::empty() =~= tiles@);
    Some(tiles)
}

/// What reading one tile for each rectangle of `rects` from the head of
/// `bytes` gives: the tiles and the bytes after them.
pub open spec fn take_tiles(layout: PixelLayout, rects: Seq<Rect>, bytes: Seq<u8>) -> Option<
    (Seq<TileView>, Seq<u8>),
>
    decreases rects.len(),
{
    if rects.len() == 0 {
        Some((Seq::empty(), bytes))
    } else {
        match take_tile(layout, rects[0].width as nat, rects[0].height as nat, bytes) {
            None => None,
            Some((tile, after_tile)) => match take_tiles(layout, rects.skip(1), after_tile) {
                None => None,
                Some((tiles, rest)) => Some((seq![tile] + tiles, rest)),
            },
        }
    }
}

/// The bytes of the tiles of a rectangle, one tile after the other.
pub open spec fn tiles_bytes(layout: PixelLayout, rects: Seq<Rect>, tiles: Seq<TileView>) -> Seq<
    u8,
>
    decreases rects.len(),
{
    if rects.len() == 0 || tiles.len() == 0 {
        Seq::empty()
    } else {
        tiles[0].bytes(layout, rects[0].width as nat, rects[0].height as nat) + tiles_bytes(
            layout,
            rects.skip(1),
            tiles.skip(1),
        )
    }
}

/// Whether the tiles are tiles for the rectangles of `rects`, one for each
/// and each of the size of its rectangle.
pub open spec fn tiles_fit(layout: PixelLayout, rects: Seq<Rect>, tiles: Seq<TileView>) -> bool {
    &&& tiles.len() == rects.len()
    &&& forall|i: int|
        0 <= i < tiles.len() ==> (#[trigger] tiles[i]).well_formed(
            layout,
            rects[i].width as nat,
            rects[i].height as nat,
        )
}

/// The tiles of a rectangle are read back from their bytes.
pub proof fn lemma_tiles_round_trip(
    layout: PixelLayout,
    rects: Seq<Rect>,
    tiles: Seq<TileView>,
    rest: Seq<u8>,
)
    requires
        layout.well_formed(),
        tile_sized(rects),
        tiles_fit(layout, rects, tiles),
    ensures
        take_tiles(layout, rects, tiles_bytes(layout, rects, tiles) + rest) == Some((tiles, rest)),
    decreases rects.len(),
{
    let all = tiles_bytes(layout, rects, tiles) + rest;
    if rects.len() == 0 {
        assert(all =~= rest);
        assert(tiles =~= Seq::<TileView>::empty());
    } else {
        let width = rects[0].width as nat;
        let height = rects[0].height as nat;
        let tail = tiles_bytes(layout, rects.skip(1), tiles.skip(1));
        assert(all =~= tiles[0].bytes(layout, width, height) + (tail + rest));
        assert(tiles[0].well_formed(layout, width, height));
        lemma_tile_round_trip(layout, width, height, tiles[0], tail + rest);
        assert forall|i: int| 0 <= i < rects.skip(1).len() implies 1 <= (#[trigger] rects.skip(
            1,
        )[i]).width <= 64 && 1 <= rects.skip(1)[i].height <= 64 by {
            assert(rects.skip(1)[i] == rects[i + 1]);
        }
        assert forall|i: int| 0 <= i < tiles.skip(1).len() implies (#[trigger] tiles.skip(
            1,
        )[i]).well_formed(
            layout,
            rects.skip(1)[i].width as nat,
            rects.skip(1)[i].height as nat,
        ) by {
            assert(tiles.skip(1)[i] == tiles[i + 1]);
            assert(rects.skip(1)[i] == rects[i + 1]);
        }
        lemma_tiles_round_trip(layout, rects.skip(1), tiles.skip(1), rest);
        assert(seq![tiles[0]] + tiles.skip(1) =~= tiles);
    }
}

/// The views of a list of tiles.
pub open spec fn views(tiles: Seq<Tile>) -> Seq<TileView> {
    Seq::new(tiles.len(), |i: int| tiles[i]@)
}

/// Tiles read with `done` already read before them.
pub open spec fn tiles_after(found: Option<(Seq<TileView>, Seq<u8>)>, done: Seq<TileView>) -> Option<
    (Seq<TileView>, Seq<u8>),
> {
    match found {
        None => None,
        Some((tiles, rest)) => Some((done + tiles, rest)),
    }
}

/// Reads one tile for each rectangle of `rects`. On success the cursor has
/// moved past exactly the bytes of the tiles; on failure it has not moved.
pub fn read_tiles(reader: &mut Reader, layout: &PixelLayout, rects: &[Rect]) -> (r: Result<
    Vec<Tile>,
>)
    requires
        layout.well_formed(),
        tile_sized(rects@),
    ensures
        match take_tiles(*layout, rects@, old(reader).remaining()) {
            None => r == Err::<Vec<Tile>, Error>(Error::Unexpected("ZRLE tile")) && final(reader).remaining() == old(reader).remaining(),
            Some((tiles, rest)) => r is Ok && views(r->Ok_0@) == tiles && tiles_fit(
                *layout,
                rects@,
                tiles,
            ) && final(reader).remaining() == rest,
        },
{
    let ghost whole = take_tiles(*layout, rects@, reader.remaining());
    let mut cursor = *reader;
    let mut tiles: Vec<Tile> = Vec::new();
    let mut i: usize = 0;
    proof {
        assert(rects@.skip(0) =~= rects@);
        assert(views(tiles@) =~= Seq::<TileView>::empty());
        if whole is Some {
            assert(views(tiles@) + whole->Some_0.0 =~= whole->Some_0.0);
        }
    }
    while i < rects.len()
        invariant
            i <= rects@.len(),
            layout.well_formed(),
            tile_sized(rects@),
            *reader == *old(reader),
            whole == take_tiles(*layout, rects@, old(reader).remaining()),
            whole == tiles_after(
                take_tiles(*layout, rects@.skip(i as int), cursor.remaining()),
                views(tiles@),
            ),
            tiles@.len() == i,
            forall|k: int|
                0 <= k < i ==> (#[trigger] tiles@[k])@.well_formed(
                    *layout,
                    rects@[k].width as nat,
                    rects@[k].height as nat,
                ),
        decreases rects@.len() - i,
    {
        let ghost before = views(tiles@);
        let ghost left = rects@.skip(i as int);
        let rect = &rects[i];
        assert(left[0] == *rect);
        let tile = match Tile::read_from(&mut cursor, layout, rect.width as usize, rect.height as usize) {
            Ok(tile) => tile,
            Err(e) => {
                return Err(e);
            },
        };
        let ghost tail = take_tiles(*layout, left.skip(1), cursor.remaining());
        let ghost view = tile@;
        tiles.push(tile);
        i = i + 1;
        proof {
            assert(left.skip(1) =~= rects@.skip(i as int));
            assert(views(tiles@) =~= before.push(view));
            if tail is Some {
                assert(before + (seq![view] + tail->Some_0.0) =~= views(tiles@) + tail->Some_0.0);
            }
        }
    }
    proof {
        assert(views(tiles@) + Seq::<TileView>::empty() =~= views(tiles@));
    }
    *reader = cursor;
    Ok(tiles)
}

/// Appends the bytes of the tiles of a rectangle, one tile after the
/// other.
pub fn write_tiles(writer: &mut Vec<u8>, layout: &PixelLayout, rects: &[Rect], tiles: &[Tile])
    requires
        layout.well_formed(),
        tile_sized(rects@),
        tiles@.len() == rects@.len(),
        forall|i: int|
            0 <= i < tiles@.len() ==> (#[trigger] tiles@[i])@.shaped(
                rects@[i].width as nat,
                rects@[i].height as nat,
            ),
    ensures
        final(writer)@ == old(writer)@ + tiles_bytes(*layout, rects@, views(tiles@)),
{
    let mut i: usize = 0;
    proof {
        assert(rects@.skip(0) =~= rects@);
        assert(views(tiles@).skip(0) =~= views(tiles@));
    }
    while i < tiles.len()
        invariant
            i <= tiles@.len(),
            layout.well_formed(),
            tile_sized(rects@),
            tiles@.len() == rects@.len(),
            forall|i: int|
                0 <= i < tiles@.len() ==> (#[trigger] tiles@[i])@.shaped(
                    rects@[i].width as nat,
                    rects@[i].height as nat,
                ),
            old(writer)@ + tiles_bytes(*layout, rects@, views(tiles@)) == writer@ + tiles_bytes(
                *layout,
                rects@.skip(i as int),
                views(tiles@).skip(i as int),
            ),
        decreases tiles@.len() - i,
    {
        let ghost before = writer@;
        let rect = &rects[i];
        assert(tiles@[i as int]@.shaped(rects@[i as int].width as nat, rects@[i as int].height as nat));
        tiles[i].write_to(layout, rect.width as usize, rect.height as usize, writer);
        proof {
            let left_rects = rects@.skip(i as int);
            let left_tiles = views(tiles@).skip(i as int);
            assert(left_rects[0] == *rect);
            assert(left_tiles[0] == tiles@[i as int]@);
            assert(left_rects.skip(1) =~= rects@.skip(i + 1));
            assert(left_tiles.skip(1) =~= views(tiles@).skip(i + 1));
            assert(before + (left_tiles[0].bytes(
                *layout,
                rect.width as nat,
                rect.height as nat,
            ) + tiles_bytes(*layout, left_rects.skip(1), left_tiles.skip(1))) =~= writer@
                + tiles_bytes(*layout, left_rects.skip(1), left_tiles.skip(1)));
        }
        i = i + 1;
    }
    proof {
        assert(writer@ + Seq::<u8>::empty() =~= writer@);
    }
}

/// The bytes of a list of full pixels, one pixel after the other: the
/// form that raw pixels have.
pub open spec fn pixels_bytes(layout: PixelLayout, pixels: Seq<u32>) -> Seq<u8>
    decreases pixels.len(),
{
    if pixels.len() == 0 {
        Seq::empty()
    } else {
        layout.pixel_bytes(pixels[0]) + pixels_bytes(layout, pixels.skip(1))
    }
}

/// The bytes of `pixels` as full pixels, one pixel after the other.
pub fn pack_pixels(layout: &PixelLayout, pixels: &[u32]) -> (bytes: Vec<u8>)
    requires
        layout.well_formed(),
    ensures
        bytes@ == pixels_bytes(*layout, pixels@),
{
    let mut bytes: Vec<u8> = Vec::new();
    let mut i: usize = 0;
    assert(pixels@.skip(0) =~= pixels@);
    assert(bytes@ + pixels_bytes(*layout, pixels@) =~= pixels_bytes(*layout, pixels@));
    while i < pixels.len()
        invariant
            i <= pixels@.len(),
            layout.well_formed(),
            pixels_bytes(*layout, pixels@) == bytes@ + pixels_bytes(
                *layout,
                pixels@.skip(i as int),
            ),
        decreases pixels@.len() - i,
    {
        let ghost before = bytes@;
        layout.write_pixel(pixels[i], &mut bytes);
        proof {
            let left = pixels@.skip(i as int);
            assert(left.skip(1) =~= pixels@.skip(i + 1));
            assert(before + (layout.pixel_bytes(left[0]) + pixels_bytes(*layout, left.skip(1)))
                =~= bytes@ + pixels_bytes(*layout, left.skip(1)));
        }
        i = i + 1;
    }
    assert(bytes@ + Seq::<u8>::empty() =~= bytes@);
    bytes
}

/// The bytes of a list with one more pixel are the bytes of the list and
/// then the bytes of that pixel.
pub proof fn lemma_pixels_bytes_push(layout: PixelLayout, pixels: Seq<u32>, last: u32)
    ensures
        pixels_bytes(layout, pixels.push(last)) == pixels_bytes(layout, pixels)
            + layout.pixel_bytes(last),
    decreases pixels.len(),
{
    let longer = pixels.push(last);
    if pixels.len() == 0 {
        assert(longer.skip(1) =~= Seq::<u32>::empty());
        assert(pixels_bytes(layout, longer) =~= layout.pixel_bytes(last)) by {
            reveal_with_fuel(pixels_bytes, 2);
        }
        assert(pixels_bytes(layout, pixels) + layout.pixel_bytes(last) =~= layout.pixel_bytes(
            last,
        ));
    } else {
        assert(longer.skip(1) =~= pixels.skip(1).push(last));
        lemma_pixels_bytes_push(layout, pixels.skip(1), last);
        assert(layout.pixel_bytes(pixels[0]) + (pixels_bytes(layout, pixels.skip(1))
            + layout.pixel_bytes(last)) =~= pixels_bytes(layout, pixels) + layout.pixel_bytes(
            last,
        ));
    }
}

/// The pixels that raw bytes hold, one after the other, as far as whole
/// pixels go.
pub open spec fn pixels_of(layout: PixelLayout, bytes: Seq<u8>) -> Seq<u32>
    decreases bytes.len(),
{
    if layout.pixel_size < 1 || bytes.len() < layout.pixel_size {
        Seq::empty()
    } else {
        seq![layout.pixel_value(bytes.take(layout.pixel_size as int))] + pixels_of(
            layout,
            bytes.skip(layout.pixel_size as int),
        )
    }
}

/// The pixels that raw bytes stand for, or `None` when the bytes are not a
/// whole number of pixels.
pub fn unpack_pixels(layout: &PixelLayout, bytes: &[u8]) -> (pixels: Option<Vec<u32>>)
    requires
        layout.well_formed(),
    ensures
        pixels is Some <==> bytes@.len() % (layout.pixel_size as nat) == 0,
        pixels is Some ==> pixels->Some_0@ == pixels_of(*layout, bytes@) && pixels_bytes(
            *layout,
            pixels->Some_0@,
        ) == bytes@ && pixels->Some_0@.len() * layout.pixel_size == bytes@.len(),
{
    let size = layout.pixel_size;
    if bytes.len() % size != 0 {
        return None;
    }
    let mut pixels: Vec<u32> = Vec::new();
    let mut at: usize = 0;
    assert(bytes@.take(0) =~= Seq::<u8>::empty());
    assert(0 * size == 0) by (nonlinear_arith);
    assert(bytes@.skip(0) =~= bytes@);
    assert(pixels@ + pixels_of(*layout, bytes@) =~= pixels_of(*layout, bytes@));
    while at < bytes.len()
        invariant
            at <= bytes@.len(),
            pixels_of(*layout, bytes@) == pixels@ + pixels_of(*layout, bytes@.skip(at as int)),
            layout.well_formed(),
            size == layout.pixel_size,
            at % size == 0,
            bytes@.len() % (size as nat) == 0,
            pixels@.len() * size == at,
            pixels_bytes(*layout, pixels@) == bytes@.take(at as int),
        decreases bytes@.len() - at,
    {
        proof {
            let len = bytes@.len() as int;
            if size == 1 {
            } else if size == 2 {
                assert(len % 2 == 0 && at % 2 == 0);
                assert((at + 2) % 2 == 0);
            } else if size == 3 {
                assert(len % 3 == 0 && at % 3 == 0);
                assert((at + 3) % 3 == 0);
            } else {
                assert(len % 4 == 0 && at % 4 == 0);
                assert((at + 4) % 4 == 0);
            }
            assert(at + size <= len);
            assert((at + size) % (size as int) == 0);
        }
        let chunk = vstd::slice::slice_subrange(bytes, at, at + size);
        let pixel = layout.read_pixel(chunk);
        proof {
            let left = bytes@.skip(at as int);
            assert(left.take(size as int) =~= chunk@);
            assert(left.skip(size as int) =~= bytes@.skip(at + size));
            assert(pixels@ + (seq![pixel] + pixels_of(*layout, left.skip(size as int)))
                =~= pixels@.push(pixel) + pixels_of(*layout, left.skip(size as int)));
            layout.lemma_pixel_bytes_of_value(chunk@);
            lemma_pixels_bytes_push(*layout, pixels@, pixel);
            assert(bytes@.take(at as int) + chunk@ =~= bytes@.take(at + size));
            assert((pixels@.len() + 1) * size == pixels@.len() * size + size) by (nonlinear_arith);
        }
        pixels.push(pixel);
        at = at + size;
    }
    assert(bytes@.take(at as int) =~= bytes@);
    assert(pixels@ + Seq::<u32>::empty() =~= pixels@);
    Some(pixels)
}

/// The tiles of a rectangle take no more bytes than the limit for tiles
/// allows each of them.
pub proof fn lemma_tiles_size(layout: PixelLayout, rects: Seq<Rect>, bytes: Seq<u8>)
    requires
        layout.well_formed(),
        tile_sized(rects),
        take_tiles(layout, rects, bytes) is Some,
    ensures
        take_tiles(layout, rects, bytes)->Some_0.1.len() <= bytes.len(),
        bytes.len() - take_tiles(layout, rects, bytes)->Some_0.1.len() <= tile_limit()
            * rects.len(),
    decreases rects.len(),
{
    if rects.len() > 0 {
        lemma_tile_size(layout, rects[0].width as nat, rects[0].height as nat, bytes);
        let after_tile = take_tile(
            layout,
            rects[0].width as nat,
            rects[0].height as nat,
            bytes,
        )->Some_0.1;
        assert forall|i: int| 0 <= i < rects.skip(1).len() implies 1 <= (#[trigger] rects.skip(
            1,
        )[i]).width <= 64 && 1 <= rects.skip(1)[i].height <= 64 by {
            assert(rects.skip(1)[i] == rects[i + 1]);
        }
        lemma_tiles_size(layout, rects.skip(1), after_tile);
    }
}

} // verus!
