//! One tile of a ZRLE rectangle: its five layouts, their wire forms and the
//! pixels they stand for.
use vstd::prelude::*;
use crate::wire::Reader;
use crate::zrle::cpixel::PixelLayout;
use crate::zrle::packed::{lemma_rows_size, all_below, bit_place, bits_of_index, index_bits, indices_below, pack_rows, take_rows, read_rows, write_rows, lemma_rows_round_trip};
use crate::zrle::runs::{lemma_cpixels_size, lemma_index_runs_size, lemma_runs_size, IndexRun, Run, all_compactable, cpixels_bytes, index_runs_bytes, index_runs_cover, index_total, runs_bytes, take_cpixels, take_index_runs, take_runs, total, read_cpixels, read_index_runs, read_runs, write_cpixels, write_index_runs, write_runs, lemma_cpixels_round_trip, lemma_index_runs_round_trip, lemma_runs_round_trip, lemma_taken_cpixels, lemma_taken_index_runs, lemma_taken_runs};
use crate::{Error, Result};

verus! {

/// The content of one tile, in the layout that its sub-encoding byte names.
#[derive(Debug, PartialEq, Eq)]
pub enum Tile {
    /// Sub-encoding 0: every pixel, row by row.
    Raw(Vec<u32>),
    /// Sub-encoding 1: one colour for the whole tile.
    Solid(u32),
    /// Sub-encodings 2 to 16: a palette of that many colours, and for every
    /// pixel an index into it, packed into bits.
    Packed { palette: Vec<u32>, indices: Vec<u8> },
    /// Sub-encoding 128: runs of pixels of one colour.
    Rle(Vec<Run>),
    /// Sub-encodings 130 to 255: a palette of that many colours less 128,
    /// and runs of pixels of one colour of it.
    PaletteRle { palette: Vec<u32>, runs: Vec<IndexRun> },
}

/// The mathematical view of a [`Tile`].
pub ghost enum TileView {
    Raw(Seq<u32>),
    Solid(u32),
    Packed { palette: Seq<u32>, indices: Seq<u8> },
    Rle(Seq<Run>),
    PaletteRle { palette: Seq<u32>, runs: Seq<IndexRun> },
}

impl View for Tile {
    type V = TileView;

    open spec fn view(&self) -> TileView {
        match *self {
            Tile::Raw(pixels) => TileView::Raw(pixels@),
            Tile::Solid(pixel) => TileView::Solid(pixel),
            Tile::Packed { palette, indices } => TileView::Packed {
                palette: palette@,
                indices: indices@,
            },
            Tile::Rle(runs) => TileView::Rle(runs@),
            Tile::PaletteRle { palette, runs } => TileView::PaletteRle {
                palette: palette@,
                runs: runs@,
            },
        }
    }
}

/// The pixels of runs, one run after the other.
pub open spec fn runs_pixels(runs: Seq<Run>) -> Seq<u32>
    decreases runs.len(),
{
    if runs.len() == 0 {
        Seq::empty()
    } else {
        Seq::new(runs[0].length as nat, |i: int| runs[0].pixel) + runs_pixels(runs.skip(1))
    }
}

/// The pixels of runs over a palette, one run after the other.
pub open spec fn index_runs_pixels(palette: Seq<u32>, runs: Seq<IndexRun>) -> Seq<u32>
    decreases runs.len(),
{
    if runs.len() == 0 {
        Seq::empty()
    } else {
        Seq::new(runs[0].length as nat, |i: int| palette[runs[0].index as int])
            + index_runs_pixels(palette, runs.skip(1))
    }
}

impl TileView {
    /// Whether the tile has the shape of a tile of `width` by `height`
    /// pixels: as many pixels, indices or run lengths as the tile has
    /// pixels, a palette of a size that its layout allows, and no index
    /// outside the palette.
    pub open spec fn shaped(self, width: nat, height: nat) -> bool {
        match self {
            TileView::Raw(pixels) => pixels.len() == height * width,
            TileView::Solid(_) => true,
            TileView::Packed { palette, indices } => {
                &&& 2 <= palette.len() <= 16
                &&& indices.len() == height * width
                &&& all_below(indices, palette.len() as int)
            },
            TileView::Rle(runs) => {
                &&& forall|i: int| 0 <= i < runs.len() ==> (#[trigger] runs[i]).length >= 1
                &&& total(runs) == height * width
            },
            TileView::PaletteRle { palette, runs } => {
                &&& 2 <= palette.len() <= 127
                &&& index_runs_cover(runs, palette.len() as int, height * width)
            },
        }
    }

    /// Whether a compact pixel of `layout` can hold every colour of the
    /// tile.
    pub open spec fn fits(self, layout: PixelLayout) -> bool {
        match self {
            TileView::Raw(pixels) => all_compactable(layout, pixels),
            TileView::Solid(pixel) => layout.compactable(pixel),
            TileView::Packed { palette, indices } => all_compactable(layout, palette),
            TileView::Rle(runs) => forall|i: int|
                0 <= i < runs.len() ==> layout.compactable((#[trigger] runs[i]).pixel),
            TileView::PaletteRle { palette, runs } => all_compactable(layout, palette),
        }
    }

    /// Whether the tile is a tile of `width` by `height` pixels in `layout`.
    pub open spec fn well_formed(self, layout: PixelLayout, width: nat, height: nat) -> bool {
        self.shaped(width, height) && self.fits(layout)
    }

    /// The pixels of the tile, row by row.
    pub open spec fn pixels(self, width: nat, height: nat) -> Seq<u32> {
        match self {
            TileView::Raw(pixels) => pixels,
            TileView::Solid(pixel) => Seq::new(height * width, |i: int| pixel),
            TileView::Packed { palette, indices } => Seq::new(
                height * width,
                |i: int| palette[indices[i] as int],
            ),
            TileView::Rle(runs) => runs_pixels(runs),
            TileView::PaletteRle { palette, runs } => index_runs_pixels(palette, runs),
        }
    }

    /// The bytes of the tile: the sub-encoding byte, then what the layout
    /// lays down.
    pub open spec fn bytes(self, layout: PixelLayout, width: nat, height: nat) -> Seq<u8> {
        match self {
            TileView::Raw(pixels) => seq![0u8] + cpixels_bytes(layout, pixels),
            TileView::Solid(pixel) => seq![1u8] + layout.cpixel_bytes(pixel),
            TileView::Packed { palette, indices } => seq![palette.len() as u8] + cpixels_bytes(
                layout,
                palette,
            ) + pack_rows(indices, width, index_bits(palette.len() as int), height),
            TileView::Rle(runs) => seq![128u8] + runs_bytes(layout, runs),
            TileView::PaletteRle { palette, runs } => seq![(128 + palette.len()) as u8]
                + cpixels_bytes(layout, palette) + index_runs_bytes(runs),
        }
    }
}

/// What reading a packed-palette tile with a palette of `size` colours
/// gives, the sub-encoding byte already read.
pub open spec fn take_packed(
    layout: PixelLayout,
    width: nat,
    height: nat,
    size: nat,
    body: Seq<u8>,
) -> Option<(TileView, Seq<u8>)> {
    match take_cpixels(layout, body, size) {
        None => None,
        Some((palette, after_palette)) => match take_rows(
            after_palette,
            width,
            index_bits(size as int),
            height,
        ) {
            None => None,
            Some((indices, rest)) => if all_below(indices, size as int) {
                Some((TileView::Packed { palette, indices }, rest))
            } else {
                None
            },
        },
    }
}

/// What reading a palette run-length tile with a palette of `size` colours
/// gives, the sub-encoding byte already read.
pub open spec fn take_palette_rle(
    layout: PixelLayout,
    width: nat,
    height: nat,
    size: nat,
    body: Seq<u8>,
) -> Option<(TileView, Seq<u8>)> {
    match take_cpixels(layout, body, size) {
        None => None,
        Some((palette, after_palette)) => match take_index_runs(
            after_palette,
            size as int,
            height * width,
        ) {
            None => None,
            Some((runs, rest)) => Some((TileView::PaletteRle { palette, runs }, rest)),
        },
    }
}

/// What reading a tile of `width` by `height` pixels from the head of
/// `bytes` gives: the tile and the bytes after it, or nothing when the
/// sub-encoding is a reserved one, an index or a run goes out of bounds, or
/// the bytes end before the tile does.
pub open spec fn take_tile(layout: PixelLayout, width: nat, height: nat, bytes: Seq<u8>) -> Option<
    (TileView, Seq<u8>),
> {
    if bytes.len() == 0 {
        None
    } else if bytes[0] == 0 {
        match take_cpixels(layout, bytes.skip(1), height * width) {
            None => None,
            Some((pixels, rest)) => Some((TileView::Raw(pixels), rest)),
        }
    } else if bytes[0] == 1 {
        match take_cpixels(layout, bytes.skip(1), 1) {
            None => None,
            Some((pixels, rest)) => Some((TileView::Solid(pixels[0]), rest)),
        }
    } else if bytes[0] <= 16 {
        take_packed(layout, width, height, bytes[0] as nat, bytes.skip(1))
    } else if bytes[0] == 128 {
        match take_runs(layout, bytes.skip(1), height * width) {
            None => None,
            Some((runs, rest)) => Some((TileView::Rle(runs), rest)),
        }
    } else if bytes[0] >= 130 {
        take_palette_rle(layout, width, height, (bytes[0] - 128) as nat, bytes.skip(1))
    } else {
        None
    }
}

/// Whether `tile`, laid down and followed by `rest`, is read back as
/// itself with `rest` left over.
pub open spec fn read_back(
    layout: PixelLayout,
    width: nat,
    height: nat,
    tile: TileView,
    rest: Seq<u8>,
) -> bool {
    take_tile(layout, width, height, tile.bytes(layout, width, height) + rest) == Some(
        (tile, rest),
    )
}

proof fn lemma_raw_read_back(
    layout: PixelLayout,
    width: nat,
    height: nat,
    tile: TileView,
    rest: Seq<u8>,
)
    requires
        layout.well_formed(),
        tile is Raw,
        tile.well_formed(layout, width, height),
    ensures
        read_back(layout, width, height, tile, rest),
{
    let all = tile.bytes(layout, width, height) + rest;
    let pixels = tile->Raw_0;
    assert(all.skip(1) =~= cpixels_bytes(layout, pixels) + rest);
    lemma_cpixels_round_trip(layout, pixels, rest);
}

proof fn lemma_solid_read_back(
    layout: PixelLayout,
    width: nat,
    height: nat,
    tile: TileView,
    rest: Seq<u8>,
)
    requires
        layout.well_formed(),
        tile is Solid,
        tile.well_formed(layout, width, height),
    ensures
        read_back(layout, width, height, tile, rest),
{
    let all = tile.bytes(layout, width, height) + rest;
    let pixel = tile->Solid_0;
    let one = seq![pixel];
    assert(one.skip(1) =~= Seq::<u32>::empty());
    assert(cpixels_bytes(layout, one) =~= layout.cpixel_bytes(pixel)) by {
        reveal_with_fuel(cpixels_bytes, 2);
    }
    assert(all.skip(1) =~= cpixels_bytes(layout, one) + rest);
    lemma_cpixels_round_trip(layout, one, rest);
}

proof fn lemma_packed_read_back(
    layout: PixelLayout,
    width: nat,
    height: nat,
    tile: TileView,
    rest: Seq<u8>,
)
    requires
        layout.well_formed(),
        1 <= width <= 64,
        1 <= height <= 64,
        tile is Packed,
        tile.well_formed(layout, width, height),
    ensures
        read_back(layout, width, height, tile, rest),
{
    let all = tile.bytes(layout, width, height) + rest;
    let palette = tile->Packed_palette;
    let indices = tile->Packed_indices;
    let bits = index_bits(palette.len() as int);
    let rows = pack_rows(indices, width, bits, height);
    assert(all.skip(1) =~= cpixels_bytes(layout, palette) + (rows + rest));
    lemma_cpixels_round_trip(layout, palette, rows + rest);
    assert forall|i: int| 0 <= i < indices.len() implies (#[trigger] indices[i]) < bit_place(
        bits,
    ) by {
        assert(indices[i] < palette.len());
    }
    lemma_rows_round_trip(indices, width, bits, height, rest);
}

proof fn lemma_rle_read_back(
    layout: PixelLayout,
    width: nat,
    height: nat,
    tile: TileView,
    rest: Seq<u8>,
)
    requires
        layout.well_formed(),
        tile is Rle,
        tile.well_formed(layout, width, height),
    ensures
        read_back(layout, width, height, tile, rest),
{
    let all = tile.bytes(layout, width, height) + rest;
    let runs = tile->Rle_0;
    assert(all.skip(1) =~= runs_bytes(layout, runs) + rest);
    lemma_runs_round_trip(layout, runs, height * width, rest);
}

proof fn lemma_palette_rle_read_back(
    layout: PixelLayout,
    width: nat,
    height: nat,
    tile: TileView,
    rest: Seq<u8>,
)
    requires
        layout.well_formed(),
        tile is PaletteRle,
        tile.well_formed(layout, width, height),
    ensures
        read_back(layout, width, height, tile, rest),
{
    let all = tile.bytes(layout, width, height) + rest;
    let palette = tile->PaletteRle_palette;
    let runs = tile->PaletteRle_runs;
    let body = index_runs_bytes(runs);
    assert(all.skip(1) =~= cpixels_bytes(layout, palette) + (body + rest));
    lemma_cpixels_round_trip(layout, palette, body + rest);
    lemma_index_runs_round_trip(runs, palette.len() as int, height * width, rest);
}

/// A tile is read back from its bytes, in every one of the five layouts,
/// whatever follows the bytes.
pub proof fn lemma_tile_round_trip(
    layout: PixelLayout,
    width: nat,
    height: nat,
    tile: TileView,
    rest: Seq<u8>,
)
    requires
        layout.well_formed(),
        1 <= width <= 64,
        1 <= height <= 64,
        tile.well_formed(layout, width, height),
    ensures
        take_tile(layout, width, height, tile.bytes(layout, width, height) + rest) == Some(
            (tile, rest),
        ),
{
    match tile {
        TileView::Raw(_) => lemma_raw_read_back(layout, width, height, tile, rest),
        TileView::Solid(_) => lemma_solid_read_back(layout, width, height, tile, rest),
        TileView::Packed { .. } => lemma_packed_read_back(layout, width, height, tile, rest),
        TileView::Rle(_) => lemma_rle_read_back(layout, width, height, tile, rest),
        TileView::PaletteRle { .. } => lemma_palette_rle_read_back(
            layout,
            width,
            height,
            tile,
            rest,
        ),
    }
}

/// A tile that was read is a tile of the size it was read for, in the
/// layout it was read in.
pub proof fn lemma_taken_tile(layout: PixelLayout, width: nat, height: nat, bytes: Seq<u8>)
    requires
        layout.well_formed(),
        1 <= width <= 64,
        1 <= height <= 64,
        take_tile(layout, width, height, bytes) is Some,
    ensures
        take_tile(layout, width, height, bytes)->Some_0.0.well_formed(layout, width, height),
{
    let count = height * width;
    assert(count <= 0x1000) by (nonlinear_arith)
        requires
            count == height * width,
            width <= 64,
            height <= 64,
    ;
    let body = bytes.skip(1);
    if bytes[0] == 0 {
        lemma_taken_cpixels(layout, body, count);
    } else if bytes[0] == 1 {
        lemma_taken_cpixels(layout, body, 1);
    } else if bytes[0] <= 16 {
        let size = bytes[0] as nat;
        lemma_taken_cpixels(layout, body, size);
        let after_palette = take_cpixels(layout, body, size)->Some_0.1;
        lemma_taken_rows(after_palette, width, index_bits(size as int), height);
    } else if bytes[0] == 128 {
        lemma_taken_runs(layout, body, count);
    } else {
        let size = (bytes[0] - 128) as nat;
        lemma_taken_cpixels(layout, body, size);
        let after_palette = take_cpixels(layout, body, size)->Some_0.1;
        lemma_taken_index_runs(after_palette, size as int, count);
    }
}

/// Rows that were read hold as many indices as the tile has pixels.
pub proof fn lemma_taken_rows(bytes: Seq<u8>, width: nat, bits: int, rows: nat)
    requires
        take_rows(bytes, width, bits, rows) is Some,
    ensures
        take_rows(bytes, width, bits, rows)->Some_0.0.len() == rows * width,
    decreases rows,
{
    if rows > 0 {
        lemma_taken_rows(
            bytes.skip(crate::zrle::packed::row_size(width as int, bits)),
            width,
            bits,
            (rows - 1) as nat,
        );
        assert(rows * width == (rows - 1) * width + width) by (nonlinear_arith);
    } else {
        assert(rows * width == 0) by (nonlinear_arith)
            requires
                rows == 0,
        ;
    }
}

/// Runs cover as many pixels as they hold.
pub proof fn lemma_runs_pixels_len(runs: Seq<Run>)
    ensures
        runs_pixels(runs).len() == total(runs),
    decreases runs.len(),
{
    if runs.len() > 0 {
        lemma_runs_pixels_len(runs.skip(1));
    }
}

/// Runs over a palette cover as many pixels as they hold.
pub proof fn lemma_index_runs_pixels_len(palette: Seq<u32>, runs: Seq<IndexRun>)
    ensures
        index_runs_pixels(palette, runs).len() == index_total(runs),
    decreases runs.len(),
{
    if runs.len() > 0 {
        lemma_index_runs_pixels_len(palette, runs.skip(1));
    }
}

/// A tile of the right shape has as many pixels as the tile is wide
/// times high.
pub proof fn lemma_pixels_len(tile: TileView, width: nat, height: nat)
    requires
        tile.shaped(width, height),
    ensures
        tile.pixels(width, height).len() == height * width,
{
    match tile {
        TileView::Rle(runs) => lemma_runs_pixels_len(runs),
        TileView::PaletteRle { palette, runs } => lemma_index_runs_pixels_len(palette, runs),
        _ => {},
    }
}

/// Appends `count` times the pixel `pixel`.
fn repeat(pixels: &mut Vec<u32>, pixel: u32, count: usize)
    ensures
        final(pixels)@ == old(pixels)@ + Seq::new(count as nat, |i: int| pixel),
{
    let mut i: usize = 0;
    assert(pixels@ =~= old(pixels)@ + Seq::new(0, |i: int| pixel));
    while i < count
        invariant
            i <= count,
            pixels@ == old(pixels)@ + Seq::new(i as nat, |i: int| pixel),
        decreases count - i,
    {
        pixels.push(pixel);
        i = i + 1;
        assert(pixels@ =~= old(pixels)@ + Seq::new(i as nat, |i: int| pixel));
    }
}

impl Tile {
    /// Reads one tile of `width` by `height` pixels. On success the cursor
    /// has moved past exactly the bytes of the tile; on failure it has not
    /// moved.
    pub fn read_from(reader: &mut Reader, layout: &PixelLayout, width: usize, height: usize) -> (r:
        Result<Tile>)
        requires
            layout.well_formed(),
            1 <= width <= 64,
            1 <= height <= 64,
        ensures
            match take_tile(*layout, width as nat, height as nat, old(reader).remaining()) {
                None => r == Err::<Tile, Error>(Error::Unexpected("ZRLE tile")) && final(reader).remaining() == old(reader).remaining(),
                Some((tile, rest)) => r is Ok && r->Ok_0@ == tile && tile.well_formed(
                    *layout,
                    width as nat,
                    height as nat,
                ) && final(reader).remaining() == rest,
            },
    {
        proof {
            if take_tile(*layout, width as nat, height as nat, reader.remaining()) is Some {
                lemma_taken_tile(*layout, width as nat, height as nat, reader.remaining());
            }
        }
        assert(height * width <= 0x1000) by (nonlinear_arith)
            requires
                width <= 64,
                height <= 64,
        ;
        let count = height * width;
        let mut cursor = *reader;
        let sub = match cursor.read_u8() {
            Ok(sub) => sub,
            Err(_) => {
                return Err(Error::Unexpected("ZRLE tile"));
            },
        };
        let tile = if sub == 0 {
            match read_cpixels(&mut cursor, layout, count) {
                Some(pixels) => Tile::Raw(pixels),
                None => {
                    return Err(Error::Unexpected("ZRLE tile"));
                },
            }
        } else if sub == 1 {
            match read_cpixels(&mut cursor, layout, 1) {
                Some(pixels) => {
                    proof {
                        lemma_taken_cpixels(*layout, reader.remaining().skip(1), 1);
                    }
                    Tile::Solid(pixels[0])
                },
                None => {
                    return Err(Error::Unexpected("ZRLE tile"));
                },
            }
        } else if sub <= 16 {
            let size = sub as usize;
            let palette = match read_cpixels(&mut cursor, layout, size) {
                Some(palette) => palette,
                None => {
                    return Err(Error::Unexpected("ZRLE tile"));
                },
            };
            let indices = match read_rows(&mut cursor, width, bits_of_index(size), height) {
                Some(indices) => indices,
                None => {
                    return Err(Error::Unexpected("ZRLE tile"));
                },
            };
            if !indices_below(indices.as_slice(), size) {
                return Err(Error::Unexpected("ZRLE tile"));
            }
            Tile::Packed { palette, indices }
        } else if sub == 128 {
            match read_runs(&mut cursor, layout, count) {
                Some(runs) => Tile::Rle(runs),
                None => {
                    return Err(Error::Unexpected("ZRLE tile"));
                },
            }
        } else if sub >= 130 {
            let size = (sub - 128) as usize;
            let palette = match read_cpixels(&mut cursor, layout, size) {
                Some(palette) => palette,
                None => {
                    return Err(Error::Unexpected("ZRLE tile"));
                },
            };
            match read_index_runs(&mut cursor, size, count) {
                Some(runs) => Tile::PaletteRle { palette, runs },
                None => {
                    return Err(Error::Unexpected("ZRLE tile"));
                },
            }
        } else {
            return Err(Error::Unexpected("ZRLE tile"));
        };
        *reader = cursor;
        Ok(tile)
    }

    /// Appends the bytes of the tile, which is a tile of `width` by
    /// `height` pixels, to `writer`.
    pub fn write_to(&self, layout: &PixelLayout, width: usize, height: usize, writer: &mut Vec<u8>)
        requires
            layout.well_formed(),
            1 <= width <= 64,
            1 <= height <= 64,
            self@.shaped(width as nat, height as nat),
        ensures
            final(writer)@ == old(writer)@ + self@.bytes(*layout, width as nat, height as nat),
    {
        match self {
            Tile::Raw(pixels) => {
                writer.push(0);
                write_cpixels(writer, layout, pixels.as_slice());
            },
            Tile::Solid(pixel) => {
                writer.push(1);
                layout.write_cpixel(*pixel, writer);
            },
            Tile::Packed { palette, indices } => {
                writer.push(palette.len() as u8);
                write_cpixels(writer, layout, palette.as_slice());
                write_rows(writer, indices.as_slice(), width, bits_of_index(palette.len()), height);
            },
            Tile::Rle(runs) => {
                writer.push(128);
                write_runs(writer, layout, runs.as_slice());
            },
            Tile::PaletteRle { palette, runs } => {
                writer.push((128 + palette.len()) as u8);
                write_cpixels(writer, layout, palette.as_slice());
                write_index_runs(writer, runs.as_slice());
            },
        }
        assert(writer@ =~= old(writer)@ + self@.bytes(*layout, width as nat, height as nat));
    }

    /// The pixels of the tile, which is a tile of `width` by `height`
    /// pixels, row by row.
    pub fn pixels(&self, width: usize, height: usize) -> (pixels: Vec<u32>)
        requires
            1 <= width <= 64,
            1 <= height <= 64,
            self@.shaped(width as nat, height as nat),
        ensures
            pixels@ == self@.pixels(width as nat, height as nat),
            pixels@.len() == height * width,
    {
        proof {
            lemma_pixels_len(self@, width as nat, height as nat);
        }
        assert(height * width <= 0x1000) by (nonlinear_arith)
            requires
                width <= 64,
                height <= 64,
        ;
        let count = height * width;
        let mut pixels: Vec<u32> = Vec::new();
        match self {
            Tile::Raw(raw) => {
                let mut i: usize = 0;
                while i < raw.len()
                    invariant
                        i <= raw@.len(),
                        pixels@ == raw@.take(i as int),
                    decreases raw@.len() - i,
                {
                    pixels.push(raw[i]);
                    i = i + 1;
                    assert(pixels@ =~= raw@.take(i as int));
                }
                assert(raw@.take(i as int) =~= raw@);
            },
            Tile::Solid(pixel) => {
                repeat(&mut pixels, *pixel, count);
                assert(pixels@ =~= Seq::new(count as nat, |i: int| *pixel));
            },
            Tile::Packed { palette, indices } => {
                let mut i: usize = 0;
                while i < indices.len()
                    invariant
                        i <= indices@.len(),
                        all_below(indices@, palette@.len() as int),
                        pixels@ == Seq::new(i as nat, |k: int| palette@[indices@[k] as int]),
                    decreases indices@.len() - i,
                {
                    assert(indices@[i as int] < palette@.len());
                    pixels.push(palette[indices[i] as usize]);
                    i = i + 1;
                    assert(pixels@ =~= Seq::new(i as nat, |k: int| palette@[indices@[k] as int]));
                }
            },
            Tile::Rle(runs) => {
                let mut i: usize = 0;
                assert(runs@.skip(0) =~= runs@);
                assert(pixels@ + runs_pixels(runs@) =~= runs_pixels(runs@));
                while i < runs.len()
                    invariant
                        i <= runs@.len(),
                        runs_pixels(runs@) == pixels@ + runs_pixels(runs@.skip(i as int)),
                    decreases runs@.len() - i,
                {
                    let ghost before = pixels@;
                    let run = runs[i];
                    repeat(&mut pixels, run.pixel, run.length as usize);
                    proof {
                        let left = runs@.skip(i as int);
                        assert(left[0] == run);
                        assert(left.skip(1) =~= runs@.skip(i + 1));
                        assert(before + (Seq::new(run.length as nat, |k: int| run.pixel)
                            + runs_pixels(left.skip(1))) =~= pixels@ + runs_pixels(left.skip(1)));
                    }
                    i = i + 1;
                }
                assert(pixels@ + Seq::<u32>::empty() =~= pixels@);
            },
            Tile::PaletteRle { palette, runs } => {
                let mut i: usize = 0;
                assert(runs@.skip(0) =~= runs@);
                assert(pixels@ + index_runs_pixels(palette@, runs@) =~= index_runs_pixels(
                    palette@,
                    runs@,
                ));
                while i < runs.len()
                    invariant
                        i <= runs@.len(),
                        forall|k: int|
                            0 <= k < runs@.len() ==> (#[trigger] runs@[k]).index < palette@.len(),
                        index_runs_pixels(palette@, runs@) == pixels@ + index_runs_pixels(
                            palette@,
                            runs@.skip(i as int),
                        ),
                    decreases runs@.len() - i,
                {
                    let ghost before = pixels@;
                    let run = runs[i];
                    assert(runs@[i as int].index < palette@.len());
                    let pixel = palette[run.index as usize];
                    repeat(&mut pixels, pixel, run.length as usize);
                    proof {
                        let left = runs@.skip(i as int);
                        assert(left[0] == run);
                        assert(left.skip(1) =~= runs@.skip(i + 1));
                        assert(before + (Seq::new(run.length as nat, |k: int| pixel)
                            + index_runs_pixels(palette@, left.skip(1))) =~= pixels@
                            + index_runs_pixels(palette@, left.skip(1)));
                    }
                    i = i + 1;
                }
                assert(pixels@ + Seq::<u32>::empty() =~= pixels@);
            },
        }
        pixels
    }
}

/// Whether the pixels are all alike.
pub open spec fn uniform(pixels: Seq<u32>) -> bool {
    forall|i: int| 0 <= i < pixels.len() ==> (#[trigger] pixels[i]) == pixels[0]
}

impl Tile {
    /// A tile for the pixels `pixels` of a tile of `width` by `height`
    /// pixels: one colour where the pixels are all alike, every pixel
    /// otherwise.
    pub fn from_pixels(pixels: Vec<u32>, width: usize, height: usize) -> (tile: Tile)
        requires
            1 <= width <= 64,
            1 <= height <= 64,
            pixels@.len() == height * width,
        ensures
            tile@ == (if uniform(pixels@) {
                TileView::Solid(pixels@[0])
            } else {
                TileView::Raw(pixels@)
            }),
            tile@.shaped(width as nat, height as nat),
            tile@.pixels(width as nat, height as nat) == pixels@,
            forall|layout: PixelLayout|
                all_compactable(layout, pixels@) ==> #[trigger] tile@.fits(layout),
    {
        assert(height * width >= 1) by (nonlinear_arith)
            requires
                width >= 1,
                height >= 1,
        ;
        let first = pixels[0];
        let mut i: usize = 1;
        while i < pixels.len()
            invariant
                1 <= i <= pixels@.len(),
                pixels@.len() == height * width,
                first == pixels@[0],
                forall|k: int| 0 <= k < i ==> pixels@[k] == first,
            decreases pixels@.len() - i,
        {
            if pixels[i] != first {
                assert(pixels@[i as int] != pixels@[0]);
                return Tile::Raw(pixels);
            }
            i = i + 1;
        }
        assert(pixels@ =~= Seq::new((height * width) as nat, |k: int| first));
        assert forall|layout: PixelLayout| all_compactable(layout, pixels@) implies layout.compactable(
            first,
        ) by {
            assert(layout.compactable(pixels@[0]));
        }
        Tile::Solid(first)
    }
}

/// How many bytes a tile takes at most: the sub-encoding byte, the largest
/// palette, and for each of 64 by 64 pixels a compact pixel and a run
/// length of one byte.
pub open spec fn tile_limit() -> nat {
    20989
}

/// No tile takes more bytes than the limit for tiles.
pub proof fn lemma_tile_size(layout: PixelLayout, width: nat, height: nat, bytes: Seq<u8>)
    requires
        layout.well_formed(),
        1 <= width <= 64,
        1 <= height <= 64,
        take_tile(layout, width, height, bytes) is Some,
    ensures
        take_tile(layout, width, height, bytes)->Some_0.1.len() <= bytes.len(),
        bytes.len() - take_tile(layout, width, height, bytes)->Some_0.1.len() <= tile_limit(),
{
    let count = height * width;
    assert(count <= 0x1000) by (nonlinear_arith)
        requires
            count == height * width,
            width <= 64,
            height <= 64,
    ;
    let body = bytes.skip(1);
    if bytes[0] == 0 {
        lemma_cpixels_size(layout, body, count);
    } else if bytes[0] == 1 {
        lemma_cpixels_size(layout, body, 1);
    } else if bytes[0] <= 16 {
        let size = bytes[0] as nat;
        lemma_cpixels_size(layout, body, size);
        let after_palette = take_cpixels(layout, body, size)->Some_0.1;
        lemma_rows_size(after_palette, width, index_bits(size as int), height);
    } else if bytes[0] == 128 {
        lemma_runs_size(layout, body, count);
    } else {
        let size = (bytes[0] - 128) as nat;
        lemma_cpixels_size(layout, body, size);
        let after_palette = take_cpixels(layout, body, size)->Some_0.1;
        lemma_index_runs_size(after_palette, size as int, count);
    }
}

} // verus!
