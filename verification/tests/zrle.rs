use vnc::protocol::{PixelFormat, Rect};
use vnc::zrle::rectangle::{pack_pixels, read_tiles, tiles_of, unpack_pixels, write_tiles};
use vnc::zrle::runs::{read_run_length, write_run_length};
use vnc::zrle::stream::{choose_flush, decode_tiles, judge_deflating, judge_inflating, lay_down, Flush, Onward, Step};
use vnc::zrle::{Compact, DecodedTile, Decoder, Encoder, IndexRun, PixelLayout, Run, Tile};
use vnc::{Error, IoError, Reader};

fn format8() -> PixelFormat {
    PixelFormat {
        bits_per_pixel: 8,
        depth: 8,
        big_endian: false,
        true_colour: true,
        red_max: 7,
        green_max: 7,
        blue_max: 3,
        red_shift: 0,
        green_shift: 3,
        blue_shift: 6,
    }
}

fn layout8() -> PixelLayout {
    PixelLayout::new(&format8()).unwrap()
}

fn layout_rgb() -> PixelLayout {
    PixelLayout::new(&PixelFormat::rgb8888()).unwrap()
}

fn tile_bytes(tile: &Tile, layout: &PixelLayout, width: usize, height: usize) -> Vec<u8> {
    let mut bytes = vec![0xEE];
    tile.write_to(layout, width, height, &mut bytes);
    assert_eq!(bytes[0], 0xEE);
    bytes.remove(0);
    bytes
}

fn read_tile(bytes: &[u8], layout: &PixelLayout, width: usize, height: usize) -> Result<Tile, Error> {
    let mut reader = Reader::new(bytes);
    let tile = Tile::read_from(&mut reader, layout, width, height);
    if tile.is_err() {
        assert_eq!(reader.available(), bytes.len());
    }
    tile
}

fn tile_round_trip(tile: Tile, layout: &PixelLayout, width: usize, height: usize) -> Vec<u8> {
    let mut bytes = tile_bytes(&tile, layout, width, height);
    let written = bytes.len();
    bytes.extend_from_slice(&[1, 2, 3]);
    let mut reader = Reader::new(&bytes);
    let back = Tile::read_from(&mut reader, layout, width, height).unwrap();
    assert_eq!(back, tile);
    assert_eq!(reader.available(), 3);
    bytes.truncate(written);
    for cut in 0..written {
        assert_eq!(read_tile(&bytes[..cut], layout, width, height), Err(Error::Unexpected("ZRLE tile")));
    }
    bytes
}

#[test]
fn layout_of_rgb8888_is_three_low_bytes() {
    let layout = layout_rgb();
    assert_eq!(layout, PixelLayout { pixel_size: 4, big_endian: true, compact: Compact::Low3 });
    assert_eq!(layout.cpixel_size(), 3);
}

#[test]
fn layout_three_high_bytes() {
    let format = PixelFormat { red_shift: 8, green_shift: 16, blue_shift: 24, ..PixelFormat::rgb8888() };
    let layout = PixelLayout::new(&format).unwrap();
    assert_eq!(layout.compact, Compact::High3);
    assert_eq!(layout.cpixel_size(), 3);
}

#[test]
fn layout_full_pixel_when_conditions_fail() {
    let deep = PixelFormat { depth: 32, ..PixelFormat::rgb8888() };
    assert_eq!(PixelLayout::new(&deep).unwrap().compact, Compact::Full);
    let mapped = PixelFormat { true_colour: false, ..PixelFormat::rgb8888() };
    assert_eq!(PixelLayout::new(&mapped).unwrap().compact, Compact::Full);
    let wide = PixelFormat { red_max: 1023, red_shift: 0, green_shift: 10, blue_shift: 20, blue_max: 1023, green_max: 1023, ..PixelFormat::rgb8888() };
    assert_eq!(PixelLayout::new(&wide).unwrap().compact, Compact::Full);
    let straddling = PixelFormat { red_shift: 4, green_shift: 12, blue_shift: 20, ..PixelFormat::rgb8888() };
    assert_eq!(PixelLayout::new(&straddling).unwrap().compact, Compact::Full);
    assert_eq!(PixelLayout::new(&straddling).unwrap().cpixel_size(), 4);
    let sixteen = PixelFormat { bits_per_pixel: 16, depth: 16, red_max: 31, green_max: 63, blue_max: 31, red_shift: 11, green_shift: 5, blue_shift: 0, ..PixelFormat::rgb8888() };
    let layout = PixelLayout::new(&sixteen).unwrap();
    assert_eq!(layout, PixelLayout { pixel_size: 2, big_endian: true, compact: Compact::Full });
    assert_eq!(layout.cpixel_size(), 2);
    assert_eq!(layout8().cpixel_size(), 1);
}

#[test]
fn layout_needs_one_to_four_bytes() {
    assert_eq!(PixelLayout::new(&PixelFormat { bits_per_pixel: 7, ..PixelFormat::rgb8888() }), None);
    assert_eq!(PixelLayout::new(&PixelFormat { bits_per_pixel: 0, ..PixelFormat::rgb8888() }), None);
    assert_eq!(PixelLayout::new(&PixelFormat { bits_per_pixel: 40, ..PixelFormat::rgb8888() }), None);
    assert_eq!(PixelLayout::new(&PixelFormat { bits_per_pixel: 64, ..PixelFormat::rgb8888() }), None);
    assert!(PixelLayout::new(&PixelFormat { bits_per_pixel: 24, ..PixelFormat::rgb8888() }).is_some());
}

#[test]
fn layout_channels_without_values_fit_anywhere() {
    let format = PixelFormat { red_max: 0, red_shift: 200, green_max: 0, green_shift: 31, blue_max: 255, blue_shift: 16, ..PixelFormat::rgb8888() };
    assert_eq!(PixelLayout::new(&format).unwrap().compact, Compact::Low3);
    let format = PixelFormat { red_max: 1, red_shift: 24, ..PixelFormat::rgb8888() };
    assert_eq!(PixelLayout::new(&format).unwrap().compact, Compact::High3);
    let format = PixelFormat { red_max: 1, red_shift: 24, green_shift: 0, ..PixelFormat::rgb8888() };
    assert_eq!(PixelLayout::new(&format).unwrap().compact, Compact::Full);
    let format = PixelFormat { red_max: 1, red_shift: 23, green_max: 0x7FFF, green_shift: 8, blue_max: 0xFF, blue_shift: 0, ..PixelFormat::rgb8888() };
    assert_eq!(PixelLayout::new(&format).unwrap().compact, Compact::Low3);
    let format = PixelFormat { red_max: 0xFFFF, red_shift: 16, green_max: 0xFF, green_shift: 8, blue_max: 0, blue_shift: 0, ..PixelFormat::rgb8888() };
    assert_eq!(PixelLayout::new(&format).unwrap().compact, Compact::High3);
    let format = PixelFormat { red_max: 0xFFFF, red_shift: 17, green_max: 0xFF, green_shift: 8, blue_max: 0, blue_shift: 0, ..PixelFormat::rgb8888() };
    assert_eq!(PixelLayout::new(&format).unwrap().compact, Compact::Full);
}

#[test]
fn cpixel_three_byte_forms_round_trip() {
    let cases = [
        (PixelLayout { pixel_size: 4, big_endian: true, compact: Compact::Low3 }, 0x00123456u32, vec![0x12, 0x34, 0x56], vec![0x00, 0x12, 0x34, 0x56]),
        (PixelLayout { pixel_size: 4, big_endian: false, compact: Compact::Low3 }, 0x00123456, vec![0x56, 0x34, 0x12], vec![0x56, 0x34, 0x12, 0x00]),
        (PixelLayout { pixel_size: 4, big_endian: true, compact: Compact::High3 }, 0x12345600, vec![0x12, 0x34, 0x56], vec![0x12, 0x34, 0x56, 0x00]),
        (PixelLayout { pixel_size: 4, big_endian: false, compact: Compact::High3 }, 0x12345600, vec![0x34, 0x56, 0x12][..0].to_vec(), vec![0x00, 0x56, 0x34, 0x12]),
    ];
    for (layout, value, cpixel, pixel) in cases {
        let mut bytes = Vec::new();
        layout.write_cpixel(value, &mut bytes);
        assert_eq!(bytes.len(), 3);
        if !cpixel.is_empty() {
            assert_eq!(bytes, cpixel);
        } else {
            assert_eq!(bytes, vec![0x56, 0x34, 0x12]);
        }
        assert_eq!(layout.read_cpixel(&bytes), value);
        let mut full = Vec::new();
        layout.write_pixel(value, &mut full);
        assert_eq!(full, pixel);
        assert_eq!(layout.read_pixel(&full), value);
    }
}

#[test]
fn cpixel_full_forms_round_trip() {
    let cases = [
        (PixelLayout { pixel_size: 4, big_endian: true, compact: Compact::Full }, 0xDEADBEEFu32, vec![0xDE, 0xAD, 0xBE, 0xEF]),
        (PixelLayout { pixel_size: 4, big_endian: false, compact: Compact::Full }, 0xDEADBEEF, vec![0xEF, 0xBE, 0xAD, 0xDE]),
        (PixelLayout { pixel_size: 3, big_endian: true, compact: Compact::Full }, 0x00ABCDEF, vec![0xAB, 0xCD, 0xEF]),
        (PixelLayout { pixel_size: 2, big_endian: true, compact: Compact::Full }, 0x0000F81F, vec![0xF8, 0x1F]),
        (PixelLayout { pixel_size: 2, big_endian: false, compact: Compact::Full }, 0x0000F81F, vec![0x1F, 0xF8]),
        (PixelLayout { pixel_size: 1, big_endian: false, compact: Compact::Full }, 0x000000C7, vec![0xC7]),
    ];
    for (layout, value, expected) in cases {
        let mut bytes = Vec::new();
        layout.write_cpixel(value, &mut bytes);
        assert_eq!(bytes, expected);
        assert_eq!(layout.read_cpixel(&bytes), value);
        let mut full = Vec::new();
        layout.write_pixel(value, &mut full);
        assert_eq!(full, expected);
        assert_eq!(layout.read_pixel(&full), value);
    }
}

#[test]
fn cpixel_drops_what_it_cannot_hold() {
    let low = PixelLayout { pixel_size: 4, big_endian: true, compact: Compact::Low3 };
    let mut bytes = Vec::new();
    low.write_cpixel(0xFF123456, &mut bytes);
    assert_eq!(bytes, vec![0x12, 0x34, 0x56]);
    assert_eq!(low.read_cpixel(&bytes), 0x00123456);
}

#[test]
fn run_lengths_spell_one_more_than_their_sum() {
    let cases: [(usize, Vec<u8>); 8] = [
        (1, vec![0]),
        (2, vec![1]),
        (255, vec![254]),
        (256, vec![255, 0]),
        (257, vec![255, 1]),
        (510, vec![255, 254]),
        (511, vec![255, 255, 0]),
        (4096, vec![255; 16].into_iter().chain([15]).collect()),
    ];
    for (length, expected) in cases {
        let mut bytes = Vec::new();
        write_run_length(&mut bytes, length);
        assert_eq!(bytes, expected, "length {}", length);
        bytes.push(0x33);
        let mut reader = Reader::new(&bytes);
        assert_eq!(read_run_length(&mut reader, 4096), Some(length));
        assert_eq!(reader.available(), 1);
        let mut reader = Reader::new(&bytes);
        assert_eq!(read_run_length(&mut reader, length), Some(length));
        let mut reader = Reader::new(&bytes);
        assert_eq!(read_run_length(&mut reader, length - 1), None);
        let mut reader = Reader::new(&expected[..expected.len() - 1]);
        assert_eq!(read_run_length(&mut reader, 4096), None);
    }
}

#[test]
fn solid_tile_expands_to_every_pixel() {
    let layout = layout_rgb();
    let tile = read_tile(&[0x01, 0x80, 0x80, 0x80], &layout, 64, 64).unwrap();
    assert_eq!(tile, Tile::Solid(0x808080));
    let pixels = tile.pixels(64, 64);
    assert_eq!(pixels.len(), 4096);
    assert!(pixels.iter().all(|p| *p == 0x808080));
    let format = PixelFormat::rgb8888();
    for p in &pixels {
        let red = (p >> format.red_shift) & format.red_max as u32;
        let green = (p >> format.green_shift) & format.green_max as u32;
        let blue = (p >> format.blue_shift) & format.blue_max as u32;
        assert_eq!((red, green, blue), (0x80, 0x80, 0x80));
    }
    let bytes = pack_pixels(&layout, &pixels);
    assert_eq!(bytes.len(), 4096 * 4);
    assert!(bytes.chunks(4).all(|c| c == [0x00, 0x80, 0x80, 0x80]));
}

#[test]
fn raw_tile_round_trips() {
    let layout = layout_rgb();
    let tile = Tile::Raw(vec![0x010203, 0x040506, 0x070809, 0x0A0B0C, 0x0D0E0F, 0x101112]);
    let bytes = tile_round_trip(tile, &layout, 3, 2);
    assert_eq!(bytes, vec![0, 1, 2, 3, 4, 5, 6, 7, 8, 9, 10, 11, 12, 13, 14, 15, 16, 17, 18]);
    let tile = read_tile(&bytes, &layout, 2, 3).unwrap();
    assert_eq!(tile.pixels(2, 3), vec![0x010203, 0x040506, 0x070809, 0x0A0B0C, 0x0D0E0F, 0x101112]);
    let big: Vec<u32> = (0..4096u32).map(|i| i * 4099 % 0x1000000).collect();
    let bytes = tile_round_trip_no_cuts(Tile::Raw(big.clone()), &layout, 64, 64);
    assert_eq!(bytes.len(), 1 + 4096 * 3);
    assert_eq!(read_tile(&bytes, &layout, 64, 64).unwrap().pixels(64, 64), big);
}

fn tile_round_trip_no_cuts(tile: Tile, layout: &PixelLayout, width: usize, height: usize) -> Vec<u8> {
    let bytes = tile_bytes(&tile, layout, width, height);
    assert_eq!(read_tile(&bytes, layout, width, height), Ok(tile));
    assert_eq!(read_tile(&bytes[..bytes.len() - 1], layout, width, height), Err(Error::Unexpected("ZRLE tile")));
    bytes
}

#[test]
fn solid_tile_round_trips() {
    assert_eq!(tile_round_trip(Tile::Solid(0xC7), &layout8(), 64, 64), vec![1, 0xC7]);
    assert_eq!(tile_round_trip(Tile::Solid(0xABCDEF), &layout_rgb(), 1, 1), vec![1, 0xAB, 0xCD, 0xEF]);
}

#[test]
fn packed_tile_one_bit_indices() {
    let layout = layout8();
    let tile = Tile::Packed {
        palette: vec![0x11, 0x22],
        indices: vec![1, 0, 1, 0, 1, 0, 1, 0, 1, 0, 0, 0, 0, 0, 0, 0, 0, 1],
    };
    let bytes = tile_round_trip(tile, &layout, 9, 2);
    assert_eq!(bytes, vec![2, 0x11, 0x22, 0xAA, 0x80, 0x00, 0x80]);
    let pixels = read_tile(&bytes, &layout, 9, 2).unwrap().pixels(9, 2);
    assert_eq!(
        pixels,
        vec![0x22, 0x11, 0x22, 0x11, 0x22, 0x11, 0x22, 0x11, 0x22, 0x11, 0x11, 0x11, 0x11, 0x11, 0x11, 0x11, 0x11, 0x22]
    );
}

#[test]
fn packed_tile_two_three_and_four_bit_indices() {
    let layout = layout8();
    let tile = Tile::Packed { palette: vec![1, 2, 3], indices: vec![2, 1, 0, 2, 1] };
    assert_eq!(tile_round_trip(tile, &layout, 5, 1), vec![3, 1, 2, 3, 0x92, 0x40]);
    let tile = Tile::Packed { palette: vec![1, 2, 3, 4], indices: vec![3, 3, 3, 3, 0, 1, 2, 3] };
    assert_eq!(tile_round_trip(tile, &layout, 4, 2), vec![4, 1, 2, 3, 4, 0xFF, 0x1B]);
    let tile = Tile::Packed { palette: vec![10, 11, 12, 13, 14], indices: vec![4, 2, 1] };
    assert_eq!(tile_round_trip(tile, &layout, 3, 1), vec![5, 10, 11, 12, 13, 14, 0x88, 0x80]);
    let tile = Tile::Packed { palette: vec![0, 1, 2, 3, 4, 5, 6, 7], indices: vec![7, 6, 5, 4, 3, 2, 1, 0] };
    assert_eq!(tile_round_trip(tile, &layout, 8, 1), vec![8, 0, 1, 2, 3, 4, 5, 6, 7, 0xFA, 0xC6, 0x88]);
    let tile = Tile::Packed { palette: (0..9).collect(), indices: vec![8, 0, 7] };
    assert_eq!(tile_round_trip(tile, &layout, 3, 1), vec![9, 0, 1, 2, 3, 4, 5, 6, 7, 8, 0x80, 0x70]);
    let tile = Tile::Packed { palette: (0..16).collect(), indices: vec![15, 1, 2, 14] };
    assert_eq!(
        tile_round_trip(tile, &layout, 2, 2),
        vec![16, 0, 1, 2, 3, 4, 5, 6, 7, 8, 9, 10, 11, 12, 13, 14, 15, 0xF1, 0x2E]
    );
}

#[test]
fn packed_tile_of_every_palette_size_round_trips() {
    let layout = layout_rgb();
    for size in 2..=16u32 {
        for (width, height) in [(1usize, 1usize), (7, 3), (64, 64), (63, 2), (9, 9)] {
            let palette: Vec<u32> = (0..size).map(|i| i * 0x010203 + 5).collect();
            let indices: Vec<u8> = (0..width * height).map(|i| ((i * 7 + i / 5) as u32 % size) as u8).collect();
            let tile = Tile::Packed { palette: palette.clone(), indices: indices.clone() };
            let bytes = tile_round_trip_no_cuts(tile, &layout, width, height);
            assert_eq!(bytes[0], size as u8);
            let bits = if size <= 2 { 1 } else if size <= 4 { 2 } else if size <= 8 { 3 } else { 4 };
            assert_eq!(bytes.len(), 1 + 3 * size as usize + height * ((width * bits + 7) / 8));
            let pixels = read_tile(&bytes, &layout, width, height).unwrap().pixels(width, height);
            let expected: Vec<u32> = indices.iter().map(|i| palette[*i as usize]).collect();
            assert_eq!(pixels, expected);
        }
    }
}

#[test]
fn packed_tile_index_outside_palette_is_malformed() {
    let layout = layout8();
    assert_eq!(read_tile(&[3, 1, 2, 3, 0xC0], &layout, 1, 1), Err(Error::Unexpected("ZRLE tile")));
    assert_eq!(read_tile(&[3, 1, 2, 3, 0x80], &layout, 1, 1), Ok(Tile::Packed { palette: vec![1, 2, 3], indices: vec![2] }));
    assert_eq!(read_tile(&[5, 1, 2, 3, 4, 5, 0xA0], &layout, 1, 1), Err(Error::Unexpected("ZRLE tile")));
}

#[test]
fn packed_tile_padding_bits_are_ignored_on_read() {
    let layout = layout8();
    assert_eq!(
        read_tile(&[2, 0x11, 0x22, 0xFF], &layout, 3, 1),
        Ok(Tile::Packed { palette: vec![0x11, 0x22], indices: vec![1, 1, 1] })
    );
    assert_eq!(tile_bytes(&Tile::Packed { palette: vec![0x11, 0x22], indices: vec![1, 1, 1] }, &layout, 3, 1), vec![2, 0x11, 0x22, 0xE0]);
}

#[test]
fn plain_rle_tile_round_trips() {
    let layout = layout8();
    let tile = Tile::Rle(vec![Run { pixel: 0x55, length: 3 }, Run { pixel: 0x66, length: 1 }]);
    let bytes = tile_round_trip(tile, &layout, 4, 1);
    assert_eq!(bytes, vec![128, 0x55, 2, 0x66, 0]);
    assert_eq!(read_tile(&bytes, &layout, 2, 2).unwrap().pixels(2, 2), vec![0x55, 0x55, 0x55, 0x66]);
    let tile = Tile::Rle(vec![Run { pixel: 0x808080, length: 4096 }]);
    let bytes = tile_round_trip(tile, &layout_rgb(), 64, 64);
    let mut expected = vec![128, 0x80, 0x80, 0x80];
    expected.extend_from_slice(&[255; 16]);
    expected.push(15);
    assert_eq!(bytes, expected);
    let tile = Tile::Rle(vec![Run { pixel: 1, length: 256 }, Run { pixel: 2, length: 255 }, Run { pixel: 1, length: 1 }]);
    assert_eq!(tile_round_trip(tile, &layout8(), 64, 8), vec![128, 1, 255, 0, 2, 254, 1, 0]);
}

#[test]
fn plain_rle_run_that_overshoots_is_malformed() {
    let layout = layout8();
    assert_eq!(read_tile(&[128, 0x55, 4], &layout, 4, 1), Err(Error::Unexpected("ZRLE tile")));
    assert_eq!(read_tile(&[128, 0x55, 2, 0x66, 1], &layout, 4, 1), Err(Error::Unexpected("ZRLE tile")));
    assert_eq!(read_tile(&[128, 0x55, 255, 255, 255, 255], &layout, 4, 1), Err(Error::Unexpected("ZRLE tile")));
    assert_eq!(read_tile(&[128, 0x55, 3], &layout, 4, 1), Ok(Tile::Rle(vec![Run { pixel: 0x55, length: 4 }])));
}

#[test]
fn palette_rle_tile_round_trips() {
    let layout = layout8();
    let tile = Tile::PaletteRle {
        palette: vec![0x0A, 0x0B],
        runs: vec![IndexRun { index: 0, length: 2 }, IndexRun { index: 1, length: 1 }, IndexRun { index: 0, length: 1 }],
    };
    let bytes = tile_round_trip(tile, &layout, 2, 2);
    assert_eq!(bytes, vec![130, 0x0A, 0x0B, 0x80, 1, 0x01, 0x00]);
    assert_eq!(read_tile(&bytes, &layout, 2, 2).unwrap().pixels(2, 2), vec![0x0A, 0x0A, 0x0B, 0x0A]);
    let palette: Vec<u32> = (0..127).collect();
    let runs: Vec<IndexRun> = (0..127).map(|i| IndexRun { index: i as u8, length: if i == 126 { 4096 - 126 * 3 } else { 3 } }).collect();
    let bytes = tile_round_trip_no_cuts(Tile::PaletteRle { palette, runs }, &layout, 64, 64);
    assert_eq!(bytes[0], 255);
}

#[test]
fn palette_rle_of_every_palette_size_round_trips() {
    let layout = layout_rgb();
    for size in 2..=127usize {
        let palette: Vec<u32> = (0..size as u32).map(|i| 0xFFFFFF - i * 3).collect();
        let mut runs = Vec::new();
        let mut left = 64 * 64;
        let mut i = 0;
        while left > 0 {
            let length = std::cmp::min(left, 1 + (i * 37) % 300);
            runs.push(IndexRun { index: (i % size) as u8, length: length as u16 });
            left -= length;
            i += 1;
        }
        let tile = Tile::PaletteRle { palette: palette.clone(), runs: runs.clone() };
        let bytes = tile_round_trip_no_cuts(tile, &layout, 64, 64);
        assert_eq!(bytes[0] as usize, 128 + size);
        let pixels = read_tile(&bytes, &layout, 64, 64).unwrap().pixels(64, 64);
        let expected: Vec<u32> = runs.iter().flat_map(|r| std::iter::repeat(palette[r.index as usize]).take(r.length as usize)).collect();
        assert_eq!(pixels, expected);
    }
}

#[test]
fn palette_rle_single_pixel_run_has_two_spellings() {
    let layout = layout8();
    let short = read_tile(&[130, 0x0A, 0x0B, 0x01], &layout, 1, 1).unwrap();
    let long = read_tile(&[130, 0x0A, 0x0B, 0x81, 0x00], &layout, 1, 1).unwrap();
    assert_eq!(short, long);
    assert_eq!(tile_bytes(&long, &layout, 1, 1), vec![130, 0x0A, 0x0B, 0x01]);
}

#[test]
fn palette_rle_index_outside_palette_is_malformed() {
    let layout = layout8();
    assert_eq!(read_tile(&[130, 0x0A, 0x0B, 0x02], &layout, 1, 1), Err(Error::Unexpected("ZRLE tile")));
    assert_eq!(read_tile(&[130, 0x0A, 0x0B, 0x82, 0x00], &layout, 1, 1), Err(Error::Unexpected("ZRLE tile")));
    assert_eq!(read_tile(&[130, 0x0A, 0x0B, 0x81, 0x01], &layout, 1, 1), Err(Error::Unexpected("ZRLE tile")));
}

#[test]
fn reserved_sub_encodings_are_malformed() {
    let layout = layout8();
    let body = [0u8; 64];
    for sub in (17..=127u8).chain([129]) {
        let mut bytes = vec![sub];
        bytes.extend_from_slice(&body);
        assert_eq!(read_tile(&bytes, &layout, 2, 2), Err(Error::Unexpected("ZRLE tile")), "sub-encoding {}", sub);
    }
    assert_eq!(read_tile(&[], &layout, 2, 2), Err(Error::Unexpected("ZRLE tile")));
}

#[test]
fn tile_from_pixels() {
    assert_eq!(Tile::from_pixels(vec![7, 7, 7, 7, 7, 7], 3, 2), Tile::Solid(7));
    assert_eq!(Tile::from_pixels(vec![7, 7, 7, 7, 7, 8], 3, 2), Tile::Raw(vec![7, 7, 7, 7, 7, 8]));
    assert_eq!(Tile::from_pixels(vec![9], 1, 1), Tile::Solid(9));
    assert_eq!(Tile::from_pixels(vec![7, 8, 7, 7], 2, 2).pixels(2, 2), vec![7, 8, 7, 7]);
    assert_eq!(Tile::from_pixels(vec![5; 4096], 64, 64).pixels(64, 64), vec![5; 4096]);
}

#[test]
fn rectangle_is_cut_into_tiles_row_by_row() {
    let tiles = tiles_of(&Rect::new(10, 20, 130, 70)).unwrap();
    assert_eq!(
        tiles,
        vec![
            Rect::new(10, 20, 64, 64),
            Rect::new(74, 20, 64, 64),
            Rect::new(138, 20, 2, 64),
            Rect::new(10, 84, 64, 6),
            Rect::new(74, 84, 64, 6),
            Rect::new(138, 84, 2, 6),
        ]
    );
    assert_eq!(tiles_of(&Rect::new(0, 0, 64, 64)).unwrap(), vec![Rect::new(0, 0, 64, 64)]);
    assert_eq!(tiles_of(&Rect::new(0, 0, 65, 1)).unwrap(), vec![Rect::new(0, 0, 64, 1), Rect::new(64, 0, 1, 1)]);
    assert_eq!(tiles_of(&Rect::new(5, 5, 0, 10)).unwrap(), vec![]);
    assert_eq!(tiles_of(&Rect::new(5, 5, 10, 0)).unwrap(), vec![]);
    assert_eq!(tiles_of(&Rect::new(65535, 65535, 1, 1)).unwrap(), vec![Rect::new(65535, 65535, 1, 1)]);
    assert_eq!(tiles_of(&Rect::new(65535, 0, 2, 1)), None);
    assert_eq!(tiles_of(&Rect::new(0, 65000, 1, 536)).unwrap().len(), 9);
    assert_eq!(tiles_of(&Rect::new(0, 65000, 1, 537)), None);
    assert_eq!(tiles_of(&Rect::new(0, 0, 1920, 1080)).unwrap().len(), 30 * 17);
}

#[test]
fn tiles_of_a_rectangle_round_trip() {
    let layout = layout8();
    let rects = tiles_of(&Rect::new(0, 0, 66, 65)).unwrap();
    assert_eq!(rects.len(), 4);
    let tiles = vec![
        Tile::Solid(1),
        Tile::Raw((0..128).collect()),
        Tile::Rle(vec![Run { pixel: 9, length: 64 }]),
        Tile::Packed { palette: vec![4, 5], indices: vec![1, 0] },
    ];
    let mut bytes = Vec::new();
    write_tiles(&mut bytes, &layout, &rects, &tiles);
    assert_eq!(bytes, [vec![1, 1], vec![0], (0..128).collect(), vec![128, 9, 63], vec![2, 4, 5, 0x80]].concat());
    bytes.push(0x42);
    let mut reader = Reader::new(&bytes);
    assert_eq!(read_tiles(&mut reader, &layout, &rects), Ok(tiles));
    assert_eq!(reader.available(), 1);
    let mut reader = Reader::new(&bytes[..bytes.len() - 2]);
    assert_eq!(read_tiles(&mut reader, &layout, &rects), Err(Error::Unexpected("ZRLE tile")));
    assert_eq!(reader.available(), bytes.len() - 2);
}

#[test]
fn pixels_pack_and_unpack() {
    let layout = layout_rgb();
    let bytes = pack_pixels(&layout, &[0x00112233, 0x00445566]);
    assert_eq!(bytes, vec![0x00, 0x11, 0x22, 0x33, 0x00, 0x44, 0x55, 0x66]);
    assert_eq!(unpack_pixels(&layout, &bytes), Some(vec![0x00112233, 0x00445566]));
    assert_eq!(unpack_pixels(&layout, &bytes[..7]), None);
    assert_eq!(unpack_pixels(&layout, &[]), Some(vec![]));
    let little = PixelLayout { pixel_size: 2, big_endian: false, compact: Compact::Full };
    assert_eq!(pack_pixels(&little, &[0x1234, 0xABCD]), vec![0x34, 0x12, 0xCD, 0xAB]);
    assert_eq!(unpack_pixels(&little, &[0x34, 0x12, 0xCD, 0xAB]), Some(vec![0x1234, 0xABCD]));
    assert_eq!(unpack_pixels(&little, &[0x34, 0x12, 0xCD]), None);
}

#[test]
fn tile_stream_decodes_to_placed_pixels() {
    let layout = layout8();
    let rect = Rect::new(100, 200, 65, 2);
    let mut data = vec![1, 0x07];
    data.extend_from_slice(&[0, 0x01, 0x02]);
    let shown = decode_tiles(&layout, &rect, &data).unwrap();
    assert_eq!(
        shown,
        vec![
            DecodedTile { rect: Rect::new(100, 200, 64, 2), pixels: vec![0x07; 128] },
            DecodedTile { rect: Rect::new(164, 200, 1, 2), pixels: vec![0x01, 0x02] },
        ]
    );
    data.push(0);
    assert_eq!(decode_tiles(&layout, &rect, &data), Err(Error::Unexpected("ZRLE tile")));
    assert_eq!(decode_tiles(&layout, &rect, &data[..4]), Err(Error::Unexpected("ZRLE tile")));
    assert_eq!(decode_tiles(&layout, &Rect::new(65535, 0, 2, 1), &[1, 7]), Err(Error::Unexpected("ZRLE tile")));
    assert_eq!(decode_tiles(&layout, &Rect::new(0, 0, 0, 0), &[]), Ok(vec![]));
}

#[test]
fn lay_down_checks_the_tiles() {
    let layout = layout8();
    let rect = Rect::new(0, 0, 2, 2);
    assert_eq!(lay_down(&layout, &rect, &[Tile::Solid(3)]), Some(vec![1, 3]));
    assert_eq!(lay_down(&layout, &rect, &[Tile::Raw(vec![1, 2, 3, 4])]), Some(vec![0, 1, 2, 3, 4]));
    assert_eq!(lay_down(&layout, &rect, &[Tile::Raw(vec![1, 2, 3])]), None);
    assert_eq!(lay_down(&layout, &rect, &[]), None);
    assert_eq!(lay_down(&layout, &rect, &[Tile::Solid(3), Tile::Solid(3)]), None);
    assert_eq!(lay_down(&layout, &rect, &[Tile::Rle(vec![Run { pixel: 1, length: 3 }])]), None);
    assert_eq!(lay_down(&layout, &rect, &[Tile::Rle(vec![Run { pixel: 1, length: 4 }, Run { pixel: 1, length: 0 }])]), None);
    assert_eq!(lay_down(&layout, &rect, &[Tile::Packed { palette: vec![1], indices: vec![0; 4] }]), None);
    assert_eq!(lay_down(&layout, &rect, &[Tile::Packed { palette: vec![1, 2], indices: vec![0, 1, 2, 0] }]), None);
    assert_eq!(
        lay_down(&layout, &rect, &[Tile::PaletteRle { palette: vec![1, 2], runs: vec![IndexRun { index: 2, length: 4 }] }]),
        None
    );
    assert_eq!(lay_down(&layout, &Rect::new(65535, 0, 2, 2), &[Tile::Solid(1)]), None);
}

#[test]
fn zlib_stream_carries_rectangles_across_a_session() {
    let format = PixelFormat::rgb8888();
    let mut encoder = Encoder::new();
    let mut decoder = Decoder::new();
    let first = Rect::new(0, 0, 70, 3);
    let tiles = vec![
        Tile::Raw((0..192).map(|i| i * 0x010101 % 0x1000000).collect()),
        Tile::Packed { palette: vec![0xFF0000, 0x00FF00, 0x0000FF], indices: (0..18).map(|i| (i % 3) as u8).collect() },
    ];
    let wire = encoder.encode(&format, &first, &tiles).unwrap();
    assert!(!wire.is_empty());
    assert_eq!(&wire[..1], &[0x78]);
    let shown = decoder.decode(&format, &first, &wire).unwrap();
    assert_eq!(shown.len(), 2);
    assert_eq!(shown[0].rect, Rect::new(0, 0, 64, 3));
    assert_eq!(shown[1].rect, Rect::new(64, 0, 6, 3));
    let layout = layout_rgb();
    assert_eq!(shown[0].pixels, pack_pixels(&layout, &tiles[0].pixels(64, 3)));
    assert_eq!(shown[1].pixels, pack_pixels(&layout, &tiles[1].pixels(6, 3)));
    assert_eq!(&shown[1].pixels[..12], &[0, 0xFF, 0, 0, 0, 0, 0xFF, 0, 0, 0, 0, 0xFF]);

    let second = Rect::new(8, 8, 64, 64);
    let solid = vec![Tile::Solid(0x808080)];
    let wire = encoder.encode(&format, &second, &solid).unwrap();
    assert_ne!(wire.first(), Some(&0x78));
    let shown = decoder.decode(&format, &second, &wire).unwrap();
    assert_eq!(shown, vec![DecodedTile { rect: second, pixels: [0u8, 0x80, 0x80, 0x80].repeat(4096) }]);

    let third = Rect::new(0, 0, 200, 200);
    let noisy: Vec<Tile> = tiles_of(&third)
        .unwrap()
        .iter()
        .enumerate()
        .map(|(n, r)| {
            let count = r.width as usize * r.height as usize;
            Tile::Raw((0..count).map(|i| ((i * 2654435761usize + n * 97) % 0x1000000) as u32).collect())
        })
        .collect();
    let wire = encoder.encode(&format, &third, &noisy).unwrap();
    assert!(wire.len() > 0x1_0000);
    let shown = decoder.decode(&format, &third, &wire).unwrap();
    assert_eq!(shown.len(), 16);
    for (n, (tile, rect)) in noisy.iter().zip(tiles_of(&third).unwrap()).enumerate() {
        assert_eq!(shown[n].rect, rect);
        assert_eq!(shown[n].pixels, pack_pixels(&layout, &tile.pixels(rect.width as usize, rect.height as usize)));
    }
}

#[test]
fn decoder_rejects_what_is_not_a_rectangle() {
    let format = PixelFormat::rgb8888();
    let mut decoder = Decoder::new();
    assert_eq!(decoder.decode(&format, &Rect::new(0, 0, 1, 1), &[0xDE, 0xAD, 0xBE, 0xEF]), Err(Error::Io(IoError::InvalidData)));
    let mut decoder = Decoder::new();
    assert_eq!(
        decoder.decode(&PixelFormat { bits_per_pixel: 4, ..format }, &Rect::new(0, 0, 1, 1), &[]),
        Err(Error::Unexpected("ZRLE tile"))
    );
    assert_eq!(decoder.decode(&format, &Rect::new(65535, 0, 2, 1), &[]), Err(Error::Unexpected("ZRLE tile")));
    let mut encoder = Encoder::new();
    let wire = encoder.encode(&format, &Rect::new(0, 0, 2, 1), &[Tile::Solid(5)]).unwrap();
    let mut decoder = Decoder::new();
    assert_eq!(decoder.decode(&format, &Rect::new(0, 0, 65, 1), &wire), Err(Error::Unexpected("ZRLE tile")));
    let mut encoder = Encoder::new();
    let wire = encoder.encode(&format, &Rect::new(0, 0, 2, 1), &[Tile::Raw(vec![1, 2])]).unwrap();
    let mut decoder = Decoder::new();
    assert_eq!(decoder.decode(&format, &Rect::new(0, 0, 1, 1), &wire), Err(Error::Unexpected("ZRLE tile")));
    let mut decoder = Decoder::new();
    assert_eq!(decoder.decode(&format, &Rect::new(0, 0, 1, 1), &[]), Err(Error::Unexpected("ZRLE tile")));
}

#[test]
fn encoder_rejects_tiles_that_are_not_the_rectangle() {
    let format = PixelFormat::rgb8888();
    let mut encoder = Encoder::new();
    assert_eq!(encoder.encode(&format, &Rect::new(0, 0, 2, 1), &[]), Err(Error::Unexpected("ZRLE tile")));
    assert_eq!(encoder.encode(&format, &Rect::new(0, 0, 2, 1), &[Tile::Raw(vec![1])]), Err(Error::Unexpected("ZRLE tile")));
    assert_eq!(
        encoder.encode(&PixelFormat { bits_per_pixel: 0, ..format }, &Rect::new(0, 0, 2, 1), &[Tile::Solid(1)]),
        Err(Error::Unexpected("ZRLE tile"))
    );
    assert!(encoder.encode(&format, &Rect::new(0, 0, 0, 0), &[]).is_ok());
}

#[test]
fn inflating_goes_on_while_the_stream_moves() {
    let bad = Onward::Fail(Error::Io(IoError::InvalidData));
    assert_eq!(judge_inflating(Step::Moved, 10, 15, 8, true, 100, 200), Onward::More { taken: 5, flushing: false });
    assert_eq!(judge_inflating(Step::Moved, 10, 10, 8, true, 100, 200), Onward::More { taken: 0, flushing: false });
    assert_eq!(judge_inflating(Step::Stalled, 10, 18, 8, false, 100, 200), Onward::More { taken: 8, flushing: false });
    assert_eq!(judge_inflating(Step::Moved, 10, 10, 0, false, 100, 200), Onward::Done);
    assert_eq!(judge_inflating(Step::Stalled, 10, 10, 0, false, 200, 200), Onward::Done);
    assert_eq!(judge_inflating(Step::Stalled, 10, 10, 3, false, 100, 200), bad);
    assert_eq!(judge_inflating(Step::Corrupt, 10, 15, 8, true, 100, 200), bad);
    assert_eq!(judge_inflating(Step::Ended, 10, 15, 8, true, 100, 200), bad);
    assert_eq!(judge_inflating(Step::Moved, 10, 9, 8, true, 100, 200), bad);
    assert_eq!(judge_inflating(Step::Moved, 10, 19, 8, true, 100, 200), bad);
    assert_eq!(judge_inflating(Step::Moved, 10, 15, 8, true, 201, 200), Onward::Fail(Error::Unexpected("ZRLE tile")));
    assert_eq!(judge_inflating(Step::Moved, u64::MAX - 1, u64::MAX, 1, false, 0, 0), Onward::More { taken: 1, flushing: false });
}

#[test]
fn deflating_flushes_once_at_the_end_of_the_input() {
    assert_eq!(choose_flush(5, false), Flush::Nothing);
    assert_eq!(choose_flush(0, false), Flush::Sync);
    assert_eq!(choose_flush(0, true), Flush::Nothing);
    assert_eq!(choose_flush(5, true), Flush::Nothing);
    let bad = Onward::Fail(Error::Io(IoError::InvalidData));
    assert_eq!(judge_deflating(Step::Moved, 0, 5, 5, false, 0, 50, Flush::Nothing, false), Onward::More { taken: 5, flushing: false });
    assert_eq!(judge_deflating(Step::Moved, 5, 5, 0, true, 9, 50, Flush::Sync, false), Onward::More { taken: 0, flushing: true });
    assert_eq!(judge_deflating(Step::Stalled, 5, 5, 0, false, 9, 50, Flush::Sync, false), Onward::More { taken: 0, flushing: true });
    assert_eq!(judge_deflating(Step::Moved, 5, 5, 0, true, 20, 50, Flush::Nothing, true), Onward::More { taken: 0, flushing: true });
    assert_eq!(judge_deflating(Step::Stalled, 5, 5, 0, false, 20, 50, Flush::Nothing, true), Onward::Done);
    assert_eq!(judge_deflating(Step::Stalled, 0, 0, 5, false, 0, 50, Flush::Nothing, false), bad);
    assert_eq!(judge_deflating(Step::Moved, 0, 5, 5, true, 51, 50, Flush::Nothing, false), bad);
    assert_eq!(judge_deflating(Step::Moved, 0, 6, 5, true, 10, 50, Flush::Nothing, false), bad);
    assert_eq!(judge_deflating(Step::Moved, 6, 5, 5, true, 10, 50, Flush::Nothing, false), bad);
    assert_eq!(judge_deflating(Step::Corrupt, 0, 5, 5, true, 10, 50, Flush::Nothing, false), bad);
    assert_eq!(judge_deflating(Step::Ended, 5, 5, 0, true, 10, 50, Flush::Sync, false), bad);
}
