//! Pixels as numbers, and the bytes that stand for them: the full pixel of
//! the pixel format and the compact pixel of ZRLE tiles.
use vstd::prelude::*;
use crate::protocol::pixel::PixelFormat;

verus! {

/// How many bits the values from 0 to `max` take.
pub open spec fn channel_bits(max: u16) -> nat {
    if max == 0 {
        0
    } else if max < 0x2 {
        1
    } else if max < 0x4 {
        2
    } else if max < 0x8 {
        3
    } else if max < 0x10 {
        4
    } else if max < 0x20 {
        5
    } else if max < 0x40 {
        6
    } else if max < 0x80 {
        7
    } else if max < 0x100 {
        8
    } else if max < 0x200 {
        9
    } else if max < 0x400 {
        10
    } else if max < 0x800 {
        11
    } else if max < 0x1000 {
        12
    } else if max < 0x2000 {
        13
    } else if max < 0x4000 {
        14
    } else if max < 0x8000 {
        15
    } else {
        16
    }
}

/// Whether a colour channel with values up to `max`, placed `shift` bits up,
/// lies within the bits from `low` up to but not including `high` of the
/// pixel. A channel without values lies anywhere.
pub open spec fn channel_within(max: u16, shift: u8, low: nat, high: nat) -> bool {
    max == 0 || (low <= shift && shift + channel_bits(max) <= high)
}

/// Whether the three colour channels lie within the bits from `low` to
/// `high` of the pixel.
pub open spec fn colours_within(format: PixelFormat, low: nat, high: nat) -> bool {
    &&& channel_within(format.red_max, format.red_shift, low, high)
    &&& channel_within(format.green_max, format.green_shift, low, high)
    &&& channel_within(format.blue_max, format.blue_shift, low, high)
}

/// Which bytes of a pixel the compact pixel of a tile holds.
#[derive(Debug, Clone, Copy, PartialEq, Eq)]
pub enum Compact {
    /// All of them: the compact pixel is the pixel.
    Full,
    /// The three least significant of four.
    Low3,
    /// The three most significant of four.
    High3,
}

/// How the pixels of a pixel format are laid out in bytes, in full and in
/// the compact form of ZRLE tiles.
#[derive(Debug, Clone, Copy, PartialEq, Eq)]
pub struct PixelLayout {
    /// Bytes to a full pixel, from 1 to 4.
    pub pixel_size: usize,
    /// Whether the most significant byte comes first.
    pub big_endian: bool,
    /// Which bytes of the pixel a compact pixel holds.
    pub compact: Compact,
}

/// The weight of the byte at place `i` of a number, counted from the least
/// significant: 256 to the power of `i`.
pub open spec fn place(i: int) -> int {
    if i <= 0 {
        1
    } else if i == 1 {
        0x100
    } else if i == 2 {
        0x1_0000
    } else if i == 3 {
        0x100_0000
    } else {
        0x1_0000_0000
    }
}

/// The byte at place `i` of `v`.
pub open spec fn digit(v: u32, i: int) -> u8 {
    ((v as int / place(i)) % 0x100) as u8
}

/// The place in the number of the byte that stands at `j` in a field of
/// `size` bytes whose least significant byte has place `low`.
pub open spec fn place_of(big_endian: bool, low: int, size: int, j: int) -> int {
    if big_endian {
        low + size - 1 - j
    } else {
        low + j
    }
}

/// The `size` bytes that stand for the bytes of `v` from place `low` up.
pub open spec fn field_bytes(v: u32, big_endian: bool, low: int, size: int) -> Seq<u8> {
    Seq::new(size as nat, |j: int| digit(v, place_of(big_endian, low, size, j)))
}

/// The byte that a field of `size` bytes from place `low` up gives to place
/// `i` of the number: one of the bytes of `bytes`, or zero outside the field.
pub open spec fn field_digit(bytes: Seq<u8>, big_endian: bool, low: int, size: int, i: int) -> u8 {
    if low <= i < low + size {
        bytes[if big_endian {
            low + size - 1 - i
        } else {
            i - low
        }]
    } else {
        0
    }
}

/// The number that `bytes` stand for as a field of `size` bytes from place
/// `low` up.
pub open spec fn field_value(bytes: Seq<u8>, big_endian: bool, low: int, size: int) -> u32 {
    (field_digit(bytes, big_endian, low, size, 0) as int + field_digit(
        bytes,
        big_endian,
        low,
        size,
        1,
    ) as int * 0x100 + field_digit(bytes, big_endian, low, size, 2) as int * 0x1_0000
        + field_digit(bytes, big_endian, low, size, 3) as int * 0x100_0000) as u32
}

/// Whether `v` has nothing outside the `size` bytes from place `low` up.
pub open spec fn within_field(v: u32, low: int, size: int) -> bool {
    forall|i: int| 0 <= i < 4 && !(low <= i < low + size) ==> #[trigger] digit(v, i) == 0
}

/// A number is the sum of its four bytes, each at its place.
pub proof fn lemma_digits(v: u32)
    ensures
        v == digit(v, 0) + digit(v, 1) * 0x100 + digit(v, 2) * 0x1_0000 + digit(v, 3)
            * 0x100_0000,
{
    let n = v as int;
    assert(n == (n / 0x100) * 0x100 + n % 0x100);
    assert(n / 0x100 == (n / 0x1_0000) * 0x100 + (n / 0x100) % 0x100);
    assert(n / 0x1_0000 == (n / 0x100_0000) * 0x100 + (n / 0x1_0000) % 0x100);
    assert(n / 0x100_0000 < 0x100);
}

/// The bytes of a sum of four bytes, each at its place, are those bytes.
pub proof fn lemma_digits_of_sum(d0: u8, d1: u8, d2: u8, d3: u8)
    ensures
        ({
            let v = (d0 + d1 * 0x100 + d2 * 0x1_0000 + d3 * 0x100_0000) as u32;
            digit(v, 0) == d0 && digit(v, 1) == d1 && digit(v, 2) == d2 && digit(v, 3) == d3
        }),
{
    let n = d0 as int + d1 as int * 0x100 + d2 as int * 0x1_0000 + d3 as int * 0x100_0000;
    assert(n % 0x100 == d0);
    assert(n / 0x100 == d1 + d2 * 0x100 + d3 * 0x1_0000);
    assert(n / 0x1_0000 == d2 + d3 * 0x100);
    assert(n / 0x100_0000 == d3);
}

/// A number that lies within a field is read back from the bytes of the
/// field.
pub proof fn lemma_field_round_trip(v: u32, big_endian: bool, low: int, size: int)
    requires
        0 <= low,
        1 <= size,
        low + size <= 4,
        within_field(v, low, size),
    ensures
        field_value(field_bytes(v, big_endian, low, size), big_endian, low, size) == v,
{
    let b = field_bytes(v, big_endian, low, size);
    assert forall|i: int| 0 <= i < 4 implies field_digit(b, big_endian, low, size, i) == digit(
        v,
        i,
    ) by {
        if low <= i < low + size {
        } else {
            assert(digit(v, i) == 0);
        }
    }
    lemma_digits(v);
}

/// The bytes of a field are the bytes of the number they stand for, and
/// that number lies within the field.
pub proof fn lemma_field_bytes_of_value(bytes: Seq<u8>, big_endian: bool, low: int, size: int)
    requires
        0 <= low,
        1 <= size,
        low + size <= 4,
        bytes.len() == size,
    ensures
        field_bytes(field_value(bytes, big_endian, low, size), big_endian, low, size) == bytes,
        within_field(field_value(bytes, big_endian, low, size), low, size),
{
    let v = field_value(bytes, big_endian, low, size);
    lemma_digits_of_sum(
        field_digit(bytes, big_endian, low, size, 0),
        field_digit(bytes, big_endian, low, size, 1),
        field_digit(bytes, big_endian, low, size, 2),
        field_digit(bytes, big_endian, low, size, 3),
    );
    assert(field_bytes(v, big_endian, low, size) =~= bytes);
}

impl PixelLayout {
    /// Whether the layout is one that a pixel format can have.
    pub open spec fn well_formed(self) -> bool {
        &&& 1 <= self.pixel_size <= 4
        &&& (self.compact != Compact::Full ==> self.pixel_size == 4)
    }

    /// The layout of the pixels of `format`, if a pixel of it is between one
    /// and four bytes. The compact pixel is three bytes when the format has
    /// 32 bits to a pixel, is true colour with a depth of at most 24 and has
    /// all three channels in the three least or the three most significant
    /// bytes of the pixel; otherwise it is the pixel.
    pub open spec fn of(format: PixelFormat) -> Option<PixelLayout> {
        if format.bits_per_pixel / 8 < 1 || format.bits_per_pixel / 8 > 4 {
            None
        } else {
            Some(
                PixelLayout {
                    pixel_size: (format.bits_per_pixel / 8) as usize,
                    big_endian: format.big_endian,
                    compact: if format.bits_per_pixel == 32 && format.true_colour && format.depth
                        <= 24 {
                        if colours_within(format, 0, 24) {
                            Compact::Low3
                        } else if colours_within(format, 8, 32) {
                            Compact::High3
                        } else {
                            Compact::Full
                        }
                    } else {
                        Compact::Full
                    },
                },
            )
        }
    }

    /// The place of the least significant byte that a compact pixel holds.
    pub open spec fn compact_low(self) -> int {
        if self.compact == Compact::High3 {
            1
        } else {
            0
        }
    }

    /// Bytes to a compact pixel.
    pub open spec fn compact_size(self) -> int {
        if self.compact == Compact::Full {
            self.pixel_size as int
        } else {
            3
        }
    }

    /// The bytes of the full pixel `v`.
    pub open spec fn pixel_bytes(self, v: u32) -> Seq<u8> {
        field_bytes(v, self.big_endian, 0, self.pixel_size as int)
    }

    /// The pixel that the bytes of a full pixel stand for.
    pub open spec fn pixel_value(self, bytes: Seq<u8>) -> u32 {
        field_value(bytes, self.big_endian, 0, self.pixel_size as int)
    }

    /// The bytes of the compact pixel `v`.
    pub open spec fn cpixel_bytes(self, v: u32) -> Seq<u8> {
        field_bytes(v, self.big_endian, self.compact_low(), self.compact_size())
    }

    /// The pixel that the bytes of a compact pixel stand for.
    pub open spec fn cpixel_value(self, bytes: Seq<u8>) -> u32 {
        field_value(bytes, self.big_endian, self.compact_low(), self.compact_size())
    }

    /// Whether a compact pixel can hold `v`: it has nothing in the bytes
    /// that the compact pixel leaves out.
    pub open spec fn compactable(self, v: u32) -> bool {
        within_field(v, self.compact_low(), self.compact_size())
    }

    /// Whether a full pixel can hold `v`.
    pub open spec fn representable(self, v: u32) -> bool {
        within_field(v, 0, self.pixel_size as int)
    }

    /// A pixel that a compact pixel can hold is read back from its compact
    /// bytes, in the three-byte forms and in the full form alike.
    pub proof fn lemma_cpixel_round_trip(self, v: u32)
        requires
            self.well_formed(),
            self.compactable(v),
        ensures
            self.cpixel_bytes(v).len() == self.compact_size(),
            self.cpixel_value(self.cpixel_bytes(v)) == v,
    {
        lemma_field_round_trip(v, self.big_endian, self.compact_low(), self.compact_size());
    }

    /// The bytes of a compact pixel are the compact bytes of the pixel they
    /// stand for, which a compact pixel and a full pixel can hold.
    pub proof fn lemma_cpixel_bytes_of_value(self, bytes: Seq<u8>)
        requires
            self.well_formed(),
            bytes.len() == self.compact_size(),
        ensures
            self.cpixel_bytes(self.cpixel_value(bytes)) == bytes,
            self.compactable(self.cpixel_value(bytes)),
            self.representable(self.cpixel_value(bytes)),
    {
        lemma_field_bytes_of_value(
            bytes,
            self.big_endian,
            self.compact_low(),
            self.compact_size(),
        );
    }

    /// A pixel that a full pixel can hold is read back from its bytes.
    pub proof fn lemma_pixel_round_trip(self, v: u32)
        requires
            self.well_formed(),
            self.representable(v),
        ensures
            self.pixel_bytes(v).len() == self.pixel_size,
            self.pixel_value(self.pixel_bytes(v)) == v,
    {
        lemma_field_round_trip(v, self.big_endian, 0, self.pixel_size as int);
    }

    /// The bytes of a full pixel are the bytes of the pixel they stand for.
    pub proof fn lemma_pixel_bytes_of_value(self, bytes: Seq<u8>)
        requires
            self.well_formed(),
            bytes.len() == self.pixel_size,
        ensures
            self.pixel_bytes(self.pixel_value(bytes)) == bytes,
            self.representable(self.pixel_value(bytes)),
    {
        lemma_field_bytes_of_value(bytes, self.big_endian, 0, self.pixel_size as int);
    }
}

/// How many bits the values from 0 to `max` take.
fn bits_of_channel(max: u16) -> (bits: u8)
    ensures
        bits == channel_bits(max),
{
    let mut bits: u8 = 0;
    let mut bound: u32 = 1;
    while bound <= max as u32
        invariant
            bits <= 16,
            bound == place_of_bit(bits as int),
            bits > 0 ==> place_of_bit(bits as int - 1) <= max,
        decreases 17 - bits,
    {
        bound = bound * 2;
        bits = bits + 1;
    }
    bits
}

/// Two to the power of `bits`, for the widths of a colour channel.
pub open spec fn place_of_bit(bits: int) -> int {
    if bits <= 0 {
        1
    } else if bits == 1 {
        0x2
    } else if bits == 2 {
        0x4
    } else if bits == 3 {
        0x8
    } else if bits == 4 {
        0x10
    } else if bits == 5 {
        0x20
    } else if bits == 6 {
        0x40
    } else if bits == 7 {
        0x80
    } else if bits == 8 {
        0x100
    } else if bits == 9 {
        0x200
    } else if bits == 10 {
        0x400
    } else if bits == 11 {
        0x800
    } else if bits == 12 {
        0x1000
    } else if bits == 13 {
        0x2000
    } else if bits == 14 {
        0x4000
    } else if bits == 15 {
        0x8000
    } else {
        0x1_0000
    }
}

/// Whether a colour channel lies within the bits from `low` to `high`.
fn channel_fits(max: u16, shift: u8, low: u8, high: u8) -> (fits: bool)
    requires
        high <= 32,
    ensures
        fits == channel_within(max, shift, low as nat, high as nat),
{
    if max == 0 {
        return true;
    }
    let bits = bits_of_channel(max);
    low <= shift && shift <= high && bits <= high - shift
}

/// Whether the three colour channels lie within the bits from `low` to
/// `high`.
fn colours_fit(format: &PixelFormat, low: u8, high: u8) -> (fits: bool)
    requires
        high <= 32,
    ensures
        fits == colours_within(*format, low as nat, high as nat),
{
    channel_fits(format.red_max, format.red_shift, low, high) && channel_fits(
        format.green_max,
        format.green_shift,
        low,
        high,
    ) && channel_fits(format.blue_max, format.blue_shift, low, high)
}

/// 256 to the power of `i`, for the four places of a pixel.
fn weight(i: usize) -> (w: u32)
    requires
        i < 4,
    ensures
        w == place(i as int),
{
    if i == 0 {
        1
    } else if i == 1 {
        0x100
    } else if i == 2 {
        0x1_0000
    } else {
        0x100_0000
    }
}

/// Appends the `size` bytes that stand for the bytes of `v` from place
/// `low` up.
fn put_field(writer: &mut Vec<u8>, v: u32, big_endian: bool, low: usize, size: usize)
    requires
        1 <= size,
        low + size <= 4,
    ensures
        final(writer)@ == old(writer)@ + field_bytes(v, big_endian, low as int, size as int),
{
    let mut j: usize = 0;
    while j < size
        invariant
            j <= size,
            1 <= size,
            low + size <= 4,
            writer@ == old(writer)@ + field_bytes(v, big_endian, low as int, size as int).take(
                j as int,
            ),
        decreases size - j,
    {
        let at = if big_endian {
            low + size - 1 - j
        } else {
            low + j
        };
        writer.push(((v / weight(at)) % 0x100) as u8);
        j = j + 1;
        assert(writer@ =~= old(writer)@ + field_bytes(
            v,
            big_endian,
            low as int,
            size as int,
        ).take(j as int));
    }
    assert(field_bytes(v, big_endian, low as int, size as int).take(size as int)
        =~= field_bytes(v, big_endian, low as int, size as int));
}

/// The number that `bytes` stand for as a field of `size` bytes from place
/// `low` up.
fn get_field(bytes: &[u8], big_endian: bool, low: usize, size: usize) -> (v: u32)
    requires
        1 <= size,
        low + size <= 4,
        bytes@.len() == size,
    ensures
        v == field_value(bytes@, big_endian, low as int, size as int),
{
    let mut digits: [u8; 4] = [0, 0, 0, 0];
    let mut i: usize = 0;
    while i < 4
        invariant
            i <= 4,
            1 <= size,
            low + size <= 4,
            bytes@.len() == size,
            forall|k: int| i <= k < 4 ==> digits@[k] == 0,
            forall|k: int|
                0 <= k < i ==> digits@[k] == field_digit(
                    bytes@,
                    big_endian,
                    low as int,
                    size as int,
                    k,
                ),
        decreases 4 - i,
    {
        if low <= i && i < low + size {
            digits[i] = bytes[if big_endian {
                low + size - 1 - i
            } else {
                i - low
            }];
        }
        i = i + 1;
    }
    digits[0] as u32 + digits[1] as u32 * 0x100 + digits[2] as u32 * 0x1_0000 + digits[3] as u32
        * 0x100_0000
}

impl PixelLayout {
    /// The layout of the pixels of `format`, if a pixel of it is between one
    /// and four bytes.
    pub fn new(format: &PixelFormat) -> (layout: Option<PixelLayout>)
        ensures
            layout == PixelLayout::of(*format),
            layout is Some ==> layout->Some_0.well_formed(),
    {
        let pixel_size = (format.bits_per_pixel / 8) as usize;
        if pixel_size < 1 || pixel_size > 4 {
            return None;
        }
        let compact = if format.bits_per_pixel == 32 && format.true_colour && format.depth <= 24 {
            if colours_fit(format, 0, 24) {
                Compact::Low3
            } else if colours_fit(format, 8, 32) {
                Compact::High3
            } else {
                Compact::Full
            }
        } else {
            Compact::Full
        };
        Some(PixelLayout { pixel_size, big_endian: format.big_endian, compact })
    }

    /// Bytes to a compact pixel.
    pub fn cpixel_size(&self) -> (size: usize)
        requires
            self.well_formed(),
        ensures
            size == self.compact_size(),
            1 <= size <= 4,
    {
        match self.compact {
            Compact::Full => self.pixel_size,
            _ => 3,
        }
    }

    /// The place of the least significant byte that a compact pixel holds.
    fn cpixel_low(&self) -> (low: usize)
        ensures
            low == self.compact_low(),
    {
        match self.compact {
            Compact::High3 => 1,
            _ => 0,
        }
    }

    /// The pixel that the bytes of a compact pixel stand for.
    pub fn read_cpixel(&self, bytes: &[u8]) -> (v: u32)
        requires
            self.well_formed(),
            bytes@.len() == self.compact_size(),
        ensures
            v == self.cpixel_value(bytes@),
    {
        get_field(bytes, self.big_endian, self.cpixel_low(), self.cpixel_size())
    }

    /// Appends the bytes of the compact pixel `v`.
    pub fn write_cpixel(&self, v: u32, writer: &mut Vec<u8>)
        requires
            self.well_formed(),
        ensures
            final(writer)@ == old(writer)@ + self.cpixel_bytes(v),
    {
        put_field(writer, v, self.big_endian, self.cpixel_low(), self.cpixel_size());
    }

    /// The pixel that the bytes of a full pixel stand for.
    pub fn read_pixel(&self, bytes: &[u8]) -> (v: u32)
        requires
            self.well_formed(),
            bytes@.len() == self.pixel_size,
        ensures
            v == self.pixel_value(bytes@),
    {
        get_field(bytes, self.big_endian, 0, self.pixel_size)
    }

    /// Appends the bytes of the full pixel `v`.
    pub fn write_pixel(&self, v: u32, writer: &mut Vec<u8>)
        requires
            self.well_formed(),
        ensures
            final(writer)@ == old(writer)@ + self.pixel_bytes(v),
    {
        put_field(writer, v, self.big_endian, 0, self.pixel_size);
    }
}

} // verus!
