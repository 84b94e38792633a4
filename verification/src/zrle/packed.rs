//! Palette indices packed into bits: the body of a packed-palette tile.
use vstd::prelude::*;
use crate::wire::Reader;

verus! {

/// Two to the power of `k`, for the eight bits of a byte.
pub open spec fn bit_place(k: int) -> int {
    if k <= 0 {
        1
    } else if k == 1 {
        2
    } else if k == 2 {
        4
    } else if k == 3 {
        8
    } else if k == 4 {
        16
    } else if k == 5 {
        32
    } else if k == 6 {
        64
    } else {
        128
    }
}

/// The bit of `byte` at place `k`, counted from the most significant.
pub open spec fn bit_of(byte: u8, k: int) -> int {
    (byte as int / bit_place(7 - k)) % 2
}

/// The bit at place `p` of a byte string, counted from the most significant
/// bit of the first byte.
pub open spec fn bit_at(bytes: Seq<u8>, p: int) -> int {
    bit_of(bytes[p / 8], p % 8)
}

/// The number that the `width` bits from place `p` of a byte string spell,
/// most significant bit first.
pub open spec fn bits_value(bytes: Seq<u8>, p: int, width: nat) -> int
    decreases width,
{
    if width == 0 {
        0
    } else {
        2 * bits_value(bytes, p, (width - 1) as nat) + bit_at(bytes, p + width - 1)
    }
}

/// How many bits an index into a palette of `size` colours takes: the least
/// number of bits that tell `size` colours apart.
pub open spec fn index_bits(size: int) -> int {
    if size <= 2 {
        1
    } else if size <= 4 {
        2
    } else if size <= 8 {
        3
    } else {
        4
    }
}

/// `n` times `bits`, for the widths of an index.
pub open spec fn times(n: int, bits: int) -> int {
    if bits == 1 {
        n
    } else if bits == 2 {
        2 * n
    } else if bits == 3 {
        3 * n
    } else {
        4 * n
    }
}

/// `p` divided by `bits`, for the widths of an index.
pub open spec fn over(p: int, bits: int) -> int {
    if bits == 1 {
        p
    } else if bits == 2 {
        p / 2
    } else if bits == 3 {
        p / 3
    } else {
        p / 4
    }
}

/// What is left of `p` divided by `bits`, for the widths of an index.
pub open spec fn under(p: int, bits: int) -> int {
    if bits == 1 {
        0
    } else if bits == 2 {
        p % 2
    } else if bits == 3 {
        p % 3
    } else {
        p % 4
    }
}

/// How many bytes a row of `width` indices takes: its bits, filled up to a
/// whole byte.
pub open spec fn row_size(width: int, bits: int) -> int {
    (times(width, bits) + 7) / 8
}

/// The indices that a row of bytes holds.
pub open spec fn row_indices(row: Seq<u8>, width: nat, bits: int) -> Seq<u8> {
    Seq::new(width, |c: int| bits_value(row, times(c, bits), bits as nat) as u8)
}

/// What reading `rows` rows of `width` indices from the head of `bytes`
/// gives: the indices, row after row, and the bytes after them.
pub open spec fn take_rows(bytes: Seq<u8>, width: nat, bits: int, rows: nat) -> Option<
    (Seq<u8>, Seq<u8>),
>
    decreases rows,
{
    if rows == 0 {
        Some((Seq::empty(), bytes))
    } else if bytes.len() < row_size(width as int, bits) {
        None
    } else {
        match take_rows(bytes.skip(row_size(width as int, bits)), width, bits, (rows - 1) as nat) {
            None => None,
            Some((indices, rest)) => Some(
                (row_indices(bytes.take(row_size(width as int, bits)), width, bits) + indices, rest),
            ),
        }
    }
}

/// The bit at place `j` of an index of `bits` bits, counted from the most
/// significant.
pub open spec fn field_bit(index: u8, bits: int, j: int) -> int {
    (index as int / bit_place(bits - 1 - j)) % 2
}

/// The bit at place `p` of a row of indices: a bit of one of the indices,
/// or zero behind the last of them.
pub open spec fn row_bit(indices: Seq<u8>, bits: int, p: int) -> int {
    if over(p, bits) < indices.len() {
        field_bit(indices[over(p, bits)], bits, under(p, bits))
    } else {
        0
    }
}

/// The byte at `k` of a row of indices.
pub open spec fn packed_byte(indices: Seq<u8>, bits: int, k: int) -> u8 {
    (row_bit(indices, bits, 8 * k) * 128 + row_bit(indices, bits, 8 * k + 1) * 64 + row_bit(
        indices,
        bits,
        8 * k + 2,
    ) * 32 + row_bit(indices, bits, 8 * k + 3) * 16 + row_bit(indices, bits, 8 * k + 4) * 8
        + row_bit(indices, bits, 8 * k + 5) * 4 + row_bit(indices, bits, 8 * k + 6) * 2 + row_bit(
        indices,
        bits,
        8 * k + 7,
    )) as u8
}

/// The bytes of one row of indices.
pub open spec fn pack_row(indices: Seq<u8>, bits: int) -> Seq<u8> {
    Seq::new(row_size(indices.len() as int, bits) as nat, |k: int| packed_byte(indices, bits, k))
}

/// The bytes of the rows of `width` indices that `indices` holds.
pub open spec fn pack_rows(indices: Seq<u8>, width: nat, bits: int, rows: nat) -> Seq<u8>
    decreases rows,
{
    if rows == 0 {
        Seq::empty()
    } else {
        pack_row(indices.take(width as int), bits) + pack_rows(
            indices.skip(width as int),
            width,
            bits,
            (rows - 1) as nat,
        )
    }
}

/// Whether every index of the list is below `bound`.
pub open spec fn all_below(indices: Seq<u8>, bound: int) -> bool {
    forall|i: int| 0 <= i < indices.len() ==> (#[trigger] indices[i]) < bound
}

/// A byte made of eight bits holds each of them at its place.
pub proof fn lemma_bits_of_byte(b0: int, b1: int, b2: int, b3: int, b4: int, b5: int, b6: int, b7: int)
    requires
        0 <= b0 <= 1,
        0 <= b1 <= 1,
        0 <= b2 <= 1,
        0 <= b3 <= 1,
        0 <= b4 <= 1,
        0 <= b5 <= 1,
        0 <= b6 <= 1,
        0 <= b7 <= 1,
    ensures
        ({
            let byte = (b0 * 128 + b1 * 64 + b2 * 32 + b3 * 16 + b4 * 8 + b5 * 4 + b6 * 2 + b7) as u8;
            &&& bit_of(byte, 0) == b0
            &&& bit_of(byte, 1) == b1
            &&& bit_of(byte, 2) == b2
            &&& bit_of(byte, 3) == b3
            &&& bit_of(byte, 4) == b4
            &&& bit_of(byte, 5) == b5
            &&& bit_of(byte, 6) == b6
            &&& bit_of(byte, 7) == b7
        }),
{
    let n = b0 * 128 + b1 * 64 + b2 * 32 + b3 * 16 + b4 * 8 + b5 * 4 + b6 * 2 + b7;
    assert(n / 128 == b0);
    assert(n / 64 == b0 * 2 + b1);
    assert(n / 32 == b0 * 4 + b1 * 2 + b2);
    assert(n / 16 == b0 * 8 + b1 * 4 + b2 * 2 + b3);
    assert(n / 8 == b0 * 16 + b1 * 8 + b2 * 4 + b3 * 2 + b4);
    assert(n / 4 == b0 * 32 + b1 * 16 + b2 * 8 + b3 * 4 + b4 * 2 + b5);
    assert(n / 2 == b0 * 64 + b1 * 32 + b2 * 16 + b3 * 8 + b4 * 4 + b5 * 2 + b6);
}

/// Every bit of a packed row is the bit of the row of indices at its place.
pub proof fn lemma_packed_bit(indices: Seq<u8>, bits: int, p: int)
    requires
        1 <= bits <= 4,
        0 <= p < 8 * row_size(indices.len() as int, bits),
    ensures
        bit_at(pack_row(indices, bits), p) == row_bit(indices, bits, p),
{
    let k = p / 8;
    lemma_bits_of_byte(
        row_bit(indices, bits, 8 * k),
        row_bit(indices, bits, 8 * k + 1),
        row_bit(indices, bits, 8 * k + 2),
        row_bit(indices, bits, 8 * k + 3),
        row_bit(indices, bits, 8 * k + 4),
        row_bit(indices, bits, 8 * k + 5),
        row_bit(indices, bits, 8 * k + 6),
        row_bit(indices, bits, 8 * k + 7),
    );
    assert(pack_row(indices, bits)[k] == packed_byte(indices, bits, k));
    assert(p == 8 * k + p % 8);
}

/// An index below two to the power of `bits` is the number that its bits
/// spell.
pub proof fn lemma_index_of_bits(index: u8, bits: int)
    requires
        1 <= bits <= 4,
        index < bit_place(bits),
    ensures
        bits == 1 ==> index == field_bit(index, bits, 0),
        bits == 2 ==> index == 2 * field_bit(index, bits, 0) + field_bit(index, bits, 1),
        bits == 3 ==> index == 4 * field_bit(index, bits, 0) + 2 * field_bit(index, bits, 1)
            + field_bit(index, bits, 2),
        bits == 4 ==> index == 8 * field_bit(index, bits, 0) + 4 * field_bit(index, bits, 1) + 2
            * field_bit(index, bits, 2) + field_bit(index, bits, 3),
{
}

/// An index of a row is read back from the bytes of the row.
pub proof fn lemma_packed_index(indices: Seq<u8>, bits: int, c: int)
    requires
        1 <= bits <= 4,
        0 <= c < indices.len(),
        indices[c] < bit_place(bits),
    ensures
        bits_value(pack_row(indices, bits), times(c, bits), bits as nat) == indices[c],
{
    let row = pack_row(indices, bits);
    let start = times(c, bits);
    reveal_with_fuel(bits_value, 5);
    assert forall|m: int| 0 <= m < bits implies bit_at(row, start + m) == field_bit(
        indices[c],
        bits,
        m,
    ) by {
        assert(over(start + m, bits) == c && under(start + m, bits) == m);
        lemma_packed_bit(indices, bits, start + m);
    }
    lemma_index_of_bits(indices[c], bits);
    if bits == 1 {
        assert(bit_at(row, start) == field_bit(indices[c], bits, 0));
    } else if bits == 2 {
        assert(bit_at(row, start) == field_bit(indices[c], bits, 0));
        assert(bit_at(row, start + 1) == field_bit(indices[c], bits, 1));
    } else if bits == 3 {
        assert(bit_at(row, start) == field_bit(indices[c], bits, 0));
        assert(bit_at(row, start + 1) == field_bit(indices[c], bits, 1));
        assert(bit_at(row, start + 2) == field_bit(indices[c], bits, 2));
    } else {
        assert(bit_at(row, start) == field_bit(indices[c], bits, 0));
        assert(bit_at(row, start + 1) == field_bit(indices[c], bits, 1));
        assert(bit_at(row, start + 2) == field_bit(indices[c], bits, 2));
        assert(bit_at(row, start + 3) == field_bit(indices[c], bits, 3));
    }
}

/// Rows of indices are read back from their bytes.
pub proof fn lemma_rows_round_trip(indices: Seq<u8>, width: nat, bits: int, rows: nat, rest: Seq<u8>)
    requires
        1 <= bits <= 4,
        1 <= width,
        indices.len() == rows * width,
        all_below(indices, bit_place(bits)),
    ensures
        take_rows(pack_rows(indices, width, bits, rows) + rest, width, bits, rows) == Some(
            (indices, rest),
        ),
    decreases rows,
{
    let all = pack_rows(indices, width, bits, rows) + rest;
    if rows == 0 {
        assert(all =~= rest);
        assert(indices =~= Seq::<u8>::empty());
    } else {
        assert(rows * width == (rows - 1) * width + width) by (nonlinear_arith);
        assert((rows - 1) * width >= 0) by (nonlinear_arith)
            requires
                rows >= 1,
                width >= 1,
        ;
        let first = indices.take(width as int);
        let tail = indices.skip(width as int);
        let row = pack_row(first, bits);
        let size = row_size(width as int, bits);
        assert(row.len() == size);
        assert(all.take(size) =~= row);
        assert(all.skip(size) =~= pack_rows(tail, width, bits, (rows - 1) as nat) + rest);
        assert forall|i: int| 0 <= i < tail.len() implies (#[trigger] tail[i]) < bit_place(
            bits,
        ) by {
            assert(tail[i] == indices[i + width]);
        }
        lemma_rows_round_trip(tail, width, bits, (rows - 1) as nat, rest);
        assert forall|c: int| 0 <= c < width implies row_indices(row, width, bits)[c]
            == first[c] by {
            assert(first[c] == indices[c]);
            lemma_packed_index(first, bits, c);
        }
        assert(row_indices(row, width, bits) =~= first);
        assert(first + tail =~= indices);
    }
}

/// Whether every index of the list is an index into a palette of `size`
/// colours.
pub fn indices_below(indices: &[u8], size: usize) -> (below: bool)
    ensures
        below == all_below(indices@, size as int),
{
    let mut i: usize = 0;
    while i < indices.len()
        invariant
            i <= indices@.len(),
            forall|k: int| 0 <= k < i ==> (#[trigger] indices@[k]) < size,
        decreases indices@.len() - i,
    {
        if indices[i] as usize >= size {
            return false;
        }
        i = i + 1;
    }
    true
}

/// How many bits an index into a palette of `size` colours takes.
pub fn bits_of_index(size: usize) -> (bits: usize)
    ensures
        bits == index_bits(size as int),
        1 <= bits <= 4,
{
    if size <= 2 {
        1
    } else if size <= 4 {
        2
    } else if size <= 8 {
        3
    } else {
        4
    }
}

/// Two to the power of `k`.
fn power_of_two(k: usize) -> (power: u8)
    requires
        k < 8,
    ensures
        power == bit_place(k as int),
{
    if k == 0 {
        1
    } else if k == 1 {
        2
    } else if k == 2 {
        4
    } else if k == 3 {
        8
    } else if k == 4 {
        16
    } else if k == 5 {
        32
    } else if k == 6 {
        64
    } else {
        128
    }
}

/// `n` times `bits`.
fn scale(n: usize, bits: usize) -> (product: usize)
    requires
        1 <= bits <= 4,
        n <= 0x1000,
    ensures
        product == times(n as int, bits as int),
{
    if bits == 1 {
        n
    } else if bits == 2 {
        2 * n
    } else if bits == 3 {
        3 * n
    } else {
        4 * n
    }
}

/// `p` divided by `bits`, and what is left.
fn unscale(p: usize, bits: usize) -> (parts: (usize, usize))
    requires
        1 <= bits <= 4,
    ensures
        parts.0 == over(p as int, bits as int),
        parts.1 == under(p as int, bits as int),
        parts.1 < bits,
{
    if bits == 1 {
        (p, 0)
    } else if bits == 2 {
        (p / 2, p % 2)
    } else if bits == 3 {
        (p / 3, p % 3)
    } else {
        (p / 4, p % 4)
    }
}

/// How many bytes a row of `width` indices takes.
pub fn size_of_row(width: usize, bits: usize) -> (size: usize)
    requires
        1 <= bits <= 4,
        width <= 64,
    ensures
        size == row_size(width as int, bits as int),
        size <= 32,
{
    (scale(width, bits) + 7) / 8
}

/// The index at column `c` of a row.
fn index_at(row: &[u8], width: usize, bits: usize, c: usize) -> (index: u8)
    requires
        1 <= bits <= 4,
        c < width <= 64,
        row@.len() == row_size(width as int, bits as int),
    ensures
        index == bits_value(row@, times(c as int, bits as int), bits as nat),
        index < bit_place(bits as int),
{
    let start = scale(c, bits);
    let mut index: u8 = 0;
    let mut m: usize = 0;
    while m < bits
        invariant
            m <= bits,
            1 <= bits <= 4,
            c < width <= 64,
            start == times(c as int, bits as int),
            row@.len() == row_size(width as int, bits as int),
            index == bits_value(row@, start as int, m as nat),
            index < bit_place(m as int),
        decreases bits - m,
    {
        let p = start + m;
        let bit = (row[p / 8] / power_of_two(7 - p % 8)) % 2;
        index = 2 * index + bit;
        m = m + 1;
    }
    index
}

/// Reads `height` rows of `width` indices of `bits` bits. `None` is
/// returned when the bytes end before the rows do; the cursor has then not
/// moved.
pub fn read_rows(cursor: &mut Reader, width: usize, bits: usize, height: usize) -> (indices: Option<
    Vec<u8>,
>)
    requires
        1 <= bits <= 4,
        1 <= width <= 64,
        height <= 64,
    ensures
        match take_rows(old(cursor).remaining(), width as nat, bits as int, height as nat) {
            None => indices is None && final(cursor).remaining() == old(cursor).remaining(),
            Some((values, rest)) => indices is Some && indices->Some_0@ == values
                && values.len() == height * width && all_below(values, bit_place(bits as int))
                && final(cursor).remaining() == rest,
        },
{
    let mut at = *cursor;
    let ghost whole = take_rows(at.remaining(), width as nat, bits as int, height as nat);
    let size = size_of_row(width, bits);
    let mut indices: Vec<u8> = Vec::new();
    let mut r: usize = 0;
    proof {
        if whole is Some {
            assert(indices@ + whole->Some_0.0 =~= whole->Some_0.0);
        }
        assert(0 * width == 0) by (nonlinear_arith);
    }
    while r < height
        invariant
            *cursor == *old(cursor),
            r <= height <= 64,
            1 <= bits <= 4,
            1 <= width <= 64,
            size == row_size(width as int, bits as int),
            indices@.len() == r * width,
            all_below(indices@, bit_place(bits as int)),
            whole == take_rows(old(cursor).remaining(), width as nat, bits as int, height as nat),
            whole == joined(
                take_rows(at.remaining(), width as nat, bits as int, (height - r) as nat),
                indices@,
            ),
        decreases height - r,
    {
        let ghost before = indices@;
        let ghost tail = take_rows(
            at.remaining().skip(size as int),
            width as nat,
            bits as int,
            (height - r - 1) as nat,
        );
        let row = match at.read_slice(size) {
            Ok(row) => row,
            Err(_) => {
                return None;
            },
        };
        let mut c: usize = 0;
        while c < width
            invariant
                c <= width <= 64,
                1 <= bits <= 4,
                row@.len() == row_size(width as int, bits as int),
                indices@ == before + row_indices(row@, width as nat, bits as int).take(c as int),
                all_below(indices@, bit_place(bits as int)),
            decreases width - c,
        {
            let index = index_at(row, width, bits, c);
            indices.push(index);
            c = c + 1;
            assert(indices@ =~= before + row_indices(row@, width as nat, bits as int).take(
                c as int,
            ));
        }
        r = r + 1;
        proof {
            let got = row_indices(row@, width as nat, bits as int);
            assert(got.take(width as int) =~= got);
            assert(r * width == (r - 1) * width + width) by (nonlinear_arith);
            if tail is Some {
                assert(before + (got + tail->Some_0.0) =~= indices@ + tail->Some_0.0);
            }
        }
    }
    proof {
        assert(indices@ + Seq::<u8>::empty() =~= indices@);
    }
    *cursor = at;
    Some(indices)
}

/// Indices read with `done` already read before them.
pub open spec fn joined(found: Option<(Seq<u8>, Seq<u8>)>, done: Seq<u8>) -> Option<
    (Seq<u8>, Seq<u8>),
> {
    match found {
        None => None,
        Some((indices, rest)) => Some((done + indices, rest)),
    }
}

/// The bit at place `p` of a row of indices.
fn bit_of_row(row: &[u8], bits: usize, p: usize) -> (bit: u8)
    requires
        1 <= bits <= 4,
        row@.len() <= 64,
    ensures
        bit == row_bit(row@, bits as int, p as int),
        bit <= 1,
{
    let (c, j) = unscale(p, bits);
    if c < row.len() {
        (row[c] / power_of_two(bits - 1 - j)) % 2
    } else {
        0
    }
}

/// Appends the bytes of the rows of `width` indices that `indices` holds.
pub fn write_rows(writer: &mut Vec<u8>, indices: &[u8], width: usize, bits: usize, height: usize)
    requires
        1 <= bits <= 4,
        1 <= width <= 64,
        height <= 64,
        indices@.len() == height * width,
    ensures
        final(writer)@ == old(writer)@ + pack_rows(
            indices@,
            width as nat,
            bits as int,
            height as nat,
        ),
{
    let size = size_of_row(width, bits);
    let mut r: usize = 0;
    let mut start: usize = 0;
    assert(indices@.skip(0) =~= indices@);
    assert(0 * width == 0) by (nonlinear_arith);
    while r < height
        invariant
            r <= height <= 64,
            1 <= bits <= 4,
            1 <= width <= 64,
            size == row_size(width as int, bits as int),
            indices@.len() == height * width,
            start == r * width,
            start <= indices@.len(),
            old(writer)@ + pack_rows(indices@, width as nat, bits as int, height as nat)
                == writer@ + pack_rows(
                indices@.skip(start as int),
                width as nat,
                bits as int,
                (height - r) as nat,
            ),
        decreases height - r,
    {
        let ghost before = writer@;
        proof {
            assert((r + 1) * width == r * width + width) by (nonlinear_arith);
            assert((r + 1) * width <= height * width) by (nonlinear_arith)
                requires
                    r + 1 <= height,
                    width >= 1,
            ;
        }
        assert(start + width <= indices.len());
        let row = vstd::slice::slice_subrange(indices, start, start + width);
        assert(row@ =~= indices@.skip(start as int).take(width as int));
        let mut k: usize = 0;
        while k < size
            invariant
                k <= size <= 32,
                1 <= bits <= 4,
                row@.len() == width,
                width <= 64,
                size == row_size(width as int, bits as int),
                writer@ == before + pack_row(row@, bits as int).take(k as int),
            decreases size - k,
        {
            let b0 = bit_of_row(row, bits, 8 * k);
            let b1 = bit_of_row(row, bits, 8 * k + 1);
            let b2 = bit_of_row(row, bits, 8 * k + 2);
            let b3 = bit_of_row(row, bits, 8 * k + 3);
            let b4 = bit_of_row(row, bits, 8 * k + 4);
            let b5 = bit_of_row(row, bits, 8 * k + 5);
            let b6 = bit_of_row(row, bits, 8 * k + 6);
            let b7 = bit_of_row(row, bits, 8 * k + 7);
            writer.push(b0 * 128 + b1 * 64 + b2 * 32 + b3 * 16 + b4 * 8 + b5 * 4 + b6 * 2 + b7);
            k = k + 1;
            assert(writer@ =~= before + pack_row(row@, bits as int).take(k as int));
        }
        proof {
            let left = indices@.skip(start as int);
            assert(pack_row(row@, bits as int).take(size as int) =~= pack_row(row@, bits as int));
            assert(left.skip(width as int) =~= indices@.skip(start + width));
            assert(before + (pack_row(left.take(width as int), bits as int) + pack_rows(
                left.skip(width as int),
                width as nat,
                bits as int,
                (height - r - 1) as nat,
            )) =~= writer@ + pack_rows(
                left.skip(width as int),
                width as nat,
                bits as int,
                (height - r - 1) as nat,
            ));
        }
        start = start + width;
        r = r + 1;
    }
    assert(writer@ + Seq::<u8>::empty() =~= writer@);
}

/// Rows of at most 64 indices take at most 32 bytes each.
pub proof fn lemma_rows_size(bytes: Seq<u8>, width: nat, bits: int, rows: nat)
    requires
        1 <= bits <= 4,
        width <= 64,
        take_rows(bytes, width, bits, rows) is Some,
    ensures
        take_rows(bytes, width, bits, rows)->Some_0.1.len() <= bytes.len(),
        bytes.len() - take_rows(bytes, width, bits, rows)->Some_0.1.len() <= 32 * rows,
    decreases rows,
{
    if rows > 0 {
        lemma_rows_size(bytes.skip(row_size(width as int, bits)), width, bits, (rows - 1) as nat);
    }
}

} // verus!
