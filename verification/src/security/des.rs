//! The Data Encryption Standard, for the response to the challenge of VNC
//! authentication. Bits are held one to a byte, in the order in which the
//! standard numbers them: the most significant bit of the first byte is
//! bit 1.
use vstd::prelude::*;
use crate::security::key_of;
use crate::security::vnc_auth_key;
use crate::wire::put_bytes;
use crate::zrle::packed::{bit_at, bit_place};

verus! {

/// The initial permutation of a block: for each place of the result, the
/// place of the block that its bit comes from, counted from 1.
pub const INITIAL_PERMUTATION: [u8; 64] = [
    58, 50, 42, 34, 26, 18, 10, 2,
    60, 52, 44, 36, 28, 20, 12, 4,
    62, 54, 46, 38, 30, 22, 14, 6,
    64, 56, 48, 40, 32, 24, 16, 8,
    57, 49, 41, 33, 25, 17, 9, 1,
    59, 51, 43, 35, 27, 19, 11, 3,
    61, 53, 45, 37, 29, 21, 13, 5,
    63, 55, 47, 39, 31, 23, 15, 7,
];

/// The final permutation of a block, which undoes the initial one.
pub const FINAL_PERMUTATION: [u8; 64] = [
    40, 8, 48, 16, 56, 24, 64, 32,
    39, 7, 47, 15, 55, 23, 63, 31,
    38, 6, 46, 14, 54, 22, 62, 30,
    37, 5, 45, 13, 53, 21, 61, 29,
    36, 4, 44, 12, 52, 20, 60, 28,
    35, 3, 43, 11, 51, 19, 59, 27,
    34, 2, 42, 10, 50, 18, 58, 26,
    33, 1, 41, 9, 49, 17, 57, 25,
];

/// The expansion of the right half of a block from 32 to 48 bits.
pub const EXPANSION: [u8; 48] = [
    32, 1, 2, 3, 4, 5,
    4, 5, 6, 7, 8, 9,
    8, 9, 10, 11, 12, 13,
    12, 13, 14, 15, 16, 17,
    16, 17, 18, 19, 20, 21,
    20, 21, 22, 23, 24, 25,
    24, 25, 26, 27, 28, 29,
    28, 29, 30, 31, 32, 1,
];

/// The permutation that ends the round function.
pub const ROUND_PERMUTATION: [u8; 32] = [
    16, 7, 20, 21, 29, 12, 28, 17,
    1, 15, 23, 26, 5, 18, 31, 10,
    2, 8, 24, 14, 32, 27, 3, 9,
    19, 13, 30, 6, 22, 11, 4, 25,
];

/// The first permuted choice: the 56 bits of the key that count.
pub const KEY_CHOICE_1: [u8; 56] = [
    57, 49, 41, 33, 25, 17, 9,
    1, 58, 50, 42, 34, 26, 18,
    10, 2, 59, 51, 43, 35, 27,
    19, 11, 3, 60, 52, 44, 36,
    63, 55, 47, 39, 31, 23, 15,
    7, 62, 54, 46, 38, 30, 22,
    14, 6, 61, 53, 45, 37, 29,
    21, 13, 5, 28, 20, 12, 4,
];

/// The second permuted choice: the 48 bits of a round key.
pub const KEY_CHOICE_2: [u8; 48] = [
    14, 17, 11, 24, 1, 5,
    3, 28, 15, 6, 21, 10,
    23, 19, 12, 4, 26, 8,
    16, 7, 27, 20, 13, 2,
    41, 52, 31, 37, 47, 55,
    30, 40, 51, 45, 33, 48,
    44, 49, 39, 56, 34, 53,
    46, 42, 50, 36, 29, 32,
];

/// How far the halves of the key turn before each of the sixteen rounds.
pub const KEY_SHIFTS: [u8; 16] = [
    1, 1, 2, 2, 2, 2, 2, 2, 1, 2, 2, 2, 2, 2, 2, 1,
];

/// The eight substitution boxes, one after the other, each with its four
/// rows of sixteen values one after the other.
pub const SUBSTITUTIONS: [u8; 512] = [
    14, 4, 13, 1, 2, 15, 11, 8, 3, 10, 6, 12, 5, 9, 0, 7,
    0, 15, 7, 4, 14, 2, 13, 1, 10, 6, 12, 11, 9, 5, 3, 8,
    4, 1, 14, 8, 13, 6, 2, 11, 15, 12, 9, 7, 3, 10, 5, 0,
    15, 12, 8, 2, 4, 9, 1, 7, 5, 11, 3, 14, 10, 0, 6, 13,
    15, 1, 8, 14, 6, 11, 3, 4, 9, 7, 2, 13, 12, 0, 5, 10,
    3, 13, 4, 7, 15, 2, 8, 14, 12, 0, 1, 10, 6, 9, 11, 5,
    0, 14, 7, 11, 10, 4, 13, 1, 5, 8, 12, 6, 9, 3, 2, 15,
    13, 8, 10, 1, 3, 15, 4, 2, 11, 6, 7, 12, 0, 5, 14, 9,
    10, 0, 9, 14, 6, 3, 15, 5, 1, 13, 12, 7, 11, 4, 2, 8,
    13, 7, 0, 9, 3, 4, 6, 10, 2, 8, 5, 14, 12, 11, 15, 1,
    13, 6, 4, 9, 8, 15, 3, 0, 11, 1, 2, 12, 5, 10, 14, 7,
    1, 10, 13, 0, 6, 9, 8, 7, 4, 15, 14, 3, 11, 5, 2, 12,
    7, 13, 14, 3, 0, 6, 9, 10, 1, 2, 8, 5, 11, 12, 4, 15,
    13, 8, 11, 5, 6, 15, 0, 3, 4, 7, 2, 12, 1, 10, 14, 9,
    10, 6, 9, 0, 12, 11, 7, 13, 15, 1, 3, 14, 5, 2, 8, 4,
    3, 15, 0, 6, 10, 1, 13, 8, 9, 4, 5, 11, 12, 7, 2, 14,
    2, 12, 4, 1, 7, 10, 11, 6, 8, 5, 3, 15, 13, 0, 14, 9,
    14, 11, 2, 12, 4, 7, 13, 1, 5, 0, 15, 10, 3, 9, 8, 6,
    4, 2, 1, 11, 10, 13, 7, 8, 15, 9, 12, 5, 6, 3, 0, 14,
    11, 8, 12, 7, 1, 14, 2, 13, 6, 15, 0, 9, 10, 4, 5, 3,
    12, 1, 10, 15, 9, 2, 6, 8, 0, 13, 3, 4, 14, 7, 5, 11,
    10, 15, 4, 2, 7, 12, 9, 5, 6, 1, 13, 14, 0, 11, 3, 8,
    9, 14, 15, 5, 2, 8, 12, 3, 7, 0, 4, 10, 1, 13, 11, 6,
    4, 3, 2, 12, 9, 5, 15, 10, 11, 14, 1, 7, 6, 0, 8, 13,
    4, 11, 2, 14, 15, 0, 8, 13, 3, 12, 9, 7, 5, 10, 6, 1,
    13, 0, 11, 7, 4, 9, 1, 10, 14, 3, 5, 12, 2, 15, 8, 6,
    1, 4, 11, 13, 12, 3, 7, 14, 10, 15, 6, 8, 0, 5, 9, 2,
    6, 11, 13, 8, 1, 4, 10, 7, 9, 5, 0, 15, 14, 2, 3, 12,
    13, 2, 8, 4, 6, 15, 11, 1, 10, 9, 3, 14, 5, 0, 12, 7,
    1, 15, 13, 8, 10, 3, 7, 4, 12, 5, 6, 11, 0, 14, 9, 2,
    7, 11, 4, 1, 9, 12, 14, 2, 0, 6, 10, 13, 15, 3, 5, 8,
    2, 1, 14, 7, 4, 10, 8, 13, 15, 12, 9, 0, 3, 5, 6, 11,
];

/// The bits of a byte string, most significant bit of the first byte
/// first.
pub open spec fn bits_of(bytes: Seq<u8>) -> Seq<u8> {
    Seq::new(8 * bytes.len(), |p: int| bit_at(bytes, p) as u8)
}

/// The byte that the eight bits from place `8 * i` spell.
pub open spec fn byte_of(bits: Seq<u8>, i: int) -> u8 {
    (bits[8 * i] % 2 * 128 + bits[8 * i + 1] % 2 * 64 + bits[8 * i + 2] % 2 * 32 + bits[8 * i + 3]
        % 2 * 16 + bits[8 * i + 4] % 2 * 8 + bits[8 * i + 5] % 2 * 4 + bits[8 * i + 6] % 2 * 2
        + bits[8 * i + 7] % 2) as u8
}

/// The eight bytes that 64 bits spell.
pub open spec fn bytes_of(bits: Seq<u8>) -> Seq<u8> {
    Seq::new(8, |i: int| byte_of(bits, i))
}

/// The bits picked as the table says: the bit at each place of the result
/// is the bit of `bits` whose place, counted from 1, the table names.
pub open spec fn permuted(bits: Seq<u8>, table: Seq<u8>) -> Seq<u8> {
    Seq::new(
        table.len(),
        |i: int|
            if 1 <= table[i] <= bits.len() {
                bits[table[i] - 1]
            } else {
                0
            },
    )
}

/// The exclusive or of two strings of bits of one length.
pub open spec fn xored(a: Seq<u8>, b: Seq<u8>) -> Seq<u8> {
    Seq::new(a.len(), |i: int| ((a[i] + b[i]) % 2) as u8)
}

/// The 28 bits of a half of the key turned `by` places to the left.
pub open spec fn turned(half: Seq<u8>, by: int) -> Seq<u8> {
    Seq::new(28, |i: int| half[(i + by) % 28])
}

/// The value that substitution box `j` gives for the six bits from place
/// `6 * j` of `bits`: the first and the last bit name the row, the four
/// between them the column.
pub open spec fn substitution(bits: Seq<u8>, j: int) -> u8 {
    SUBSTITUTIONS@[64 * j + (bits[6 * j] % 2 * 2 + bits[6 * j + 5] % 2) * 16 + bits[6 * j + 1] % 2
        * 8 + bits[6 * j + 2] % 2 * 4 + bits[6 * j + 3] % 2 * 2 + bits[6 * j + 4] % 2]
}

/// The 32 bits that the eight substitution boxes give for 48 bits: four
/// bits from each box, most significant first.
pub open spec fn substituted(bits: Seq<u8>) -> Seq<u8> {
    Seq::new(32, |p: int| ((substitution(bits, p / 4) as int / bit_place(3 - p % 4)) % 2) as u8)
}

/// The round function: the half block is expanded, mixed with the round
/// key, substituted and permuted.
pub open spec fn round_function(half: Seq<u8>, round_key: Seq<u8>) -> Seq<u8> {
    permuted(substituted(xored(permuted(half, EXPANSION@), round_key)), ROUND_PERMUTATION@)
}

/// The two halves of the key, 56 bits, as they stand after `round` rounds:
/// each half has turned to the left before every round.
pub open spec fn key_halves(key: Seq<u8>, round: nat) -> Seq<u8>
    decreases round,
{
    if round == 0 {
        permuted(bits_of(key), KEY_CHOICE_1@)
    } else {
        let before = key_halves(key, (round - 1) as nat);
        turned(before.take(28), KEY_SHIFTS@[round - 1] as int) + turned(
            before.skip(28),
            KEY_SHIFTS@[round - 1] as int,
        )
    }
}

/// The key of round `round`, counted from 1.
pub open spec fn round_key(key: Seq<u8>, round: nat) -> Seq<u8> {
    permuted(key_halves(key, round), KEY_CHOICE_2@)
}

/// The block, 64 bits, as it stands after `round` rounds: the right half
/// has become the left, and the left half mixed with the round function of
/// the right has become the right.
pub open spec fn block_after(key: Seq<u8>, block: Seq<u8>, round: nat) -> Seq<u8>
    decreases round,
{
    if round == 0 {
        permuted(bits_of(block), INITIAL_PERMUTATION@)
    } else {
        let before = block_after(key, block, (round - 1) as nat);
        before.skip(32) + xored(before.take(32), round_function(before.skip(32), round_key(key, round)))
    }
}

/// The block of eight bytes that the Data Encryption Standard makes of the
/// block `block` under the key `key`, both of eight bytes: sixteen rounds
/// between the initial and the final permutation, the halves swapped
/// before the latter.
pub open spec fn encrypted(key: Seq<u8>, block: Seq<u8>) -> Seq<u8> {
    bytes_of(
        permuted(
            block_after(key, block, 16).skip(32) + block_after(key, block, 16).take(32),
            FINAL_PERMUTATION@,
        ),
    )
}

/// The response to a challenge of VNC authentication: each half of the
/// challenge encrypted under the key of the password.
pub open spec fn response_of(password: Seq<u8>, challenge: Seq<u8>) -> Seq<u8> {
    encrypted(key_of(password), challenge.take(8)) + encrypted(key_of(password), challenge.skip(8))
}

/// The bits of `bytes`.
fn to_bits(bytes: &[u8]) -> (bits: Vec<u8>)
    requires
        bytes@.len() <= 16,
    ensures
        bits@ == bits_of(bytes@),
{
    let mut bits: Vec<u8> = Vec::new();
    let mut p: usize = 0;
    while p < 8 * bytes.len()
        invariant
            p <= 8 * bytes@.len(),
            bytes@.len() <= 16,
            bits@ == bits_of(bytes@).take(p as int),
        decreases 8 * bytes@.len() - p,
    {
        let place: u8 = match 7 - p % 8 {
            0 => 1,
            1 => 2,
            2 => 4,
            3 => 8,
            4 => 16,
            5 => 32,
            6 => 64,
            _ => 128,
        };
        bits.push((bytes[p / 8] / place) % 2);
        p = p + 1;
        assert(bits@ =~= bits_of(bytes@).take(p as int));
    }
    assert(bits_of(bytes@).take(p as int) =~= bits_of(bytes@));
    bits
}

/// The eight bytes that the 64 bits spell.
fn to_bytes(bits: &[u8]) -> (bytes: [u8; 8])
    requires
        bits@.len() == 64,
    ensures
        bytes@ == bytes_of(bits@),
{
    let mut bytes = [0u8; 8];
    let mut i: usize = 0;
    while i < 8
        invariant
            i <= 8,
            bits@.len() == 64,
            forall|k: int| 0 <= k < i ==> bytes@[k] == byte_of(bits@, k),
        decreases 8 - i,
    {
        bytes[i] = bits[8 * i] % 2 * 128 + bits[8 * i + 1] % 2 * 64 + bits[8 * i + 2] % 2 * 32
            + bits[8 * i + 3] % 2 * 16 + bits[8 * i + 4] % 2 * 8 + bits[8 * i + 5] % 2 * 4 + bits[8
            * i + 6] % 2 * 2 + bits[8 * i + 7] % 2;
        i = i + 1;
    }
    assert(bytes@ =~= bytes_of(bits@));
    bytes
}

/// The bits picked as the table says.
fn permute(bits: &[u8], table: &[u8]) -> (picked: Vec<u8>)
    ensures
        picked@ == permuted(bits@, table@),
{
    let mut picked: Vec<u8> = Vec::new();
    let mut i: usize = 0;
    while i < table.len()
        invariant
            i <= table@.len(),
            picked@ == permuted(bits@, table@).take(i as int),
        decreases table@.len() - i,
    {
        let from = table[i] as usize;
        picked.push(
            if 1 <= from && from <= bits.len() {
                bits[from - 1]
            } else {
                0
            },
        );
        i = i + 1;
        assert(picked@ =~= permuted(bits@, table@).take(i as int));
    }
    assert(permuted(bits@, table@).take(i as int) =~= permuted(bits@, table@));
    picked
}

/// The exclusive or of two strings of bits of one length.
fn xor(a: &[u8], b: &[u8]) -> (mixed: Vec<u8>)
    requires
        a@.len() == b@.len(),
    ensures
        mixed@ == xored(a@, b@),
{
    let mut mixed: Vec<u8> = Vec::new();
    let mut i: usize = 0;
    while i < a.len()
        invariant
            i <= a@.len(),
            a@.len() == b@.len(),
            mixed@ == xored(a@, b@).take(i as int),
        decreases a@.len() - i,
    {
        mixed.push(((a[i] as u16 + b[i] as u16) % 2) as u8);
        i = i + 1;
        assert(mixed@ =~= xored(a@, b@).take(i as int));
    }
    assert(xored(a@, b@).take(i as int) =~= xored(a@, b@));
    mixed
}

/// Both halves of the key turned `by` places to the left.
fn turn(halves: &[u8], by: usize) -> (turned_halves: Vec<u8>)
    requires
        halves@.len() == 56,
        by <= 2,
    ensures
        turned_halves@ == turned(halves@.take(28), by as int) + turned(halves@.skip(28), by as int),
{
    let mut out: Vec<u8> = Vec::new();
    let ghost goal = turned(halves@.take(28), by as int) + turned(halves@.skip(28), by as int);
    let mut i: usize = 0;
    while i < 56
        invariant
            i <= 56,
            halves@.len() == 56,
            by <= 2,
            goal == turned(halves@.take(28), by as int) + turned(halves@.skip(28), by as int),
            out@ == goal.take(i as int),
        decreases 56 - i,
    {
        let bit = if i < 28 {
            halves[(i + by) % 28]
        } else {
            halves[28 + (i - 28 + by) % 28]
        };
        out.push(bit);
        i = i + 1;
        assert(out@ =~= goal.take(i as int));
    }
    assert(goal.take(i as int) =~= goal);
    out
}

/// The 32 bits that the eight substitution boxes give for 48 bits.
fn substitute(bits: &[u8]) -> (out: Vec<u8>)
    requires
        bits@.len() == 48,
    ensures
        out@ == substituted(bits@),
{
    let mut out: Vec<u8> = Vec::new();
    let mut j: usize = 0;
    while j < 8
        invariant
            j <= 8,
            bits@.len() == 48,
            out@ == substituted(bits@).take(4 * j),
        decreases 8 - j,
    {
        let row = (bits[6 * j] % 2 * 2 + bits[6 * j + 5] % 2) as usize;
        let column = (bits[6 * j + 1] % 2 * 8 + bits[6 * j + 2] % 2 * 4 + bits[6 * j + 3] % 2 * 2
            + bits[6 * j + 4] % 2) as usize;
        let value = SUBSTITUTIONS[64 * j + row * 16 + column];
        assert(value == substitution(bits@, j as int));
        out.push((value / 8) % 2);
        out.push((value / 4) % 2);
        out.push((value / 2) % 2);
        out.push(value % 2);
        j = j + 1;
        assert(out@ =~= substituted(bits@).take(4 * j)) by {
            let goal = substituted(bits@);
            assert forall|p: int| 4 * (j - 1) <= p < 4 * j implies out@[p] == goal[p] by {
                assert(p / 4 == j - 1);
            }
        }
    }
    assert(substituted(bits@).take(32) =~= substituted(bits@));
    out
}

/// Two strings of bits, one after the other.
fn join(a: &[u8], b: &[u8]) -> (both: Vec<u8>)
    ensures
        both@ == a@ + b@,
{
    let mut both: Vec<u8> = Vec::new();
    put_bytes(&mut both, a);
    put_bytes(&mut both, b);
    both
}

/// Encrypts the block `block` under the key `key`.
pub fn encrypt(key: &[u8; 8], block: &[u8; 8]) -> (out: [u8; 8])
    ensures
        out@ == encrypted(key@, block@),
{
    let mut halves = permute(to_bits(key.as_slice()).as_slice(), KEY_CHOICE_1.as_slice());
    let mut state = permute(to_bits(block.as_slice()).as_slice(), INITIAL_PERMUTATION.as_slice());
    let mut round: usize = 0;
    while round < 16
        invariant
            round <= 16,
            halves@ == key_halves(key@, round as nat),
            state@ == block_after(key@, block@, round as nat),
            halves@.len() == 56,
            state@.len() == 64,
        decreases 16 - round,
    {
        halves = turn(halves.as_slice(), KEY_SHIFTS[round] as usize);
        let round_key = permute(halves.as_slice(), KEY_CHOICE_2.as_slice());
        let left = vstd::slice::slice_subrange(state.as_slice(), 0, 32);
        let right = vstd::slice::slice_subrange(state.as_slice(), 32, 64);
        assert(left@ =~= state@.take(32));
        assert(right@ =~= state@.skip(32));
        let expanded = permute(right, EXPANSION.as_slice());
        let mixed = xor(expanded.as_slice(), round_key.as_slice());
        let passed = permute(substitute(mixed.as_slice()).as_slice(), ROUND_PERMUTATION.as_slice());
        let next = join(right, xor(left, passed.as_slice()).as_slice());
        state = next;
        round = round + 1;
    }
    let left = vstd::slice::slice_subrange(state.as_slice(), 0, 32);
    let right = vstd::slice::slice_subrange(state.as_slice(), 32, 64);
    assert(left@ =~= state@.take(32));
    assert(right@ =~= state@.skip(32));
    let swapped = join(right, left);
    to_bytes(permute(swapped.as_slice(), FINAL_PERMUTATION.as_slice()).as_slice())
}

/// The response to the challenge `challenge` of VNC authentication for the
/// password `password`.
pub fn vnc_auth_response(password: &[u8], challenge: &[u8; 16]) -> (response: [u8; 16])
    ensures
        response@ == response_of(password@, challenge@),
{
    let key = vnc_auth_key(password);
    let mut first = [0u8; 8];
    let mut second = [0u8; 8];
    let mut i: usize = 0;
    while i < 8
        invariant
            i <= 8,
            forall|k: int| 0 <= k < i ==> first@[k] == challenge@[k] && second@[k] == challenge@[8 + k],
        decreases 8 - i,
    {
        first[i] = challenge[i];
        second[i] = challenge[8 + i];
        i = i + 1;
    }
    assert(first@ =~= challenge@.take(8));
    assert(second@ =~= challenge@.skip(8));
    let head = encrypt(&key, &first);
    let tail = encrypt(&key, &second);
    let mut response = [0u8; 16];
    let mut i: usize = 0;
    while i < 8
        invariant
            i <= 8,
            forall|k: int| 0 <= k < i ==> response@[k] == head@[k] && response@[8 + k] == tail@[k],
        decreases 8 - i,
    {
        response[i] = head[i];
        response[8 + i] = tail[i];
        i = i + 1;
    }
    assert(response@ =~= head@ + tail@);
    response
}

} // verus!
