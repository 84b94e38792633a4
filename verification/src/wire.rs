//! Big-endian integers on the wire and the cursor that messages are read from.
use vstd::prelude::*;
use vstd::slice::{slice_subrange, slice_to_vec};
use byteorder::{BigEndian, ByteOrder};
use crate::{Error, IoError, Result};

verus! {

/// The unsigned 16-bit integer that the first two bytes of `b` spell, most
/// significant byte first.
pub open spec fn be_u16(b: Seq<u8>) -> u16
    recommends
        b.len() >= 2,
{
    (b[0] as int * 0x100 + b[1] as int) as u16
}

/// The unsigned 32-bit integer that the first four bytes of `b` spell, most
/// significant byte first.
pub open spec fn be_u32(b: Seq<u8>) -> u32
    recommends
        b.len() >= 4,
{
    (b[0] as int * 0x100_0000 + b[1] as int * 0x1_0000 + b[2] as int * 0x100 + b[3] as int) as u32
}

/// The two's-complement reading of an unsigned 32-bit integer.
pub open spec fn signed32(u: u32) -> i32 {
    if u < 0x8000_0000 {
        u as i32
    } else {
        (u - 0x1_0000_0000) as i32
    }
}

/// The unsigned 32-bit integer whose two's-complement reading is `n`.
pub open spec fn unsigned32(n: i32) -> u32 {
    if n >= 0 {
        n as u32
    } else {
        (n + 0x1_0000_0000) as u32
    }
}

/// The signed 32-bit integer that the first four bytes of `b` spell.
pub open spec fn be_i32(b: Seq<u8>) -> i32
    recommends
        b.len() >= 4,
{
    signed32(be_u32(b))
}

/// The two bytes that spell `n`, most significant first.
pub open spec fn u16_bytes(n: u16) -> Seq<u8> {
    seq![(n / 0x100) as u8, (n % 0x100) as u8]
}

/// The four bytes that spell `n`, most significant first.
pub open spec fn u32_bytes(n: u32) -> Seq<u8> {
    seq![
        (n / 0x100_0000) as u8,
        (n / 0x1_0000 % 0x100) as u8,
        (n / 0x100 % 0x100) as u8,
        (n % 0x100) as u8,
    ]
}

/// The four bytes that spell `n` in two's complement, most significant first.
pub open spec fn i32_bytes(n: i32) -> Seq<u8> {
    u32_bytes(unsigned32(n))
}

/// The byte that stands for a flag.
pub open spec fn flag_byte(flag: bool) -> u8 {
    if flag {
        1
    } else {
        0
    }
}

/// `count` zero bytes: padding.
pub open spec fn zeros(count: nat) -> Seq<u8> {
    Seq::new(count, |i: int| 0u8)
}

/// Reading back what was written gives the number written, whatever follows.
pub proof fn lemma_u16_round_trip(n: u16, rest: Seq<u8>)
    ensures
        u16_bytes(n).len() == 2,
        be_u16(u16_bytes(n) + rest) == n,
{
}

/// Writing what was read gives the two bytes read.
pub proof fn lemma_u16_bytes_of_read(b: Seq<u8>)
    requires
        b.len() >= 2,
    ensures
        u16_bytes(be_u16(b)) == b.take(2),
{
    assert(u16_bytes(be_u16(b)) =~= b.take(2));
}

pub proof fn lemma_u32_round_trip(n: u32, rest: Seq<u8>)
    ensures
        u32_bytes(n).len() == 4,
        be_u32(u32_bytes(n) + rest) == n,
{
}

pub proof fn lemma_u32_bytes_of_read(b: Seq<u8>)
    requires
        b.len() >= 4,
    ensures
        u32_bytes(be_u32(b)) == b.take(4),
{
    let n = be_u32(b);
    let (b0, b1, b2, b3) = (b[0] as int, b[1] as int, b[2] as int, b[3] as int);
    assert(n == b0 * 0x100_0000 + b1 * 0x1_0000 + b2 * 0x100 + b3);
    assert(n % 0x100 == b3);
    assert(n / 0x100 == b0 * 0x1_0000 + b1 * 0x100 + b2);
    assert(n / 0x1_0000 == b0 * 0x100 + b1);
    assert(n / 0x100_0000 == b0);
    assert(u32_bytes(n) =~= b.take(4));
}

pub proof fn lemma_i32_round_trip(n: i32, rest: Seq<u8>)
    ensures
        i32_bytes(n).len() == 4,
        be_i32(i32_bytes(n) + rest) == n,
{
    lemma_u32_round_trip(unsigned32(n), rest);
}

pub proof fn lemma_i32_bytes_of_read(b: Seq<u8>)
    requires
        b.len() >= 4,
    ensures
        i32_bytes(be_i32(b)) == b.take(4),
{
    lemma_u32_bytes_of_read(b);
}

/// `byteorder::BigEndian::read_u16`: the first two bytes of `buf` read as a
/// big-endian number. The outside function panics on a shorter slice.
#[verifier::external_body]
fn read_be_u16(buf: &[u8]) -> (n: u16)
    requires
        buf@.len() >= 2,
    ensures
        n == be_u16(buf@),
{
    BigEndian::read_u16(buf)
}

/// `byteorder::BigEndian::read_u32`: the first four bytes of `buf` read as a
/// big-endian number. The outside function panics on a shorter slice.
#[verifier::external_body]
fn read_be_u32(buf: &[u8]) -> (n: u32)
    requires
        buf@.len() >= 4,
    ensures
        n == be_u32(buf@),
{
    BigEndian::read_u32(buf)
}

/// `byteorder::BigEndian::read_i32`: the first four bytes of `buf` read as a
/// big-endian number in two's complement. The outside function panics on a
/// shorter slice.
#[verifier::external_body]
fn read_be_i32(buf: &[u8]) -> (n: i32)
    requires
        buf@.len() >= 4,
    ensures
        n == be_i32(buf@),
{
    BigEndian::read_i32(buf)
}

/// `byteorder::BigEndian::write_u16` into a two-byte array: the array then
/// spells `n`, most significant byte first.
#[verifier::external_body]
fn write_be_u16(n: u16) -> (b: [u8; 2])
    ensures
        b@ == u16_bytes(n),
{
    let mut b = [0u8; 2];
    BigEndian::write_u16(&mut b, n);
    b
}

/// `byteorder::BigEndian::write_u32` into a four-byte array: the array then
/// spells `n`, most significant byte first.
#[verifier::external_body]
fn write_be_u32(n: u32) -> (b: [u8; 4])
    ensures
        b@ == u32_bytes(n),
{
    let mut b = [0u8; 4];
    BigEndian::write_u32(&mut b, n);
    b
}

/// `byteorder::BigEndian::write_i32` into a four-byte array: the array then
/// spells `n` in two's complement, most significant byte first.
#[verifier::external_body]
fn write_be_i32(n: i32) -> (b: [u8; 4])
    ensures
        b@ == i32_bytes(n),
{
    let mut b = [0u8; 4];
    BigEndian::write_i32(&mut b, n);
    b
}

/// A cursor over bytes held in memory: the source that messages are read from.
#[derive(Clone, Copy, Debug)]
pub struct Reader<'a> {
    data: &'a [u8],
    at: usize,
}

impl<'a> Reader<'a> {
    #[verifier::type_invariant]
    spec fn in_bounds(self) -> bool {
        self.at <= self.data@.len()
    }

    /// The bytes not yet read.
    pub closed spec fn remaining(&self) -> Seq<u8> {
        self.data@.skip(self.at as int)
    }

    /// A cursor at the start of `data`.
    pub fn new(data: &'a [u8]) -> (r: Self)
        ensures
            r.remaining() == data@,
    {
        assert(data@.skip(0) =~= data@);
        Reader { data, at: 0 }
    }

    /// How many bytes are left to read.
    pub fn available(&self) -> (n: usize)
        ensures
            n == self.remaining().len(),
    {
        proof {
            use_type_invariant(self);
        }
        self.data.len() - self.at
    }

    /// Moves the cursor `count` bytes on. The caller has checked that they
    /// are there.
    fn advance(&mut self, count: usize)
        requires
            count <= old(self).remaining().len(),
        ensures
            final(self).remaining() == old(self).remaining().skip(count as int),
    {
        proof {
            use_type_invariant(&*self);
        }
        assert(self.at + count <= self.data.len());
        self.at = self.at + count;
        assert(self.remaining() =~= old(self).remaining().skip(count as int));
    }

    /// The next `count` bytes, which the caller has checked are there.
    fn peek(&self, count: usize) -> (bytes: &'a [u8])
        requires
            count <= self.remaining().len(),
        ensures
            bytes@ == self.remaining().take(count as int),
    {
        proof {
            use_type_invariant(self);
        }
        assert(self.at + count <= self.data.len());
        let bytes = slice_subrange(self.data, self.at, self.at + count);
        assert(bytes@ =~= self.remaining().take(count as int));
        bytes
    }

    /// Moves past `count` bytes without looking at them: padding.
    pub fn skip(&mut self, count: usize) -> (r: Result<()>)
        ensures
            old(self).remaining().len() >= count ==> r == Ok::<(), Error>(()) && final(self).remaining() == old(self).remaining().skip(count as int),
            old(self).remaining().len() < count ==> r == Err::<(), Error>(
                Error::Io(IoError::UnexpectedEof),
            ) && final(self).remaining() == old(self).remaining(),
    {
        if self.available() < count {
            return Err(Error::Io(IoError::UnexpectedEof));
        }
        self.advance(count);
        Ok(())
    }

    /// Reads the next `count` bytes without copying them.
    pub fn read_slice(&mut self, count: usize) -> (r: Result<&'a [u8]>)
        ensures
            old(self).remaining().len() >= count ==> r is Ok && r->Ok_0@ == old(self).remaining().take(count as int) && final(self).remaining() == old(self).remaining().skip(count as int),
            old(self).remaining().len() < count ==> r == Err::<&[u8], Error>(
                Error::Io(IoError::UnexpectedEof),
            ) && final(self).remaining() == old(self).remaining(),
    {
        if self.available() < count {
            return Err(Error::Io(IoError::UnexpectedEof));
        }
        let bytes = self.peek(count);
        self.advance(count);
        Ok(bytes)
    }

    /// Reads the next `count` bytes.
    pub fn read_bytes(&mut self, count: usize) -> (r: Result<Vec<u8>>)
        ensures
            old(self).remaining().len() >= count ==> r is Ok && r->Ok_0@ == old(self).remaining().take(count as int) && final(self).remaining() == old(self).remaining().skip(count as int),
            old(self).remaining().len() < count ==> r == Err::<Vec<u8>, Error>(
                Error::Io(IoError::UnexpectedEof),
            ) && final(self).remaining() == old(self).remaining(),
    {
        if self.available() < count {
            return Err(Error::Io(IoError::UnexpectedEof));
        }
        let bytes = slice_to_vec(self.peek(count));
        self.advance(count);
        Ok(bytes)
    }

    /// Reads one byte.
    pub fn read_u8(&mut self) -> (r: Result<u8>)
        ensures
            old(self).remaining().len() >= 1 ==> r == Ok::<u8, Error>(old(self).remaining()[0])
                && final(self).remaining() == old(self).remaining().skip(1),
            old(self).remaining().len() < 1 ==> r == Err::<u8, Error>(
                Error::Io(IoError::UnexpectedEof),
            ) && final(self).remaining() == old(self).remaining(),
    {
        if self.available() < 1 {
            return Err(Error::Io(IoError::UnexpectedEof));
        }
        let b = self.peek(1)[0];
        self.advance(1);
        Ok(b)
    }

    /// Reads a big-endian unsigned 16-bit integer.
    pub fn read_u16(&mut self) -> (r: Result<u16>)
        ensures
            old(self).remaining().len() >= 2 ==> r == Ok::<u16, Error>(
                be_u16(old(self).remaining()),
            ) && final(self).remaining() == old(self).remaining().skip(2),
            old(self).remaining().len() < 2 ==> r == Err::<u16, Error>(
                Error::Io(IoError::UnexpectedEof),
            ) && final(self).remaining() == old(self).remaining(),
    {
        if self.available() < 2 {
            return Err(Error::Io(IoError::UnexpectedEof));
        }
        let n = read_be_u16(self.peek(2));
        self.advance(2);
        Ok(n)
    }

    /// Reads a big-endian unsigned 32-bit integer.
    pub fn read_u32(&mut self) -> (r: Result<u32>)
        ensures
            old(self).remaining().len() >= 4 ==> r == Ok::<u32, Error>(
                be_u32(old(self).remaining()),
            ) && final(self).remaining() == old(self).remaining().skip(4),
            old(self).remaining().len() < 4 ==> r == Err::<u32, Error>(
                Error::Io(IoError::UnexpectedEof),
            ) && final(self).remaining() == old(self).remaining(),
    {
        if self.available() < 4 {
            return Err(Error::Io(IoError::UnexpectedEof));
        }
        let n = read_be_u32(self.peek(4));
        self.advance(4);
        Ok(n)
    }

    /// Reads a big-endian signed 32-bit integer.
    pub fn read_i32(&mut self) -> (r: Result<i32>)
        ensures
            old(self).remaining().len() >= 4 ==> r == Ok::<i32, Error>(
                be_i32(old(self).remaining()),
            ) && final(self).remaining() == old(self).remaining().skip(4),
            old(self).remaining().len() < 4 ==> r == Err::<i32, Error>(
                Error::Io(IoError::UnexpectedEof),
            ) && final(self).remaining() == old(self).remaining(),
    {
        if self.available() < 4 {
            return Err(Error::Io(IoError::UnexpectedEof));
        }
        let n = read_be_i32(self.peek(4));
        self.advance(4);
        Ok(n)
    }
}

/// Appends `bytes` to `writer`.
pub fn put_bytes(writer: &mut Vec<u8>, bytes: &[u8])
    ensures
        final(writer)@ == old(writer)@ + bytes@,
{
    let mut i: usize = 0;
    while i < bytes.len()
        invariant
            i <= bytes@.len(),
            writer@ == old(writer)@ + bytes@.take(i as int),
        decreases bytes@.len() - i,
    {
        writer.push(bytes[i]);
        i = i + 1;
        assert(writer@ =~= old(writer)@ + bytes@.take(i as int));
    }
    assert(bytes@.take(i as int) =~= bytes@);
}

/// Appends the byte that stands for `flag` to `writer`.
pub fn put_flag(writer: &mut Vec<u8>, flag: bool)
    ensures
        final(writer)@ == old(writer)@.push(flag_byte(flag)),
{
    writer.push(if flag { 1 } else { 0 });
}

/// Appends `count` zero bytes to `writer`: padding.
pub fn put_zeros(writer: &mut Vec<u8>, count: usize)
    ensures
        final(writer)@ == old(writer)@ + zeros(count as nat),
{
    let mut i: usize = 0;
    while i < count
        invariant
            i <= count,
            writer@ == old(writer)@ + zeros(i as nat),
        decreases count - i,
    {
        writer.push(0);
        i = i + 1;
        assert(writer@ =~= old(writer)@ + zeros(i as nat));
    }
}

/// Appends the big-endian form of `n` to `writer`.
pub fn put_u16(writer: &mut Vec<u8>, n: u16)
    ensures
        final(writer)@ == old(writer)@ + u16_bytes(n),
{
    let b = write_be_u16(n);
    writer.push(b[0]);
    writer.push(b[1]);
    assert(writer@ =~= old(writer)@ + u16_bytes(n));
}

/// Appends the big-endian form of `n` to `writer`.
pub fn put_u32(writer: &mut Vec<u8>, n: u32)
    ensures
        final(writer)@ == old(writer)@ + u32_bytes(n),
{
    let b = write_be_u32(n);
    writer.push(b[0]);
    writer.push(b[1]);
    writer.push(b[2]);
    writer.push(b[3]);
    assert(writer@ =~= old(writer)@ + u32_bytes(n));
}

/// Appends the big-endian two's-complement form of `n` to `writer`.
pub fn put_i32(writer: &mut Vec<u8>, n: i32)
    ensures
        final(writer)@ == old(writer)@ + i32_bytes(n),
{
    let b = write_be_i32(n);
    writer.push(b[0]);
    writer.push(b[1]);
    writer.push(b[2]);
    writer.push(b[3]);
    assert(writer@ =~= old(writer)@ + i32_bytes(n));
}

} // verus!
