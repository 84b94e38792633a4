//! Length-prefixed byte strings and Latin-1 text.
use vstd::prelude::*;
use vstd::std_specs::iter::IteratorSpec;
use crate::protocol::Message;
use crate::wire::{be_u32, u32_bytes, put_u32, put_bytes, lemma_u32_round_trip, lemma_u32_bytes_of_read, Reader};
use crate::{Error, IoError, Result};

verus! {

/// Whether `n` items can be counted by a 32-bit length prefix.
pub open spec fn fits_u32(n: nat) -> bool {
    n <= 0xFFFF_FFFF
}

impl Message for Vec<u8> {
    open spec fn canonical(v: Seq<u8>) -> bool {
        true
    }

    open spec fn legal(bytes: Seq<u8>) -> bool {
        true
    }

    proof fn lemma_encode_decoded(bytes: Seq<u8>) {
        let n = be_u32(bytes);
        lemma_u32_bytes_of_read(bytes);
        assert(u32_bytes(n) + bytes.subrange(4, 4 + n) =~= bytes.take(4 + n));
    }

    open spec fn encoding(v: Seq<u8>) -> core::result::Result<Seq<u8>, Error> {
        if fits_u32(v.len()) {
            Ok(u32_bytes(v.len() as u32) + v)
        } else {
            Err(Error::Unexpected("byte string length"))
        }
    }

    open spec fn decoding(bytes: Seq<u8>) -> core::result::Result<(Seq<u8>, nat), (Error, nat)> {
        if bytes.len() < 4 || bytes.len() < 4 + be_u32(bytes) {
            Err((Error::Io(IoError::UnexpectedEof), 0))
        } else {
            Ok((bytes.subrange(4, 4 + be_u32(bytes)), (4 + be_u32(bytes)) as nat))
        }
    }

    proof fn lemma_decode_encoded(v: Seq<u8>, rest: Seq<u8>) {
        let w = u32_bytes(v.len() as u32) + v;
        lemma_u32_round_trip(v.len() as u32, v + rest);
        assert(w + rest =~= u32_bytes(v.len() as u32) + (v + rest));
        assert((w + rest).subrange(4, 4 + v.len() as int) =~= v);
    }

    fn read_from(reader: &mut Reader) -> (r: Result<Vec<u8>>) {
        let mut cursor = *reader;
        let length = cursor.read_u32()?;
        let buffer = cursor.read_bytes(length as usize)?;
        assert(buffer@ =~= reader.remaining().subrange(4, 4 + length));
        *reader = cursor;
        Ok(buffer)
    }

    fn write_to(&self, writer: &mut Vec<u8>) -> (r: Result<()>) {
        if self.len() > 0xFFFF_FFFF {
            return Err(Error::Unexpected("byte string length"));
        }
        put_u32(writer, self.len() as u32);
        put_bytes(writer, self.as_slice());
        assert(writer@ =~= old(writer)@ + (u32_bytes(self@.len() as u32) + self@));
        Ok(())
    }
}

/// Whether every character of `text` is a Latin-1 character, one that a
/// single byte can stand for.
pub open spec fn is_latin1(text: Seq<char>) -> bool {
    forall|i: int| 0 <= i < text.len() ==> (#[trigger] text[i]) as u32 <= 0xFF
}

/// The bytes that stand for a Latin-1 text, one for each character.
pub open spec fn latin1_bytes(text: Seq<char>) -> Seq<u8> {
    Seq::new(text.len(), |i: int| text[i] as u8)
}

/// The text that bytes stand for in Latin-1, one character for each byte.
pub open spec fn latin1_text(bytes: Seq<u8>) -> Seq<char> {
    Seq::new(bytes.len(), |i: int| bytes[i] as char)
}

/// A character is its code point, and the first 256 code points are the bytes.
proof fn lemma_char_code(c: char)
    ensures
        c as u32 == c as int,
        c as int <= 0xFF ==> c as u8 == c as int && (c as u8) as char == c,
{
}

/// A byte is the code point of the character it stands for.
proof fn lemma_byte_char(b: u8)
    ensures
        (b as char) as int == b,
        (b as char) as u32 == b,
        (b as char) as u8 == b,
{
}

/// Latin-1 text and bytes stand for each other.
pub proof fn lemma_latin1_round_trip(text: Seq<char>)
    requires
        is_latin1(text),
    ensures
        latin1_text(latin1_bytes(text)) == text,
{
    assert forall|i: int| 0 <= i < text.len() implies latin1_text(latin1_bytes(text))[i]
        == text[i] by {
        assert(text[i] as u32 <= 0xFF);
        lemma_char_code(text[i]);
    }
    assert(latin1_text(latin1_bytes(text)) =~= text);
}

/// Every byte string is the Latin-1 form of the text it stands for.
pub proof fn lemma_latin1_bytes_of_text(bytes: Seq<u8>)
    ensures
        is_latin1(latin1_text(bytes)),
        latin1_bytes(latin1_text(bytes)) == bytes,
{
    assert forall|i: int| 0 <= i < bytes.len() implies (#[trigger] latin1_text(bytes)[i]) as u32
        <= 0xFF && latin1_bytes(latin1_text(bytes))[i] == bytes[i] by {
        lemma_byte_char(bytes[i]);
    }
    assert(latin1_bytes(latin1_text(bytes)) =~= bytes);
}

/// `String::push` of std: the character is appended to the text.
#[verifier::external_body]
fn push_char(text: &mut String, c: char)
    ensures
        final(text)@ == old(text)@.push(c),
{
    text.push(c)
}

/// The text that `bytes` stand for in Latin-1.
pub fn latin1_decode(bytes: &[u8]) -> (text: String)
    ensures
        text@ == latin1_text(bytes@),
{
    let mut text = String::new();
    let mut i: usize = 0;
    while i < bytes.len()
        invariant
            i <= bytes@.len(),
            text@ == latin1_text(bytes@.take(i as int)),
        decreases bytes@.len() - i,
    {
        push_char(&mut text, bytes[i] as char);
        i = i + 1;
        assert(text@ =~= latin1_text(bytes@.take(i as int)));
    }
    assert(bytes@.take(i as int) =~= bytes@);
    text
}

/// The Latin-1 bytes of `text`, or `None` when a character of it is outside
/// Latin-1.
pub fn latin1_encode(text: &str) -> (bytes: Option<Vec<u8>>)
    ensures
        is_latin1(text@) ==> bytes is Some && bytes->Some_0@ == latin1_bytes(text@),
        !is_latin1(text@) ==> bytes is None,
{
    broadcast use vstd::string::axiom_spec_iter, vstd::string::next_postcondition;

    let mut bytes: Vec<u8> = Vec::new();
    let mut chars = text.chars();
    loop
        invariant
            chars.obeys_prophetic_iter_laws(),
            bytes@.len() <= text@.len(),
            chars.remaining() == text@.skip(bytes@.len() as int),
            bytes@ == latin1_bytes(text@.take(bytes@.len() as int)),
            is_latin1(text@.take(bytes@.len() as int)),
        decreases text@.len() - bytes@.len(),
    {
        let ghost before = chars;
        match chars.next() {
            None => {
                assert(text@.take(bytes@.len() as int) =~= text@);
                return Some(bytes);
            },
            Some(c) => {
                let code = c as u32;
                assert(c == text@[bytes@.len() as int]);
                proof {
                    lemma_char_code(c);
                }
                if code > 0xFF {
                    return None;
                }
                let ghost n = bytes@.len() as int;
                bytes.push(code as u8);
                assert(chars.remaining() =~= text@.skip(bytes@.len() as int));
                assert(bytes@ =~= latin1_bytes(text@.take(bytes@.len() as int)));
                assert forall|i: int| 0 <= i < n + 1 implies (#[trigger] text@.take(
                    n + 1,
                )[i]) as u32 <= 0xFF by {
                    if i < n {
                        assert(text@.take(n)[i] == text@.take(n + 1)[i]);
                    }
                }
            },
        }
    }
}

impl Message for String {
    open spec fn canonical(v: Seq<char>) -> bool {
        true
    }

    open spec fn legal(bytes: Seq<u8>) -> bool {
        true
    }

    proof fn lemma_encode_decoded(bytes: Seq<u8>) {
        let n = be_u32(bytes);
        let body = bytes.subrange(4, 4 + n);
        lemma_u32_bytes_of_read(bytes);
        lemma_latin1_bytes_of_text(body);
        assert(u32_bytes(n) + body =~= bytes.take(4 + n));
    }

    open spec fn encoding(v: Seq<char>) -> core::result::Result<Seq<u8>, Error> {
        if !fits_u32(v.len()) {
            Err(Error::Unexpected("string length"))
        } else if !is_latin1(v) {
            Err(Error::Unexpected("string character"))
        } else {
            Ok(u32_bytes(v.len() as u32) + latin1_bytes(v))
        }
    }

    open spec fn decoding(bytes: Seq<u8>) -> core::result::Result<(Seq<char>, nat), (Error, nat)> {
        if bytes.len() < 4 || bytes.len() < 4 + be_u32(bytes) {
            Err((Error::Io(IoError::UnexpectedEof), 0))
        } else {
            Ok((latin1_text(bytes.subrange(4, 4 + be_u32(bytes))), (4 + be_u32(bytes)) as nat))
        }
    }

    proof fn lemma_decode_encoded(v: Seq<char>, rest: Seq<u8>) {
        let body = latin1_bytes(v);
        let w = u32_bytes(v.len() as u32) + body;
        lemma_u32_round_trip(v.len() as u32, body + rest);
        assert(w + rest =~= u32_bytes(v.len() as u32) + (body + rest));
        assert((w + rest).subrange(4, 4 + v.len() as int) =~= body);
        lemma_latin1_round_trip(v);
    }

    fn read_from(reader: &mut Reader) -> (r: Result<String>) {
        let mut cursor = *reader;
        let length = cursor.read_u32()?;
        let string = cursor.read_bytes(length as usize)?;
        assert(string@ =~= reader.remaining().subrange(4, 4 + length));
        *reader = cursor;
        Ok(latin1_decode(string.as_slice()))
    }

    fn write_to(&self, writer: &mut Vec<u8>) -> (r: Result<()>) {
        let length = self.as_str().unicode_len();
        if length > 0xFFFF_FFFF {
            return Err(Error::Unexpected("string length"));
        }
        match latin1_encode(self.as_str()) {
            None => Err(Error::Unexpected("string character")),
            Some(bytes) => {
                put_u32(writer, length as u32);
                put_bytes(writer, bytes.as_slice());
                assert(writer@ =~= old(writer)@ + (u32_bytes(self@.len() as u32) + latin1_bytes(
                    self@,
                )));
                Ok(())
            },
        }
    }
}

} // verus!
