//! The messages that a server sends to a client.
use vstd::prelude::*;
use crate::protocol::Message;
use crate::protocol::pixel::{Colour, colours_bytes, colours_at, lemma_colours_round_trip, lemma_colours_bytes_of_read, lemma_colours_bytes_push};
use crate::wire::{be_u16, u16_bytes, zeros, put_u16, put_bytes, put_zeros, lemma_u16_round_trip, lemma_u16_bytes_of_read, lemma_u32_round_trip, u32_bytes, Reader};
use crate::{Error, IoError, Result};

verus! {

/// A message from server to client.
#[derive(Debug, PartialEq, Eq)]
pub enum S2C {
    /// The head of a framebuffer update. The `count` rectangles follow it on
    /// the wire, each with its payload; they are read one by one.
    FramebufferUpdate { count: u16 },
    SetColourMapEntries { first_colour: u16, colours: Vec<Colour> },
    Bell,
    CutText(String),
}

/// The mathematical view of an [`S2C`] message.
pub ghost enum S2CView {
    FramebufferUpdate { count: u16 },
    SetColourMapEntries { first_colour: u16, colours: Seq<Colour> },
    Bell,
    CutText(Seq<char>),
}

impl View for S2C {
    type V = S2CView;

    open spec fn view(&self) -> S2CView {
        match *self {
            S2C::FramebufferUpdate { count } => S2CView::FramebufferUpdate { count },
            S2C::SetColourMapEntries { first_colour, colours } => S2CView::SetColourMapEntries {
                first_colour,
                colours: colours@,
            },
            S2C::Bell => S2CView::Bell,
            S2C::CutText(text) => S2CView::CutText(text@),
        }
    }
}

/// Whether `v`, written and followed by `rest`, is read back as itself
/// with exactly its own bytes taken, and is laid out to the letter.
pub open spec fn read_back(v: S2CView, rest: Seq<u8>) -> bool {
    &&& S2C::decoding(S2C::encoding(v)->Ok_0 + rest) == Ok::<(S2CView, nat), (Error, nat)>(
        (v, S2C::encoding(v)->Ok_0.len()),
    )
    &&& S2C::legal(S2C::encoding(v)->Ok_0 + rest)
}

proof fn lemma_update_read_back(v: S2CView, rest: Seq<u8>)
    requires
        v is FramebufferUpdate,
    ensures
        read_back(v, rest),
{
    let all = S2C::encoding(v)->Ok_0 + rest;
    let count = v->count;
    assert(all.skip(2) =~= u16_bytes(count) + rest);
    lemma_u16_round_trip(count, rest);
}

proof fn lemma_colour_map_read_back(v: S2CView, rest: Seq<u8>)
    requires
        v is SetColourMapEntries,
        S2C::encoding(v) is Ok,
    ensures
        read_back(v, rest),
{
    let all = S2C::encoding(v)->Ok_0 + rest;
    let first_colour = v->first_colour;
    let colours = v->colours;
    let body = colours_bytes(colours);
    lemma_colours_round_trip(colours, rest);
    assert(all.skip(2) =~= u16_bytes(first_colour) + all.skip(4));
    lemma_u16_round_trip(first_colour, all.skip(4));
    assert(all.skip(4) =~= u16_bytes(colours.len() as u16) + (body + rest));
    lemma_u16_round_trip(colours.len() as u16, body + rest);
    assert(all.skip(6) =~= body + rest);
}

proof fn lemma_cut_text_read_back(v: S2CView, rest: Seq<u8>)
    requires
        v is CutText,
        S2C::encoding(v) is Ok,
    ensures
        read_back(v, rest),
{
    let all = S2C::encoding(v)->Ok_0 + rest;
    let text = v->CutText_0;
    let body = String::encoding(text)->Ok_0;
    assert(all.skip(4) =~= body + rest);
    String::lemma_decode_encoded(text, rest);
}

impl Message for S2C {
    open spec fn canonical(v: S2CView) -> bool {
        true
    }

    open spec fn encoding(v: S2CView) -> core::result::Result<Seq<u8>, Error> {
        match v {
            S2CView::FramebufferUpdate { count } => Ok(seq![0u8, 0u8] + u16_bytes(count)),
            S2CView::SetColourMapEntries { first_colour, colours } => if colours.len() > 0xFFFF {
                Err(Error::Unexpected("colour count"))
            } else {
                Ok(
                    seq![1u8, 0u8] + u16_bytes(first_colour) + u16_bytes(colours.len() as u16)
                        + colours_bytes(colours),
                )
            },
            S2CView::Bell => Ok(seq![2u8]),
            S2CView::CutText(text) => match String::encoding(text) {
                Err(e) => Err(e),
                Ok(body) => Ok(seq![3u8] + zeros(3) + body),
            },
        }
    }

    open spec fn decoding(bytes: Seq<u8>) -> core::result::Result<(S2CView, nat), (Error, nat)> {
        if bytes.len() == 0 {
            Err((Error::Disconnected, 0))
        } else if bytes[0] == 0 {
            if bytes.len() < 4 {
                Err((Error::Io(IoError::UnexpectedEof), 0))
            } else {
                Ok((S2CView::FramebufferUpdate { count: be_u16(bytes.skip(2)) }, 4))
            }
        } else if bytes[0] == 1 {
            if bytes.len() < 6 || bytes.len() < 6 + 6 * be_u16(bytes.skip(4)) {
                Err((Error::Io(IoError::UnexpectedEof), 0))
            } else {
                let count = be_u16(bytes.skip(4)) as nat;
                Ok(
                    (
                        S2CView::SetColourMapEntries {
                            first_colour: be_u16(bytes.skip(2)),
                            colours: colours_at(bytes.skip(6), count),
                        },
                        6 + 6 * count,
                    ),
                )
            }
        } else if bytes[0] == 2 {
            Ok((S2CView::Bell, 1))
        } else if bytes[0] == 3 {
            if bytes.len() < 4 {
                Err((Error::Io(IoError::UnexpectedEof), 0))
            } else {
                match String::decoding(bytes.skip(4)) {
                    Err(e) => Err(e),
                    Ok((text, n)) => Ok((S2CView::CutText(text), 4 + n)),
                }
            }
        } else {
            Err((Error::Unexpected("server to client message type"), 1))
        }
    }

    open spec fn legal(bytes: Seq<u8>) -> bool {
        if bytes.len() == 0 {
            true
        } else if bytes[0] == 0 || bytes[0] == 1 {
            bytes.len() >= 4 ==> bytes[1] == 0
        } else if bytes[0] == 3 {
            bytes.len() >= 4 ==> bytes[1] == 0 && bytes[2] == 0 && bytes[3] == 0
        } else {
            true
        }
    }

    proof fn lemma_decode_encoded(v: S2CView, rest: Seq<u8>) {
        match v {
            S2CView::FramebufferUpdate { .. } => lemma_update_read_back(v, rest),
            S2CView::SetColourMapEntries { .. } => lemma_colour_map_read_back(v, rest),
            S2CView::Bell => {},
            S2CView::CutText(_) => lemma_cut_text_read_back(v, rest),
        }
    }

    proof fn lemma_encode_decoded(bytes: Seq<u8>) {
        let (v, n) = Self::decoding(bytes)->Ok_0;
        match v {
            S2CView::FramebufferUpdate { count } => {
                lemma_u16_bytes_of_read(bytes.skip(2));
                if Self::legal(bytes) {
                    assert(Self::encoding(v)->Ok_0 =~= bytes.take(4));
                }
            },
            S2CView::SetColourMapEntries { first_colour, colours } => {
                let count = be_u16(bytes.skip(4)) as nat;
                lemma_u16_bytes_of_read(bytes.skip(2));
                lemma_u16_bytes_of_read(bytes.skip(4));
                lemma_colours_bytes_of_read(bytes.skip(6), count);
                assert(colours_bytes(colours).len() == 6 * count);
                if Self::legal(bytes) {
                    assert(Self::encoding(v)->Ok_0 =~= bytes.take(6 + 6 * count as int));
                }
            },
            S2CView::Bell => {
                assert(Self::encoding(v)->Ok_0 =~= bytes.take(1));
            },
            S2CView::CutText(text) => {
                String::lemma_encode_decoded(bytes.skip(4));
                let body = String::encoding(text)->Ok_0;
                if Self::legal(bytes) {
                    assert(body == bytes.skip(4).take(n - 4));
                    assert(Self::encoding(v)->Ok_0 =~= bytes.take(n as int));
                }
            },
        }
    }

    fn read_from(reader: &mut Reader) -> (r: Result<S2C>) {
        let ghost bytes = reader.remaining();
        let mut cursor = *reader;
        if cursor.available() == 0 {
            return Err(Error::Disconnected);
        }
        let message_type = cursor.read_u8()?;
        let message = match message_type {
            0 => {
                cursor.skip(1)?;
                assert(cursor.remaining() == bytes.skip(2));
                let count = cursor.read_u16()?;
                assert(cursor.remaining() == bytes.skip(4));
                S2C::FramebufferUpdate { count }
            },
            1 => {
                cursor.skip(1)?;
                assert(cursor.remaining() == bytes.skip(2));
                let first_colour = cursor.read_u16()?;
                assert(cursor.remaining() == bytes.skip(4));
                let count = cursor.read_u16()?;
                assert(cursor.remaining() == bytes.skip(6));
                let mut colours: Vec<Colour> = Vec::new();
                let mut i: u16 = 0;
                while i < count
                    invariant
                        i <= count,
                        bytes.len() >= 6 + 6 * i,
                        cursor.remaining() == bytes.skip(6 + 6 * i),
                        colours@ == colours_at(bytes.skip(6), i as nat),
                        *reader == *old(reader),
                        bytes == reader.remaining(),
                        bytes.len() >= 6,
                        bytes[0] == 1,
                        count == be_u16(bytes.skip(4)),
                    decreases count - i,
                {
                    assert(cursor.remaining() =~= bytes.skip(6).skip(6 * i));
                    let colour = Colour::read_from(&mut cursor)?;
                    colours.push(colour);
                    i = i + 1;
                    assert(colours@ =~= colours_at(bytes.skip(6), i as nat));
                }
                S2C::SetColourMapEntries { first_colour, colours }
            },
            2 => S2C::Bell,
            3 => {
                cursor.skip(3)?;
                assert(cursor.remaining() == bytes.skip(4));
                let text = String::read_from(&mut cursor)?;
                assert(cursor.remaining() == bytes.skip(
                    4 + String::decoding(bytes.skip(4))->Ok_0.1 as int,
                ));
                S2C::CutText(text)
            },
            _ => {
                *reader = cursor;
                return Err(Error::Unexpected("server to client message type"));
            },
        };
        *reader = cursor;
        Ok(message)
    }

    fn write_to(&self, writer: &mut Vec<u8>) -> (r: Result<()>) {
        match self {
            S2C::FramebufferUpdate { count } => {
                writer.push(0);
                put_zeros(writer, 1);
                put_u16(writer, *count);
            },
            S2C::SetColourMapEntries { first_colour, colours } => {
                if colours.len() > 0xFFFF {
                    return Err(Error::Unexpected("colour count"));
                }
                writer.push(1);
                put_zeros(writer, 1);
                put_u16(writer, *first_colour);
                put_u16(writer, colours.len() as u16);
                let ghost head = writer@;
                let mut i: usize = 0;
                while i < colours.len()
                    invariant
                        i <= colours@.len(),
                        writer@ == head + colours_bytes(colours@.take(i as int)),
                    decreases colours@.len() - i,
                {
                    let _ = colours[i].write_to(writer);
                    i = i + 1;
                    proof {
                        let done = colours@.take(i - 1);
                        lemma_colours_bytes_push(done, colours@[i - 1]);
                        assert(colours@.take(i as int) =~= done.push(colours@[i - 1]));
                    }
                }
                assert(colours@.take(i as int) =~= colours@);
            },
            S2C::Bell => {
                writer.push(2);
            },
            S2C::CutText(text) => {
                let mut body: Vec<u8> = Vec::new();
                text.write_to(&mut body)?;
                writer.push(3);
                put_zeros(writer, 3);
                put_bytes(writer, body.as_slice());
            },
        }
        assert(writer@ =~= old(writer)@ + Self::encoding(self@)->Ok_0);
        Ok(())
    }
}

/// A first byte that names no message is an error that takes that byte and
/// no more; every other first byte is none.
pub proof fn lemma_unknown_type_takes_one(bytes: Seq<u8>)
    requires
        bytes.len() >= 1,
    ensures
        S2C::decoding(bytes) == Err::<(S2CView, nat), (Error, nat)>(
            (Error::Unexpected("server to client message type"), 1),
        ) <==> bytes[0] > 3,
{
}

/// A server that closes the stream between two messages has disconnected:
/// reading from a source with nothing left gives `Disconnected`, and takes
/// nothing.
pub proof fn lemma_empty_is_disconnected()
    ensures
        S2C::decoding(Seq::<u8>::empty()) == Err::<(S2CView, nat), (Error, nat)>(
            (Error::Disconnected, 0),
        ),
{
}

/// A message that breaks off is an I/O failure: reading from a source that
/// holds some but not all of the bytes of a message gives `Io`, and takes
/// nothing.
pub proof fn lemma_truncated_is_io(v: S2CView, k: int)
    requires
        S2C::encoding(v) is Ok,
        0 < k < S2C::encoding(v)->Ok_0.len(),
    ensures
        S2C::decoding(S2C::encoding(v)->Ok_0.take(k)) == Err::<(S2CView, nat), (Error, nat)>(
            (Error::Io(IoError::UnexpectedEof), 0),
        ),
{
    let w = S2C::encoding(v)->Ok_0;
    let cut = w.take(k);
    assert(cut[0] == w[0]);
    match v {
        S2CView::SetColourMapEntries { first_colour, colours } => {
            let body = colours_bytes(colours);
            if k >= 6 {
                assert(cut.skip(4) =~= u16_bytes(colours.len() as u16) + cut.skip(6));
                lemma_u16_round_trip(colours.len() as u16, cut.skip(6));
                assert(body.len() == 6 * colours.len());
            }
        },
        S2CView::CutText(text) => {
            let body = String::encoding(text)->Ok_0;
            if k >= 4 {
                assert(cut.skip(4) =~= body.take(k - 4));
                if k >= 8 {
                    assert(body.take(k - 4) =~= u32_bytes(text.len() as u32) + body.take(
                        k - 4,
                    ).skip(4));
                    lemma_u32_round_trip(text.len() as u32, body.take(k - 4).skip(4));
                }
            }
        },
        _ => {},
    }
}

} // verus!
