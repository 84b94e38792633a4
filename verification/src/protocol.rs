//! The message codec: every message of the protocol, its wire form and the
//! two operations that move it to and from bytes.
use vstd::prelude::*;
use crate::wire::Reader;
use crate::{Error, Result};

pub mod primitive;
pub mod pixel;
pub mod encoding;
pub mod handshake;
pub mod c2s;
pub mod s2c;

pub use pixel::{Colour, CopyRect, PixelFormat, Rect};
pub use c2s::C2S;
pub use s2c::S2C;
pub use encoding::{Encoding, Rectangle};
pub use handshake::{AppleAuthHandshake, AppleAuthResponse, ClientInit, SecurityResult, SecurityType, SecurityTypes, ServerInit, Version};

verus! {

/// A value with a wire form.
///
/// `encoding` and `decoding` say, over the mathematical view of the value,
/// which bytes stand for it and what a reader makes of given bytes;
/// `write_to` and `read_from` are held to them.
pub trait Message: Sized + View {
    /// Whether `v` is a value of the data model: one that reading can give.
    spec fn canonical(v: Self::V) -> bool;

    /// The bytes that stand for `v`, or the error that writing `v` gives when
    /// it has no wire form.
    spec fn encoding(v: Self::V) -> core::result::Result<Seq<u8>, Error>;

    /// What reading from a source that holds `bytes` gives: the value and the
    /// number of bytes taken for it, or the error and the number of bytes
    /// taken before the fault was seen. Bytes that break off are an error
    /// that takes nothing, so that reading can be tried again with more.
    spec fn decoding(bytes: Seq<u8>) -> core::result::Result<(Self::V, nat), (Error, nat)>;

    /// Whether the message at the head of `bytes` is laid out to the letter:
    /// every padding byte zero, every flag 0 or 1, every text the canonical
    /// one. Reading accepts more than that; writing produces nothing else.
    spec fn legal(bytes: Seq<u8>) -> bool;

    /// Reading what was written gives back the value written and takes
    /// exactly the bytes written, whatever follows them; and what was written
    /// is laid out to the letter.
    proof fn lemma_decode_encoded(v: Self::V, rest: Seq<u8>)
        requires
            Self::canonical(v),
            Self::encoding(v) is Ok,
        ensures
            Self::decoding(Self::encoding(v)->Ok_0 + rest) == Ok::<(Self::V, nat), (Error, nat)>(
                (v, Self::encoding(v)->Ok_0.len()),
            ),
            Self::legal(Self::encoding(v)->Ok_0 + rest),
    ;

    /// What was read is a value of the data model and can be written;
    /// writing it gives as many bytes as were read, and the very bytes read
    /// where those were laid out to the letter.
    proof fn lemma_encode_decoded(bytes: Seq<u8>)
        requires
            Self::decoding(bytes) is Ok,
        ensures
            Self::canonical(Self::decoding(bytes)->Ok_0.0),
            Self::encoding(Self::decoding(bytes)->Ok_0.0) is Ok,
            Self::decoding(bytes)->Ok_0.1 <= bytes.len(),
            Self::encoding(Self::decoding(bytes)->Ok_0.0)->Ok_0.len() == Self::decoding(
                bytes,
            )->Ok_0.1,
            Self::legal(bytes) ==> Self::encoding(Self::decoding(bytes)->Ok_0.0)->Ok_0
                == bytes.take(Self::decoding(bytes)->Ok_0.1 as int),
    ;

    /// Reads one value. On success the cursor has moved past exactly the
    /// bytes of the value. On failure it has moved past the bytes that were
    /// read to see the fault: none where the bytes break off or the source
    /// is at its end.
    fn read_from(reader: &mut Reader) -> (r: Result<Self>)
        ensures
            match Self::decoding(old(reader).remaining()) {
                Ok((v, n)) => r is Ok && r->Ok_0@ == v && final(reader).remaining() == old(reader).remaining().skip(n as int),
                Err((e, n)) => r == Err::<Self, Error>(e) && final(reader).remaining() == old(reader).remaining().skip(n as int),
            },
    ;

    /// Appends the wire form of the value to `writer`, or fails and leaves
    /// `writer` as it was.
    fn write_to(&self, writer: &mut Vec<u8>) -> (r: Result<()>)
        ensures
            match Self::encoding(self@) {
                Ok(w) => r is Ok && final(writer)@ == old(writer)@ + w,
                Err(e) => r == Err::<(), Error>(e) && final(writer)@ == old(writer)@,
            },
    ;
}

/// A legal byte sequence, one that is the wire form of a value of the data
/// model, is read in full and as a value whose wire form it is: writing what
/// was read gives the bytes read, byte for byte.
pub proof fn lemma_legal_bytes_survive<M: Message>(v: M::V, bytes: Seq<u8>)
    requires
        M::canonical(v),
        M::encoding(v) == Ok::<Seq<u8>, Error>(bytes),
    ensures
        M::decoding(bytes) is Ok,
        M::decoding(bytes)->Ok_0.1 == bytes.len(),
        M::encoding(M::decoding(bytes)->Ok_0.0) == Ok::<Seq<u8>, Error>(bytes),
{
    M::lemma_decode_encoded(v, Seq::empty());
    assert(bytes + Seq::<u8>::empty() =~= bytes);
}

} // verus!
