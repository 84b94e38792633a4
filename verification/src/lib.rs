//! Remote Framebuffer (RFB/VNC) protocol core: the wire codec for every
//! handshake, client-to-server and server-to-client message, the handshake
//! state machine, the framebuffer-update builder and the ZRLE tile codec.
//!
//! Everything here works on bytes held in memory. A message is written by
//! appending its wire form to a `Vec<u8>` and read from a [`Reader`] over a
//! byte slice; moving those bytes over a transport is the embedder's business.
use vstd::prelude::*;

pub mod client;
pub mod protocol;
pub mod security;
pub mod server;
pub mod session;
pub mod wire;
pub mod zrle;

pub use protocol::{Colour, Encoding, PixelFormat, Rect};
pub use wire::Reader;

verus! {

/// Why a byte source or a compressed stream gave out.
#[derive(Debug, Clone, Copy, PartialEq, Eq)]
pub enum IoError {
    /// The bytes ended in the middle of a message.
    UnexpectedEof,
    /// A compressed stream was not valid.
    InvalidData,
}

/// The ways a session can fail.
#[derive(Debug, PartialEq, Eq)]
pub enum Error {
    /// The byte channel failed; the session cannot go on.
    Io(IoError),
    /// The peer broke the framing rules; the text names the offending field.
    Unexpected(&'static str),
    /// The server refused the connection and said why.
    Server(String),
    /// Client and server share no security type.
    AuthenticationUnavailable,
    /// The server rejected the credentials and, possibly, said why.
    AuthenticationFailure(String),
    /// The peer closed the stream between two messages.
    Disconnected,
}

pub type Result<T> = core::result::Result<T, Error>;

impl IoError {
    /// What the failure is called when it is shown to a person.
    pub open spec fn text(self) -> Seq<char> {
        match self {
            IoError::UnexpectedEof => "failed to fill whole buffer"@,
            IoError::InvalidData => "deflate decompression error"@,
        }
    }
}

impl Error {
    /// What the error is called when it is shown to a person.
    pub open spec fn text(self) -> Seq<char> {
        match self {
            Error::Io(inner) => inner.text(),
            Error::Unexpected(what) => "unexpected "@ + what@,
            Error::Server(reason) => "server error: "@ + reason@,
            Error::AuthenticationUnavailable => "authentication unavailable"@,
            Error::AuthenticationFailure(reason) => "authentication failure: "@ + reason@,
            Error::Disconnected => "disconnected"@,
        }
    }

    /// The error as a line of text for a person to read.
    pub fn message(&self) -> (text: String)
        ensures
            text@ == self.text(),
    {
        match self {
            Error::Io(IoError::UnexpectedEof) => String::from_str("failed to fill whole buffer"),
            Error::Io(IoError::InvalidData) => String::from_str("deflate decompression error"),
            Error::Unexpected(what) => String::from_str("unexpected ").concat(what),
            Error::Server(reason) => String::from_str("server error: ").concat(reason.as_str()),
            Error::AuthenticationUnavailable => String::from_str("authentication unavailable"),
            Error::AuthenticationFailure(reason) => String::from_str(
                "authentication failure: ",
            ).concat(reason.as_str()),
            Error::Disconnected => String::from_str("disconnected"),
        }
    }

    /// The failure of the byte channel that lies under the error, if one does.
    pub fn cause(&self) -> (inner: Option<IoError>)
        ensures
            inner == (match *self {
                Error::Io(e) => Some(e),
                _ => None,
            }),
    {
        match self {
            Error::Io(inner) => Some(*inner),
            _ => None,
        }
    }
}

impl From<IoError> for Error {
    fn from(error: IoError) -> (e: Error) {
        Error::Io(error)
    }
}

impl vstd::std_specs::convert::FromSpecImpl<IoError> for Error {
    open spec fn obeys_from_spec() -> bool {
        true
    }

    open spec fn from_spec(error: IoError) -> Error {
        Error::Io(error)
    }
}

} // verus!
