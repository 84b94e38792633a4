//! The messages of the handshake: version, security and initialisation.
use vstd::prelude::*;
use crate::protocol::Message;
use crate::protocol::pixel::PixelFormat;
use crate::wire::{be_u16, be_u32, u16_bytes, u32_bytes, flag_byte, put_u16, put_u32, put_bytes, put_flag, lemma_u16_round_trip, lemma_u16_bytes_of_read, lemma_u32_round_trip, lemma_u32_bytes_of_read, Reader};
use crate::{Error, IoError, Result};

verus! {

/// The protocol versions that this library speaks.
#[derive(Debug, Clone, Copy, PartialEq, Eq)]
pub enum Version {
    Rfb33,
    Rfb37,
    Rfb38,
}

impl View for Version {
    type V = Version;

    open spec fn view(&self) -> Version {
        *self
    }
}

/// The twelve bytes `RFB 003.` followed by three digits and a line feed.
pub open spec fn version_text(d0: u8, d1: u8, d2: u8) -> Seq<u8> {
    seq![0x52, 0x46, 0x42, 0x20, 0x30, 0x30, 0x33, 0x2e, d0, d1, d2, 0x0a]
}

/// `RFB 003.889` and a line feed: what Apple Remote Desktop announces. It is
/// read as version 3.8 and never written.
pub open spec fn apple_version_text() -> Seq<u8> {
    version_text(0x38, 0x38, 0x39)
}

impl Version {
    /// The twelve bytes that announce the version.
    pub open spec fn text(self) -> Seq<u8> {
        match self {
            Version::Rfb33 => version_text(0x30, 0x30, 0x33),
            Version::Rfb37 => version_text(0x30, 0x30, 0x37),
            Version::Rfb38 => version_text(0x30, 0x30, 0x38),
        }
    }
}

impl Message for Version {
    open spec fn canonical(v: Version) -> bool {
        true
    }

    open spec fn encoding(v: Version) -> core::result::Result<Seq<u8>, Error> {
        Ok(v.text())
    }

    open spec fn decoding(bytes: Seq<u8>) -> core::result::Result<(Version, nat), (Error, nat)> {
        if bytes.len() < 12 {
            Err((Error::Io(IoError::UnexpectedEof), 0))
        } else if bytes.take(12) == Version::Rfb33.text() {
            Ok((Version::Rfb33, 12))
        } else if bytes.take(12) == Version::Rfb37.text() {
            Ok((Version::Rfb37, 12))
        } else if bytes.take(12) == Version::Rfb38.text() || bytes.take(12)
            == apple_version_text() {
            Ok((Version::Rfb38, 12))
        } else {
            Err((Error::Unexpected("protocol version"), 12))
        }
    }

    open spec fn legal(bytes: Seq<u8>) -> bool {
        bytes.take(12) != apple_version_text()
    }

    proof fn lemma_decode_encoded(v: Version, rest: Seq<u8>) {
        assert((v.text() + rest).take(12) =~= v.text());
        assert(Version::Rfb37.text()[10] != Version::Rfb33.text()[10]);
        assert(Version::Rfb38.text()[10] != Version::Rfb33.text()[10]);
        assert(Version::Rfb38.text()[10] != Version::Rfb37.text()[10]);
        assert(apple_version_text()[8] != v.text()[8]);
    }

    proof fn lemma_encode_decoded(bytes: Seq<u8>) {
    }

    fn read_from(reader: &mut Reader) -> (r: Result<Version>) {
        let ghost bytes = reader.remaining();
        let mut cursor = *reader;
        let buf = cursor.read_bytes(12)?;
        if !(buf[0] == 0x52 && buf[1] == 0x46 && buf[2] == 0x42 && buf[3] == 0x20 && buf[4] == 0x30
            && buf[5] == 0x30 && buf[6] == 0x33 && buf[7] == 0x2e && buf[11] == 0x0a) {
            assert(buf@ != version_text(0x30, 0x30, 0x33) && buf@ != version_text(0x30, 0x30, 0x37)
                && buf@ != version_text(0x30, 0x30, 0x38) && buf@ != version_text(
                0x38,
                0x38,
                0x39,
            )) by {
                let t = version_text(0, 0, 0);
                assert(buf@[0] != t[0] || buf@[1] != t[1] || buf@[2] != t[2] || buf@[3] != t[3]
                    || buf@[4] != t[4] || buf@[5] != t[5] || buf@[6] != t[6] || buf@[7] != t[7]
                    || buf@[11] != t[11]);
            }
            *reader = cursor;
            return Err(Error::Unexpected("protocol version"));
        }
        assert(buf@ =~= version_text(buf@[8], buf@[9], buf@[10]));
        let version = if buf[8] == 0x30 && buf[9] == 0x30 && buf[10] == 0x33 {
            Version::Rfb33
        } else if buf[8] == 0x30 && buf[9] == 0x30 && buf[10] == 0x37 {
            Version::Rfb37
        } else if buf[8] == 0x30 && buf[9] == 0x30 && buf[10] == 0x38 {
            Version::Rfb38
        } else if buf[8] == 0x38 && buf[9] == 0x38 && buf[10] == 0x39 {
            Version::Rfb38
        } else {
            assert(buf@ != version_text(0x30, 0x30, 0x33) && buf@ != version_text(0x30, 0x30, 0x37)
                && buf@ != version_text(0x30, 0x30, 0x38) && buf@ != version_text(
                0x38,
                0x38,
                0x39,
            )) by {
                let t33 = version_text(0x30, 0x30, 0x33);
                let t37 = version_text(0x30, 0x30, 0x37);
                let t38 = version_text(0x30, 0x30, 0x38);
                let t889 = version_text(0x38, 0x38, 0x39);
                assert(buf@[8] != t33[8] || buf@[9] != t33[9] || buf@[10] != t33[10]);
                assert(buf@[8] != t37[8] || buf@[9] != t37[9] || buf@[10] != t37[10]);
                assert(buf@[8] != t38[8] || buf@[9] != t38[9] || buf@[10] != t38[10]);
                assert(buf@[8] != t889[8] || buf@[9] != t889[9] || buf@[10] != t889[10]);
            }
            *reader = cursor;
            return Err(Error::Unexpected("protocol version"));
        };
        *reader = cursor;
        Ok(version)
    }

    fn write_to(&self, writer: &mut Vec<u8>) -> (r: Result<()>) {
        let last: u8 = match self {
            Version::Rfb33 => 0x33,
            Version::Rfb37 => 0x37,
            Version::Rfb38 => 0x38,
        };
        let text: [u8; 12] = [0x52, 0x46, 0x42, 0x20, 0x30, 0x30, 0x33, 0x2e, 0x30, 0x30, last, 0x0a];
        assert(text@ =~= self.text());
        put_bytes(writer, text.as_slice());
        Ok(())
    }
}

/// Where twelve bytes are there, reading a version takes twelve, whether
/// they are read as a version or not; and they are not just when they are
/// none of the four texts that are known.
pub proof fn lemma_version_takes_twelve(bytes: Seq<u8>)
    requires
        bytes.len() >= 12,
    ensures
        Version::decoding(bytes) is Ok ==> Version::decoding(bytes)->Ok_0.1 == 12,
        Version::decoding(bytes) is Err ==> Version::decoding(bytes) == Err::<
            (Version, nat),
            (Error, nat),
        >((Error::Unexpected("protocol version"), 12)),
        Version::decoding(bytes) is Err <==> bytes.take(12) != Version::Rfb33.text() && bytes.take(
            12,
        ) != Version::Rfb37.text() && bytes.take(12) != Version::Rfb38.text() && bytes.take(12)
            != apple_version_text(),
{
}

/// A way of authenticating the client.
#[derive(Debug, Clone, Copy, PartialEq, Eq)]
pub enum SecurityType {
    /// A type that this library does not know, kept as it came.
    Unknown(u8),
    Invalid,
    /// No authentication: the connection is open to anyone.
    NoAuthentication,
    VncAuthentication,
    AppleRemoteDesktop,
}

impl View for SecurityType {
    type V = SecurityType;

    open spec fn view(&self) -> SecurityType {
        *self
    }
}

impl SecurityType {
    /// The byte that stands for the security type on the wire.
    pub open spec fn code(self) -> u8 {
        match self {
            SecurityType::Invalid => 0,
            SecurityType::NoAuthentication => 1,
            SecurityType::VncAuthentication => 2,
            SecurityType::AppleRemoteDesktop => 30,
            SecurityType::Unknown(n) => n,
        }
    }

    /// The security type that a byte stands for.
    pub open spec fn of_code(n: u8) -> SecurityType {
        if n == 0 {
            SecurityType::Invalid
        } else if n == 1 {
            SecurityType::NoAuthentication
        } else if n == 2 {
            SecurityType::VncAuthentication
        } else if n == 30 {
            SecurityType::AppleRemoteDesktop
        } else {
            SecurityType::Unknown(n)
        }
    }
}

impl Message for SecurityType {
    /// A security type is canonical when it is the one its own byte stands
    /// for: `Unknown` holds no byte that has a name.
    open spec fn canonical(v: SecurityType) -> bool {
        SecurityType::of_code(v.code()) == v
    }

    open spec fn encoding(v: SecurityType) -> core::result::Result<Seq<u8>, Error> {
        Ok(seq![v.code()])
    }

    open spec fn decoding(bytes: Seq<u8>) -> core::result::Result<(SecurityType, nat), (Error, nat)> {
        if bytes.len() < 1 {
            Err((Error::Io(IoError::UnexpectedEof), 0))
        } else {
            Ok((SecurityType::of_code(bytes[0]), 1))
        }
    }

    open spec fn legal(bytes: Seq<u8>) -> bool {
        true
    }

    proof fn lemma_decode_encoded(v: SecurityType, rest: Seq<u8>) {
    }

    proof fn lemma_encode_decoded(bytes: Seq<u8>) {
        assert(seq![bytes[0]] =~= bytes.take(1));
    }

    fn read_from(reader: &mut Reader) -> (r: Result<SecurityType>) {
        let mut cursor = *reader;
        let security_type = cursor.read_u8()?;
        *reader = cursor;
        Ok(
            match security_type {
                0 => SecurityType::Invalid,
                1 => SecurityType::NoAuthentication,
                2 => SecurityType::VncAuthentication,
                30 => SecurityType::AppleRemoteDesktop,
                n => SecurityType::Unknown(n),
            },
        )
    }

    fn write_to(&self, writer: &mut Vec<u8>) -> (r: Result<()>) {
        let security_type: u8 = match self {
            SecurityType::Invalid => 0,
            SecurityType::NoAuthentication => 1,
            SecurityType::VncAuthentication => 2,
            SecurityType::AppleRemoteDesktop => 30,
            SecurityType::Unknown(n) => *n,
        };
        writer.push(security_type);
        assert(writer@ =~= old(writer)@ + seq![security_type]);
        Ok(())
    }
}

/// The security types that a server offers, in its order of preference. An
/// empty list means that the server refuses the connection.
#[derive(Debug, PartialEq, Eq)]
pub struct SecurityTypes(pub Vec<SecurityType>);

impl View for SecurityTypes {
    type V = Seq<SecurityType>;

    open spec fn view(&self) -> Seq<SecurityType> {
        self.0@
    }
}

impl Message for SecurityTypes {
    open spec fn canonical(v: Seq<SecurityType>) -> bool {
        forall|i: int| 0 <= i < v.len() ==> SecurityType::canonical(#[trigger] v[i])
    }

    open spec fn encoding(v: Seq<SecurityType>) -> core::result::Result<Seq<u8>, Error> {
        if v.len() > 0xFF {
            Err(Error::Unexpected("security type count"))
        } else {
            Ok(seq![v.len() as u8] + Seq::new(v.len(), |i: int| v[i].code()))
        }
    }

    open spec fn decoding(bytes: Seq<u8>) -> core::result::Result<
        (Seq<SecurityType>, nat), (Error, nat)> {
        if bytes.len() < 1 || bytes.len() < 1 + bytes[0] {
            Err((Error::Io(IoError::UnexpectedEof), 0))
        } else {
            Ok(
                (
                    Seq::new(bytes[0] as nat, |i: int| SecurityType::of_code(bytes[1 + i])),
                    (1 + bytes[0]) as nat,
                ),
            )
        }
    }

    open spec fn legal(bytes: Seq<u8>) -> bool {
        true
    }

    proof fn lemma_decode_encoded(v: Seq<SecurityType>, rest: Seq<u8>) {
        let w = Self::encoding(v)->Ok_0;
        let got = Self::decoding(w + rest)->Ok_0.0;
        assert forall|i: int| 0 <= i < v.len() implies got[i] == v[i] by {
            assert(SecurityType::canonical(v[i]));
            assert((w + rest)[1 + i] == v[i].code());
        }
        assert(got =~= v);
    }

    proof fn lemma_encode_decoded(bytes: Seq<u8>) {
        let v = Self::decoding(bytes)->Ok_0.0;
        assert(Self::encoding(v)->Ok_0 =~= bytes.take(1 + bytes[0]));
    }

    fn read_from(reader: &mut Reader) -> (r: Result<SecurityTypes>) {
        let ghost bytes = reader.remaining();
        let mut cursor = *reader;
        let count = cursor.read_u8()?;
        let mut security_types: Vec<SecurityType> = Vec::new();
        let mut i: u8 = 0;
        while i < count
            invariant
                i <= count,
                bytes.len() >= 1,
                count == bytes[0],
                cursor.remaining() == bytes.skip(1 + i),
                bytes.len() >= 1 + i,
                security_types@ == Seq::new(i as nat, |k: int| SecurityType::of_code(bytes[1 + k])),
                *reader == *old(reader),
                bytes == reader.remaining(),
            decreases count - i,
        {
            let security_type = SecurityType::read_from(&mut cursor)?;
            security_types.push(security_type);
            i = i + 1;
            assert(security_types@ =~= Seq::new(
                i as nat,
                |k: int| SecurityType::of_code(bytes[1 + k]),
            ));
        }
        *reader = cursor;
        Ok(SecurityTypes(security_types))
    }

    fn write_to(&self, writer: &mut Vec<u8>) -> (r: Result<()>) {
        if self.0.len() > 0xFF {
            return Err(Error::Unexpected("security type count"));
        }
        let ghost v = self@;
        writer.push(self.0.len() as u8);
        let mut i: usize = 0;
        while i < self.0.len()
            invariant
                i <= v.len(),
                v == self.0@,
                writer@ == old(writer)@ + seq![v.len() as u8] + Seq::new(
                    i as nat,
                    |k: int| v[k].code(),
                ),
            decreases v.len() - i,
        {
            let _ = self.0[i].write_to(writer);
            i = i + 1;
            assert(writer@ =~= old(writer)@ + seq![v.len() as u8] + Seq::new(
                i as nat,
                |k: int| v[k].code(),
            ));
        }
        assert(writer@ =~= old(writer)@ + Self::encoding(v)->Ok_0);
        Ok(())
    }
}

/// The outcome of the security handshake.
#[derive(Debug, Clone, Copy, PartialEq, Eq)]
pub enum SecurityResult {
    Succeeded,
    Failed,
}

impl View for SecurityResult {
    type V = SecurityResult;

    open spec fn view(&self) -> SecurityResult {
        *self
    }
}

impl SecurityResult {
    /// The number that stands for the result on the wire.
    pub open spec fn code(self) -> u32 {
        match self {
            SecurityResult::Succeeded => 0,
            SecurityResult::Failed => 1,
        }
    }
}

impl Message for SecurityResult {
    open spec fn canonical(v: SecurityResult) -> bool {
        true
    }

    open spec fn encoding(v: SecurityResult) -> core::result::Result<Seq<u8>, Error> {
        Ok(u32_bytes(v.code()))
    }

    open spec fn decoding(bytes: Seq<u8>) -> core::result::Result<(SecurityResult, nat), (Error, nat)> {
        if bytes.len() < 4 {
            Err((Error::Io(IoError::UnexpectedEof), 0))
        } else if be_u32(bytes) == 0 {
            Ok((SecurityResult::Succeeded, 4))
        } else if be_u32(bytes) == 1 {
            Ok((SecurityResult::Failed, 4))
        } else {
            Err((Error::Unexpected("security result"), 4))
        }
    }

    open spec fn legal(bytes: Seq<u8>) -> bool {
        true
    }

    proof fn lemma_decode_encoded(v: SecurityResult, rest: Seq<u8>) {
        lemma_u32_round_trip(v.code(), rest);
    }

    proof fn lemma_encode_decoded(bytes: Seq<u8>) {
        lemma_u32_bytes_of_read(bytes);
    }

    fn read_from(reader: &mut Reader) -> (r: Result<SecurityResult>) {
        let mut cursor = *reader;
        let result = cursor.read_u32()?;
        match result {
            0 => {
                *reader = cursor;
                Ok(SecurityResult::Succeeded)
            },
            1 => {
                *reader = cursor;
                Ok(SecurityResult::Failed)
            },
            _ => {
                *reader = cursor;
                Err(Error::Unexpected("security result"))
            },
        }
    }

    fn write_to(&self, writer: &mut Vec<u8>) -> (r: Result<()>) {
        let result: u32 = match self {
            SecurityResult::Succeeded => 0,
            SecurityResult::Failed => 1,
        };
        put_u32(writer, result);
        Ok(())
    }
}

/// Where four bytes are there, reading a security result takes four,
/// whether they are read as a result or not; and they are not just when
/// the number they spell is neither 0 nor 1.
pub proof fn lemma_security_result_takes_four(bytes: Seq<u8>)
    requires
        bytes.len() >= 4,
    ensures
        SecurityResult::decoding(bytes) is Ok ==> SecurityResult::decoding(bytes)->Ok_0.1 == 4,
        SecurityResult::decoding(bytes) is Err ==> SecurityResult::decoding(bytes) == Err::<
            (SecurityResult, nat),
            (Error, nat),
        >((Error::Unexpected("security result"), 4)),
        SecurityResult::decoding(bytes) is Err <==> be_u32(bytes) > 1,
{
}

/// What the client tells the server once security is settled.
#[derive(Debug, Clone, Copy, PartialEq, Eq)]
pub struct ClientInit {
    /// Whether other clients may stay connected.
    pub shared: bool,
}

impl View for ClientInit {
    type V = ClientInit;

    open spec fn view(&self) -> ClientInit {
        *self
    }
}

impl Message for ClientInit {
    open spec fn canonical(v: ClientInit) -> bool {
        true
    }

    open spec fn encoding(v: ClientInit) -> core::result::Result<Seq<u8>, Error> {
        Ok(seq![flag_byte(v.shared)])
    }

    open spec fn decoding(bytes: Seq<u8>) -> core::result::Result<(ClientInit, nat), (Error, nat)> {
        if bytes.len() < 1 {
            Err((Error::Io(IoError::UnexpectedEof), 0))
        } else {
            Ok((ClientInit { shared: bytes[0] != 0 }, 1))
        }
    }

    open spec fn legal(bytes: Seq<u8>) -> bool {
        bytes.len() >= 1 ==> bytes[0] <= 1
    }

    proof fn lemma_decode_encoded(v: ClientInit, rest: Seq<u8>) {
    }

    proof fn lemma_encode_decoded(bytes: Seq<u8>) {
        if Self::legal(bytes) {
            assert(seq![flag_byte(bytes[0] != 0)] =~= bytes.take(1));
        }
    }

    fn read_from(reader: &mut Reader) -> (r: Result<ClientInit>) {
        let mut cursor = *reader;
        let shared = cursor.read_u8()? != 0;
        *reader = cursor;
        Ok(ClientInit { shared })
    }

    fn write_to(&self, writer: &mut Vec<u8>) -> (r: Result<()>) {
        put_flag(writer, self.shared);
        assert(writer@ =~= old(writer)@ + seq![flag_byte(self.shared)]);
        Ok(())
    }
}

/// What the server sends to open Apple Remote Desktop authentication: a
/// Diffie-Hellman generator, prime and public key. Prime and key have one
/// length, which the wire form states once.
#[derive(Debug, PartialEq, Eq)]
pub struct AppleAuthHandshake {
    pub generator: u16,
    pub prime: Vec<u8>,
    pub peer_key: Vec<u8>,
}

/// The mathematical view of an [`AppleAuthHandshake`].
pub ghost struct AppleAuthHandshakeView {
    pub generator: u16,
    pub prime: Seq<u8>,
    pub peer_key: Seq<u8>,
}

impl View for AppleAuthHandshake {
    type V = AppleAuthHandshakeView;

    open spec fn view(&self) -> AppleAuthHandshakeView {
        AppleAuthHandshakeView {
            generator: self.generator,
            prime: self.prime@,
            peer_key: self.peer_key@,
        }
    }
}

impl Message for AppleAuthHandshake {
    open spec fn canonical(v: AppleAuthHandshakeView) -> bool {
        true
    }

    open spec fn encoding(v: AppleAuthHandshakeView) -> core::result::Result<Seq<u8>, Error> {
        if v.prime.len() != v.peer_key.len() || v.prime.len() > 0xFFFF {
            Err(Error::Unexpected("Apple authentication key length"))
        } else {
            Ok(u16_bytes(v.generator) + u16_bytes(v.prime.len() as u16) + v.prime + v.peer_key)
        }
    }

    open spec fn decoding(bytes: Seq<u8>) -> core::result::Result<
        (AppleAuthHandshakeView, nat), (Error, nat)> {
        if bytes.len() < 4 || bytes.len() < 4 + 2 * be_u16(bytes.skip(2)) {
            Err((Error::Io(IoError::UnexpectedEof), 0))
        } else {
            let key_length = be_u16(bytes.skip(2)) as int;
            Ok(
                (
                    AppleAuthHandshakeView {
                        generator: be_u16(bytes),
                        prime: bytes.subrange(4, 4 + key_length),
                        peer_key: bytes.subrange(4 + key_length, 4 + 2 * key_length),
                    },
                    (4 + 2 * key_length) as nat,
                ),
            )
        }
    }

    open spec fn legal(bytes: Seq<u8>) -> bool {
        true
    }

    proof fn lemma_decode_encoded(v: AppleAuthHandshakeView, rest: Seq<u8>) {
        let w = Self::encoding(v)->Ok_0;
        let k = v.prime.len() as int;
        assert((w + rest) =~= u16_bytes(v.generator) + (w + rest).skip(2));
        lemma_u16_round_trip(v.generator, (w + rest).skip(2));
        assert((w + rest).skip(2) =~= u16_bytes(k as u16) + (w + rest).skip(4));
        lemma_u16_round_trip(k as u16, (w + rest).skip(4));
        assert((w + rest).subrange(4, 4 + k) =~= v.prime);
        assert((w + rest).subrange(4 + k, 4 + 2 * k) =~= v.peer_key);
    }

    proof fn lemma_encode_decoded(bytes: Seq<u8>) {
        let v = Self::decoding(bytes)->Ok_0.0;
        let k = be_u16(bytes.skip(2)) as int;
        lemma_u16_bytes_of_read(bytes);
        lemma_u16_bytes_of_read(bytes.skip(2));
        assert(Self::encoding(v)->Ok_0 =~= bytes.take(4 + 2 * k));
    }

    fn read_from(reader: &mut Reader) -> (r: Result<AppleAuthHandshake>) {
        let ghost bytes = reader.remaining();
        let mut cursor = *reader;
        let generator = cursor.read_u16()?;
        assert(cursor.remaining() == bytes.skip(2));
        let key_length = cursor.read_u16()?;
        assert(cursor.remaining() == bytes.skip(4));
        let prime = cursor.read_bytes(key_length as usize)?;
        assert(prime@ =~= bytes.subrange(4, 4 + key_length));
        assert(cursor.remaining() == bytes.skip(4 + key_length));
        let peer_key = cursor.read_bytes(key_length as usize)?;
        assert(peer_key@ =~= bytes.subrange(4 + key_length, 4 + 2 * key_length));
        assert(cursor.remaining() == bytes.skip(4 + 2 * key_length));
        *reader = cursor;
        Ok(AppleAuthHandshake { generator, prime, peer_key })
    }

    fn write_to(&self, writer: &mut Vec<u8>) -> (r: Result<()>) {
        if self.prime.len() != self.peer_key.len() || self.prime.len() > 0xFFFF {
            return Err(Error::Unexpected("Apple authentication key length"));
        }
        put_u16(writer, self.generator);
        put_u16(writer, self.prime.len() as u16);
        put_bytes(writer, self.prime.as_slice());
        put_bytes(writer, self.peer_key.as_slice());
        assert(writer@ =~= old(writer)@ + Self::encoding(self@)->Ok_0);
        Ok(())
    }
}

/// What the client answers in Apple Remote Desktop authentication: its
/// encrypted credentials and its own public key, which is as long as the
/// key that the server sent.
#[derive(Debug, PartialEq, Eq)]
pub struct AppleAuthResponse {
    pub ciphertext: [u8; 128],
    pub pub_key: Vec<u8>,
}

impl AppleAuthResponse {
    /// The bytes that stand for the response: the ciphertext, then the key.
    /// Nothing on the wire says how long the key is.
    pub open spec fn wire(&self) -> Seq<u8> {
        self.ciphertext@ + self.pub_key@
    }

    /// Reads a response whose public key is `key_length` bytes long, the
    /// length that the server's handshake message gave. On success the
    /// cursor has moved past exactly the bytes of the response; on failure,
    /// which is when fewer bytes are left, it has not moved.
    pub fn read_from(reader: &mut Reader, key_length: u16) -> (r: Result<AppleAuthResponse>)
        ensures
            old(reader).remaining().len() >= 128 + key_length ==> r is Ok && r->Ok_0.wire() == old(reader).remaining().take(128 + key_length) && r->Ok_0.pub_key@.len() == key_length && final(reader).remaining() == old(reader).remaining().skip(128 + key_length),
            old(reader).remaining().len() < 128 + key_length ==> r == Err::<
                AppleAuthResponse,
                Error,
            >(Error::Io(IoError::UnexpectedEof)) && final(reader).remaining() == old(reader).remaining(),
    {
        let ghost bytes = reader.remaining();
        let mut cursor = *reader;
        let mut ciphertext = [0u8; 128];
        let mut i: usize = 0;
        while i < 128
            invariant
                i <= 128,
                cursor.remaining() == bytes.skip(i as int),
                bytes.len() >= i,
                forall|k: int| 0 <= k < i ==> ciphertext@[k] == bytes[k],
                *reader == *old(reader),
                bytes == reader.remaining(),
            decreases 128 - i,
        {
            let b = cursor.read_u8()?;
            ciphertext[i] = b;
            i = i + 1;
        }
        let pub_key = cursor.read_bytes(key_length as usize)?;
        *reader = cursor;
        let response = AppleAuthResponse { ciphertext, pub_key };
        assert(response.wire() =~= bytes.take(128 + key_length));
        Ok(response)
    }

    /// Appends the wire form of the response to `writer`.
    pub fn write_to(&self, writer: &mut Vec<u8>) -> (r: Result<()>)
        ensures
            r is Ok,
            final(writer)@ == old(writer)@ + self.wire(),
    {
        put_bytes(writer, self.ciphertext.as_slice());
        put_bytes(writer, self.pub_key.as_slice());
        assert(writer@ =~= old(writer)@ + self.wire());
        Ok(())
    }
}

/// What the server tells the client once security is settled: the size and
/// pixel format of its framebuffer and the name of the desktop.
#[derive(Debug, PartialEq, Eq)]
pub struct ServerInit {
    pub framebuffer_width: u16,
    pub framebuffer_height: u16,
    pub pixel_format: PixelFormat,
    pub name: String,
}

/// The mathematical view of a [`ServerInit`].
pub ghost struct ServerInitView {
    pub framebuffer_width: u16,
    pub framebuffer_height: u16,
    pub pixel_format: PixelFormat,
    pub name: Seq<char>,
}

impl View for ServerInit {
    type V = ServerInitView;

    open spec fn view(&self) -> ServerInitView {
        ServerInitView {
            framebuffer_width: self.framebuffer_width,
            framebuffer_height: self.framebuffer_height,
            pixel_format: self.pixel_format,
            name: self.name@,
        }
    }
}

impl Message for ServerInit {
    open spec fn canonical(v: ServerInitView) -> bool {
        true
    }

    open spec fn encoding(v: ServerInitView) -> core::result::Result<Seq<u8>, Error> {
        match String::encoding(v.name) {
            Err(e) => Err(e),
            Ok(name) => Ok(
                u16_bytes(v.framebuffer_width) + u16_bytes(v.framebuffer_height)
                    + PixelFormat::encoding(v.pixel_format)->Ok_0 + name,
            ),
        }
    }

    open spec fn decoding(bytes: Seq<u8>) -> core::result::Result<(ServerInitView, nat), (Error, nat)> {
        if bytes.len() < 20 {
            Err((Error::Io(IoError::UnexpectedEof), 0))
        } else {
            match String::decoding(bytes.skip(20)) {
                Err(e) => Err(e),
                Ok((name, n)) => Ok(
                    (
                        ServerInitView {
                            framebuffer_width: be_u16(bytes),
                            framebuffer_height: be_u16(bytes.skip(2)),
                            pixel_format: PixelFormat::decoding(bytes.skip(4))->Ok_0.0,
                            name,
                        },
                        20 + n,
                    ),
                ),
            }
        }
    }

    open spec fn legal(bytes: Seq<u8>) -> bool {
        PixelFormat::legal(bytes.skip(4))
    }

    proof fn lemma_decode_encoded(v: ServerInitView, rest: Seq<u8>) {
        let w = Self::encoding(v)->Ok_0;
        let format = PixelFormat::encoding(v.pixel_format)->Ok_0;
        let name = String::encoding(v.name)->Ok_0;
        assert(format.len() == 16);
        assert((w + rest) =~= u16_bytes(v.framebuffer_width) + (w + rest).skip(2));
        lemma_u16_round_trip(v.framebuffer_width, (w + rest).skip(2));
        assert((w + rest).skip(2) =~= u16_bytes(v.framebuffer_height) + (w + rest).skip(4));
        lemma_u16_round_trip(v.framebuffer_height, (w + rest).skip(4));
        assert((w + rest).skip(4) =~= format + (name + rest));
        PixelFormat::lemma_decode_encoded(v.pixel_format, name + rest);
        assert((w + rest).skip(20) =~= name + rest);
        String::lemma_decode_encoded(v.name, rest);
    }

    proof fn lemma_encode_decoded(bytes: Seq<u8>) {
        let (v, n) = Self::decoding(bytes)->Ok_0;
        lemma_u16_bytes_of_read(bytes);
        lemma_u16_bytes_of_read(bytes.skip(2));
        PixelFormat::lemma_encode_decoded(bytes.skip(4));
        String::lemma_encode_decoded(bytes.skip(20));
        let name = String::encoding(v.name)->Ok_0;
        assert(name.len() + 20 == n);
        if Self::legal(bytes) {
            assert(PixelFormat::encoding(v.pixel_format)->Ok_0 == bytes.skip(4).take(16));
            assert(name == bytes.skip(20).take(n - 20));
            assert(Self::encoding(v)->Ok_0 =~= bytes.take(n as int));
        }
    }

    fn read_from(reader: &mut Reader) -> (r: Result<ServerInit>) {
        let ghost bytes = reader.remaining();
        let mut cursor = *reader;
        let framebuffer_width = cursor.read_u16()?;
        assert(cursor.remaining() == bytes.skip(2));
        let framebuffer_height = cursor.read_u16()?;
        assert(cursor.remaining() == bytes.skip(4));
        let pixel_format = PixelFormat::read_from(&mut cursor)?;
        assert(cursor.remaining() == bytes.skip(20));
        let name = String::read_from(&mut cursor)?;
        assert(cursor.remaining() == bytes.skip(20 + String::decoding(bytes.skip(20))->Ok_0.1 as int));
        *reader = cursor;
        Ok(ServerInit { framebuffer_width, framebuffer_height, pixel_format, name })
    }

    fn write_to(&self, writer: &mut Vec<u8>) -> (r: Result<()>) {
        let mut name: Vec<u8> = Vec::new();
        self.name.write_to(&mut name)?;
        put_u16(writer, self.framebuffer_width);
        put_u16(writer, self.framebuffer_height);
        let _ = self.pixel_format.write_to(writer);
        put_bytes(writer, name.as_slice());
        assert(writer@ =~= old(writer)@ + Self::encoding(self@)->Ok_0);
        Ok(())
    }
}

} // verus!
