//! The server's side of the handshake. The server offers one security
//! type: none.
use vstd::prelude::*;
use crate::protocol::Message;
use crate::protocol::handshake::{ClientInit, SecurityResult, SecurityType, SecurityTypes, ServerInit, ServerInitView, Version};
use crate::session::State;
use crate::wire::{put_bytes, put_u32, u32_bytes, Reader};
use crate::{Error, IoError, Result};

verus! {

/// The server's side of a handshake in progress.
#[derive(Debug)]
pub struct ServerHandshake {
    state: State,
    version: Version,
    init: ServerInit,
}

/// The mathematical view of a [`ServerHandshake`].
pub ghost struct ServerView {
    pub state: State,
    /// The version agreed on, once the version exchange is over.
    pub version: Version,
    /// What the server says of itself at the end of the handshake.
    pub init: ServerInitView,
}

impl View for ServerHandshake {
    type V = ServerView;

    closed spec fn view(&self) -> ServerView {
        ServerView { state: self.state, version: self.version, init: self.init@ }
    }
}

/// What a step of the server's handshake came to.
#[derive(Debug, PartialEq, Eq)]
pub enum ServerStep {
    /// The bytes that have arrived do not hold the whole of what comes
    /// next. Nothing was taken; step again when more have arrived.
    NeedMore,
    /// One exchange is done; step again.
    Continue,
    /// The handshake is done; the client has said whether other clients
    /// may stay connected.
    Established { shared: bool },
    /// The handshake was done before this step. Nothing was taken.
    Done,
}

/// What a step does: the handshake after it, how many of the bytes that
/// had arrived it took, the bytes it sends, and what it returns.
pub ghost struct ServerOutcome {
    pub next: ServerView,
    pub taken: nat,
    pub sent: Seq<u8>,
    pub result: Result<ServerStep>,
}

/// A step that fails: the session is closed and nothing is sent. What was
/// read to see the failure, `taken` bytes, is taken.
pub open spec fn fails(s: ServerView, e: Error, taken: nat) -> ServerOutcome {
    ServerOutcome {
        next: ServerView { state: State::Closed, ..s },
        taken,
        sent: Seq::empty(),
        result: Err(e),
    }
}

/// What becomes of a failure to read, for which `taken` bytes were read: a
/// message that has not arrived in full is waited for, anything else
/// closes the session.
pub open spec fn unread(s: ServerView, e: Error, taken: nat) -> ServerOutcome {
    if e == Error::Io(IoError::UnexpectedEof) {
        ServerOutcome { next: s, taken: 0, sent: Seq::empty(), result: Ok(ServerStep::NeedMore) }
    } else {
        fails(s, e, taken)
    }
}

/// What the server opens the session with: the version it offers, 3.8.
pub open spec fn greeting() -> Seq<u8> {
    Version::encoding(Version::Rfb38)->Ok_0
}

/// The one security type on offer, as versions 3.7 and 3.8 list it.
pub open spec fn offer() -> Seq<u8> {
    SecurityTypes::encoding(seq![SecurityType::NoAuthentication])->Ok_0
}

/// The reason that the server gives under version 3.8 for rejecting a
/// security type that it did not offer.
pub open spec fn rejection_reason() -> Seq<u8> {
    String::encoding("unsupported security type"@)->Ok_0
}

/// The step that reads the version that the client has picked and goes on
/// to security: under version 3.3 the server names the one security type
/// and awaits the client's initialisation message; under the later
/// versions it lists what is on offer and awaits the client's choice.
pub open spec fn version_step(s: ServerView, bytes: Seq<u8>) -> ServerOutcome {
    match Version::decoding(bytes) {
        Err((e, n)) => unread(s, e, n),
        Ok((version, n)) => if version == Version::Rfb33 {
            ServerOutcome {
                next: ServerView { state: State::AwaitingInit, version, ..s },
                taken: n,
                sent: u32_bytes(1),
                result: Ok(ServerStep::Continue),
            }
        } else {
            ServerOutcome {
                next: ServerView { state: State::AwaitingSecurityList, version, ..s },
                taken: n,
                sent: offer(),
                result: Ok(ServerStep::Continue),
            }
        },
    }
}

/// The step that reads the client's choice of security type. The one on
/// offer is accepted, with a security result of success under version
/// 3.8 and in silence under version 3.7. Any other is rejected with a
/// security result of failure, to which version 3.8 adds a reason, and the
/// session is closed.
pub open spec fn choice_step(s: ServerView, bytes: Seq<u8>) -> ServerOutcome {
    match SecurityType::decoding(bytes) {
        Err((e, n)) => unread(s, e, n),
        Ok((chosen, n)) => if chosen == SecurityType::NoAuthentication {
            ServerOutcome {
                next: ServerView { state: State::AwaitingInit, ..s },
                taken: n,
                sent: if s.version == Version::Rfb38 {
                    SecurityResult::encoding(SecurityResult::Succeeded)->Ok_0
                } else {
                    Seq::empty()
                },
                result: Ok(ServerStep::Continue),
            }
        } else {
            ServerOutcome {
                next: ServerView { state: State::Closed, ..s },
                taken: n,
                sent: if s.version == Version::Rfb38 {
                    SecurityResult::encoding(SecurityResult::Failed)->Ok_0 + rejection_reason()
                } else {
                    SecurityResult::encoding(SecurityResult::Failed)->Ok_0
                },
                result: Err(Error::AuthenticationUnavailable),
            }
        },
    }
}

/// The step that reads the client's initialisation message and answers
/// with the server's, with which the session is established. A server
/// whose own message has no wire form fails instead, the client's message
/// taken.
pub open spec fn init_step(s: ServerView, bytes: Seq<u8>) -> ServerOutcome {
    match ClientInit::decoding(bytes) {
        Err((e, n)) => unread(s, e, n),
        Ok((init, n)) => match ServerInit::encoding(s.init) {
            Err(e) => fails(s, e, n),
            Ok(answer) => ServerOutcome {
                next: ServerView { state: State::Established, ..s },
                taken: n,
                sent: answer,
                result: Ok(ServerStep::Established { shared: init.shared }),
            },
        },
    }
}

/// What a step of the server's handshake does when `bytes` have arrived
/// and not been taken yet.
pub open spec fn server_step(s: ServerView, bytes: Seq<u8>) -> ServerOutcome {
    match s.state {
        State::AwaitingVersion => version_step(s, bytes),
        State::AwaitingSecurityList => choice_step(s, bytes),
        State::AwaitingSecurityResult => fails(s, Error::Unexpected("handshake state"), 0),
        State::AwaitingInit => init_step(s, bytes),
        State::Established => ServerOutcome {
            next: s,
            taken: 0,
            sent: Seq::empty(),
            result: Ok(ServerStep::Done),
        },
        State::Closed => ServerOutcome {
            next: s,
            taken: 0,
            sent: Seq::empty(),
            result: Err(Error::Disconnected),
        },
    }
}

/// A failure is final: every step that fails leaves the session closed, a
/// closed session stays closed, and every step of it fails.
pub proof fn lemma_failure_closes(s: ServerView, bytes: Seq<u8>)
    ensures
        server_step(s, bytes).result is Err ==> server_step(s, bytes).next.state == State::Closed,
        s.state == State::Closed ==> server_step(s, bytes).result == Err::<ServerStep, Error>(
            Error::Disconnected,
        ) && server_step(s, bytes).next == s,
{
}

/// A step that waits changes nothing: the handshake stays as it was,
/// nothing is taken and nothing is sent.
pub proof fn lemma_waiting_changes_nothing(s: ServerView, bytes: Seq<u8>)
    requires
        server_step(s, bytes).result == Ok::<ServerStep, Error>(ServerStep::NeedMore)
            || server_step(s, bytes).result == Ok::<ServerStep, Error>(ServerStep::Done),
    ensures
        server_step(s, bytes).next == s,
        server_step(s, bytes).taken == 0,
        server_step(s, bytes).sent == Seq::<u8>::empty(),
{
}

/// The phases follow each other in one order. A session is established
/// only by the client's initialisation message, read while it was awaited;
/// that message is awaited only once the version is agreed on and, under
/// the versions that let the client choose, the client has chosen the
/// security type on offer.
pub proof fn lemma_phases_in_order(s: ServerView, bytes: Seq<u8>)
    ensures
        ({
            let after = server_step(s, bytes);
            &&& after.next.state == State::Established && s.state != State::Established ==> {
                &&& s.state == State::AwaitingInit
                &&& ClientInit::decoding(bytes) is Ok
            }
            &&& after.next.state == State::AwaitingInit && s.state != State::AwaitingInit ==> {
                ||| {
                    &&& s.state == State::AwaitingVersion
                    &&& after.next.version == Version::Rfb33
                }
                ||| {
                    &&& s.state == State::AwaitingSecurityList
                    &&& SecurityType::decoding(bytes) matches Ok((chosen, _))
                    &&& chosen == SecurityType::NoAuthentication
                }
            }
            &&& after.next.state == State::AwaitingSecurityList && s.state
                != State::AwaitingSecurityList ==> s.state == State::AwaitingVersion
            &&& after.next.state != State::AwaitingSecurityResult || s.state
                == State::AwaitingSecurityResult
            &&& after.next.state != State::AwaitingVersion || s.state == State::AwaitingVersion
        }),
{
}

impl ServerHandshake {
    /// A handshake at its start, for a server that will say `init` of
    /// itself. The server's greeting, the version it offers, is appended
    /// to `writer`.
    pub fn new(init: ServerInit, writer: &mut Vec<u8>) -> (handshake: ServerHandshake)
        ensures
            handshake@ == (ServerView {
                state: State::AwaitingVersion,
                version: Version::Rfb38,
                init: init@,
            }),
            final(writer)@ == old(writer)@ + greeting(),
    {
        let _ = Version::Rfb38.write_to(writer);
        ServerHandshake { state: State::AwaitingVersion, version: Version::Rfb38, init }
    }

    /// Where the session stands.
    pub fn state(&self) -> (state: State)
        ensures
            state == self@.state,
    {
        self.state
    }

    /// The version that the session speaks, once the version exchange is
    /// over.
    pub fn version(&self) -> (version: Version)
        ensures
            version == self@.version,
    {
        self.version
    }

    /// Closes the session: the transport has failed or ended.
    pub fn close(&mut self)
        ensures
            final(self)@ == (ServerView { state: State::Closed, ..old(self)@ }),
    {
        self.state = State::Closed;
    }

    /// What becomes of a failure to read.
    fn unread(&mut self, e: Error, Ghost(taken): Ghost<nat>) -> (r: Result<ServerStep>)
        ensures
            final(self)@ == unread(old(self)@, e, taken).next,
            r == unread(old(self)@, e, taken).result,
    {
        match e {
            Error::Io(IoError::UnexpectedEof) => Ok(ServerStep::NeedMore),
            e => {
                self.state = State::Closed;
                Err(e)
            },
        }
    }

    /// Takes one step of the handshake: reads what comes next from
    /// `reader`, if all of it has arrived, and appends what is to be sent
    /// in answer to `writer`. A failure closes the session.
    pub fn step(&mut self, reader: &mut Reader, writer: &mut Vec<u8>) -> (r: Result<ServerStep>)
        ensures
            final(self)@ == server_step(old(self)@, old(reader).remaining()).next,
            final(reader).remaining() == old(reader).remaining().skip(
                server_step(old(self)@, old(reader).remaining()).taken as int,
            ),
            final(writer)@ == old(writer)@ + server_step(old(self)@, old(reader).remaining()).sent,
            r == server_step(old(self)@, old(reader).remaining()).result,
    {
        let ghost bytes = reader.remaining();
        let ghost before = writer@;
        assert(bytes.skip(0) =~= bytes);
        assert(before + Seq::<u8>::empty() =~= before);
        let mut cursor = *reader;
        match self.state {
            State::AwaitingVersion => match Version::read_from(&mut cursor) {
                Err(e) => {
                    *reader = cursor;
                    self.unread(e, Ghost(Version::decoding(bytes)->Err_0.1))
                },
                Ok(version) => {
                    self.version = version;
                    match version {
                        Version::Rfb33 => {
                            put_u32(writer, 1);
                            self.state = State::AwaitingInit;
                        },
                        _ => {
                            let mut types: Vec<SecurityType> = Vec::new();
                            types.push(SecurityType::NoAuthentication);
                            assert(types@ =~= seq![SecurityType::NoAuthentication]);
                            let _ = SecurityTypes(types).write_to(writer);
                            self.state = State::AwaitingSecurityList;
                        },
                    }
                    *reader = cursor;
                    Ok(ServerStep::Continue)
                },
            },
            State::AwaitingSecurityList => match SecurityType::read_from(&mut cursor) {
                Err(e) => {
                    *reader = cursor;
                    self.unread(e, Ghost(SecurityType::decoding(bytes)->Err_0.1))
                },
                Ok(SecurityType::NoAuthentication) => {
                    match self.version {
                        Version::Rfb38 => {
                            let _ = SecurityResult::Succeeded.write_to(writer);
                        },
                        _ => {},
                    }
                    self.state = State::AwaitingInit;
                    *reader = cursor;
                    Ok(ServerStep::Continue)
                },
                Ok(_) => {
                    let _ = SecurityResult::Failed.write_to(writer);
                    match self.version {
                        Version::Rfb38 => {
                            proof {
                                reveal_strlit("unsupported security type");
                                assert(crate::protocol::primitive::is_latin1(
                                    "unsupported security type"@,
                                ));
                            }
                            let mut reason: Vec<u8> = Vec::new();
                            let _ = String::from_str("unsupported security type").write_to(
                                &mut reason,
                            );
                            put_bytes(writer, reason.as_slice());
                            assert(writer@ =~= before + (SecurityResult::encoding(
                                SecurityResult::Failed,
                            )->Ok_0 + rejection_reason()));
                        },
                        _ => {},
                    }
                    self.state = State::Closed;
                    *reader = cursor;
                    Err(Error::AuthenticationUnavailable)
                },
            },
            State::AwaitingSecurityResult => {
                self.state = State::Closed;
                Err(Error::Unexpected("handshake state"))
            },
            State::AwaitingInit => match ClientInit::read_from(&mut cursor) {
                Err(e) => {
                    *reader = cursor;
                    self.unread(e, Ghost(ClientInit::decoding(bytes)->Err_0.1))
                },
                Ok(init) => match self.init.write_to(writer) {
                    Err(e) => {
                        *reader = cursor;
                        self.state = State::Closed;
                        Err(e)
                    },
                    Ok(()) => {
                        self.state = State::Established;
                        *reader = cursor;
                        Ok(ServerStep::Established { shared: init.shared })
                    },
                },
            },
            State::Established => Ok(ServerStep::Done),
            State::Closed => Err(Error::Disconnected),
        }
    }
}

} // verus!
