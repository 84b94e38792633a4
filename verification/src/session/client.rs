//! The client's side of the handshake.
use vstd::prelude::*;
use crate::protocol::Message;
use crate::protocol::handshake::{AppleAuthHandshake, AppleAuthHandshakeView, AppleAuthResponse, ClientInit, SecurityResult, SecurityType, SecurityTypes, ServerInit, ServerInitView, Version};
use crate::security::des::response_of;
use crate::security::vnc_auth_response;
use crate::session::State;
use crate::wire::{be_u32, put_bytes, Reader};
use crate::{Error, IoError, Result};

verus! {

/// What the chosen security type still has to exchange before the server
/// says how authentication went.
#[derive(Debug, Clone, Copy, PartialEq, Eq)]
pub enum Pending {
    /// Nothing: the security result comes next.
    Nothing,
    /// The challenge of VNC authentication.
    Challenge,
    /// The key exchange of Apple Remote Desktop authentication.
    AppleKey,
}

/// The client's side of a handshake in progress.
#[derive(Debug)]
pub struct ClientHandshake {
    state: State,
    version: Version,
    pending: Pending,
    password: Option<Vec<u8>>,
    apple_auth: bool,
    shared: bool,
}

/// The mathematical view of a [`ClientHandshake`].
pub ghost struct ClientView {
    pub state: State,
    /// The version agreed on, once the version exchange is over.
    pub version: Version,
    pub pending: Pending,
    /// The password for VNC authentication, if the client has one.
    pub password: Option<Seq<u8>>,
    /// Whether the client can do Apple Remote Desktop authentication.
    pub apple_auth: bool,
    /// Whether the client lets other clients stay connected.
    pub shared: bool,
}

impl View for ClientHandshake {
    type V = ClientView;

    closed spec fn view(&self) -> ClientView {
        ClientView {
            state: self.state,
            version: self.version,
            pending: self.pending,
            password: match self.password {
                Some(password) => Some(password@),
                None => None,
            },
            apple_auth: self.apple_auth,
            shared: self.shared,
        }
    }
}

/// What a step of the client's handshake came to.
#[derive(Debug, PartialEq, Eq)]
pub enum ClientStep {
    /// The bytes that have arrived do not hold the whole of what comes
    /// next. Nothing was taken; step again when more have arrived.
    NeedMore,
    /// One exchange is done; step again.
    Continue,
    /// The server has sent this key exchange. Nothing was taken yet:
    /// answer with `respond_apple`.
    AppleChallenge(AppleAuthHandshake),
    /// The handshake is done; this is what the server said of itself.
    Established(ServerInit),
    /// The handshake was done before this step. Nothing was taken.
    Done,
}

/// The mathematical view of what a step came to, errors included.
pub ghost enum Verdict {
    NeedMore,
    Continue,
    AppleChallenge(AppleAuthHandshakeView),
    Established(ServerInitView),
    Done,
    /// The server refused the connection, with this reason.
    Refused(Seq<char>),
    /// Client and server share no security type.
    Unavailable,
    /// The server rejected the credentials, with this reason or none.
    Rejected(Seq<char>),
    /// The server broke the framing rules; the codec's error says how.
    Broken(Error),
    /// The session was closed before this step.
    Disconnected,
}

impl Verdict {
    /// Whether the verdict is a failure.
    pub open spec fn is_failure(self) -> bool {
        self is Refused || self is Unavailable || self is Rejected || self is Broken
            || self is Disconnected
    }
}

/// Whether the result of a step is what the verdict says.
pub open spec fn agrees(r: Result<ClientStep>, verdict: Verdict) -> bool {
    match verdict {
        Verdict::NeedMore => r == Ok::<ClientStep, Error>(ClientStep::NeedMore),
        Verdict::Continue => r == Ok::<ClientStep, Error>(ClientStep::Continue),
        Verdict::AppleChallenge(exchange) => r matches Ok(ClientStep::AppleChallenge(e)) && e@
            == exchange,
        Verdict::Established(init) => r matches Ok(ClientStep::Established(i)) && i@ == init,
        Verdict::Done => r == Ok::<ClientStep, Error>(ClientStep::Done),
        Verdict::Refused(reason) => r matches Err(Error::Server(text)) && text@ == reason,
        Verdict::Unavailable => r == Err::<ClientStep, Error>(Error::AuthenticationUnavailable),
        Verdict::Rejected(reason) => r matches Err(Error::AuthenticationFailure(text)) && text@
            == reason,
        Verdict::Broken(e) => r == Err::<ClientStep, Error>(e),
        Verdict::Disconnected => r == Err::<ClientStep, Error>(Error::Disconnected),
    }
}

/// What a step does: the handshake after it, how many of the bytes that
/// had arrived it took, the bytes it sends, and what it came to.
pub ghost struct Outcome {
    pub next: ClientView,
    pub taken: nat,
    pub sent: Seq<u8>,
    pub verdict: Verdict,
}

/// A step that waits: nothing changes.
pub open spec fn waits(c: ClientView) -> Outcome {
    Outcome { next: c, taken: 0, sent: Seq::empty(), verdict: Verdict::NeedMore }
}

/// A step that fails: the session is closed and nothing is sent. What was
/// read to see the failure, `taken` bytes, is taken.
pub open spec fn fails(c: ClientView, verdict: Verdict, taken: nat) -> Outcome {
    Outcome { next: ClientView { state: State::Closed, ..c }, taken, sent: Seq::empty(), verdict }
}

/// What becomes of a failure to read, for which `taken` bytes were read: a
/// message that has not arrived in full is waited for, anything else
/// closes the session.
pub open spec fn unread(c: ClientView, e: Error, taken: nat) -> Outcome {
    if e == Error::Io(IoError::UnexpectedEof) {
        waits(c)
    } else {
        fails(c, Verdict::Broken(e), taken)
    }
}

/// The wire form of the client's initialisation message.
pub open spec fn client_init(c: ClientView) -> Seq<u8> {
    ClientInit::encoding(ClientInit { shared: c.shared })->Ok_0
}

/// The step that reads the server's version and answers with the version
/// that the session will speak: the highest that the client speaks and
/// that does not exceed the server's, which is the server's own.
pub open spec fn version_step(c: ClientView, bytes: Seq<u8>) -> Outcome {
    match Version::decoding(bytes) {
        Err((e, n)) => unread(c, e, n),
        Ok((version, n)) => Outcome {
            next: ClientView { state: State::AwaitingSecurityList, version, ..c },
            taken: n,
            sent: Version::encoding(version)->Ok_0,
            verdict: Verdict::Continue,
        },
    }
}

/// The step that reads the reason of a refusal, which follows `taken`
/// bytes that told of the refusal. Until the reason has arrived in full,
/// nothing is taken.
pub open spec fn refusal_step(c: ClientView, bytes: Seq<u8>, taken: nat) -> Outcome {
    match String::decoding(bytes.skip(taken as int)) {
        Err((e, _)) => unread(c, e, 0),
        Ok((reason, n)) => fails(c, Verdict::Refused(reason), taken + n),
    }
}

/// The security type that the client picks from those on offer: VNC
/// authentication if it can do it, else Apple Remote Desktop authentication if
/// it can do it, else none at all; nothing if none of these is on offer.
/// It can do VNC authentication if it has a password.
pub open spec fn choice(c: ClientView, offer: Seq<SecurityType>) -> Option<SecurityType> {
    if c.password is Some && offer.contains(SecurityType::VncAuthentication) {
        Some(SecurityType::VncAuthentication)
    } else if c.apple_auth && offer.contains(SecurityType::AppleRemoteDesktop) {
        Some(SecurityType::AppleRemoteDesktop)
    } else if offer.contains(SecurityType::NoAuthentication) {
        Some(SecurityType::NoAuthentication)
    } else {
        None
    }
}

/// Where the handshake goes once the security type `chosen` is settled and
/// `sent` has been said of it. Without authentication the security result
/// is awaited under version 3.8 only; under the older versions the client
/// goes straight on with its initialisation message.
pub open spec fn settled(c: ClientView, chosen: SecurityType, taken: nat, sent: Seq<u8>) -> Outcome {
    match chosen {
        SecurityType::VncAuthentication => Outcome {
            next: ClientView {
                state: State::AwaitingSecurityResult,
                pending: Pending::Challenge,
                ..c
            },
            taken,
            sent,
            verdict: Verdict::Continue,
        },
        SecurityType::AppleRemoteDesktop => Outcome {
            next: ClientView {
                state: State::AwaitingSecurityResult,
                pending: Pending::AppleKey,
                ..c
            },
            taken,
            sent,
            verdict: Verdict::Continue,
        },
        _ => if c.version == Version::Rfb38 {
            Outcome {
                next: ClientView {
                    state: State::AwaitingSecurityResult,
                    pending: Pending::Nothing,
                    ..c
                },
                taken,
                sent,
                verdict: Verdict::Continue,
            }
        } else {
            Outcome {
                next: ClientView { state: State::AwaitingInit, ..c },
                taken,
                sent: sent + client_init(c),
                verdict: Verdict::Continue,
            }
        },
    }
}

/// The security step under version 3.3: the server names the one security
/// type as a 32-bit number, or refuses with 0 and a reason.
pub open spec fn security_step_33(c: ClientView, bytes: Seq<u8>) -> Outcome {
    if bytes.len() < 4 {
        waits(c)
    } else if be_u32(bytes) == 0 {
        refusal_step(c, bytes, 4)
    } else if be_u32(bytes) == 1 {
        settled(c, SecurityType::NoAuthentication, 4, Seq::empty())
    } else if be_u32(bytes) == 2 && c.password is Some {
        settled(c, SecurityType::VncAuthentication, 4, Seq::empty())
    } else if be_u32(bytes) == 30 && c.apple_auth {
        settled(c, SecurityType::AppleRemoteDesktop, 4, Seq::empty())
    } else {
        fails(c, Verdict::Unavailable, 4)
    }
}

/// The security step under versions 3.7 and 3.8: the server lists the
/// security types on offer and the client picks one, or the server refuses
/// with an empty list and a reason.
pub open spec fn security_step_37(c: ClientView, bytes: Seq<u8>) -> Outcome {
    match SecurityTypes::decoding(bytes) {
        Err((e, n)) => unread(c, e, n),
        Ok((offer, n)) => if offer.len() == 0 {
            refusal_step(c, bytes, n)
        } else {
            match choice(c, offer) {
                None => fails(c, Verdict::Unavailable, n),
                Some(chosen) => settled(c, chosen, n, seq![chosen.code()]),
            }
        },
    }
}

/// The step that reads the server's challenge and answers with the
/// response: the challenge encrypted under the key of the password.
pub open spec fn challenge_step(c: ClientView, bytes: Seq<u8>) -> Outcome {
    if bytes.len() < 16 {
        waits(c)
    } else {
        match c.password {
            None => fails(c, Verdict::Unavailable, 16),
            Some(password) => Outcome {
                next: ClientView { pending: Pending::Nothing, ..c },
                taken: 16,
                sent: response_of(password, bytes.take(16)),
                verdict: Verdict::Continue,
            },
        }
    }
}

/// The step that looks at the server's key exchange. The exchange is not
/// taken: `respond_apple` takes it.
pub open spec fn apple_step(c: ClientView, bytes: Seq<u8>) -> Outcome {
    match AppleAuthHandshake::decoding(bytes) {
        Err((e, n)) => unread(c, e, n),
        Ok((exchange, n)) => Outcome {
            next: c,
            taken: 0,
            sent: Seq::empty(),
            verdict: Verdict::AppleChallenge(exchange),
        },
    }
}

/// The step that reads the security result. Success is answered with the
/// client's initialisation message. A failure comes with a reason under
/// version 3.8 and without one under the older versions.
pub open spec fn result_step(c: ClientView, bytes: Seq<u8>) -> Outcome {
    match SecurityResult::decoding(bytes) {
        Err((e, n)) => unread(c, e, n),
        Ok((SecurityResult::Succeeded, n)) => Outcome {
            next: ClientView { state: State::AwaitingInit, ..c },
            taken: n,
            sent: client_init(c),
            verdict: Verdict::Continue,
        },
        Ok((SecurityResult::Failed, n)) => if c.version == Version::Rfb38 {
            match String::decoding(bytes.skip(n as int)) {
                Err((e, _)) => unread(c, e, 0),
                Ok((reason, m)) => fails(c, Verdict::Rejected(reason), n + m),
            }
        } else {
            fails(c, Verdict::Rejected(Seq::empty()), n)
        },
    }
}

/// The step that reads the server's initialisation message, with which the
/// session is established.
pub open spec fn init_step(c: ClientView, bytes: Seq<u8>) -> Outcome {
    match ServerInit::decoding(bytes) {
        Err((e, n)) => unread(c, e, n),
        Ok((init, n)) => Outcome {
            next: ClientView { state: State::Established, ..c },
            taken: n,
            sent: Seq::empty(),
            verdict: Verdict::Established(init),
        },
    }
}

/// What a step of the client's handshake does when `bytes` have arrived
/// and not been taken yet.
pub open spec fn client_step(c: ClientView, bytes: Seq<u8>) -> Outcome {
    match c.state {
        State::AwaitingVersion => version_step(c, bytes),
        State::AwaitingSecurityList => if c.version == Version::Rfb33 {
            security_step_33(c, bytes)
        } else {
            security_step_37(c, bytes)
        },
        State::AwaitingSecurityResult => match c.pending {
            Pending::Challenge => challenge_step(c, bytes),
            Pending::AppleKey => apple_step(c, bytes),
            Pending::Nothing => result_step(c, bytes),
        },
        State::AwaitingInit => init_step(c, bytes),
        State::Established => Outcome {
            next: c,
            taken: 0,
            sent: Seq::empty(),
            verdict: Verdict::Done,
        },
        State::Closed => Outcome {
            next: c,
            taken: 0,
            sent: Seq::empty(),
            verdict: Verdict::Disconnected,
        },
    }
}

/// A failure is final: every step that fails leaves the session closed, a
/// closed session stays closed, and every step of it fails.
pub proof fn lemma_failure_closes(c: ClientView, bytes: Seq<u8>)
    ensures
        client_step(c, bytes).verdict.is_failure() ==> client_step(c, bytes).next.state
            == State::Closed,
        c.state == State::Closed ==> client_step(c, bytes).verdict == Verdict::Disconnected
            && client_step(c, bytes).next == c,
{
}

/// A step that waits or only looks changes nothing: the handshake stays as
/// it was, nothing is taken and nothing is sent.
pub proof fn lemma_waiting_changes_nothing(c: ClientView, bytes: Seq<u8>)
    requires
        ({
            let verdict = client_step(c, bytes).verdict;
            verdict is NeedMore || verdict is AppleChallenge || verdict is Done
        }),
    ensures
        client_step(c, bytes).next == c,
        client_step(c, bytes).taken == 0,
        client_step(c, bytes).sent == Seq::<u8>::empty(),
{
}

/// The phases follow each other in one order. A session is established
/// only by the server's initialisation message, read while it was awaited;
/// and that message is awaited only once security is settled: after a
/// security result of success or, where no authentication was chosen under
/// a version before 3.8, after the choice.
pub proof fn lemma_phases_in_order(c: ClientView, bytes: Seq<u8>)
    ensures
        ({
            let after = client_step(c, bytes);
            &&& after.next.state == State::Established && c.state != State::Established ==> {
                &&& c.state == State::AwaitingInit
                &&& ServerInit::decoding(bytes) is Ok
            }
            &&& after.next.state == State::AwaitingInit && c.state != State::AwaitingInit ==> {
                ||| {
                    &&& c.state == State::AwaitingSecurityResult
                    &&& c.pending == Pending::Nothing
                    &&& SecurityResult::decoding(bytes) matches Ok((result, _))
                    &&& result == SecurityResult::Succeeded
                }
                ||| {
                    &&& c.state == State::AwaitingSecurityList
                    &&& c.version != Version::Rfb38
                }
            }
            &&& after.next.state == State::AwaitingSecurityResult && c.state
                != State::AwaitingSecurityResult ==> c.state == State::AwaitingSecurityList
            &&& after.next.state == State::AwaitingSecurityList && c.state
                != State::AwaitingSecurityList ==> c.state == State::AwaitingVersion
            &&& after.next.state != State::AwaitingVersion || c.state == State::AwaitingVersion
        }),
{
}

/// What `respond_apple` does: it takes the key exchange and sends the
/// response.
pub open spec fn respond_apple_step(c: ClientView, bytes: Seq<u8>, response: Seq<u8>) -> Outcome {
    if c.state == State::AwaitingSecurityResult && c.pending == Pending::AppleKey
        && AppleAuthHandshake::decoding(bytes) is Ok {
        Outcome {
            next: ClientView { pending: Pending::Nothing, ..c },
            taken: AppleAuthHandshake::decoding(bytes)->Ok_0.1,
            sent: response,
            verdict: Verdict::Continue,
        }
    } else if c.state == State::Closed {
        fails(c, Verdict::Disconnected, 0)
    } else {
        fails(c, Verdict::Broken(Error::Unexpected("authentication response")), 0)
    }
}

/// Whether a step did to the handshake, the reader and the writer what
/// `outcome` says, and returned what it says.
pub open spec fn carried_out(
    outcome: Outcome,
    after: ClientView,
    before_bytes: Seq<u8>,
    after_bytes: Seq<u8>,
    before_sent: Seq<u8>,
    after_sent: Seq<u8>,
    r: Result<ClientStep>,
) -> bool {
    &&& after == outcome.next
    &&& after_bytes == before_bytes.skip(outcome.taken as int)
    &&& after_sent == before_sent + outcome.sent
    &&& agrees(r, outcome.verdict)
}

impl ClientHandshake {
    /// A handshake at its start. `password` is the password for VNC
    /// authentication, if the client has one; `apple_auth` says whether the
    /// client is ready for Apple Remote Desktop authentication; `shared`
    /// says whether other clients may stay connected.
    pub fn new(password: Option<Vec<u8>>, apple_auth: bool, shared: bool) -> (handshake:
        ClientHandshake)
        ensures
            handshake@ == (ClientView {
                state: State::AwaitingVersion,
                version: Version::Rfb38,
                pending: Pending::Nothing,
                password: match password {
                    Some(password) => Some(password@),
                    None => None,
                },
                apple_auth,
                shared,
            }),
    {
        ClientHandshake {
            state: State::AwaitingVersion,
            version: Version::Rfb38,
            pending: Pending::Nothing,
            password,
            apple_auth,
            shared,
        }
    }

    /// Where the session stands.
    pub fn state(&self) -> (state: State)
        ensures
            state == self@.state,
    {
        self.state
    }

    /// The version that the session speaks, once the version exchange is
    /// over.
    pub fn version(&self) -> (version: Version)
        ensures
            version == self@.version,
    {
        self.version
    }

    /// Closes the session: the transport has failed or ended.
    pub fn close(&mut self)
        ensures
            final(self)@ == (ClientView { state: State::Closed, ..old(self)@ }),
    {
        self.state = State::Closed;
    }

    /// What becomes of a failure to read.
    fn unread(&mut self, e: Error, Ghost(taken): Ghost<nat>) -> (r: Result<ClientStep>)
        ensures
            final(self)@ == unread(old(self)@, e, taken).next,
            agrees(r, unread(old(self)@, e, taken).verdict),
    {
        match e {
            Error::Io(IoError::UnexpectedEof) => Ok(ClientStep::NeedMore),
            e => {
                self.state = State::Closed;
                Err(e)
            },
        }
    }

    /// Reads the reason of a refusal, from where `cursor` stands, and fails
    /// with it.
    fn refusal<'a>(
        &mut self,
        reader: &mut Reader<'a>,
        cursor: Reader<'a>,
        Ghost(taken): Ghost<nat>,
    ) -> (r: Result<ClientStep>)
        requires
            cursor.remaining() == old(reader).remaining().skip(taken as int),
            taken <= old(reader).remaining().len(),
        ensures
            final(self)@ == refusal_step(old(self)@, old(reader).remaining(), taken).next,
            final(reader).remaining() == old(reader).remaining().skip(
                refusal_step(old(self)@, old(reader).remaining(), taken).taken as int,
            ),
            agrees(r, refusal_step(old(self)@, old(reader).remaining(), taken).verdict),
    {
        let mut at = cursor;
        assert(reader.remaining().skip(0) =~= reader.remaining());
        match String::read_from(&mut at) {
            Err(e) => self.unread(e, Ghost(0)),
            Ok(reason) => {
                let ghost n = String::decoding(cursor.remaining())->Ok_0.1;
                assert(at.remaining() =~= reader.remaining().skip(taken + n as int)) by {
                    String::lemma_encode_decoded(cursor.remaining());
                }
                *reader = at;
                self.state = State::Closed;
                Err(Error::Server(reason))
            },
        }
    }

    /// Goes on once the security type is settled.
    fn settle(&mut self, chosen: SecurityType, writer: &mut Vec<u8>, Ghost(taken): Ghost<
        nat,
    >, Ghost(sent): Ghost<Seq<u8>>, Ghost(before): Ghost<Seq<u8>>) -> (r: Result<ClientStep>)
        requires
            old(writer)@ == before + sent,
        ensures
            final(self)@ == settled(old(self)@, chosen, taken, sent).next,
            final(writer)@ == before + settled(old(self)@, chosen, taken, sent).sent,
            agrees(r, settled(old(self)@, chosen, taken, sent).verdict),
            r == Ok::<ClientStep, Error>(ClientStep::Continue),
    {
        match chosen {
            SecurityType::VncAuthentication => {
                self.state = State::AwaitingSecurityResult;
                self.pending = Pending::Challenge;
            },
            SecurityType::AppleRemoteDesktop => {
                self.state = State::AwaitingSecurityResult;
                self.pending = Pending::AppleKey;
            },
            _ => {
                match self.version {
                    Version::Rfb38 => {
                        self.state = State::AwaitingSecurityResult;
                        self.pending = Pending::Nothing;
                    },
                    _ => {
                        let _ = ClientInit { shared: self.shared }.write_to(writer);
                        self.state = State::AwaitingInit;
                        assert(writer@ =~= before + (sent + client_init(old(self)@)));
                    },
                }
            },
        }
        Ok(ClientStep::Continue)
    }

    /// The security type that the client picks from those on offer.
    fn pick(&self, offer: &Vec<SecurityType>) -> (chosen: Option<SecurityType>)
        ensures
            chosen == choice(self@, offer@),
    {
        let mut vnc = false;
        let mut apple = false;
        let mut open = false;
        let mut i: usize = 0;
        while i < offer.len()
            invariant
                i <= offer@.len(),
                vnc == offer@.take(i as int).contains(SecurityType::VncAuthentication),
                apple == offer@.take(i as int).contains(SecurityType::AppleRemoteDesktop),
                open == offer@.take(i as int).contains(SecurityType::NoAuthentication),
            decreases offer@.len() - i,
        {
            let ghost seen = offer@.take(i as int);
            match offer[i] {
                SecurityType::VncAuthentication => {
                    vnc = true;
                },
                SecurityType::AppleRemoteDesktop => {
                    apple = true;
                },
                SecurityType::NoAuthentication => {
                    open = true;
                },
                _ => {},
            }
            i = i + 1;
            proof {
                let now = offer@.take(i as int);
                assert(now =~= seen.push(offer@[i - 1]));
                assert(now[i - 1] == offer@[i - 1]);
                assert forall|t: SecurityType| now.contains(t) <==> (seen.contains(t) || t
                    == offer@[i - 1]) by {
                    if seen.contains(t) {
                        let k = choose|k: int| 0 <= k < seen.len() && seen[k] == t;
                        assert(now[k] == t);
                    }
                    if now.contains(t) {
                        let k = choose|k: int| 0 <= k < now.len() && now[k] == t;
                        if k < i - 1 {
                            assert(seen[k] == t);
                        }
                    }
                }
            }
        }
        assert(offer@.take(i as int) =~= offer@);
        if self.password.is_some() && vnc {
            Some(SecurityType::VncAuthentication)
        } else if self.apple_auth && apple {
            Some(SecurityType::AppleRemoteDesktop)
        } else if open {
            Some(SecurityType::NoAuthentication)
        } else {
            None
        }
    }

    /// Takes one step of the handshake: reads what comes next from
    /// `reader`, if all of it has arrived, and appends what is to be sent
    /// in answer to `writer`. A failure closes the session.
    pub fn step(&mut self, reader: &mut Reader, writer: &mut Vec<u8>) -> (r: Result<ClientStep>)
        ensures
            carried_out(
                client_step(old(self)@, old(reader).remaining()),
                final(self)@,
                old(reader).remaining(),
                final(reader).remaining(),
                old(writer)@,
                final(writer)@,
                r,
            ),
    {
        let ghost bytes = reader.remaining();
        let ghost before = writer@;
        assert(bytes.skip(0) =~= bytes);
        assert(before + Seq::<u8>::empty() =~= before);
        let mut cursor = *reader;
        match self.state {
            State::AwaitingVersion => match Version::read_from(&mut cursor) {
                Err(e) => {
                    *reader = cursor;
                    self.unread(e, Ghost(Version::decoding(bytes)->Err_0.1))
                },
                Ok(version) => {
                    let _ = version.write_to(writer);
                    self.version = version;
                    self.state = State::AwaitingSecurityList;
                    *reader = cursor;
                    Ok(ClientStep::Continue)
                },
            },
            State::AwaitingSecurityList => match self.version {
                Version::Rfb33 => {
                    let security_type = match cursor.read_u32() {
                        Err(_) => {
                            return Ok(ClientStep::NeedMore);
                        },
                        Ok(security_type) => security_type,
                    };
                    if security_type == 0 {
                        self.refusal(reader, cursor, Ghost(4))
                    } else if security_type == 1 {
                        *reader = cursor;
                        self.settle(
                            SecurityType::NoAuthentication,
                            writer,
                            Ghost(4),
                            Ghost(Seq::<u8>::empty()),
                            Ghost(before),
                        )
                    } else if security_type == 2 && self.password.is_some() {
                        *reader = cursor;
                        self.settle(
                            SecurityType::VncAuthentication,
                            writer,
                            Ghost(4),
                            Ghost(Seq::<u8>::empty()),
                            Ghost(before),
                        )
                    } else if security_type == 30 && self.apple_auth {
                        *reader = cursor;
                        self.settle(
                            SecurityType::AppleRemoteDesktop,
                            writer,
                            Ghost(4),
                            Ghost(Seq::<u8>::empty()),
                            Ghost(before),
                        )
                    } else {
                        *reader = cursor;
                        self.state = State::Closed;
                        Err(Error::AuthenticationUnavailable)
                    }
                },
                _ => match SecurityTypes::read_from(&mut cursor) {
                    Err(e) => {
                        *reader = cursor;
                        self.unread(e, Ghost(SecurityTypes::decoding(bytes)->Err_0.1))
                    },
                    Ok(offer) => {
                        let ghost n = SecurityTypes::decoding(bytes)->Ok_0.1;
                        proof {
                            SecurityTypes::lemma_encode_decoded(bytes);
                        }
                        if offer.0.len() == 0 {
                            self.refusal(reader, cursor, Ghost(n))
                        } else {
                            match self.pick(&offer.0) {
                                None => {
                                    *reader = cursor;
                                    self.state = State::Closed;
                                    Err(Error::AuthenticationUnavailable)
                                },
                                Some(chosen) => {
                                    let ghost said = seq![chosen.code()];
                                    let _ = chosen.write_to(writer);
                                    *reader = cursor;
                                    self.settle(
                                        chosen,
                                        writer,
                                        Ghost(n),
                                        Ghost(said),
                                        Ghost(before),
                                    )
                                },
                            }
                        }
                    },
                },
            },
            State::AwaitingSecurityResult => match self.pending {
                Pending::Challenge => match cursor.read_slice(16) {
                    Err(_) => Ok(ClientStep::NeedMore),
                    Ok(bytes) => {
                        let mut challenge = [0u8; 16];
                        let mut i: usize = 0;
                        while i < 16
                            invariant
                                i <= 16,
                                bytes@.len() == 16,
                                forall|k: int| 0 <= k < i ==> challenge@[k] == bytes@[k],
                            decreases 16 - i,
                        {
                            challenge[i] = bytes[i];
                            i = i + 1;
                        }
                        assert(challenge@ =~= bytes@);
                        match &self.password {
                            None => {
                                *reader = cursor;
                                self.state = State::Closed;
                                Err(Error::AuthenticationUnavailable)
                            },
                            Some(password) => {
                                let response = vnc_auth_response(password.as_slice(), &challenge);
                                put_bytes(writer, response.as_slice());
                                self.pending = Pending::Nothing;
                                *reader = cursor;
                                Ok(ClientStep::Continue)
                            },
                        }
                    },
                },
                Pending::AppleKey => match AppleAuthHandshake::read_from(&mut cursor) {
                    Err(e) => {
                        *reader = cursor;
                        self.unread(e, Ghost(AppleAuthHandshake::decoding(bytes)->Err_0.1))
                    },
                    Ok(exchange) => Ok(ClientStep::AppleChallenge(exchange)),
                },
                Pending::Nothing => match SecurityResult::read_from(&mut cursor) {
                    Err(e) => {
                        *reader = cursor;
                        self.unread(e, Ghost(SecurityResult::decoding(bytes)->Err_0.1))
                    },
                    Ok(SecurityResult::Succeeded) => {
                        let _ = ClientInit { shared: self.shared }.write_to(writer);
                        self.state = State::AwaitingInit;
                        *reader = cursor;
                        Ok(ClientStep::Continue)
                    },
                    Ok(SecurityResult::Failed) => match self.version {
                        Version::Rfb38 => match String::read_from(&mut cursor) {
                            Err(e) => self.unread(e, Ghost(0)),
                            Ok(reason) => {
                                assert(cursor.remaining() =~= bytes.skip(
                                    4 + String::decoding(bytes.skip(4))->Ok_0.1 as int,
                                )) by {
                                    String::lemma_encode_decoded(bytes.skip(4));
                                }
                                *reader = cursor;
                                self.state = State::Closed;
                                Err(Error::AuthenticationFailure(reason))
                            },
                        },
                        _ => {
                            *reader = cursor;
                            self.state = State::Closed;
                            Err(Error::AuthenticationFailure(String::new()))
                        },
                    },
                },
            },
            State::AwaitingInit => match ServerInit::read_from(&mut cursor) {
                Err(e) => {
                    *reader = cursor;
                    self.unread(e, Ghost(ServerInit::decoding(bytes)->Err_0.1))
                },
                Ok(init) => {
                    self.state = State::Established;
                    *reader = cursor;
                    Ok(ClientStep::Established(init))
                },
            },
            State::Established => Ok(ClientStep::Done),
            State::Closed => Err(Error::Disconnected),
        }
    }

    /// Answers the key exchange of Apple Remote Desktop authentication
    /// that `step` has shown: takes the exchange from `reader` and appends
    /// the response to `writer`. Called at another time, it closes the
    /// session.
    pub fn respond_apple(
        &mut self,
        reader: &mut Reader,
        writer: &mut Vec<u8>,
        response: &AppleAuthResponse,
    ) -> (r: Result<ClientStep>)
        ensures
            carried_out(
                respond_apple_step(old(self)@, old(reader).remaining(), response.wire()),
                final(self)@,
                old(reader).remaining(),
                final(reader).remaining(),
                old(writer)@,
                final(writer)@,
                r,
            ),
    {
        let ghost bytes = reader.remaining();
        assert(bytes.skip(0) =~= bytes);
        assert(writer@ + Seq::<u8>::empty() =~= writer@);
        match (self.state, self.pending) {
            (State::AwaitingSecurityResult, Pending::AppleKey) => {
                let mut cursor = *reader;
                if AppleAuthHandshake::read_from(&mut cursor).is_ok() {
                    *reader = cursor;
                    let _ = response.write_to(writer);
                    self.pending = Pending::Nothing;
                    return Ok(ClientStep::Continue);
                }
            },
            (State::Closed, _) => {
                return Err(Error::Disconnected);
            },
            _ => {},
        }
        self.state = State::Closed;
        Err(Error::Unexpected("authentication response"))
    }
}

} // verus!
