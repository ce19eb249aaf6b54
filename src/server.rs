//! The server side of a session, as a state machine.
//!
//! The caller owns the socket, the disk and the child process. It feeds the
//! handler each event (a message payload, what the disk says about the
//! target path, the digest of the file already there, the end of the body),
//! writes out the framed reply that the handler returns, and then does what
//! the handler's new state asks for.
use crate::codec::{
    be32, decode_request, decode_version_header, enc_validation, enc_version_status,
    encode_validation, encode_version_response, frame_message, parse_request, parse_str,
};
use crate::hash::digests_equal;
use crate::path::{
    append_str, chars_of, confined, has_parent_component, has_parent_components, is_absolute,
    is_absolute_path, push_char, resolve_and_validate, Resolution, ResolutionModel,
};
use crate::protocol::{
    MatchStatus, PathStatus, Request, RequestModel, Validation, VersionResponse,
    VersionStatus, VersionStatusModel,
};
use vstd::prelude::*;
use vstd::utf8::encode_utf8;

verus! {

/// Why a session ended early on the server.
#[derive(Debug, Clone)]
pub enum HandlerError {
    /// A message from the client could not be decoded.
    Decode,
    PasswordsDontMatch,
    /// The client's version differs; carries the server's version.
    VersionMismatch(String),
    PathValidation(PathStatus),
}

pub enum HandlerErrorModel {
    Decode,
    PasswordsDontMatch,
    VersionMismatch(Seq<char>),
    PathValidation(PathStatus),
}

impl View for HandlerError {
    type V = HandlerErrorModel;

    open spec fn view(&self) -> HandlerErrorModel {
        match self {
            HandlerError::Decode => HandlerErrorModel::Decode,
            HandlerError::PasswordsDontMatch => HandlerErrorModel::PasswordsDontMatch,
            HandlerError::VersionMismatch(v) => HandlerErrorModel::VersionMismatch(v@),
            HandlerError::PathValidation(p) => HandlerErrorModel::PathValidation(*p),
        }
    }
}

/// Where a server session stands, and so what the caller does next.
pub enum ServerState {
    /// Read the version header and report it as [`ServerEvent::Received`].
    AwaitVersion,
    /// Read the request and report it as [`ServerEvent::Received`].
    AwaitRequest,
    /// Look the target up on disk (see [`crate::path::probe_paths`]) and
    /// report it as [`ServerEvent::Resolved`].
    ResolvePath(Request),
    /// Digest the file at the confined path, if it is a regular file, and
    /// report it as [`ServerEvent::ExistingDigest`].
    CheckHash(Request, String),
    /// Receive the body into the confined path, then report [`ServerEvent::BodyStored`].
    ReceiveBody(Request, String),
    /// Mark the file at the confined path executable; then run it if the
    /// request's action is `Run`. The session is over.
    Finish(Request, String),
    /// The session failed; close the connection.
    Failed(HandlerError),
}

/// What the caller reports to the handler.
pub enum ServerEvent {
    /// The payload of a framed message.
    Received(Vec<u8>),
    /// What the disk says about the target.
    Resolved(Resolution),
    /// The content digest of the file at the confined path; `None` if there is
    /// no regular file there.
    ExistingDigest(Option<u64>),
    /// The body has been written to the confined path.
    BodyStored,
}

pub enum ServerPhase {
    AwaitVersion,
    AwaitRequest,
    ResolvePath(RequestModel),
    CheckHash(RequestModel, Seq<char>),
    ReceiveBody(RequestModel, Seq<char>),
    Finish(RequestModel, Seq<char>),
    Failed(HandlerErrorModel),
}

pub enum ServerEventModel {
    Received(Seq<u8>),
    Resolved(ResolutionModel),
    ExistingDigest(Option<u64>),
    BodyStored,
}

impl View for ServerState {
    type V = ServerPhase;

    open spec fn view(&self) -> ServerPhase {
        match self {
            ServerState::AwaitVersion => ServerPhase::AwaitVersion,
            ServerState::AwaitRequest => ServerPhase::AwaitRequest,
            ServerState::ResolvePath(r) => ServerPhase::ResolvePath(r@),
            ServerState::CheckHash(r, p) => ServerPhase::CheckHash(r@, p@),
            ServerState::ReceiveBody(r, p) => ServerPhase::ReceiveBody(r@, p@),
            ServerState::Finish(r, p) => ServerPhase::Finish(r@, p@),
            ServerState::Failed(e) => ServerPhase::Failed(e@),
        }
    }
}

impl View for ServerEvent {
    type V = ServerEventModel;

    open spec fn view(&self) -> ServerEventModel {
        match self {
            ServerEvent::Received(b) => ServerEventModel::Received(b@),
            ServerEvent::Resolved(r) => ServerEventModel::Resolved(r@),
            ServerEvent::ExistingDigest(d) => ServerEventModel::ExistingDigest(*d),
            ServerEvent::BodyStored => ServerEventModel::BodyStored,
        }
    }
}

/// A payload behind its 4-byte big-endian length.
pub open spec fn framed(payload: Seq<u8>) -> Seq<u8> {
    be32(payload.len() as u32) + payload
}

/// The framed validation that the server sends.
pub open spec fn validation_reply(v: Validation) -> Option<Seq<u8>> {
    Some(framed(enc_validation(v)))
}

/// The validation sent when the password matched and the path did not.
pub open spec fn path_rejection(e: PathStatus) -> Validation {
    Validation { password: MatchStatus::Match, hash: MatchStatus::Mismatch, path: e }
}

/// One transition of the server: the next phase and the framed reply, if any.
/// An event that the phase does not wait for changes nothing.
pub open spec fn server_next(
    password: Seq<u8>,
    version: Seq<char>,
    working_dir: Seq<char>,
    s: ServerPhase,
    e: ServerEventModel,
) -> (ServerPhase, Option<Seq<u8>>) {
    match (s, e) {
        (ServerPhase::AwaitVersion, ServerEventModel::Received(b)) => match parse_str(b) {
            None => (ServerPhase::Failed(HandlerErrorModel::Decode), None),
            Some((v, _)) => if v == version {
                (
                    ServerPhase::AwaitRequest,
                    Some(framed(enc_version_status(VersionStatusModel::Match))),
                )
            } else {
                (
                    ServerPhase::Failed(HandlerErrorModel::VersionMismatch(version)),
                    Some(framed(enc_version_status(VersionStatusModel::Mismatch(version)))),
                )
            },
        },
        (ServerPhase::AwaitRequest, ServerEventModel::Received(b)) => match parse_request(b) {
            None => (ServerPhase::Failed(HandlerErrorModel::Decode), None),
            Some((r, _)) => if r.password != password {
                (
                    ServerPhase::Failed(HandlerErrorModel::PasswordsDontMatch),
                    validation_reply(Validation::initial()),
                )
            } else if is_absolute_path(r.path) {
                (
                    ServerPhase::Failed(HandlerErrorModel::PathValidation(PathStatus::AbsolutePath)),
                    validation_reply(path_rejection(PathStatus::AbsolutePath)),
                )
            } else if has_parent_component(r.path) {
                (
                    ServerPhase::Failed(
                        HandlerErrorModel::PathValidation(PathStatus::InvalidComponents),
                    ),
                    validation_reply(path_rejection(PathStatus::InvalidComponents)),
                )
            } else {
                (ServerPhase::ResolvePath(r), None)
            },
        },
        (ServerPhase::ResolvePath(r), ServerEventModel::Resolved(res)) => match confined(
            r.path,
            working_dir,
            res,
        ) {
            Err(err) => (
                ServerPhase::Failed(HandlerErrorModel::PathValidation(err)),
                validation_reply(path_rejection(err)),
            ),
            Ok(p) => (ServerPhase::CheckHash(r, p), None),
        },
        (ServerPhase::CheckHash(r, p), ServerEventModel::ExistingDigest(d)) => if d == Some(
            r.hash,
        ) {
            (
                ServerPhase::Finish(r, p),
                validation_reply(
                    Validation {
                        password: MatchStatus::Match,
                        hash: MatchStatus::Match,
                        path: PathStatus::Valid,
                    },
                ),
            )
        } else {
            (
                ServerPhase::ReceiveBody(r, p),
                validation_reply(
                    Validation {
                        password: MatchStatus::Match,
                        hash: MatchStatus::Mismatch,
                        path: PathStatus::Valid,
                    },
                ),
            )
        },
        (ServerPhase::ReceiveBody(r, p), ServerEventModel::BodyStored) => (
            ServerPhase::Finish(r, p),
            None,
        ),
        (s, _) => (s, None),
    }
}

pub open spec fn opt_view(r: Option<Vec<u8>>) -> Option<Seq<u8>> {
    match r {
        Some(v) => Some(v@),
        None => None,
    }
}

/// Serves one connection.
pub struct ClientHandler {
    password: [u8; 32],
    version: String,
    working_dir: String,
    state: ServerState,
}

impl ClientHandler {
    pub closed spec fn wf(&self) -> bool {
        encode_utf8(self.version@).len() + 10 <= u32::MAX
    }

    pub closed spec fn phase(&self) -> ServerPhase {
        self.state@
    }

    /// The password digest that clients must present.
    pub closed spec fn password_digest(&self) -> Seq<u8> {
        self.password@
    }

    pub closed spec fn version(&self) -> Seq<char> {
        self.version@
    }

    /// The directory that uploads are confined to, in canonical form.
    pub closed spec fn working_dir(&self) -> Seq<char> {
        self.working_dir@
    }

    /// A handler for a new connection, waiting for the version header.
    pub fn new(password: [u8; 32], version: String, working_dir: String) -> (h: Self)
        requires
            encode_utf8(version@).len() + 10 <= u32::MAX,
        ensures
            h.wf(),
            h.phase() == ServerPhase::AwaitVersion,
            h.password_digest() == password@,
            h.version() == version@,
            h.working_dir() == working_dir@,
    {
        ClientHandler { password, version, working_dir, state: ServerState::AwaitVersion }
    }

    /// What the caller must do next.
    pub fn state(&self) -> (s: &ServerState)
        ensures
            s@ == self.phase(),
    {
        &self.state
    }

    fn reply_validation(v: Validation) -> (r: Option<Vec<u8>>)
        ensures
            opt_view(r) == validation_reply(v),
    {
        let payload = encode_validation(&v);
        Some(frame_message(payload.as_slice()))
    }

    fn on_version(&self, b: &Vec<u8>) -> (r: (ServerState, Option<Vec<u8>>))
        requires
            self.wf(),
        ensures
            (r.0@, opt_view(r.1)) == server_next(
                self.password@,
                self.version@,
                self.working_dir@,
                ServerPhase::AwaitVersion,
                ServerEventModel::Received(b@),
            ),
    {
        match decode_version_header(b.as_slice()) {
            None => (ServerState::Failed(HandlerError::Decode), None),
            Some(h) => {
                if h.0 == self.version {
                    let payload = encode_version_response(&VersionResponse(VersionStatus::Match));
                    (ServerState::AwaitRequest, Some(frame_message(payload.as_slice())))
                } else {
                    let payload = encode_version_response(
                        &VersionResponse(VersionStatus::Mismatch(self.version.clone())),
                    );
                    proof {
                        vstd::utf8::encode_utf8_valid_utf8(self.version@);
                    }
                    assert(payload@.len() <= u32::MAX);
                    (
                        ServerState::Failed(HandlerError::VersionMismatch(self.version.clone())),
                        Some(frame_message(payload.as_slice())),
                    )
                }
            },
        }
    }

    fn on_request(&self, b: &Vec<u8>) -> (r: (ServerState, Option<Vec<u8>>))
        ensures
            (r.0@, opt_view(r.1)) == server_next(
                self.password@,
                self.version@,
                self.working_dir@,
                ServerPhase::AwaitRequest,
                ServerEventModel::Received(b@),
            ),
    {
        match decode_request(b.as_slice()) {
            None => (ServerState::Failed(HandlerError::Decode), None),
            Some(req) => {
                if !digests_equal(&req.password, &self.password) {
                    let v = Validation::default();
                    (ServerState::Failed(HandlerError::PasswordsDontMatch), Self::reply_validation(v))
                } else if is_absolute(req.path.as_str()) {
                    let v = Validation {
                        password: MatchStatus::Match,
                        hash: MatchStatus::Mismatch,
                        path: PathStatus::AbsolutePath,
                    };
                    (
                        ServerState::Failed(HandlerError::PathValidation(PathStatus::AbsolutePath)),
                        Self::reply_validation(v),
                    )
                } else if has_parent_components(req.path.as_str()) {
                    let v = Validation {
                        password: MatchStatus::Match,
                        hash: MatchStatus::Mismatch,
                        path: PathStatus::InvalidComponents,
                    };
                    (
                        ServerState::Failed(
                            HandlerError::PathValidation(PathStatus::InvalidComponents),
                        ),
                        Self::reply_validation(v),
                    )
                } else {
                    (ServerState::ResolvePath(req), None)
                }
            },
        }
    }

    /// Takes one event; returns the framed reply to send, if any, and
    /// moves to the next state.
    pub fn step(&mut self, event: ServerEvent) -> (reply: Option<Vec<u8>>)
        requires
            old(self).wf(),
        ensures
            final(self).wf(),
            final(self).password_digest() == old(self).password_digest(),
            final(self).version() == old(self).version(),
            final(self).working_dir() == old(self).working_dir(),
            (final(self).phase(), opt_view(reply)) == server_next(
                old(self).password_digest(),
                old(self).version(),
                old(self).working_dir(),
                old(self).phase(),
                event@,
            ),
    {
        let mut st = ServerState::AwaitVersion;
        std::mem::swap(&mut st, &mut self.state);
        let (next, reply) = match (st, event) {
            (ServerState::AwaitVersion, ServerEvent::Received(b)) => self.on_version(&b),
            (ServerState::AwaitRequest, ServerEvent::Received(b)) => self.on_request(&b),
            (ServerState::ResolvePath(req), ServerEvent::Resolved(res)) => {
                match resolve_and_validate(req.path.as_str(), self.working_dir.as_str(), &res) {
                    Err(e) => {
                        let v = Validation {
                            password: MatchStatus::Match,
                            hash: MatchStatus::Mismatch,
                            path: e,
                        };
                        (ServerState::Failed(HandlerError::PathValidation(e)), Self::reply_validation(v))
                    },
                    Ok(p) => (ServerState::CheckHash(req, p), None),
                }
            },
            (ServerState::CheckHash(req, p), ServerEvent::ExistingDigest(d)) => {
                let same = match d {
                    Some(h) => h == req.hash,
                    None => false,
                };
                if same {
                    let v = Validation {
                        password: MatchStatus::Match,
                        hash: MatchStatus::Match,
                        path: PathStatus::Valid,
                    };
                    (ServerState::Finish(req, p), Self::reply_validation(v))
                } else {
                    let v = Validation {
                        password: MatchStatus::Match,
                        hash: MatchStatus::Mismatch,
                        path: PathStatus::Valid,
                    };
                    (ServerState::ReceiveBody(req, p), Self::reply_validation(v))
                }
            },
            (ServerState::ReceiveBody(req, p), ServerEvent::BodyStored) => (
                ServerState::Finish(req, p),
                None,
            ),
            (s, _) => (s, None),
        };
        self.state = next;
        reply
    }
}

/// The command that starts a program directly.
pub open spec fn direct_command(path: Seq<char>) -> Seq<char> {
    seq!['.', '/'] + path
}

/// How to start the program at a confined path: the program to spawn and
/// its arguments. Directly as `./<path>`; through the wrapper as
/// `brickrun -r ./<path>`.
pub fn run_command(path: &str, brickrun: bool) -> (r: (String, Vec<String>))
    ensures
        !brickrun ==> r.0@ == direct_command(path@) && r.1@.len() == 0,
        brickrun ==> r.0@ == seq!['b', 'r', 'i', 'c', 'k', 'r', 'u', 'n'] && r.1@.len() == 2
            && r.1@[0]@ == seq!['-', 'r'] && r.1@[1]@ == direct_command(path@),
{
    let mut target = String::new();
    push_char(&mut target, '.');
    push_char(&mut target, '/');
    let rest = path.to_owned();
    append_str(&mut target, &rest);
    assert(target@ =~= direct_command(path@));
    if brickrun {
        let mut program = String::new();
        let name = chars_of("brickrun");
        proof {
            reveal_strlit("brickrun");
        }
        let mut i: usize = 0;
        while i < name.len()
            invariant
                i <= name@.len(),
                program@ == name@.take(i as int),
            decreases name@.len() - i,
        {
            push_char(&mut program, name[i]);
            i = i + 1;
            assert(program@ =~= name@.take(i as int));
        }
        assert(program@ =~= seq!['b', 'r', 'i', 'c', 'k', 'r', 'u', 'n']);
        let mut flag = String::new();
        push_char(&mut flag, '-');
        push_char(&mut flag, 'r');
        assert(flag@ =~= seq!['-', 'r']);
        let mut args: Vec<String> = Vec::new();
        args.push(flag);
        args.push(target);
        (program, args)
    } else {
        (target, Vec::new())
    }
}

} // verus!
