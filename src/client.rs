//! The client side of a session, as a state machine.
//!
//! The caller owns the socket and the local file. It feeds the session each
//! event, writes out the framed message that the session returns, and then
//! does what the session's new state asks for.
use crate::cli::{Action as CliAction, Client, ClientArgs};
use crate::codec::{
    decode_validation, decode_version_response, enc_request, enc_str, enc_validation,
    enc_version_status, encodable_request, encode_request, encode_version_header, frame_message,
    lemma_request_round_trip, lemma_validation_round_trip, lemma_version_header_round_trip,
    lemma_version_status_round_trip, parse_validation, parse_version_status,
};
use crate::hash::{content_digest, password_digest, Hasher};
use crate::path::{append_chars, components, split_components};
use crate::protocol::{
    Action, MatchStatus, PathStatus, Request, RequestModel, Validation, VersionHeader,
    VersionStatus, VersionStatusModel,
};
use crate::server::{
    framed, opt_view, server_next, validation_reply, HandlerErrorModel, ServerEventModel,
    ServerPhase,
};
use vstd::prelude::*;
use vstd::utf8::encode_utf8;

verus! {

/// The protocol version of this library.
pub const VERSION: &'static str = "0.1.0";

/// Why a session ended early on the client.
#[derive(Debug, Clone)]
pub enum ClientError {
    /// The local path names no file.
    PathNotValid(String),
    /// The server refused the remote path.
    RemotePath(PathStatus),
    PasswordNotValid,
    /// The versions differ; carries the server's version.
    VersionMismatch(String),
    /// A message from the server could not be decoded.
    Decode,
    /// A message is too long for its length header.
    Encode,
}

pub enum ClientErrorModel {
    PathNotValid(Seq<char>),
    RemotePath(PathStatus),
    PasswordNotValid,
    VersionMismatch(Seq<char>),
    Decode,
    Encode,
}

impl View for ClientError {
    type V = ClientErrorModel;

    open spec fn view(&self) -> ClientErrorModel {
        match self {
            ClientError::PathNotValid(p) => ClientErrorModel::PathNotValid(p@),
            ClientError::RemotePath(p) => ClientErrorModel::RemotePath(*p),
            ClientError::PasswordNotValid => ClientErrorModel::PasswordNotValid,
            ClientError::VersionMismatch(v) => ClientErrorModel::VersionMismatch(v@),
            ClientError::Decode => ClientErrorModel::Decode,
            ClientError::Encode => ClientErrorModel::Encode,
        }
    }
}

/// Where a client session stands, and so what the caller does next.
pub enum ClientState {
    /// Connect, then report [`ClientEvent::Connected`].
    Start,
    /// Read the version response and report it as [`ClientEvent::Received`].
    AwaitVersion,
    /// Read the validation and report it as [`ClientEvent::Received`].
    AwaitValidation,
    /// Send the file body (see [`crate::transfer::encode_body`]), then report
    /// [`ClientEvent::BodySent`].
    SendBody,
    /// Relay the program's output until the server closes the stream, then
    /// report [`ClientEvent::OutputEnded`].
    ReceiveOutput,
    /// The session is complete.
    Done,
    /// The session failed; close the connection.
    Failed(ClientError),
}

pub enum ClientPhase {
    Start,
    AwaitVersion,
    AwaitValidation,
    SendBody,
    ReceiveOutput,
    Done,
    Failed(ClientErrorModel),
}

impl View for ClientState {
    type V = ClientPhase;

    open spec fn view(&self) -> ClientPhase {
        match self {
            ClientState::Start => ClientPhase::Start,
            ClientState::AwaitVersion => ClientPhase::AwaitVersion,
            ClientState::AwaitValidation => ClientPhase::AwaitValidation,
            ClientState::SendBody => ClientPhase::SendBody,
            ClientState::ReceiveOutput => ClientPhase::ReceiveOutput,
            ClientState::Done => ClientPhase::Done,
            ClientState::Failed(e) => ClientPhase::Failed(e@),
        }
    }
}

/// What the caller reports to the session.
pub enum ClientEvent {
    Connected,
    /// The payload of a framed message.
    Received(Vec<u8>),
    BodySent,
    OutputEnded,
}

pub enum ClientEventModel {
    Connected,
    Received(Seq<u8>),
    BodySent,
    OutputEnded,
}

impl View for ClientEvent {
    type V = ClientEventModel;

    open spec fn view(&self) -> ClientEventModel {
        match self {
            ClientEvent::Connected => ClientEventModel::Connected,
            ClientEvent::Received(b) => ClientEventModel::Received(b@),
            ClientEvent::BodySent => ClientEventModel::BodySent,
            ClientEvent::OutputEnded => ClientEventModel::OutputEnded,
        }
    }
}

/// Where the session goes once the file is on the server.
pub open spec fn after_upload(a: Action) -> ClientPhase {
    match a {
        Action::Upload => ClientPhase::Done,
        Action::Run(_) => ClientPhase::ReceiveOutput,
    }
}

/// What the client makes of the server's validation.
pub open spec fn on_validation(r: RequestModel, v: Validation) -> ClientPhase {
    if v.password == MatchStatus::Mismatch {
        ClientPhase::Failed(ClientErrorModel::PasswordNotValid)
    } else if v.path != PathStatus::Valid {
        ClientPhase::Failed(ClientErrorModel::RemotePath(v.path))
    } else if v.hash == MatchStatus::Mismatch {
        ClientPhase::SendBody
    } else {
        after_upload(r.action)
    }
}

/// One transition of the client: the next phase and the framed message to
/// send, if any. An event that the phase does not wait for changes nothing.
pub open spec fn client_next(r: RequestModel, version: Seq<char>, s: ClientPhase, e: ClientEventModel) -> (
    ClientPhase,
    Option<Seq<u8>>,
) {
    match (s, e) {
        (ClientPhase::Start, ClientEventModel::Connected) => (
            ClientPhase::AwaitVersion,
            Some(framed(enc_str(version))),
        ),
        (ClientPhase::AwaitVersion, ClientEventModel::Received(b)) => match parse_version_status(
            b,
        ) {
            None => (ClientPhase::Failed(ClientErrorModel::Decode), None),
            Some((VersionStatusModel::Match, _)) => (
                ClientPhase::AwaitValidation,
                Some(framed(enc_request(r))),
            ),
            Some((VersionStatusModel::Mismatch(v), _)) => (
                ClientPhase::Failed(ClientErrorModel::VersionMismatch(v)),
                None,
            ),
        },
        (ClientPhase::AwaitValidation, ClientEventModel::Received(b)) => match parse_validation(
            b,
        ) {
            None => (ClientPhase::Failed(ClientErrorModel::Decode), None),
            Some((v, _)) => (on_validation(r, v), None),
        },
        (ClientPhase::SendBody, ClientEventModel::BodySent) => (after_upload(r.action), None),
        (ClientPhase::ReceiveOutput, ClientEventModel::OutputEnded) => (ClientPhase::Done, None),
        (s, _) => (s, None),
    }
}

/// The name of the last component of a path, unless that is `..`.
pub open spec fn file_name(p: Seq<char>) -> Option<Seq<char>> {
    let cs = components(p);
    if cs.len() == 0 || cs.last() == seq!['.', '.'] {
        None
    } else {
        Some(cs.last())
    }
}

/// The remote path a client asks for: the one given, or else the local file's name.
pub open spec fn remote_path_of(filepath: Seq<char>, remote: Option<Seq<char>>) -> Option<Seq<char>> {
    match remote {
        Some(p) => Some(p),
        None => file_name(filepath),
    }
}

/// One session of a client.
pub struct ClientSession {
    request: Request,
    version: String,
    header_frame: Vec<u8>,
    request_frame: Vec<u8>,
    state: ClientState,
}

impl ClientSession {
    pub closed spec fn wf(&self) -> bool {
        &&& self.header_frame@ == framed(enc_str(self.version@))
        &&& self.request_frame@ == framed(enc_request(self.request@))
    }

    pub closed spec fn phase(&self) -> ClientPhase {
        self.state@
    }

    pub closed spec fn request_model(&self) -> RequestModel {
        self.request@
    }

    pub closed spec fn version(&self) -> Seq<char> {
        self.version@
    }

    /// A session about to connect, that will send `request` after a version
    /// check under `version`. Fails if either message is too long for its
    /// length header.
    pub fn new(request: Request, version: String) -> (r: Result<ClientSession, ClientError>)
        ensures
            match r {
                Ok(s) => s.wf() && s.phase() == ClientPhase::Start && s.request_model() == request@
                    && s.version() == version@,
                Err(e) => e@ == ClientErrorModel::Encode,
            },
            (enc_str(version@).len() <= u32::MAX && enc_request(request@).len() <= u32::MAX)
                ==> r is Ok,
    {
        let header = encode_version_header(&VersionHeader(version.clone()));
        let payload = encode_request(&request);
        if header.len() > 0xffff_ffff || payload.len() > 0xffff_ffff {
            return Err(ClientError::Encode);
        }
        let header_frame = frame_message(header.as_slice());
        let request_frame = frame_message(payload.as_slice());
        Ok(ClientSession { request, version, header_frame, request_frame, state: ClientState::Start })
    }

    /// What the caller must do next.
    pub fn state(&self) -> (s: &ClientState)
        ensures
            s@ == self.phase(),
    {
        &self.state
    }

    /// The request this session sends.
    pub fn request(&self) -> (r: &Request)
        ensures
            r@ == self.request_model(),
    {
        &self.request
    }

    fn after_upload(&self) -> (s: ClientState)
        ensures
            s@ == after_upload(self.request@.action),
    {
        match self.request.action {
            Action::Upload => ClientState::Done,
            Action::Run(_) => ClientState::ReceiveOutput,
        }
    }

    fn validation(&self, v: Validation) -> (s: ClientState)
        ensures
            s@ == on_validation(self.request@, v),
    {
        if v.password == MatchStatus::Mismatch {
            ClientState::Failed(ClientError::PasswordNotValid)
        } else if v.path != PathStatus::Valid {
            ClientState::Failed(ClientError::RemotePath(v.path))
        } else if v.hash == MatchStatus::Mismatch {
            ClientState::SendBody
        } else {
            self.after_upload()
        }
    }

    /// Takes one event; returns the framed message to send, if any, and
    /// moves to the next state.
    pub fn step(&mut self, event: ClientEvent) -> (msg: Option<Vec<u8>>)
        requires
            old(self).wf(),
        ensures
            final(self).wf(),
            final(self).request_model() == old(self).request_model(),
            final(self).version() == old(self).version(),
            (final(self).phase(), opt_view(msg)) == client_next(
                old(self).request_model(),
                old(self).version(),
                old(self).phase(),
                event@,
            ),
    {
        let mut st = ClientState::Start;
        std::mem::swap(&mut st, &mut self.state);
        let (next, msg) = match (st, event) {
            (ClientState::Start, ClientEvent::Connected) => (
                ClientState::AwaitVersion,
                Some(self.header_frame.clone()),
            ),
            (ClientState::AwaitVersion, ClientEvent::Received(b)) => {
                match decode_version_response(b.as_slice()) {
                    None => (ClientState::Failed(ClientError::Decode), None),
                    Some(resp) => match resp.0 {
                        VersionStatus::Match => (
                            ClientState::AwaitValidation,
                            Some(self.request_frame.clone()),
                        ),
                        VersionStatus::Mismatch(v) => (
                            ClientState::Failed(ClientError::VersionMismatch(v)),
                            None,
                        ),
                    },
                }
            },
            (ClientState::AwaitValidation, ClientEvent::Received(b)) => {
                match decode_validation(b.as_slice()) {
                    None => (ClientState::Failed(ClientError::Decode), None),
                    Some(v) => (self.validation(v), None),
                }
            },
            (ClientState::SendBody, ClientEvent::BodySent) => (self.after_upload(), None),
            (ClientState::ReceiveOutput, ClientEvent::OutputEnded) => (ClientState::Done, None),
            (s, _) => (s, None),
        };
        self.state = next;
        msg
    }
}

/// The name of the last component of a path, unless that is `..`.
pub fn file_name_of(path: &str) -> (r: Option<String>)
    ensures
        match file_name(path@) {
            Some(n) => r matches Some(s) && s@ == n,
            None => r is None,
        },
{
    let mut cs = split_components(path);
    match cs.pop() {
        None => None,
        Some(last) => {
            if last.len() == 2 && last[0] == '.' && last[1] == '.' {
                assert(last@ =~= seq!['.', '.']);
                None
            } else {
                let mut s = String::new();
                append_chars(&mut s, &last);
                Some(s)
            }
        },
    }
}

pub open spec fn opt_string(s: Option<String>) -> Option<Seq<char>> {
    match s {
        Some(p) => Some(p@),
        None => None,
    }
}

/// The request that a client builds for a local file with the given
/// contents, or `None` if no remote path is given and the local path names
/// no file.
pub open spec fn request_for(args: ClientArgs, action: Action, contents: Seq<u8>) -> Option<
    RequestModel,
> {
    match remote_path_of(args.filepath@, opt_string(args.remote_path)) {
        Some(p) => Some(
            RequestModel {
                action,
                path: p,
                size: contents.len() as u64,
                hash: content_digest(contents),
                password: password_digest(args.password@),
                use_compression: args.compression,
                version: VERSION@,
            },
        ),
        None => None,
    }
}

/// Whether both messages of a session fit their length headers.
pub open spec fn fits_frames(r: RequestModel) -> bool {
    enc_str(r.version).len() <= u32::MAX && enc_request(r).len() <= u32::MAX
}

/// The protocol action and arguments that a command-line action stands for.
pub open spec fn action_of(a: CliAction) -> (Action, ClientArgs) {
    match a {
        CliAction::Upload(args) => (Action::Upload, args),
        CliAction::Run(args) => (Action::Run(args.brickrun), args),
    }
}

/// The request that a client builds for a local file with the given contents.
pub fn setup(args: &ClientArgs, action: Action, contents: &[u8]) -> (r: Result<Request, ClientError>)
    ensures
        match request_for(*args, action, contents@) {
            Some(m) => r matches Ok(req) && req@ == m,
            None => r matches Err(e) && e@ == ClientErrorModel::PathNotValid(args.filepath@),
        },
{
    let path = match &args.remote_path {
        Some(p) => p.clone(),
        None => match file_name_of(args.filepath.as_str()) {
            Some(n) => n,
            None => return Err(ClientError::PathNotValid(args.filepath.clone())),
        },
    };
    let hash = Hasher::hash_file(contents);
    let password = Hasher::hash_password(args.password.as_str());
    Ok(Request {
        action,
        path,
        size: contents.len() as u64,
        hash,
        password,
        use_compression: args.compression,
        version: VERSION.to_owned(),
    })
}

/// Starts a client session for the command line's action on a local file
/// with the given contents: the action is `Upload`, or `Run` through the
/// wrapper command if asked.
pub fn client(config: Client, contents: &[u8]) -> (r: Result<ClientSession, ClientError>)
    ensures
        ({
            let (action, args) = action_of(config.action);
            match request_for(args, action, contents@) {
                None => r matches Err(e) && e@ == ClientErrorModel::PathNotValid(args.filepath@),
                Some(m) => {
                    &&& fits_frames(m) ==> r is Ok
                    &&& r matches Ok(s) ==> s.wf() && s.phase() == ClientPhase::Start
                        && s.request_model() == m && s.version() == VERSION@
                    &&& r matches Err(e) ==> e@ == ClientErrorModel::Encode
                },
            }
        }),
{
    let (action, args) = match config.action {
        CliAction::Upload(args) => (Action::Upload, args),
        CliAction::Run(args) => (Action::Run(args.brickrun), args),
    };
    let request = setup(&args, action, contents)?;
    ClientSession::new(request, VERSION.to_owned())
}

/// Deduplication: when the file already at the confined path holds the
/// same bytes as the client's file, the server reports matching hashes and
/// goes on to finish without a body, and the client, reading that report,
/// sends no file bytes and goes where a completed upload goes.
pub proof fn lemma_unchanged_file_not_resent(
    contents: Seq<u8>,
    existing: Seq<u8>,
    r: RequestModel,
    path: Seq<char>,
    password: Seq<u8>,
    version: Seq<char>,
    working_dir: Seq<char>,
)
    requires
        r.hash == content_digest(contents),
        existing == contents,
    ensures
        ({
            let v = Validation {
                password: MatchStatus::Match,
                hash: MatchStatus::Match,
                path: PathStatus::Valid,
            };
            let (s, reply) = server_next(
                password,
                version,
                working_dir,
                ServerPhase::CheckHash(r, path),
                ServerEventModel::ExistingDigest(Some(content_digest(existing))),
            );
            let (c, msg) = client_next(
                r,
                version,
                ClientPhase::AwaitValidation,
                ClientEventModel::Received(enc_validation(v)),
            );
            &&& s == ServerPhase::Finish(r, path)
            &&& reply == validation_reply(v)
            &&& c != ClientPhase::SendBody
            &&& c == after_upload(r.action)
            &&& msg is None
        }),
{
    let v = Validation {
        password: MatchStatus::Match,
        hash: MatchStatus::Match,
        path: PathStatus::Valid,
    };
    lemma_validation_round_trip(v, Seq::empty());
    assert(enc_validation(v) + Seq::<u8>::empty() =~= enc_validation(v));
}

/// Version mismatch: when the client declares a version other than the
/// server's, the server answers with a mismatch that carries its own
/// version and fails; the client, reading that answer, fails with the
/// server's version and sends nothing, so no request ever leaves it. Neither
/// side takes any further event.
pub proof fn lemma_version_mismatch_ends_session(
    client_version: Seq<char>,
    server_version: Seq<char>,
    r: RequestModel,
    password: Seq<u8>,
    working_dir: Seq<char>,
)
    requires
        client_version != server_version,
        encode_utf8(client_version).len() <= u64::MAX,
        encode_utf8(server_version).len() <= u64::MAX,
    ensures
        ({
            let answer = enc_version_status(VersionStatusModel::Mismatch(server_version));
            let (s, reply) = server_next(
                password,
                server_version,
                working_dir,
                ServerPhase::AwaitVersion,
                ServerEventModel::Received(enc_str(client_version)),
            );
            let (c, msg) = client_next(
                r,
                client_version,
                ClientPhase::AwaitVersion,
                ClientEventModel::Received(answer),
            );
            &&& s == ServerPhase::Failed(HandlerErrorModel::VersionMismatch(server_version))
            &&& reply == Some(framed(answer))
            &&& c == ClientPhase::Failed(ClientErrorModel::VersionMismatch(server_version))
            &&& msg is None
            &&& forall|e: ServerEventModel|
                #[trigger] server_next(password, server_version, working_dir, s, e) == (
                    s,
                    None::<Seq<u8>>,
                )
            &&& forall|e: ClientEventModel| #[trigger] client_next(r, client_version, c, e) == (
                c,
                None::<Seq<u8>>,
            )
        }),
{
    lemma_version_header_round_trip(client_version, Seq::empty());
    assert(enc_str(client_version) + Seq::<u8>::empty() =~= enc_str(client_version));
    let answer = enc_version_status(VersionStatusModel::Mismatch(server_version));
    lemma_version_status_round_trip(VersionStatusModel::Mismatch(server_version), Seq::empty());
    assert(answer + Seq::<u8>::empty() =~= answer);
}

/// Password mismatch: a well-formed request whose password digest differs
/// from the server's makes the server answer with the initial validation
/// (password and hash mismatch, path valid) and fail before any path is
/// resolved, any file hashed or any body received, since a failed server
/// takes no further event. The client, reading that answer, fails and sends
/// no file bytes.
pub proof fn lemma_wrong_password_ends_session(
    r: RequestModel,
    password: Seq<u8>,
    version: Seq<char>,
    working_dir: Seq<char>,
)
    requires
        encodable_request(r),
        r.password != password,
    ensures
        ({
            let (s, reply) = server_next(
                password,
                version,
                working_dir,
                ServerPhase::AwaitRequest,
                ServerEventModel::Received(enc_request(r)),
            );
            let (c, msg) = client_next(
                r,
                version,
                ClientPhase::AwaitValidation,
                ClientEventModel::Received(enc_validation(Validation::initial())),
            );
            &&& s == ServerPhase::Failed(HandlerErrorModel::PasswordsDontMatch)
            &&& reply == validation_reply(Validation::initial())
            &&& forall|e: ServerEventModel|
                #[trigger] server_next(password, version, working_dir, s, e) == (
                    s,
                    None::<Seq<u8>>,
                )
            &&& c == ClientPhase::Failed(ClientErrorModel::PasswordNotValid)
            &&& msg is None
        }),
{
    lemma_request_round_trip(r, Seq::empty());
    assert(enc_request(r) + Seq::<u8>::empty() =~= enc_request(r));
    lemma_validation_round_trip(Validation::initial(), Seq::empty());
    assert(enc_validation(Validation::initial()) + Seq::<u8>::empty() =~= enc_validation(
        Validation::initial(),
    ));
}

} // verus!
