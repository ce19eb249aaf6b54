use ev3_runner::cli::{Action as CliAction, Client, ClientArgs};
use ev3_runner::client::{client, ClientError, ClientEvent, ClientSession, ClientState, VERSION};
use ev3_runner::codec::{decode_validation, decode_version_response, encode_request};
use ev3_runner::hash::Hasher;
use ev3_runner::path::Resolution;
use ev3_runner::protocol::{
    Action, MatchStatus, PathStatus, Request, Validation, VersionResponse, VersionStatus,
};
use ev3_runner::server::{run_command, ClientHandler, HandlerError, ServerEvent, ServerState};
use ev3_runner::transfer::{decode_body, encode_body, read_body};

const WD: &str = "/home/robot";

fn payload(frame: &[u8]) -> Vec<u8> {
    let n = u32::from_be_bytes([frame[0], frame[1], frame[2], frame[3]]) as usize;
    assert_eq!(frame.len(), 4 + n);
    frame[4..].to_vec()
}

fn args(path: &str, password: &str) -> ClientArgs {
    ClientArgs {
        filepath: path.to_string(),
        host: "127.0.0.1:6767".to_string(),
        remote_path: None,
        password: password.to_string(),
        brickrun: false,
        compression: false,
    }
}

fn handler(password: &str, version: &str) -> ClientHandler {
    ClientHandler::new(Hasher::hash_password(password), version.to_string(), WD.to_string())
}

/// Runs both sides until the server wants the body, finishes or fails.
/// Returns the number of body bytes that travelled.
fn exchange(session: &mut ClientSession, server: &mut ClientHandler, contents: &[u8], existing: Option<&[u8]>) -> usize {
    let header = session.step(ClientEvent::Connected).unwrap();
    let reply = server.step(ServerEvent::Received(payload(&header))).unwrap();
    let req = session.step(ClientEvent::Received(payload(&reply)));
    let req = match req {
        Some(r) => r,
        None => return 0,
    };
    let reply = server.step(ServerEvent::Received(payload(&req)));
    if let Some(r) = reply {
        session.step(ClientEvent::Received(payload(&r)));
        return 0;
    }
    assert!(server.step(ServerEvent::Resolved(Resolution::Parent(Some(WD.to_string())))).is_none());
    let digest = existing.map(Hasher::hash_file);
    let reply = server.step(ServerEvent::ExistingDigest(digest)).unwrap();
    session.step(ClientEvent::Received(payload(&reply)));
    let mut sent = 0;
    if matches!(session.state(), ClientState::SendBody) {
        let body = encode_body(contents, session.request().use_compression);
        sent = body.len();
        let (data, used) = read_body(&body).unwrap();
        assert_eq!(used, body.len());
        assert_eq!(decode_body(data, session.request().use_compression).unwrap(), contents);
        assert!(server.step(ServerEvent::BodyStored).is_none());
        session.step(ClientEvent::BodySent);
    }
    sent
}

#[test]
fn version_mismatch_is_fatal_and_no_request_is_sent() {
    let contents = vec![1u8, 2, 3];
    let req = ev3_runner::client::setup(&args("prog", "maker"), Action::Upload, &contents).unwrap();
    let mut session = ClientSession::new(req, "1.0.0".to_string()).unwrap();
    let mut server = handler("maker", "1.1.0");
    let header = session.step(ClientEvent::Connected).unwrap();
    let reply = server.step(ServerEvent::Received(payload(&header))).unwrap();
    assert_eq!(
        decode_version_response(&payload(&reply)),
        Some(VersionResponse(VersionStatus::Mismatch("1.1.0".to_string())))
    );
    assert!(matches!(server.state(), ServerState::Failed(HandlerError::VersionMismatch(v)) if v == "1.1.0"));
    let next = session.step(ClientEvent::Received(payload(&reply)));
    assert!(next.is_none());
    assert!(matches!(session.state(), ClientState::Failed(ClientError::VersionMismatch(v)) if v == "1.1.0"));
}

#[test]
fn password_mismatch_stops_before_any_check() {
    let contents = vec![9u8; 10];
    let mut session = client(Client { action: CliAction::Upload(args("prog", "wrong")) }, &contents).unwrap();
    let mut server = handler("maker", VERSION);
    let header = session.step(ClientEvent::Connected).unwrap();
    let reply = server.step(ServerEvent::Received(payload(&header))).unwrap();
    let req = session.step(ClientEvent::Received(payload(&reply))).unwrap();
    let verdict = server.step(ServerEvent::Received(payload(&req))).unwrap();
    assert_eq!(
        decode_validation(&payload(&verdict)),
        Some(Validation { password: MatchStatus::Mismatch, hash: MatchStatus::Mismatch, path: PathStatus::Valid })
    );
    assert!(matches!(server.state(), ServerState::Failed(HandlerError::PasswordsDontMatch)));
    // the handler ignores anything further
    assert!(server.step(ServerEvent::ExistingDigest(Some(1))).is_none());
    assert!(matches!(server.state(), ServerState::Failed(HandlerError::PasswordsDontMatch)));
    session.step(ClientEvent::Received(payload(&verdict)));
    assert!(matches!(session.state(), ClientState::Failed(ClientError::PasswordNotValid)));
}

#[test]
fn unchanged_ten_megabyte_file_is_not_sent() {
    let contents: Vec<u8> = (0..10 * 1024 * 1024u32).map(|i| (i % 199) as u8).collect();
    let config = Client { action: CliAction::Upload(args("target/prog.bin", "maker")) };
    let mut session = client(config, &contents).unwrap();
    assert_eq!(session.request().path, "prog.bin");
    let mut server = handler("maker", VERSION);
    let sent = exchange(&mut session, &mut server, &contents, Some(&contents));
    assert_eq!(sent, 0);
    assert!(matches!(session.state(), ClientState::Done));
    assert!(matches!(server.state(), ServerState::Finish(_, p) if p == "prog.bin"));
}

#[test]
fn upload_twice_sends_the_body_once() {
    let contents: Vec<u8> = (0..50_000u32).map(|i| (i % 7) as u8).collect();
    let mut first = client(Client { action: CliAction::Upload(args("prog", "maker")) }, &contents).unwrap();
    let mut server = handler("maker", VERSION);
    let sent = exchange(&mut first, &mut server, &contents, None);
    assert!(sent > contents.len());
    assert!(matches!(first.state(), ClientState::Done));
    let mut second = client(Client { action: CliAction::Upload(args("prog", "maker")) }, &contents).unwrap();
    let mut server = handler("maker", VERSION);
    assert_eq!(exchange(&mut second, &mut server, &contents, Some(&contents)), 0);
}

#[test]
fn changed_file_is_sent_and_run() {
    let contents = vec![4u8; 1000];
    let mut a = args("prog", "maker");
    a.compression = true;
    a.brickrun = true;
    let mut session = client(Client { action: CliAction::Run(a) }, &contents).unwrap();
    assert_eq!(session.request().action, Action::Run(true));
    let mut server = handler("maker", VERSION);
    let old = vec![5u8; 1000];
    let sent = exchange(&mut session, &mut server, &contents, Some(&old));
    assert!(sent > 0);
    assert!(matches!(session.state(), ClientState::ReceiveOutput));
    assert!(matches!(server.state(), ServerState::Finish(r, _) if r.action == Action::Run(true)));
    session.step(ClientEvent::OutputEnded);
    assert!(matches!(session.state(), ClientState::Done));
}

#[test]
fn server_rejects_bad_paths_with_their_status() {
    for (path, status) in [("/etc/passwd", PathStatus::AbsolutePath), ("../etc/passwd", PathStatus::InvalidComponents)] {
        let mut server = handler("maker", VERSION);
        let header = ev3_runner::codec::encode_version_header(&ev3_runner::protocol::VersionHeader(VERSION.to_string()));
        server.step(ServerEvent::Received(header));
        let req = Request {
            action: Action::Upload,
            path: path.to_string(),
            size: 0,
            hash: 0,
            password: Hasher::hash_password("maker"),
            use_compression: false,
            version: VERSION.to_string(),
        };
        let verdict = server.step(ServerEvent::Received(encode_request(&req))).unwrap();
        let v = decode_validation(&payload(&verdict)).unwrap();
        assert_eq!(v, Validation { password: MatchStatus::Match, hash: MatchStatus::Mismatch, path: status });
        assert!(matches!(server.state(), ServerState::Failed(HandlerError::PathValidation(s)) if *s == status));
        let mut session = ClientSession::new(req, VERSION.to_string()).unwrap();
        session.step(ClientEvent::Connected);
        session.step(ClientEvent::Received(vec![0]));
        session.step(ClientEvent::Received(payload(&verdict)));
        assert!(matches!(session.state(), ClientState::Failed(ClientError::RemotePath(s)) if *s == status));
    }
}

#[test]
fn server_reports_escape_after_resolution() {
    let mut server = handler("maker", VERSION);
    server.step(ServerEvent::Received(ev3_runner::codec::encode_version_header(&ev3_runner::protocol::VersionHeader(VERSION.to_string()))));
    let req = Request {
        action: Action::Upload,
        path: "link".to_string(),
        size: 0,
        hash: 0,
        password: Hasher::hash_password("maker"),
        use_compression: false,
        version: VERSION.to_string(),
    };
    assert!(server.step(ServerEvent::Received(encode_request(&req))).is_none());
    assert!(matches!(server.state(), ServerState::ResolvePath(_)));
    let verdict = server.step(ServerEvent::Resolved(Resolution::Existing(Some("/etc".to_string())))).unwrap();
    assert_eq!(decode_validation(&payload(&verdict)).unwrap().path, PathStatus::EscapesWorkingDir);
}

#[test]
fn garbage_messages_fail_decoding() {
    let mut server = handler("maker", VERSION);
    assert!(server.step(ServerEvent::Received(vec![200])).is_none());
    assert!(matches!(server.state(), ServerState::Failed(HandlerError::Decode)));
    let req = ev3_runner::client::setup(&args("p", "maker"), Action::Upload, &[1]).unwrap();
    let mut session = ClientSession::new(req, VERSION.to_string()).unwrap();
    session.step(ClientEvent::Connected);
    session.step(ClientEvent::Received(vec![7]));
    assert!(matches!(session.state(), ClientState::Failed(ClientError::Decode)));
}

#[test]
fn local_path_without_a_name_is_refused() {
    let r = client(Client { action: CliAction::Upload(args("dir/..", "maker")) }, &[1]);
    assert!(matches!(r, Err(ClientError::PathNotValid(p)) if p == "dir/.."));
    let mut a = args("dir/..", "maker");
    a.remote_path = Some("named".to_string());
    let r = client(Client { action: CliAction::Upload(a) }, &[1]).unwrap();
    assert_eq!(r.request().path, "named");
    assert_eq!(r.request().size, 1);
    assert_eq!(r.request().hash, Hasher::hash_file(&[1]));
    assert_eq!(r.request().password, Hasher::hash_password("maker"));
}

#[test]
fn run_commands() {
    let (p, a) = run_command("bin/prog", false);
    assert_eq!(p, "./bin/prog");
    assert!(a.is_empty());
    let (p, a) = run_command("prog", true);
    assert_eq!(p, "brickrun");
    assert_eq!(a, vec!["-r".to_string(), "./prog".to_string()]);
}
