//! Messages exchanged by client and server, and their mathematical models.
use vstd::prelude::*;

verus! {

/// First message of a session: the client's protocol version.
#[derive(Debug, Clone, PartialEq, Eq, PartialOrd, Ord)]
pub struct VersionHeader(pub String);

/// The server's answer to a [`VersionHeader`].
#[derive(Debug, Clone, PartialEq, Eq, PartialOrd, Ord)]
pub struct VersionResponse(pub VersionStatus);

/// Whether the peer versions agree; on a mismatch it carries the server's version.
#[derive(Debug, Clone, PartialEq, Eq, PartialOrd, Ord)]
pub enum VersionStatus {
    Match,
    Mismatch(String),
}

/// The single request a client sends per connection. It has no `Debug`, so
/// that the password digest does not end up in logs.
#[derive(Clone, PartialEq, Eq, PartialOrd, Ord)]
pub struct Request {
    pub action: Action,
    /// Destination path, relative to the server's working directory.
    pub path: String,
    /// Number of file bytes, as the client states it.
    pub size: u64,
    /// Content digest of the local file.
    pub hash: u64,
    /// Digest of the shared password.
    pub password: [u8; 32],
    /// Whether the file body is compressed before framing.
    pub use_compression: bool,
    /// Protocol version of the client.
    pub version: String,
}

/// What the server does once the file is in place.
#[derive(Debug, Clone, Copy, PartialEq, Eq, PartialOrd, Ord, Structural)]
pub enum Action {
    Upload,
    /// Run the file; `true` starts it through the wrapper command.
    Run(bool),
}

/// The server's verdict on a request.
#[derive(Debug, Clone, Copy, PartialEq, Eq, PartialOrd, Ord, Structural)]
pub struct Validation {
    pub password: MatchStatus,
    pub hash: MatchStatus,
    pub path: PathStatus,
}

#[derive(Debug, Clone, Copy, PartialEq, Eq, PartialOrd, Ord, Structural)]
pub enum MatchStatus {
    Match,
    Mismatch,
}

/// Outcome of confining a client-supplied path to the working directory.
#[derive(Debug, Clone, Copy, PartialEq, Eq, PartialOrd, Ord, Structural)]
pub enum PathStatus {
    Valid,
    InvalidComponents,
    AbsolutePath,
    EscapesWorkingDir,
    CanonicalizationFailed,
}

impl Default for Validation {
    /// Nothing checked yet: password and hash mismatch, path valid.
    fn default() -> (v: Self)
        ensures
            v == Validation::initial(),
    {
        Validation {
            password: MatchStatus::Mismatch,
            hash: MatchStatus::Mismatch,
            path: PathStatus::Valid,
        }
    }
}

impl Validation {
    pub open spec fn initial() -> Validation {
        Validation {
            password: MatchStatus::Mismatch,
            hash: MatchStatus::Mismatch,
            path: PathStatus::Valid,
        }
    }
}

/// Mathematical model of a [`Request`].
pub struct RequestModel {
    pub action: Action,
    pub path: Seq<char>,
    pub size: u64,
    pub hash: u64,
    pub password: Seq<u8>,
    pub use_compression: bool,
    pub version: Seq<char>,
}

impl View for Request {
    type V = RequestModel;

    open spec fn view(&self) -> RequestModel {
        RequestModel {
            action: self.action,
            path: self.path@,
            size: self.size,
            hash: self.hash,
            password: self.password@,
            use_compression: self.use_compression,
            version: self.version@,
        }
    }
}

/// Mathematical model of a [`VersionStatus`].
pub enum VersionStatusModel {
    Match,
    Mismatch(Seq<char>),
}

impl View for VersionStatus {
    type V = VersionStatusModel;

    open spec fn view(&self) -> VersionStatusModel {
        match self {
            VersionStatus::Match => VersionStatusModel::Match,
            VersionStatus::Mismatch(s) => VersionStatusModel::Mismatch(s@),
        }
    }
}

impl View for VersionResponse {
    type V = VersionStatusModel;

    open spec fn view(&self) -> VersionStatusModel {
        self.0@
    }
}

impl View for VersionHeader {
    type V = Seq<char>;

    open spec fn view(&self) -> Seq<char> {
        self.0@
    }
}

} // verus!
