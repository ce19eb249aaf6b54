//! Configuration, as the command line gives it.
use vstd::prelude::*;

verus! {

/// Everything the command line holds.
pub struct Cli {
    /// How many times `-v` was given.
    pub verbose: u8,
    pub command: Commands,
}

pub enum Commands {
    /// Serve uploads (typically on the robot).
    Server(Server),
    /// Upload to a server (on the development machine).
    Client(Client),
}

pub struct Client {
    pub action: Action,
}

/// What the client asks for.
pub enum Action {
    /// Upload a file without running it.
    Upload(ClientArgs),
    /// Upload a file and run it, relaying its output.
    Run(ClientArgs),
}

pub struct ClientArgs {
    /// The local file to upload.
    pub filepath: String,
    /// Server address, as `host:port`.
    pub host: String,
    /// Where to put the file on the server; the local file name if absent.
    pub remote_path: Option<String>,
    pub password: String,
    /// Start the program through the wrapper command.
    pub brickrun: bool,
    /// Compress the file for transfer.
    pub compression: bool,
}

pub struct Server {
    pub server_port: u16,
    pub password: String,
}

} // verus!
