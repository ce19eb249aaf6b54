//! Deploys a program to a remote controller over one TCP connection: the
//! message types, their wire encoding, the chunked file framing, path
//! confinement, content hashing and the client and server session state
//! machines. Sockets, files and processes are driven by the caller.

pub mod cli;
pub mod client;
pub mod codec;
pub mod hash;
pub mod path;
pub mod protocol;
pub mod server;
pub mod stream_framer;
pub mod transfer;
