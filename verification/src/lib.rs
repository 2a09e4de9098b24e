//! A verified core for a line-oriented proxy in front of an external
//! radio-propagation engine.
//!
//! The library owns the text protocol spoken with the engine — encoding a
//! parameter set into a single request line and decoding the engine's
//! textual response — together with the hex-ring coverage search that drives
//! repeated engine calls outward from an origin cell.  The engine itself is
//! an opaque sampler reached through the [`engine::Engine`] trait; process
//! handling and the HTTP surface live outside this crate.

pub mod dec;
pub mod digits;
pub mod engine;
pub mod error;
pub mod h3;
pub mod params;
pub mod response;
pub mod search;
pub mod server;

use vstd::prelude::*;

verus! {

/// Command-line surface of the proxy: the one subcommand starts the server.
pub struct Cli {
    pub cmd: Cmd,
}

/// Subcommands the proxy accepts.
pub enum Cmd {
    Server(server::Server),
}

} // verus!
