//! Startup configuration and the server subcommand marker.

use crate::error::Error;
use vstd::prelude::*;

verus! {

/// The subcommand that runs the HTTP server in front of the engine.
pub struct Server {}

/// Static configuration, read once at process start.
pub struct Config {
    /// Path of the engine executable that each request is spoken to.
    pub exec_path: String,
    /// Path of the terrain and elevation source data handed to the engine.
    pub terrain_path: String,
    /// Whether the engine runs without terrain data, for debugging.
    pub debug: bool,
}

impl Config {
    /// Validates startup configuration.  The engine executable path is
    /// required: without it the server must not start.  The terrain path is
    /// optional; leaving it out switches the engine into debug mode.
    pub fn new(exec_path: Option<String>, terrain_path: Option<String>) -> (r: Result<
        Config,
        Error,
    >)
        ensures
            r is Err <==> exec_path is None,
            r is Err ==> r == Result::<Config, Error>::Err(Error::ConfigurationError),
            r matches Ok(c) ==> {
                &&& exec_path matches Some(e) && c.exec_path@ == e@
                &&& c.debug == (terrain_path is None)
                &&& terrain_path matches Some(t) ==> c.terrain_path@ == t@
            },
    {
        match exec_path {
            None => Err(Error::ConfigurationError),
            Some(e) => {
                match terrain_path {
                    Some(t) => Ok(Config { exec_path: e, terrain_path: t, debug: false }),
                    None => Ok(
                        Config {
                            exec_path: e,
                            terrain_path: String::new(),
                            debug: true,
                        },
                    ),
                }
            },
        }
    }
}

} // verus!
