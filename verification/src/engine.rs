//! The narrow interface to the external propagation engine, and the handle
//! that speaks the protocol through it.
//!
//! The engine is an opaque sampler: the library writes one request line and
//! reads back either one response line or a raw byte stream.  How the line
//! travels — a persistent subprocess reused across calls, or a fresh
//! subprocess per call — is the transport's business, behind [`Engine`].

use crate::error::Error;
use crate::params::{H3PlotParams, PathParams, PlotParams};
use crate::response::{decode_path_response, decode_response_spec, PathResponse};
use vstd::prelude::*;

verus! {

/// A transport failure: the engine could not be spawned, written to or read
/// from.  It carries no detail; every such failure is reported alike.
pub struct EngineFault;

/// One exchange with the engine.  Nothing is assumed of what comes back:
/// every caller must cope with any line or byte stream whatsoever.
pub trait Engine {
    /// Sends one request line and reads one response line.
    fn call_line(&mut self, request: &str) -> Result<String, EngineFault>;

    /// Sends one request line and collects the engine's whole output as one
    /// opaque binary payload.
    fn call_raw(&mut self, request: &str) -> Result<Vec<u8>, EngineFault>;
}

/// The handle through which every operation reaches the engine.
pub struct DaemonHandle<E> {
    pub engine: E,
}

impl<E: Engine> DaemonHandle<E> {
    /// Wraps a transport.
    pub fn new(engine: E) -> (r: DaemonHandle<E>)
        ensures
            r == (DaemonHandle { engine }),
    {
        DaemonHandle { engine }
    }

    /// A point-to-point path report: encodes the parameters, makes one
    /// engine exchange, and decodes the three scalar quantities.  Whatever
    /// line the engine answers, the result is its exact decoding: a
    /// malformed answer is an error, never a guess.
    pub fn path(&mut self, params: &PathParams) -> (r: Result<PathResponse, Error>)
        requires
            params.wf(),
        ensures
            r matches Ok(m) ==> m.wf(),
            r matches Err(e) ==> e == Error::EngineUnavailable || e == Error::MalformedResponse,
    {
        let line = params.to_stdout_string();
        let reply = match self.engine.call_line(line.as_str()) {
            Ok(s) => s,
            Err(_) => {
                return Err(Error::EngineUnavailable);
            },
        };
        decode_path_response(reply.as_str())
    }

    /// An image-producing plot: encodes the parameters and hands back the
    /// engine's raw output unparsed.
    pub fn plot(&mut self, params: &PlotParams) -> (r: Result<Vec<u8>, Error>)
        requires
            params.wf(),
        ensures
            r matches Err(e) ==> e == Error::EngineUnavailable,
    {
        let line = params.to_stdout_string();
        match self.engine.call_raw(line.as_str()) {
            Ok(bytes) => Ok(bytes),
            Err(_) => Err(Error::EngineUnavailable),
        }
    }
}

} // verus!
