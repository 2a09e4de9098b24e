//! The error taxonomy of the proxy core.
//!
//! Only configuration errors are fatal to the process; every other variant is
//! isolated to the request that raised it.

use vstd::prelude::*;

verus! {

/// What can go wrong between receiving a request and answering it.
#[derive(Clone, Copy, Debug, PartialEq, Eq, Structural)]
pub enum Error {
    /// Startup configuration is missing or invalid; the server cannot start.
    ConfigurationError,
    /// A caller-supplied field is missing or unparsable; no engine call is made.
    InvalidParameters,
    /// The coverage-search resolution is outside the supported bounds; no
    /// engine call is made.
    InvalidResolution,
    /// The engine subprocess could not be reached (spawn or pipe failure).
    EngineUnavailable,
    /// The engine's output did not parse as a response of the expected shape.
    MalformedResponse,
}

impl Error {
    /// A human-readable description, for the HTTP boundary to report.
    pub fn message(&self) -> (r: &'static str)
        ensures
            r@ == self.message_spec(),
    {
        match self {
            Error::ConfigurationError => "missing or invalid startup configuration",
            Error::InvalidParameters => "missing or unparsable request parameter",
            Error::InvalidResolution => "resolution outside the supported range",
            Error::EngineUnavailable => "engine process unavailable",
            Error::MalformedResponse => "malformed engine response",
        }
    }

    /// The text that [`Error::message`] returns for each variant.
    pub open spec fn message_spec(self) -> Seq<char> {
        match self {
            Error::ConfigurationError => "missing or invalid startup configuration"@,
            Error::InvalidParameters => "missing or unparsable request parameter"@,
            Error::InvalidResolution => "resolution outside the supported range"@,
            Error::EngineUnavailable => "engine process unavailable"@,
            Error::MalformedResponse => "malformed engine response"@,
        }
    }
}

} // verus!
