//! The ways in which handling a connection can fail.

use vstd::prelude::*;

verus! {

/// Why a connection or a response operation failed.
#[derive(Debug, Clone, Copy, PartialEq, Eq, Structural)]
pub enum Error {
    /// I/O on the underlying stream failed.
    TransportFailure,
    /// Fewer bytes arrived than a declared length asked for.
    ProtocolTruncation,
    /// A record header carries a version other than 1.
    ProtocolVersion,
    /// A name-value stream declares a length that runs past its end.
    ParamTruncation,
    /// A write was attempted after the request had been ended.
    ResponseClosed,
}

impl Error {
    /// True for the errors after which the connection has to be dropped.
    pub open spec fn spec_is_fatal(self) -> bool {
        self != Error::ResponseClosed
    }

    /// Whether the connection has to be dropped after this error. Only a write
    /// to a closed response leaves the connection usable.
    #[verifier::when_used_as_spec(spec_is_fatal)]
    pub fn is_fatal(self) -> (fatal: bool)
        ensures
            fatal == self.spec_is_fatal(),
    {
        match self {
            Error::ResponseClosed => false,
            _ => true,
        }
    }

    /// A short description of the error.
    pub fn message(self) -> (text: &'static str)
        ensures
            text@ == self.spec_message(),
    {
        match self {
            Error::TransportFailure => "transport failure",
            Error::ProtocolTruncation => "record shorter than its declared length",
            Error::ProtocolVersion => "unsupported protocol version",
            Error::ParamTruncation => "name-value pair runs past the end of the stream",
            Error::ResponseClosed => "response already closed",
        }
    }

    /// The text that `message` returns for each error.
    pub open spec fn spec_message(self) -> Seq<char> {
        match self {
            Error::TransportFailure => "transport failure"@,
            Error::ProtocolTruncation => "record shorter than its declared length"@,
            Error::ProtocolVersion => "unsupported protocol version"@,
            Error::ParamTruncation => "name-value pair runs past the end of the stream"@,
            Error::ResponseClosed => "response already closed"@,
        }
    }
}

} // verus!
