use vstd::prelude::*;

verus! {

/// Mathematical image of an [`Error`]: the same four kinds, with the
/// message as a character sequence.
pub ghost enum ErrorSpec {
    LaunchError(Seq<char>),
    TransportError(Seq<char>),
    ProtocolError(Seq<char>),
    RenderError(Seq<char>),
}

/// A failed render call, classified by where the failure arose.
///
/// `LaunchError`: the renderer process could not be started or its pipes
/// could not be obtained. `TransportError`: a pipe write, flush or read
/// failed after a successful launch. `ProtocolError`: the response was not
/// valid JSON, its payload had the wrong shape, or a byte payload was not
/// valid base64. `RenderError`: the renderer itself reported failure, or
/// reported success without a usable byte payload.
#[derive(Debug)]
pub enum Error {
    LaunchError(String),
    TransportError(String),
    ProtocolError(String),
    RenderError(String),
}

impl View for Error {
    type V = ErrorSpec;

    open spec fn view(&self) -> ErrorSpec {
        match self {
            Error::LaunchError(m) => ErrorSpec::LaunchError(m@),
            Error::TransportError(m) => ErrorSpec::TransportError(m@),
            Error::ProtocolError(m) => ErrorSpec::ProtocolError(m@),
            Error::RenderError(m) => ErrorSpec::RenderError(m@),
        }
    }
}

impl ErrorSpec {
    /// The human-readable text carried by an error, whatever its kind.
    pub open spec fn message(self) -> Seq<char> {
        match self {
            ErrorSpec::LaunchError(m) => m,
            ErrorSpec::TransportError(m) => m,
            ErrorSpec::ProtocolError(m) => m,
            ErrorSpec::RenderError(m) => m,
        }
    }
}

impl Error {
    /// The human-readable text carried by an error, ready to print.
    pub fn message(&self) -> (m: &String)
        ensures
            m@ == self@.message(),
    {
        match self {
            Error::LaunchError(m) => m,
            Error::TransportError(m) => m,
            Error::ProtocolError(m) => m,
            Error::RenderError(m) => m,
        }
    }
}

} // verus!
