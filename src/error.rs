use vstd::prelude::*;

verus! {

/// `std::io::Error` is carried through unchanged when a stream fails.
#[verifier::external_type_specification]
#[verifier::external_body]
pub struct ExIoError(std::io::Error);

/// `std::num::ParseIntError` is carried through unchanged when a numeric field fails.
#[verifier::external_type_specification]
#[verifier::external_body]
pub struct ExParseIntError(std::num::ParseIntError);

/// Failure of the underlying line source.
#[derive(Debug)]
pub enum CsaStreamReadError {
    IOError(std::io::Error),
}

/// Every way a decode can fail.
#[derive(Debug)]
pub enum CsaParserError {
    StreamReadError(CsaStreamReadError),
    FormatError(String),
    ParseIntError(std::num::ParseIntError),
    InvalidStateError(String),
}

/// Misuse of the move list: a second terminal entry, or an entry after one.
#[derive(Debug)]
pub enum CsaStateError {
    InvalidStateError(String),
}

/// The variant of a `CsaParserError`, without its payload.
#[derive(Clone, Copy, PartialEq, Eq, Structural, Debug)]
pub enum ErrorKind {
    Stream,
    Format,
    Number,
    InvalidState,
}

/// The variant of `e`.
pub open spec fn kind_of(e: CsaParserError) -> ErrorKind {
    match e {
        CsaParserError::StreamReadError(_) => ErrorKind::Stream,
        CsaParserError::FormatError(_) => ErrorKind::Format,
        CsaParserError::ParseIntError(_) => ErrorKind::Number,
        CsaParserError::InvalidStateError(_) => ErrorKind::InvalidState,
    }
}

impl CsaStreamReadError {
    /// What went wrong, for a reader.
    pub fn message(&self) -> (r: String)
        ensures
            r@ == "Error occurred in file I/O."@,
    {
        match self {
            CsaStreamReadError::IOError(_) => String::from_str("Error occurred in file I/O."),
        }
    }

    /// A short description of the failure.
    pub fn description(&self) -> (r: String)
        ensures
            r@ == "Error occurred in file I/O."@,
    {
        match self {
            CsaStreamReadError::IOError(_) => String::from_str("Error occurred in file I/O."),
        }
    }
}

impl CsaParserError {
    /// What went wrong, for a reader: the text carried by the error, or a fixed one.
    pub fn message(&self) -> (r: String)
        ensures
            self is StreamReadError ==> r@ == "There was an error loading the stream."@,
            self is FormatError ==> r@ == self->FormatError_0@,
            self is InvalidStateError ==> r@ == self->InvalidStateError_0@,
    {
        match self {
            CsaParserError::StreamReadError(_) => String::from_str("There was an error loading the stream."),
            CsaParserError::FormatError(s) => s.clone(),
            CsaParserError::ParseIntError(e) => e.to_string(),
            CsaParserError::InvalidStateError(s) => s.clone(),
        }
    }

    /// A short description of the kind of failure.
    pub fn description(&self) -> (r: String)
        ensures
            self is StreamReadError ==> r@ == "There was an error loading the stream."@,
            self is FormatError ==> r@ == "Invalid format."@,
            self is InvalidStateError ==> r@ == "Invalid read state."@,
    {
        match self {
            CsaParserError::StreamReadError(_) => String::from_str("There was an error loading the stream."),
            CsaParserError::FormatError(_) => String::from_str("Invalid format."),
            CsaParserError::ParseIntError(e) => e.to_string(),
            CsaParserError::InvalidStateError(_) => String::from_str("Invalid read state."),
        }
    }
}

impl CsaStateError {
    /// What went wrong, for a reader.
    pub fn message(&self) -> (r: String)
        ensures
            r@ == self->InvalidStateError_0@,
    {
        match self {
            CsaStateError::InvalidStateError(s) => s.clone(),
        }
    }

    /// A short description of the failure.
    pub fn description(&self) -> (r: String)
        ensures
            r@ == "Invalid read state."@,
    {
        match self {
            CsaStateError::InvalidStateError(_) => String::from_str("Invalid read state."),
        }
    }
}

impl From<CsaStreamReadError> for CsaParserError {
    fn from(err: CsaStreamReadError) -> (r: CsaParserError) {
        CsaParserError::StreamReadError(err)
    }
}

impl vstd::std_specs::convert::FromSpecImpl<CsaStreamReadError> for CsaParserError {
    open spec fn obeys_from_spec() -> bool {
        true
    }

    open spec fn from_spec(err: CsaStreamReadError) -> CsaParserError {
        CsaParserError::StreamReadError(err)
    }
}

impl From<std::num::ParseIntError> for CsaParserError {
    fn from(err: std::num::ParseIntError) -> (r: CsaParserError) {
        CsaParserError::ParseIntError(err)
    }
}

impl vstd::std_specs::convert::FromSpecImpl<std::num::ParseIntError> for CsaParserError {
    open spec fn obeys_from_spec() -> bool {
        true
    }

    open spec fn from_spec(err: std::num::ParseIntError) -> CsaParserError {
        CsaParserError::ParseIntError(err)
    }
}

impl From<CsaStateError> for CsaParserError {
    fn from(err: CsaStateError) -> (r: CsaParserError) {
        match err {
            CsaStateError::InvalidStateError(s) => CsaParserError::InvalidStateError(s),
        }
    }
}

impl vstd::std_specs::convert::FromSpecImpl<CsaStateError> for CsaParserError {
    open spec fn obeys_from_spec() -> bool {
        true
    }

    open spec fn from_spec(err: CsaStateError) -> CsaParserError {
        match err {
            CsaStateError::InvalidStateError(s) => CsaParserError::InvalidStateError(s),
        }
    }
}

impl From<std::io::Error> for CsaStreamReadError {
    fn from(err: std::io::Error) -> (r: CsaStreamReadError) {
        CsaStreamReadError::IOError(err)
    }
}

impl vstd::std_specs::convert::FromSpecImpl<std::io::Error> for CsaStreamReadError {
    open spec fn obeys_from_spec() -> bool {
        true
    }

    open spec fn from_spec(err: std::io::Error) -> CsaStreamReadError {
        CsaStreamReadError::IOError(err)
    }
}

} // verus!
