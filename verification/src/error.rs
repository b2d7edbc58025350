//! Error taxonomy of the schema builder and the request pipeline.

use vstd::prelude::*;
use vstd::string::StringExecFns;

verus! {

/// One failure of schema construction or of per-request validation.
///
/// `EmptyPorts` and `NameConflict` arise at build time only and abort schema
/// construction; `MissingPort` arises per request, on either the input or the
/// output side.
#[derive(Debug, Clone)]
pub enum Error {
    /// Schema construction found zero ports of the required kind.
    EmptyPorts(&'static str),
    /// Schema construction found two ports sharing a name within one
    /// port-direction set.
    NameConflict(String),
    /// A request's input or output map lacks a required key.
    MissingPort(String),
}

/// Mathematical model of an `Error`.
pub enum ErrorView {
    EmptyPorts(Seq<char>),
    NameConflict(Seq<char>),
    MissingPort(Seq<char>),
}

impl View for Error {
    type V = ErrorView;

    open spec fn view(&self) -> ErrorView {
        match self {
            Error::EmptyPorts(kind) => ErrorView::EmptyPorts(kind@),
            Error::NameConflict(name) => ErrorView::NameConflict(name@),
            Error::MissingPort(name) => ErrorView::MissingPort(name@),
        }
    }
}

/// The human-readable message of an error.
pub open spec fn error_message(e: ErrorView) -> Seq<char> {
    match e {
        ErrorView::EmptyPorts(kind) => "Empty "@ + kind + " ports"@,
        ErrorView::NameConflict(name) => "Name conflict: "@ + name,
        ErrorView::MissingPort(name) => "Missing port: "@ + name,
    }
}

impl Error {
    /// The human-readable message shown to clients.
    pub fn message(&self) -> (r: String)
        ensures
            r@ == error_message(self@),
    {
        match self {
            Error::EmptyPorts(kind) => String::from_str("Empty ").concat(kind).concat(" ports"),
            Error::NameConflict(name) => String::from_str("Name conflict: ").concat(name.as_str()),
            Error::MissingPort(name) => String::from_str("Missing port: ").concat(name.as_str()),
        }
    }
}

} // verus!
