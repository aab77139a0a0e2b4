//! The ways in which fetching and reading a document can fail.

use vstd::prelude::*;

verus! {

/// Why an operation of this library failed.
#[derive(Debug, PartialEq, Eq)]
pub enum Error {
    /// Resolving, connecting, sending, receiving or decoding failed; the
    /// message says which.
    Network(String),
    /// The text is not an HTTP response: it has no line break, its status
    /// line has fewer than three fields, or a header line has no colon.
    Malformed,
    /// The URL does not begin with `http://`.
    UnsupportedScheme,
    /// The response has no header of the name that was asked for.
    HeaderNotFound,
}

/// An error, its message as a sequence of characters.
pub enum ErrorView {
    Network(Seq<char>),
    Malformed,
    UnsupportedScheme,
    HeaderNotFound,
}

impl View for Error {
    type V = ErrorView;

    open spec fn view(&self) -> ErrorView {
        match *self {
            Error::Network(message) => ErrorView::Network(message@),
            Error::Malformed => ErrorView::Malformed,
            Error::UnsupportedScheme => ErrorView::UnsupportedScheme,
            Error::HeaderNotFound => ErrorView::HeaderNotFound,
        }
    }
}

impl Clone for Error {
    fn clone(&self) -> (copy: Self)
        ensures
            copy@ == self@,
    {
        match self {
            Error::Network(message) => Error::Network(message.clone()),
            Error::Malformed => Error::Malformed,
            Error::UnsupportedScheme => Error::UnsupportedScheme,
            Error::HeaderNotFound => Error::HeaderNotFound,
        }
    }
}

} // verus!
