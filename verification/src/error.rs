//! The errors that reading an event stream can surface.

use crate::text::{decimal, push_decimal, push_text};
use vstd::prelude::*;

verus! {

/// Errors that can occur while reading events. None of them is fatal to the
/// client: the next pull connects again.
#[derive(Debug, PartialEq, Eq)]
pub enum Error {
    /// The transport could not complete the request; the text is its report.
    Transport(String),
    /// Reading the body of an open response failed; the text is the report.
    Io(String),
    /// The server answered with a status code outside the success range.
    Http(u16),
    /// The `Content-Type` of the response is not `text/event-stream`.
    InvalidContentType(String),
    /// The response has no `Content-Type`.
    NoContentType,
}

/// What an [`Error`] holds, as sequences of characters.
pub enum ErrorView {
    Transport(Seq<char>),
    Io(Seq<char>),
    Http(u16),
    InvalidContentType(Seq<char>),
    NoContentType,
}

impl View for Error {
    type V = ErrorView;

    open spec fn view(&self) -> ErrorView {
        match self {
            Error::Transport(report) => ErrorView::Transport(report@),
            Error::Io(report) => ErrorView::Io(report@),
            Error::Http(status) => ErrorView::Http(*status),
            Error::InvalidContentType(value) => ErrorView::InvalidContentType(value@),
            Error::NoContentType => ErrorView::NoContentType,
        }
    }
}

impl Clone for Error {
    fn clone(&self) -> (copy: Error)
        ensures
            copy@ == self@,
    {
        match self {
            Error::Transport(report) => Error::Transport(report.clone()),
            Error::Io(report) => Error::Io(report.clone()),
            Error::Http(status) => Error::Http(*status),
            Error::InvalidContentType(value) => Error::InvalidContentType(value.clone()),
            Error::NoContentType => Error::NoContentType,
        }
    }
}

impl ErrorView {
    /// The message that describes the error to a reader.
    pub open spec fn message(self) -> Seq<char> {
        match self {
            ErrorView::Transport(report) => report,
            ErrorView::Io(report) => report,
            ErrorView::Http(status) => "HTTP status code: "@ + decimal(status as nat),
            ErrorView::InvalidContentType(value) => "unexpected Content-Type: "@ + value,
            ErrorView::NoContentType => "Content-Type missing"@,
        }
    }
}

impl Error {
    /// The message that describes the error to a reader.
    pub fn to_string(&self) -> (s: String)
        ensures
            s@ == self@.message(),
    {
        let mut s = String::new();
        match self {
            Error::Transport(report) => {
                push_text(&mut s, report.as_str());
            },
            Error::Io(report) => {
                push_text(&mut s, report.as_str());
            },
            Error::Http(status) => {
                push_text(&mut s, "HTTP status code: ");
                push_decimal(&mut s, *status as u64);
            },
            Error::InvalidContentType(value) => {
                push_text(&mut s, "unexpected Content-Type: ");
                push_text(&mut s, value.as_str());
            },
            Error::NoContentType => {
                push_text(&mut s, "Content-Type missing");
            },
        }
        assert(s@ =~= self@.message());
        s
    }
}

} // verus!
