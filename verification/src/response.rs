//! Validation of the response that opens an event stream.

use crate::error::{Error, ErrorView};
use crate::text::same_text;
use vstd::prelude::*;

verus! {

/// The type and the subtype that the `mime` crate reads from the media type
/// `value`, or `None` where it rejects `value`. The crate's parser decides
/// what they are; nothing here says more of them than that equal values have
/// equal parts.
pub uninterp spec fn media_type_parts(value: Seq<char>) -> Option<(Seq<char>, Seq<char>)>;

/// Parses `value` with `<mime::Mime as FromStr>::from_str` and hands out the
/// type and the subtype of the result, as `Mime::type_` and `Mime::subtype`
/// give them, or `None` where the parser returns an error. Nothing is proved
/// of the parser: the contract only gives its result the name
/// [`media_type_parts`].
#[verifier::external_body]
fn parse_media_type(value: &str) -> (parts: Option<(String, String)>)
    ensures
        parts.deep_view() == media_type_parts(value@),
{
    match value.parse::<mime::Mime>() {
        Ok(mime) => Some(
            (mime.type_().as_str().to_string(), mime.subtype().as_str().to_string()),
        ),
        Err(_) => None,
    }
}

/// Whether a status code lies in the success range.
pub open spec fn is_success(status: u16) -> bool {
    200 <= status < 300
}

/// Whether the parts of a media type are those of `text/event-stream`.
pub open spec fn is_event_stream(parts: Option<(Seq<char>, Seq<char>)>) -> bool {
    parts == Some(("text"@, "event-stream"@))
}

/// The error that a `Content-Type` of `value` with the given parts calls for.
pub open spec fn content_type_error(
    value: Seq<char>,
    parts: Option<(Seq<char>, Seq<char>)>,
) -> Option<ErrorView> {
    if is_event_stream(parts) {
        None
    } else {
        Some(ErrorView::InvalidContentType(value))
    }
}

/// The error that a response with the given status and `Content-Type` calls
/// for, if any. The status is judged first; of the content type only the type
/// and the subtype count.
pub open spec fn response_error(status: u16, content_type: Option<Seq<char>>) -> Option<ErrorView> {
    if !is_success(status) {
        Some(ErrorView::Http(status))
    } else {
        match content_type {
            None => Some(ErrorView::NoContentType),
            Some(value) => content_type_error(value, media_type_parts(value)),
        }
    }
}

/// The view of what a check returns: the error, if it found one.
pub open spec fn error_of(r: Result<(), Error>) -> Option<ErrorView> {
    match r {
        Ok(_) => None,
        Err(e) => Some(e@),
    }
}

/// Judges a `Content-Type` of `value` whose media type has the given parts:
/// it is accepted where type and subtype are exactly `text` and
/// `event-stream`, and refused with the value otherwise.
pub fn judge_content_type(value: &str, parts: &Option<(String, String)>) -> (r: Result<(), Error>)
    ensures
        error_of(r) == content_type_error(value@, parts.deep_view()),
{
    let accepted = match parts {
        Some((kind, subtype)) => {
            let a = same_text(kind.as_str(), "text");
            let b = same_text(subtype.as_str(), "event-stream");
            a && b
        },
        None => false,
    };
    if accepted {
        Ok(())
    } else {
        Err(Error::InvalidContentType(value.to_owned()))
    }
}

/// Checks the `Content-Type` of a response.
pub fn check_content_type(value: &str) -> (r: Result<(), Error>)
    ensures
        error_of(r) == content_type_error(value@, media_type_parts(value@)),
{
    let parts = parse_media_type(value);
    judge_content_type(value, &parts)
}

/// Checks the status and the `Content-Type` of a response.
pub fn check_response(status: u16, content_type: Option<&str>) -> (r: Result<(), Error>)
    ensures
        error_of(r) == response_error(
            status,
            match content_type {
                Some(value) => Some(value@),
                None => None,
            },
        ),
{
    if status < 200 || status >= 300 {
        return Err(Error::Http(status));
    }
    match content_type {
        Some(value) => check_content_type(value),
        None => Err(Error::NoContentType),
    }
}

} // verus!
