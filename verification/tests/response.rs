use eventsource::error::Error;
use eventsource::response::{check_content_type, check_response, judge_content_type};
use eventsource::text::same_text;

fn parts(kind: &str, subtype: &str) -> Option<(String, String)> {
    Some((kind.to_string(), subtype.to_string()))
}

#[test]
fn judge_accepts_only_text_event_stream() {
    assert_eq!(judge_content_type("anything", &parts("text", "event-stream")), Ok(()));
    assert_eq!(
        judge_content_type("text/plain", &parts("text", "plain")),
        Err(Error::InvalidContentType("text/plain".to_string()))
    );
    assert_eq!(
        judge_content_type("a/event-stream", &parts("application", "event-stream")),
        Err(Error::InvalidContentType("a/event-stream".to_string()))
    );
    assert_eq!(
        judge_content_type("x", &parts("Text", "event-stream")),
        Err(Error::InvalidContentType("x".to_string()))
    );
    assert_eq!(
        judge_content_type("x", &parts("text", "event-stream ")),
        Err(Error::InvalidContentType("x".to_string()))
    );
    assert_eq!(
        judge_content_type("", &parts("", "")),
        Err(Error::InvalidContentType("".to_string()))
    );
    assert_eq!(
        judge_content_type("text/event-stream", &None),
        Err(Error::InvalidContentType("text/event-stream".to_string()))
    );
}

#[test]
fn content_type_goes_through_the_media_type_parser() {
    assert_eq!(check_content_type("text/event-stream"), Ok(()));
    assert_eq!(check_content_type("text/event-stream;charset=utf8"), Ok(()));
    assert_eq!(check_content_type("text/event-stream; charset=utf-8"), Ok(()));
    assert_eq!(check_content_type("text/event-stream; a=b; c=\"d e\""), Ok(()));
    assert_eq!(check_content_type("text/event-stream;"), Ok(()));
    assert_eq!(check_content_type("TEXT/Event-Stream"), Ok(()));
    assert_eq!(check_content_type("text/event-stream+json"), Ok(()));
    for refused in [
        "",
        "text",
        "text/",
        "/event-stream",
        " text/event-stream",
        "text/event-stream ",
        "text/event-stream; charset",
        "text/event_stream",
        "text/plain",
        "*/*",
        "text/event-stream, text/plain",
    ] {
        assert_eq!(
            check_content_type(refused),
            Err(Error::InvalidContentType(refused.to_string())),
            "{:?}",
            refused
        );
    }
}

#[test]
fn response_check_orders_its_errors() {
    assert_eq!(check_response(200, Some("text/event-stream")), Ok(()));
    assert_eq!(check_response(299, Some("text/event-stream")), Ok(()));
    assert_eq!(check_response(200, None), Err(Error::NoContentType));
    assert_eq!(
        check_response(200, Some("text/html")),
        Err(Error::InvalidContentType("text/html".to_string()))
    );
    assert_eq!(check_response(404, Some("text/event-stream")), Err(Error::Http(404)));
    assert_eq!(check_response(404, None), Err(Error::Http(404)));
    assert_eq!(check_response(199, Some("text/html")), Err(Error::Http(199)));
    assert_eq!(check_response(300, None), Err(Error::Http(300)));
    assert_eq!(check_response(0, None), Err(Error::Http(0)));
    assert_eq!(check_response(u16::MAX, None), Err(Error::Http(u16::MAX)));
}

#[test]
fn texts_compare_by_their_characters() {
    assert!(same_text("", ""));
    assert!(same_text("text", "text"));
    assert!(!same_text("text", "tex"));
    assert!(!same_text("tex", "text"));
    assert!(!same_text("text", "teXt"));
    assert!(same_text("h\u{e9}", "h\u{e9}"));
}

#[test]
fn error_messages() {
    assert_eq!(Error::Transport("no route".to_string()).to_string(), "no route");
    assert_eq!(Error::Io("reset".to_string()).to_string(), "reset");
    assert_eq!(Error::Http(404).to_string(), "HTTP status code: 404");
    assert_eq!(Error::Http(0).to_string(), "HTTP status code: 0");
    assert_eq!(Error::Http(65535).to_string(), "HTTP status code: 65535");
    assert_eq!(
        Error::InvalidContentType("text/plain".to_string()).to_string(),
        "unexpected Content-Type: text/plain"
    );
    assert_eq!(Error::NoContentType.to_string(), "Content-Type missing");
    let error = Error::InvalidContentType("x".to_string());
    assert_eq!(error.clone(), error);
}
