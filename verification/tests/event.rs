use eventsource::event::{parse_event_line, Event, ParseResult};

fn event(id: Option<&str>, event_type: Option<&str>, data: &str) -> Event {
    Event {
        id: id.map(|s| s.to_string()),
        event_type: event_type.map(|s| s.to_string()),
        data: data.to_string(),
    }
}

/// Feeds the text to the parser line by line, as a reader of lines would.
/// Says also whether every line left the event unfinished.
fn reparse(text: &str) -> (Event, bool) {
    let mut event = Event::new();
    let mut unfinished = true;
    for line in text.split_inclusive('\n') {
        if parse_event_line(line, &mut event) != ParseResult::Next {
            unfinished = false;
        }
    }
    (event, unfinished)
}

#[test]
fn basic_event_display() {
    assert_eq!(
        "data: hello world\n",
        Event { id: None, event_type: None, data: "hello world".to_string() }.to_string()
    );
    assert_eq!(
        "id: foo\ndata: hello world\n",
        Event { id: Some("foo".to_string()), event_type: None, data: "hello world".to_string() }
            .to_string()
    );
    assert_eq!(
        "event: bar\ndata: hello world\n",
        Event { id: None, event_type: Some("bar".to_string()), data: "hello world".to_string() }
            .to_string()
    );
}

#[test]
fn multiline_event_display() {
    assert_eq!(
        "data: hello\ndata: world\n",
        Event { id: None, event_type: None, data: "hello\nworld".to_string() }.to_string()
    );
    assert_eq!(
        "data: hello\ndata: \ndata: world\n",
        Event { id: None, event_type: None, data: "hello\n\nworld".to_string() }.to_string()
    );
}

#[test]
fn display_follows_line_endings() {
    assert_eq!("", Event::new().to_string());
    assert_eq!("data: a\ndata: b\n", event(None, None, "a\r\nb\n").to_string());
    assert_eq!("data: a\r\n", event(None, None, "a\r").to_string());
    assert_eq!("data: \n", event(None, None, "\n").to_string());
    assert_eq!("data: \r\n", event(None, None, "\r\r\n").to_string());
    assert_eq!(
        "id: \nevent: \ndata: x\n",
        event(Some(""), Some(""), "x\n").to_string()
    );
}

#[test]
fn id_line_sets_id() {
    let mut acc = Event::new();
    assert_eq!(parse_event_line("id: 42", &mut acc), ParseResult::Next);
    assert_eq!(acc.id, Some("42".to_string()));
    assert_eq!(acc.event_type, None);
    assert_eq!(acc.data, "");
}

#[test]
fn blank_line_dispatches() {
    let mut acc = Event::new();
    assert_eq!(parse_event_line("id: 42", &mut acc), ParseResult::Next);
    assert_eq!(parse_event_line("data: foobar", &mut acc), ParseResult::Next);
    assert_eq!(parse_event_line("", &mut acc), ParseResult::Dispatch);
    assert_eq!(acc.id, Some("42".into()));
    assert_eq!(acc.data, "foobar\n");
    acc.clear();
    assert!(acc.is_empty());
    assert_eq!(acc, Event::new());
}

#[test]
fn data_lines_concatenate() {
    let mut acc = Event::new();
    assert_eq!(parse_event_line("data: hello", &mut acc), ParseResult::Next);
    assert_eq!(parse_event_line("data: world", &mut acc), ParseResult::Next);
    assert_eq!(parse_event_line("\n", &mut acc), ParseResult::Dispatch);
    assert_eq!(acc.data, "hello\nworld\n");
}

#[test]
fn retry_line_sets_retry() {
    let mut acc = Event::new();
    assert_eq!(parse_event_line("retry: 42", &mut acc), ParseResult::SetRetry(42));
    assert_eq!(parse_event_line("retry: abc", &mut acc), ParseResult::Next);
    assert!(acc.is_empty());
}

#[test]
fn retry_value_is_an_unsigned_number() {
    let mut acc = Event::new();
    assert_eq!(parse_event_line("retry:0", &mut acc), ParseResult::SetRetry(0));
    assert_eq!(parse_event_line("retry: 007\r\n", &mut acc), ParseResult::SetRetry(7));
    assert_eq!(parse_event_line("retry: +15", &mut acc), ParseResult::SetRetry(15));
    assert_eq!(
        parse_event_line("retry: 18446744073709551615", &mut acc),
        ParseResult::SetRetry(u64::MAX)
    );
    assert_eq!(parse_event_line("retry: 18446744073709551616", &mut acc), ParseResult::Next);
    assert_eq!(parse_event_line("retry: 99999999999999999999999", &mut acc), ParseResult::Next);
    assert_eq!(parse_event_line("retry: -1", &mut acc), ParseResult::Next);
    assert_eq!(parse_event_line("retry: +", &mut acc), ParseResult::Next);
    assert_eq!(parse_event_line("retry: ", &mut acc), ParseResult::Next);
    assert_eq!(parse_event_line("retry", &mut acc), ParseResult::Next);
    assert_eq!(parse_event_line("retry:  5", &mut acc), ParseResult::Next);
    assert_eq!(parse_event_line("retry: 5 ", &mut acc), ParseResult::Next);
    assert_eq!(parse_event_line("retry: 4\u{0662}", &mut acc), ParseResult::Next);
    assert!(acc.is_empty());
}

#[test]
fn comment_line_is_ignored() {
    let mut acc = event(Some("1"), Some("t"), "d\n");
    assert_eq!(parse_event_line(": anything", &mut acc), ParseResult::Next);
    assert_eq!(acc, event(Some("1"), Some("t"), "d\n"));
}

#[test]
fn unknown_fields_are_ignored() {
    let mut acc = Event::new();
    assert_eq!(parse_event_line("foo: bar", &mut acc), ParseResult::Next);
    assert_eq!(parse_event_line("data", &mut acc), ParseResult::Next);
    assert_eq!(acc.data, "\n");
    assert_eq!(parse_event_line("Data: x", &mut acc), ParseResult::Next);
    assert_eq!(parse_event_line(" data: x", &mut acc), ParseResult::Next);
    assert_eq!(parse_event_line("datum", &mut acc), ParseResult::Next);
    assert_eq!(acc, event(None, None, "\n"));
}

#[test]
fn value_loses_one_leading_space() {
    let mut acc = Event::new();
    assert_eq!(parse_event_line("data:x", &mut acc), ParseResult::Next);
    assert_eq!(parse_event_line("data:  y", &mut acc), ParseResult::Next);
    assert_eq!(parse_event_line("data: a: b", &mut acc), ParseResult::Next);
    assert_eq!(parse_event_line("event:", &mut acc), ParseResult::Next);
    assert_eq!(parse_event_line("id: ", &mut acc), ParseResult::Next);
    assert_eq!(acc, event(Some(""), Some(""), "x\n y\na: b\n"));
}

#[test]
fn line_ends_are_stripped() {
    let mut acc = Event::new();
    assert_eq!(parse_event_line("id: 7\r\n", &mut acc), ParseResult::Next);
    assert_eq!(parse_event_line("event: e\n", &mut acc), ParseResult::Next);
    assert_eq!(parse_event_line("data: d\r\r\n\n", &mut acc), ParseResult::Next);
    assert_eq!(parse_event_line("\r\n", &mut acc), ParseResult::Dispatch);
    assert_eq!(parse_event_line("\r", &mut acc), ParseResult::Dispatch);
    assert_eq!(acc, event(Some("7"), Some("e"), "d\n"));
}

#[test]
fn later_field_replaces_earlier() {
    let mut acc = Event::new();
    assert_eq!(parse_event_line("id: 1", &mut acc), ParseResult::Next);
    assert_eq!(parse_event_line("id: 2", &mut acc), ParseResult::Next);
    assert_eq!(parse_event_line("event: a", &mut acc), ParseResult::Next);
    assert_eq!(parse_event_line("event: b", &mut acc), ParseResult::Next);
    assert_eq!(acc, event(Some("2"), Some("b"), ""));
}

#[test]
fn new_event_is_empty() {
    let e = Event::new();
    assert!(e.is_empty());
    assert_eq!(e.id, None);
    assert_eq!(e.event_type, None);
    assert_eq!(e.data, "");
    assert!(!event(Some(""), None, "").is_empty());
    assert!(!event(None, Some(""), "").is_empty());
    assert!(!event(None, None, "x").is_empty());
}

#[test]
fn written_event_reads_back() {
    for e in [
        Event::new(),
        event(Some("42"), Some("foo"), "bar\n"),
        event(Some(""), None, "\n"),
        event(None, Some(" spaced "), "hello\n\nworld\n"),
        event(Some("a:b"), Some("data: x"), ": c\n d\n"),
        event(Some("x\ry"), None, "a\rb\n"),
    ] {
        assert_eq!(reparse(&e.to_string()), (e, true));
    }
}

#[test]
fn unfaithful_events_do_not_read_back() {
    for e in [
        event(None, None, "hello world"),
        event(None, None, "a\r\nb\n"),
        event(Some("a\nb"), None, ""),
        event(Some("a\r"), None, ""),
        event(None, Some("t\n"), ""),
    ] {
        assert_ne!(reparse(&e.to_string()).0, e);
    }
}
