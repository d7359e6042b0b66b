use eventsource::event::{parse_event_line, Event, ParseResult};
use eventsource::lines::LineBuffer;
use eventsource::text::{
    chars_of, clone_text, parse_decimal, push_chars, push_decimal, push_text, spells, string_of,
};

#[test]
fn buffer_hands_out_whole_lines() {
    let mut buffer = LineBuffer::new();
    assert_eq!(buffer.next_line(), None);
    buffer.feed("id: 1\r\nda");
    assert_eq!(buffer.next_line(), Some("id: 1\r\n".to_string()));
    assert_eq!(buffer.next_line(), None);
    assert_eq!(buffer.next_line(), None);
    buffer.feed("ta: x");
    assert_eq!(buffer.next_line(), None);
    buffer.feed("");
    buffer.feed("\n\n\nrest");
    assert_eq!(buffer.next_line(), Some("data: x\n".to_string()));
    assert_eq!(buffer.next_line(), Some("\n".to_string()));
    assert_eq!(buffer.next_line(), Some("\n".to_string()));
    assert_eq!(buffer.next_line(), None);
    buffer.feed("\n");
    assert_eq!(buffer.next_line(), Some("rest\n".to_string()));
    assert_eq!(buffer.next_line(), None);
}

#[test]
fn buffer_clear_forgets_the_unfinished_line() {
    let mut buffer = LineBuffer::new();
    buffer.feed("a\nb");
    buffer.clear();
    buffer.feed("c\n");
    assert_eq!(buffer.next_line(), Some("c\n".to_string()));
    assert_eq!(buffer.next_line(), None);
}

#[test]
fn buffer_lines_are_those_of_a_reader() {
    let text = "id: 42\r\nevent: h\u{e9}\ndata: bar\r\n\r\n: c\n\nretry: 1\ntail";
    for cut in 0..=text.chars().count() {
        let head: String = text.chars().take(cut).collect();
        let tail: String = text.chars().skip(cut).collect();
        let mut buffer = LineBuffer::new();
        let mut lines = Vec::new();
        for piece in [head, tail] {
            buffer.feed(&piece);
            while let Some(line) = buffer.next_line() {
                lines.push(line);
            }
        }
        let expected: Vec<String> =
            text.split_inclusive('\n').filter(|l| l.ends_with('\n')).map(String::from).collect();
        assert_eq!(lines, expected);
    }
}

#[test]
fn buffer_feeds_the_parser() {
    let mut buffer = LineBuffer::new();
    let mut event = Event::new();
    let mut events = Vec::new();
    for piece in ["id: 4", "2\nda", "ta: a\ndata: b\n", "\nevent: e\n\n", "data: lost"] {
        buffer.feed(piece);
        while let Some(line) = buffer.next_line() {
            if parse_event_line(&line, &mut event) == ParseResult::Dispatch {
                events.push(event.clone());
                event.clear();
            }
        }
    }
    assert_eq!(
        events,
        vec![
            Event { id: Some("42".into()), event_type: None, data: "a\nb\n".into() },
            Event { id: None, event_type: Some("e".into()), data: "".into() },
        ]
    );
}

#[test]
fn characters_in_and_out() {
    let chars = chars_of("h\u{e9}llo: w");
    assert_eq!(chars, vec!['h', '\u{e9}', 'l', 'l', 'o', ':', ' ', 'w']);
    assert_eq!(chars_of(""), Vec::<char>::new());
    assert_eq!(string_of(&chars, 0, 5), "h\u{e9}llo");
    assert_eq!(string_of(&chars, 5, 5), "");
    assert_eq!(string_of(&chars, 7, 8), "w");
    let mut s = "x".to_string();
    push_chars(&mut s, &chars, 1, 3);
    assert_eq!(s, "x\u{e9}l");
    push_text(&mut s, "-y");
    assert_eq!(s, "x\u{e9}l-y");
    assert!(spells(&chars, 0, 5, "h\u{e9}llo"));
    assert!(!spells(&chars, 0, 5, "hello"));
    assert!(!spells(&chars, 0, 4, "h\u{e9}llo"));
    assert!(spells(&chars, 3, 3, ""));
    assert_eq!(clone_text(&Some("a".to_string())), Some("a".to_string()));
    assert_eq!(clone_text(&None), None);
}

#[test]
fn decimal_numbers_in_and_out() {
    let read = |text: &str| {
        let chars = chars_of(text);
        parse_decimal(&chars, 0, chars.len())
    };
    assert_eq!(read("0"), Some(0));
    assert_eq!(read("42"), Some(42));
    assert_eq!(read("+42"), Some(42));
    assert_eq!(read("0042"), Some(42));
    assert_eq!(read("18446744073709551615"), Some(u64::MAX));
    assert_eq!(read("18446744073709551616"), None);
    assert_eq!(read("184467440737095516150"), None);
    assert_eq!(read(""), None);
    assert_eq!(read("+"), None);
    assert_eq!(read("++1"), None);
    assert_eq!(read("-1"), None);
    assert_eq!(read("1+"), None);
    assert_eq!(read("4 2"), None);
    assert_eq!(read("0x10"), None);
    let chars = chars_of("a12b");
    assert_eq!(parse_decimal(&chars, 1, 3), Some(12));
    assert_eq!(parse_decimal(&chars, 1, 4), None);
    assert_eq!(parse_decimal(&chars, 2, 2), None);

    for n in [0u64, 7, 10, 99, 100, 5000, 65535, u64::MAX] {
        let mut s = String::new();
        push_decimal(&mut s, n);
        assert_eq!(s, format!("{}", n));
        assert_eq!(read(&s), Some(n));
    }
    let mut s = "retry: ".to_string();
    push_decimal(&mut s, 42);
    assert_eq!(s, "retry: 42");
}
