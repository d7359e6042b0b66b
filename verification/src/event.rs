//! Events, and the parser that builds them from the lines of a
//! `text/event-stream` body, one line at a time.

use crate::text::{
    chars_of, clone_text, parse_decimal, parse_u64, push_chars, spells, string_of, text_of,
};
use vstd::prelude::*;

verus! {

/// A single Server-Sent Event.
#[derive(Debug, PartialEq, Eq)]
pub struct Event {
    /// Corresponds to the `id` field.
    pub id: Option<String>,
    /// Corresponds to the `event` field.
    pub event_type: Option<String>,
    /// All `data` fields, each followed by a newline.
    pub data: String,
}

/// What an [`Event`] holds, as sequences of characters.
pub struct EventView {
    pub id: Option<Seq<char>>,
    pub event_type: Option<Seq<char>>,
    pub data: Seq<char>,
}

impl View for Event {
    type V = EventView;

    open spec fn view(&self) -> EventView {
        EventView {
            id: text_of(self.id),
            event_type: text_of(self.event_type),
            data: self.data@,
        }
    }
}

impl Clone for Event {
    fn clone(&self) -> (copy: Event)
        ensures
            copy@ == self@,
    {
        Event {
            id: clone_text(&self.id),
            event_type: clone_text(&self.event_type),
            data: self.data.clone(),
        }
    }
}

impl EventView {
    /// The event without id, type or data.
    pub open spec fn empty() -> EventView {
        EventView { id: None, event_type: None, data: Seq::empty() }
    }

    /// An event is empty if it has no id or event type and its data is empty.
    pub open spec fn is_empty(self) -> bool {
        self.id is None && self.event_type is None && self.data.len() == 0
    }
}

/// Possible results from parsing a single event-stream line.
#[derive(Debug, Clone, Copy, PartialEq, Eq)]
pub enum ParseResult {
    /// Line parsed successfully, but the event is not complete yet.
    Next,
    /// The event is complete now. Pass a new (empty) event for the next call.
    Dispatch,
    /// Set the retry time, in milliseconds.
    SetRetry(u64),
}

/// Whether `c` is a carriage return or a line feed.
pub open spec fn is_line_end(c: char) -> bool {
    c == '\r' || c == '\n'
}

/// `line` without the carriage returns and line feeds at its end.
pub open spec fn trim_line_end(line: Seq<char>) -> Seq<char>
    decreases line.len(),
{
    if line.len() > 0 && is_line_end(line.last()) {
        trim_line_end(line.drop_last())
    } else {
        line
    }
}

/// The number of characters of `text` that stand before the first `stop`;
/// the length of `text` where it holds none.
pub open spec fn until(text: Seq<char>, stop: char) -> nat
    decreases text.len(),
{
    if text.len() == 0 || text[0] == stop {
        0
    } else {
        1 + until(text.drop_first(), stop)
    }
}

/// The number of characters of `line` that stand before its first colon;
/// its length where it has none.
pub open spec fn field_len(line: Seq<char>) -> nat {
    until(line, ':')
}

/// The field name of a line: what stands before the first colon, or the whole
/// line where it has none.
pub open spec fn field_name(line: Seq<char>) -> Seq<char> {
    line.take(field_len(line) as int)
}

/// The field value of a line: what follows the first colon, without one
/// leading space; empty where the line has no colon.
pub open spec fn field_value(line: Seq<char>) -> Seq<char> {
    let n = field_len(line) as int;
    if n >= line.len() {
        Seq::empty()
    } else if n + 1 < line.len() && line[n + 1] == ' ' {
        line.skip(n + 2)
    } else {
        line.skip(n + 1)
    }
}

/// What one line of the stream does to the event under construction, and
/// what it tells the caller.
pub open spec fn parse_line(line: Seq<char>, event: EventView) -> (ParseResult, EventView) {
    let line = trim_line_end(line);
    let field = field_name(line);
    let value = field_value(line);
    if line.len() == 0 {
        (ParseResult::Dispatch, event)
    } else if field == "event"@ {
        (ParseResult::Next, EventView { event_type: Some(value), ..event })
    } else if field == "data"@ {
        (ParseResult::Next, EventView { data: event.data + value + seq!['\n'], ..event })
    } else if field == "id"@ {
        (ParseResult::Next, EventView { id: Some(value), ..event })
    } else if field == "retry"@ {
        match parse_u64(value) {
            Some(retry) => (ParseResult::SetRetry(retry), event),
            None => (ParseResult::Next, event),
        }
    } else {
        (ParseResult::Next, event)
    }
}

/// `line.take(end)` is `line` without its line ends, where everything from
/// `end` on is a line end and the character before `end` is none.
pub proof fn lemma_trim_line_end(line: Seq<char>, end: int)
    requires
        0 <= end <= line.len(),
        forall|j: int| end <= j < line.len() ==> is_line_end(#[trigger] line[j]),
        end > 0 ==> !is_line_end(line[end - 1]),
    ensures
        trim_line_end(line) == line.take(end),
    decreases line.len() - end,
{
    if end == line.len() {
        assert(line.take(end) =~= line);
    } else {
        lemma_trim_line_end(line.drop_last(), end);
        assert(line.drop_last().take(end) =~= line.take(end));
    }
}

/// A line without its line ends is a start of the line that does not end
/// with a line end, and what it leaves out are line ends.
pub proof fn lemma_trimmed_shape(line: Seq<char>)
    ensures
        trim_line_end(line).len() <= line.len(),
        trim_line_end(line) == line.take(trim_line_end(line).len() as int),
        trim_line_end(line).len() > 0 ==> !is_line_end(trim_line_end(line).last()),
        forall|j: int|
            trim_line_end(line).len() <= j < line.len() ==> is_line_end(#[trigger] line[j]),
    decreases line.len(),
{
    if line.len() > 0 && is_line_end(line.last()) {
        let shorter = line.drop_last();
        lemma_trimmed_shape(shorter);
        let k = trim_line_end(line).len() as int;
        assert(shorter.take(k) =~= line.take(k));
        assert forall|j: int| k <= j < line.len() implies is_line_end(#[trigger] line[j]) by {
            if j < shorter.len() {
                assert(shorter[j] == line[j]);
            }
        }
    } else {
        assert(line.take(line.len() as int) =~= line);
    }
}

/// A line that starts with a colon is a comment: it leaves the event as it
/// is and unfinished.
pub proof fn lemma_comment_is_ignored(line: Seq<char>, event: EventView)
    requires
        line.len() > 0,
        line[0] == ':',
    ensures
        parse_line(line, event) == (ParseResult::Next, event),
{
    reveal_strlit("event");
    reveal_strlit("data");
    reveal_strlit("id");
    reveal_strlit("retry");
    lemma_trimmed_shape(line);
    let trimmed = trim_line_end(line);
    assert(trimmed[0] == line[0]);
    assert(field_name(trimmed).len() == 0);
}

/// The first `stop` of `text` stands at `k`, where none stands before `k`
/// and `k` is a `stop` or the end.
pub proof fn lemma_until(text: Seq<char>, stop: char, k: int)
    requires
        0 <= k <= text.len(),
        forall|j: int| 0 <= j < k ==> #[trigger] text[j] != stop,
        k < text.len() ==> text[k] == stop,
    ensures
        until(text, stop) == k,
    decreases k,
{
    if k > 0 {
        lemma_until(text.drop_first(), stop, k - 1);
    }
}

/// What `until` counts: no `stop` stands before it, and one stands at it
/// unless it is the end.
pub proof fn lemma_until_stops(text: Seq<char>, stop: char)
    ensures
        until(text, stop) <= text.len(),
        forall|j: int| 0 <= j < until(text, stop) ==> #[trigger] text[j] != stop,
        until(text, stop) < text.len() ==> text[until(text, stop) as int] == stop,
    decreases text.len(),
{
    if text.len() > 0 && text[0] != stop {
        let rest = text.drop_first();
        lemma_until_stops(rest, stop);
        assert forall|j: int| 0 <= j < until(text, stop) implies #[trigger] text[j] != stop by {
            if j > 0 {
                assert(rest[j - 1] == text[j]);
            }
        }
    }
}

/// Parse a single line of an event-stream.
///
/// The line may end with a newline.
///
/// Call this function for one line after the other until it returns
/// `ParseResult::Dispatch`; then clear the event before the next line.
///
/// To handle the `Last-Event-ID` header, check the `id` field of each finished event.
pub fn parse_event_line(line: &str, event: &mut Event) -> (result: ParseResult)
    ensures
        (result, final(event)@) == parse_line(line@, old(event)@),
{
    let chars = chars_of(line);
    let mut end: usize = chars.len();
    while end > 0 && (chars[end - 1] == '\r' || chars[end - 1] == '\n')
        invariant
            end <= chars.len(),
            forall|j: int| end <= j < chars.len() ==> is_line_end(#[trigger] chars@[j]),
        decreases end,
    {
        end -= 1;
    }
    let ghost trimmed = chars@.take(end as int);
    proof {
        lemma_trim_line_end(chars@, end as int);
    }
    if end == 0 {
        return ParseResult::Dispatch;
    }
    let mut colon: usize = 0;
    while colon < end && chars[colon] != ':'
        invariant
            colon <= end <= chars.len(),
            forall|j: int| 0 <= j < colon ==> #[trigger] chars@[j] != ':',
        decreases end - colon,
    {
        colon += 1;
    }
    let start: usize = if colon == end {
        end
    } else if colon + 1 < end && chars[colon + 1] == ' ' {
        colon + 2
    } else {
        colon + 1
    };
    proof {
        lemma_until(trimmed, ':', colon as int);
        assert(field_name(trimmed) =~= chars@.subrange(0, colon as int));
        assert(field_value(trimmed) =~= chars@.subrange(start as int, end as int));
    }
    if spells(&chars, 0, colon, "event") {
        event.event_type = Some(string_of(&chars, start, end));
    } else if spells(&chars, 0, colon, "data") {
        push_chars(&mut event.data, &chars, start, end);
        event.data.push('\n');
        assert(event.data@ =~= old(event).data@ + field_value(trimmed) + seq!['\n']);
    } else if spells(&chars, 0, colon, "id") {
        event.id = Some(string_of(&chars, start, end));
    } else if spells(&chars, 0, colon, "retry") {
        match parse_decimal(&chars, start, end) {
            Some(retry) => {
                return ParseResult::SetRetry(retry);
            },
            None => {},
        }
    }
    ParseResult::Next
}

impl Event {
    /// Creates an empty event.
    pub fn new() -> (event: Event)
        ensures
            event@ == EventView::empty(),
    {
        Event { id: None, event_type: None, data: String::new() }
    }

    /// Returns `true` if the event is empty.
    ///
    /// An event is empty if it has no id or event type and its data field is empty.
    pub fn is_empty(&self) -> (b: bool)
        ensures
            b == self@.is_empty(),
    {
        self.id.is_none() && self.event_type.is_none() && self.data.as_str().is_empty()
    }

    /// Makes the event empty.
    pub fn clear(&mut self)
        ensures
            final(self)@ == EventView::empty(),
    {
        self.id = None;
        self.event_type = None;
        self.data.clear();
    }
}

} // verus!
