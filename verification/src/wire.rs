//! Events as text: how an event is written on a stream, and that reading
//! the text gives the event back.

use crate::event::{
    field_len, field_name, field_value, is_line_end, lemma_trim_line_end, lemma_trimmed_shape,
    lemma_until, lemma_until_stops, parse_line, trim_line_end, until, Event, EventView,
    ParseResult,
};
use crate::text::{chars_of, push_chars, push_text, text_of};
use vstd::prelude::*;

verus! {

/// `line` without one carriage return at its end.
pub open spec fn without_cr(line: Seq<char>) -> Seq<char> {
    if line.len() > 0 && line.last() == '\r' {
        line.drop_last()
    } else {
        line
    }
}

/// The lines of `text`. A line ends with a line feed, or with a carriage
/// return and a line feed, and is given without them; the last line may end
/// with the text, and is then given whole.
pub open spec fn lines_of(text: Seq<char>) -> Seq<Seq<char>>
    decreases text.len(),
{
    let n = until(text, '\n') as int;
    if text.len() == 0 {
        Seq::empty()
    } else if n >= text.len() {
        seq![text]
    } else {
        seq![without_cr(text.take(n))] + lines_of(text.skip(n + 1))
    }
}

/// The line that sets the field `name` to `value`, with its line feed.
pub open spec fn field_line(name: Seq<char>, value: Seq<char>) -> Seq<char> {
    name + seq![':', ' '] + value + seq!['\n']
}

/// A `data` line for each of `lines`, one after the other.
pub open spec fn data_text(lines: Seq<Seq<char>>) -> Seq<char>
    decreases lines.len(),
{
    if lines.len() == 0 {
        Seq::empty()
    } else {
        field_line("data"@, lines[0]) + data_text(lines.drop_first())
    }
}

/// The `data` lines of a first line and of those that follow it.
pub proof fn lemma_data_text_first(line: Seq<char>, tail: Seq<Seq<char>>)
    ensures
        data_text(seq![line] + tail) == field_line("data"@, line) + data_text(tail),
{
    assert((seq![line] + tail).drop_first() =~= tail);
}

/// The line of an optional field: none where the field is absent.
pub open spec fn optional_line(name: Seq<char>, value: Option<Seq<char>>) -> Seq<char> {
    match value {
        Some(value) => field_line(name, value),
        None => Seq::empty(),
    }
}

/// An event as the stream writes it: the `id` line and the `event` line where
/// the event has the field, then a `data` line for each line of its data.
pub open spec fn wire_text(event: EventView) -> Seq<char> {
    optional_line("id"@, event.id) + optional_line("event"@, event.event_type) + data_text(
        lines_of(event.data),
    )
}

/// Appends the line that sets the field `name` to `v[from..to]`.
fn push_field(s: &mut String, name: &str, v: &Vec<char>, from: usize, to: usize)
    requires
        from <= to <= v.len(),
    ensures
        final(s)@ == old(s)@ + field_line(name@, v@.subrange(from as int, to as int)),
{
    push_text(s, name);
    s.push(':');
    s.push(' ');
    push_chars(s, v, from, to);
    s.push('\n');
    assert(s@ =~= old(s)@ + field_line(name@, v@.subrange(from as int, to as int)));
}

/// Appends the line of an optional field.
fn push_optional(s: &mut String, name: &str, value: &Option<String>)
    ensures
        final(s)@ == old(s)@ + optional_line(name@, text_of(*value)),
{
    match value {
        Some(value) => {
            let chars = chars_of(value.as_str());
            push_field(s, name, &chars, 0, chars.len());
            assert(chars@.subrange(0, chars.len() as int) =~= value@);
        },
        None => {
            assert(s@ =~= old(s)@ + Seq::<char>::empty());
        },
    }
}

impl Event {
    /// The event as the stream writes it.
    pub fn to_string(&self) -> (s: String)
        ensures
            s@ == wire_text(self@),
    {
        let mut s = String::new();
        push_optional(&mut s, "id", &self.id);
        push_optional(&mut s, "event", &self.event_type);
        let data = chars_of(self.data.as_str());
        let ghost head = s@;
        let mut pos: usize = 0;
        assert(data@.skip(0) =~= data@);
        while pos < data.len()
            invariant
                pos <= data.len(),
                s@ + data_text(lines_of(data@.skip(pos as int))) == head + data_text(
                    lines_of(data@),
                ),
            decreases data.len() - pos,
        {
            let ghost rest = data@.skip(pos as int);
            let ghost before = s@;
            let mut end: usize = pos;
            while end < data.len() && data[end] != '\n'
                invariant
                    pos <= end <= data.len(),
                    forall|j: int| pos <= j < end ==> #[trigger] data@[j] != '\n',
                decreases data.len() - end,
            {
                end += 1;
            }
            proof {
                lemma_until(rest, '\n', end - pos);
            }
            if end == data.len() {
                push_field(&mut s, "data", &data, pos, end);
                proof {
                    assert(data@.subrange(pos as int, end as int) =~= rest);
                    assert(lines_of(rest) =~= seq![rest] + Seq::<Seq<char>>::empty());
                    lemma_data_text_first(rest, Seq::empty());
                    assert(data_text(lines_of(rest)) =~= field_line("data"@, rest));
                    assert(data@.skip(end as int) =~= Seq::<char>::empty());
                }
                pos = end;
            } else {
                let stop: usize = if end > pos && data[end - 1] == '\r' {
                    end - 1
                } else {
                    end
                };
                push_field(&mut s, "data", &data, pos, stop);
                proof {
                    let line = data@.subrange(pos as int, stop as int);
                    assert(rest.take(end - pos) =~= data@.subrange(pos as int, end as int));
                    assert(without_cr(rest.take(end - pos)) =~= line);
                    assert(rest.skip(end - pos + 1) =~= data@.skip(end + 1));
                    let tail = lines_of(data@.skip(end + 1));
                    assert(lines_of(rest) =~= seq![line] + tail);
                    lemma_data_text_first(line, tail);
                    assert(s@ + data_text(tail) =~= before + data_text(lines_of(rest)));
                }
                pos = end + 1;
            }
        }
        assert(s@ =~= head + data_text(lines_of(data@)));
        s
    }
}

/// The lines that a reader takes from `text` one after the other: each ends
/// with its line feed, but for a last one that the text leaves unfinished.
pub open spec fn read_lines(text: Seq<char>) -> Seq<Seq<char>>
    decreases text.len(),
{
    let n = until(text, '\n') as int;
    if text.len() == 0 {
        Seq::empty()
    } else if n >= text.len() {
        seq![text]
    } else {
        seq![text.take(n + 1)] + read_lines(text.skip(n + 1))
    }
}

/// The event that `lines`, parsed one after the other, make of `event`.
pub open spec fn parse_lines(lines: Seq<Seq<char>>, event: EventView) -> EventView
    decreases lines.len(),
{
    if lines.len() == 0 {
        event
    } else {
        parse_lines(lines.drop_first(), parse_line(lines[0], event).1)
    }
}

/// Whether each of `lines` leaves the event unfinished and the retry time as
/// it is.
pub open spec fn only_fields(lines: Seq<Seq<char>>) -> bool {
    forall|i: int, event: EventView|
        0 <= i < lines.len() ==> (#[trigger] parse_line(lines[i], event)).0 == ParseResult::Next
}

/// Whether a line feed stands in `line` at its end only.
pub open spec fn is_one_line(line: Seq<char>) -> bool {
    forall|i: int| 0 <= i < line.len() - 1 ==> #[trigger] line[i] != '\n'
}

/// Whether the stream gives a field value back as it is: the value holds no
/// line feed and does not end with a carriage return.
pub open spec fn is_wire_value(value: Seq<char>) -> bool {
    &&& forall|i: int| 0 <= i < value.len() ==> #[trigger] value[i] != '\n'
    &&& value.len() > 0 ==> value.last() != '\r'
}

/// Whether the stream gives the data of an event back as it is: the data is
/// made of lines that each end with a line feed, and none with a carriage
/// return before it.
pub open spec fn is_wire_data(data: Seq<char>) -> bool {
    &&& data.len() > 0 ==> data.last() == '\n'
    &&& forall|i: int| 0 < i < data.len() && #[trigger] data[i] == '\n' ==> data[i - 1] != '\r'
}

impl EventView {
    /// Whether the stream gives the event back as it is.
    pub open spec fn is_wire_safe(self) -> bool {
        &&& self.id matches Some(id) ==> is_wire_value(id)
        &&& self.event_type matches Some(event_type) ==> is_wire_value(event_type)
        &&& is_wire_data(self.data)
    }
}

/// What the parser reads in the line that sets a field: the name and the
/// value that were written, where the name holds no colon and the value is
/// one that the stream gives back.
proof fn lemma_field_line_parts(name: Seq<char>, value: Seq<char>)
    requires
        forall|i: int| 0 <= i < name.len() ==> #[trigger] name[i] != ':',
        is_wire_value(value),
    ensures
        trim_line_end(field_line(name, value)).len() > 0,
        field_name(trim_line_end(field_line(name, value))) == name,
        field_value(trim_line_end(field_line(name, value))) == value,
        is_one_line(field_line(name, value)) ==> forall|i: int|
            0 <= i < name.len() ==> #[trigger] name[i] != '\n',
{
    let line = field_line(name, value);
    let end = line.len() - 1;
    let trimmed = line.take(end);
    assert(trimmed =~= name + seq![':', ' '] + value);
    assert(end > 0 && !is_line_end(line[end - 1])) by {
        if value.len() > 0 {
            assert(line[end - 1] == value.last());
        } else {
            assert(line[end - 1] == ' ');
        }
    }
    lemma_trim_line_end(line, end);
    lemma_until(trimmed, ':', name.len() as int);
    assert(field_name(trimmed) =~= name);
    assert(field_value(trimmed) =~= value);
    if is_one_line(line) {
        assert forall|i: int| 0 <= i < name.len() implies #[trigger] name[i] != '\n' by {
            assert(line[i] == name[i]);
        }
    }
}

/// An `id` line sets the id, and leaves the event unfinished.
proof fn lemma_parse_id_line(value: Seq<char>, event: EventView)
    requires
        is_wire_value(value),
    ensures
        parse_line(field_line("id"@, value), event) == (
            ParseResult::Next,
            EventView { id: Some(value), ..event },
        ),
{
    reveal_strlit("id");
    reveal_strlit("event");
    reveal_strlit("data");
    lemma_field_line_parts("id"@, value);
}

/// An `event` line sets the event type, and leaves the event unfinished.
proof fn lemma_parse_event_line(value: Seq<char>, event: EventView)
    requires
        is_wire_value(value),
    ensures
        parse_line(field_line("event"@, value), event) == (
            ParseResult::Next,
            EventView { event_type: Some(value), ..event },
        ),
{
    reveal_strlit("event");
    lemma_field_line_parts("event"@, value);
}

/// A `data` line adds its value and a line feed to the data, and leaves the
/// event unfinished.
proof fn lemma_parse_data_line(value: Seq<char>, event: EventView)
    requires
        is_wire_value(value),
    ensures
        parse_line(field_line("data"@, value), event) == (
            ParseResult::Next,
            EventView { data: event.data + value + seq!['\n'], ..event },
        ),
{
    reveal_strlit("event");
    reveal_strlit("data");
    lemma_field_line_parts("data"@, value);
}

/// A reader takes a text that starts with a whole line apart into that line
/// and the lines of what follows it.
proof fn lemma_read_first_line(line: Seq<char>, rest: Seq<char>)
    requires
        line.len() > 0,
        line.last() == '\n',
        is_one_line(line),
    ensures
        read_lines(line + rest) == seq![line] + read_lines(rest),
{
    let text = line + rest;
    assert forall|j: int| 0 <= j < line.len() - 1 implies #[trigger] text[j] != '\n' by {
        assert(text[j] == line[j]);
    }
    lemma_until(text, '\n', line.len() - 1);
    assert(text.take(line.len() as int) =~= line);
    assert(text.skip(line.len() as int) =~= rest);
}

/// Lines are parsed one after the other.
proof fn lemma_parse_first_line(line: Seq<char>, rest: Seq<Seq<char>>, event: EventView)
    ensures
        parse_lines(seq![line] + rest, event) == parse_lines(rest, parse_line(line, event).1),
{
    assert((seq![line] + rest).drop_first() =~= rest);
}

/// The line that sets a field is one line, where name and value hold no
/// line feed.
proof fn lemma_field_line_is_one_line(name: Seq<char>, value: Seq<char>)
    requires
        forall|i: int| 0 <= i < name.len() ==> #[trigger] name[i] != '\n',
        is_wire_value(value),
    ensures
        is_one_line(field_line(name, value)),
        field_line(name, value).len() > 0,
        field_line(name, value).last() == '\n',
{
    let line = field_line(name, value);
    assert forall|i: int| 0 <= i < line.len() - 1 implies #[trigger] line[i] != '\n' by {
        if i < name.len() {
            assert(line[i] == name[i]);
        } else if i >= name.len() + 2 {
            assert(line[i] == value[i - name.len() - 2]);
        }
    }
}

/// What a written field does as the first thing of a text: the reader
/// takes its line off, and the parser goes on with what follows.
proof fn lemma_first_field(name: Seq<char>, value: Seq<char>, rest: Seq<char>, event: EventView)
    requires
        name == "id"@ || name == "event"@ || name == "data"@,
        is_wire_value(value),
    ensures
        read_lines(field_line(name, value) + rest) == seq![field_line(name, value)] + read_lines(
            rest,
        ),
        parse_lines(read_lines(field_line(name, value) + rest), event) == parse_lines(
            read_lines(rest),
            parse_line(field_line(name, value), event).1,
        ),
        only_fields(read_lines(rest)) ==> only_fields(read_lines(field_line(name, value) + rest)),
{
    reveal_strlit("id");
    reveal_strlit("event");
    reveal_strlit("data");
    let line = field_line(name, value);
    let lines = read_lines(rest);
    lemma_field_line_is_one_line(name, value);
    lemma_read_first_line(line, rest);
    lemma_parse_first_line(line, lines, event);
    if only_fields(lines) {
        let all = seq![line] + lines;
        assert forall|i: int, e: EventView| 0 <= i < all.len() implies (#[trigger] parse_line(
            all[i],
            e,
        )).0 == ParseResult::Next by {
            if i == 0 {
                lemma_parse_id_line(value, e);
                lemma_parse_event_line(value, e);
                lemma_parse_data_line(value, e);
            } else {
                assert(all[i] == lines[i - 1]);
            }
        }
    }
}

/// Data that the stream gives back is read back from its `data` lines: they
/// add it to the data of the event, and do nothing else.
proof fn lemma_data_reads_back(data: Seq<char>, event: EventView)
    requires
        is_wire_data(data),
    ensures
        parse_lines(read_lines(data_text(lines_of(data))), event) == (EventView {
            data: event.data + data,
            ..event
        }),
        only_fields(read_lines(data_text(lines_of(data)))),
    decreases data.len(),
{
    if data.len() == 0 {
        assert(event.data + data =~= event.data);
    } else {
        let n = until(data, '\n') as int;
        lemma_until_stops(data, '\n');
        assert(n < data.len()) by {
            if n >= data.len() {
                assert(data[data.len() - 1] != '\n');
            }
        }
        let line = data.take(n);
        let rest = data.skip(n + 1);
        assert(is_wire_value(line)) by {
            assert forall|i: int| 0 <= i < line.len() implies #[trigger] line[i] != '\n' by {
                assert(line[i] == data[i]);
            }
            if n > 0 {
                assert(data[n] == '\n');
                assert(line.last() == data[n - 1]);
            }
        }
        assert(without_cr(line) == line);
        assert(is_wire_data(rest)) by {
            if rest.len() > 0 {
                assert(rest.last() == data.last());
            }
            assert forall|i: int| 0 < i < rest.len() && #[trigger] rest[i] == '\n' implies rest[i
                - 1] != '\r' by {
                assert(rest[i] == data[n + 1 + i]);
                assert(rest[i - 1] == data[n + 1 + i - 1]);
            }
        }
        let tail = lines_of(rest);
        assert(lines_of(data) =~= seq![line] + tail);
        lemma_data_text_first(line, tail);
        lemma_first_field("data"@, line, data_text(tail), event);
        lemma_parse_data_line(line, event);
        let next = EventView { data: event.data + line + seq!['\n'], ..event };
        lemma_data_reads_back(rest, next);
        assert(next.data + rest =~= event.data + data) by {
            assert(line + seq!['\n'] + rest =~= data);
        }
    }
}

/// Writing and reading: where the stream gives an event back as it is, the
/// lines that a reader takes from the written event build that event from
/// the empty one, and none of them finishes it or sets the retry time.
pub proof fn lemma_written_event_reads_back(event: EventView)
    requires
        event.is_wire_safe(),
    ensures
        parse_lines(read_lines(wire_text(event)), EventView::empty()) == event,
        only_fields(read_lines(wire_text(event))),
{
    let data = data_text(lines_of(event.data));
    let kind = optional_line("event"@, event.event_type) + data;
    let start = EventView::empty();
    assert(wire_text(event) =~= optional_line("id"@, event.id) + kind);
    let with_id = EventView { id: event.id, ..start };
    let with_kind = EventView { event_type: event.event_type, ..with_id };
    lemma_data_reads_back(event.data, with_kind);
    assert(with_kind.data + event.data =~= event.data);
    match event.event_type {
        Some(value) => {
            lemma_first_field("event"@, value, data, with_id);
            lemma_parse_event_line(value, with_id);
        },
        None => {
            assert(kind =~= data);
        },
    }
    match event.id {
        Some(value) => {
            lemma_first_field("id"@, value, kind, start);
            lemma_parse_id_line(value, start);
        },
        None => {
            assert(wire_text(event) =~= kind);
        },
    }
}

/// Each line that a reader takes from a text is one line.
pub proof fn lemma_read_lines_are_lines(text: Seq<char>)
    ensures
        forall|i: int| 0 <= i < read_lines(text).len() ==> is_one_line(#[trigger] read_lines(text)[i]),
    decreases text.len(),
{
    if text.len() > 0 {
        let n = until(text, '\n') as int;
        lemma_until_stops(text, '\n');
        if n < text.len() {
            let first = text.take(n + 1);
            let rest = read_lines(text.skip(n + 1));
            lemma_read_lines_are_lines(text.skip(n + 1));
            assert forall|i: int| 0 <= i < read_lines(text).len() implies is_one_line(
                #[trigger] read_lines(text)[i],
            ) by {
                if i > 0 {
                    assert(read_lines(text)[i] == rest[i - 1]);
                } else {
                    assert(read_lines(text)[i] == first);
                }
            }
        }
    }
}

/// The value that the parser reads in one line is one that the stream gives
/// back.
proof fn lemma_value_is_wire_value(line: Seq<char>)
    requires
        is_one_line(line),
    ensures
        is_wire_value(field_value(trim_line_end(line))),
{
    lemma_trimmed_shape(line);
    let trimmed = trim_line_end(line);
    let value = field_value(trimmed);
    lemma_until_stops(trimmed, ':');
    assert(field_len(trimmed) <= trimmed.len());
    assert forall|i: int| 0 <= i < trimmed.len() implies #[trigger] trimmed[i] != '\n' by {
        assert(trimmed[i] == line[i]);
        if i == line.len() - 1 {
            assert(trimmed.last() == line[i]);
        }
    }
    if value.len() > 0 {
        assert(value.last() == trimmed.last());
    }
    assert forall|i: int| 0 <= i < value.len() implies #[trigger] value[i] != '\n' by {
        let offset = trimmed.len() - value.len();
        assert(value[i] == trimmed[i + offset]);
    }
}

/// One line makes of an event that the stream gives back another such event.
pub proof fn lemma_parse_line_keeps_wire_safe(line: Seq<char>, event: EventView)
    requires
        is_one_line(line),
        event.is_wire_safe(),
    ensures
        parse_line(line, event).1.is_wire_safe(),
{
    lemma_value_is_wire_value(line);
    let value = field_value(trim_line_end(line));
    let data = event.data + value + seq!['\n'];
    assert(is_wire_data(data)) by {
        assert(data.last() == '\n');
        assert forall|i: int| 0 < i < data.len() && #[trigger] data[i] == '\n' implies data[i - 1]
            != '\r' by {
            if i < event.data.len() {
                assert(data[i] == event.data[i]);
                assert(data[i - 1] == event.data[i - 1]);
            } else if i < event.data.len() + value.len() {
                assert(data[i] == value[i - event.data.len()]);
            } else if value.len() > 0 {
                assert(data[i - 1] == value.last());
            } else {
                assert(data[i - 1] == event.data.last());
            }
        }
    }
}

/// Lines make of an event that the stream gives back another such event.
proof fn lemma_parse_lines_keep_wire_safe(lines: Seq<Seq<char>>, event: EventView)
    requires
        forall|i: int| 0 <= i < lines.len() ==> is_one_line(#[trigger] lines[i]),
        event.is_wire_safe(),
    ensures
        parse_lines(lines, event).is_wire_safe(),
    decreases lines.len(),
{
    if lines.len() > 0 {
        lemma_parse_line_keeps_wire_safe(lines[0], event);
        let rest = lines.drop_first();
        assert forall|i: int| 0 <= i < rest.len() implies is_one_line(#[trigger] rest[i]) by {
            assert(rest[i] == lines[i + 1]);
        }
        lemma_parse_lines_keep_wire_safe(rest, parse_line(lines[0], event).1);
    }
}

/// Whatever text a reader takes lines from, the event that they build from
/// the empty one is one that the stream gives back as it is.
pub proof fn lemma_read_event_is_wire_safe(text: Seq<char>)
    ensures
        parse_lines(read_lines(text), EventView::empty()).is_wire_safe(),
{
    lemma_read_lines_are_lines(text);
    lemma_parse_lines_keep_wire_safe(read_lines(text), EventView::empty());
}

/// An event is read back from what was written of it exactly where the
/// stream gives it back as it is: no other event survives the writing.
pub proof fn lemma_reads_back_iff_wire_safe(event: EventView)
    ensures
        event.is_wire_safe() <==> parse_lines(read_lines(wire_text(event)), EventView::empty())
            == event,
{
    if event.is_wire_safe() {
        lemma_written_event_reads_back(event);
    }
    lemma_read_event_is_wire_safe(wire_text(event));
}

} // verus!
