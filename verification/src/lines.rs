//! Cutting a body that arrives in pieces into lines.

use crate::event::{lemma_until, until};
use crate::text::{chars_of, string_of};
use crate::wire::read_lines;
use vstd::prelude::*;

verus! {

/// The text of a body that has arrived and has not been handed out yet.
///
/// Pieces of the body go in with [`LineBuffer::feed`]; whole lines come out
/// with [`LineBuffer::next_line`], each with its line feed. What follows the
/// last line feed stays until the rest of its line arrives.
#[derive(Debug)]
pub struct LineBuffer {
    chars: Vec<char>,
    /// What stands before `start` has been handed out.
    start: usize,
    /// No line feed stands from `start` up to `scanned`, where that is
    /// further on.
    scanned: usize,
}

impl View for LineBuffer {
    type V = Seq<char>;

    /// The text that has not been handed out.
    closed spec fn view(&self) -> Seq<char> {
        self.chars@.skip(self.start as int)
    }
}

/// The line feed that ends the first line of `text` stands where `until`
/// counts to, if the text holds one.
pub open spec fn has_line(text: Seq<char>) -> bool {
    until(text, '\n') < text.len()
}

/// The first line of `text`, with its line feed.
pub open spec fn first_line(text: Seq<char>) -> Seq<char> {
    text.take(until(text, '\n') as int + 1)
}

/// What follows the first line of `text`.
pub open spec fn after_first_line(text: Seq<char>) -> Seq<char> {
    text.skip(until(text, '\n') as int + 1)
}

impl LineBuffer {
    #[verifier::type_invariant]
    spec fn inv(self) -> bool {
        &&& self.start <= self.chars.len()
        &&& self.scanned <= self.chars.len()
        &&& forall|j: int| self.start <= j < self.scanned ==> #[trigger] self.chars@[j] != '\n'
    }

    /// An empty buffer.
    pub fn new() -> (buffer: LineBuffer)
        ensures
            buffer@ == Seq::<char>::empty(),
    {
        LineBuffer { chars: Vec::new(), start: 0, scanned: 0 }
    }

    /// Forgets what has not been handed out.
    pub fn clear(&mut self)
        ensures
            final(self)@ == Seq::<char>::empty(),
    {
        *self = LineBuffer::new();
    }

    /// Adds a piece of the body behind what has not been handed out.
    pub fn feed(&mut self, piece: &str)
        ensures
            final(self)@ == old(self)@ + piece@,
    {
        proof {
            use_type_invariant(&*self);
        }
        let added = chars_of(piece);
        let mut chars: Vec<char> = Vec::new();
        let mut i: usize = self.start;
        while i < self.chars.len()
            invariant
                self.start <= i <= self.chars.len(),
                chars@ == self.chars@.subrange(self.start as int, i as int),
            decreases self.chars.len() - i,
        {
            chars.push(self.chars[i]);
            i += 1;
        }
        let kept: usize = chars.len();
        let mut k: usize = 0;
        while k < added.len()
            invariant
                k <= added.len(),
                kept == self.chars.len() - self.start,
                chars@ == self.chars@.skip(self.start as int) + added@.take(k as int),
            decreases added.len() - k,
        {
            chars.push(added[k]);
            k += 1;
        }
        assert(added@.take(added.len() as int) =~= added@);
        let scanned: usize = if self.scanned > self.start {
            self.scanned - self.start
        } else {
            0
        };
        assert forall|j: int| 0 <= j < scanned implies #[trigger] chars@[j] != '\n' by {
            assert(chars@[j] == self.chars@[self.start + j]);
        }
        assert(chars@.skip(0) =~= chars@);
        *self = LineBuffer { chars, start: 0, scanned };
    }

    /// Hands out the next whole line, with its line feed, if one has arrived.
    pub fn next_line(&mut self) -> (line: Option<String>)
        ensures
            match line {
                Some(line) => {
                    &&& has_line(old(self)@)
                    &&& line@ == first_line(old(self)@)
                    &&& final(self)@ == after_first_line(old(self)@)
                },
                None => !has_line(old(self)@) && final(self)@ == old(self)@,
            },
    {
        proof {
            use_type_invariant(&*self);
        }
        let ghost text = self@;
        let mut end: usize = if self.scanned > self.start {
            self.scanned
        } else {
            self.start
        };
        while end < self.chars.len() && self.chars[end] != '\n'
            invariant
                self.start <= end <= self.chars.len(),
                forall|j: int| self.start <= j < end ==> #[trigger] self.chars@[j] != '\n',
            decreases self.chars.len() - end,
        {
            end += 1;
        }
        proof {
            assert forall|j: int| 0 <= j < end - self.start implies #[trigger] text[j] != '\n' by {
                assert(text[j] == self.chars@[self.start + j]);
            }
            lemma_until(text, '\n', end - self.start);
        }
        if end == self.chars.len() {
            self.scanned = end;
            None
        } else {
            let line = string_of(&self.chars, self.start, end + 1);
            assert(line@ =~= first_line(text));
            assert(self.chars@.skip(end + 1) =~= after_first_line(text));
            self.start = end + 1;
            self.scanned = end + 1;
            Some(line)
        }
    }
}

/// The lines that come out of a buffer are those that a reader takes from
/// its text: the first one, then those of what follows it.
pub proof fn lemma_first_line_is_read(text: Seq<char>)
    requires
        has_line(text),
    ensures
        read_lines(text) == seq![first_line(text)] + read_lines(after_first_line(text)),
{
}

/// Where no whole line has arrived, a reader takes from the text its
/// unfinished last line at most.
pub proof fn lemma_no_line_is_read(text: Seq<char>)
    requires
        !has_line(text),
    ensures
        read_lines(text) == if text.len() == 0 {
            Seq::<Seq<char>>::empty()
        } else {
            seq![text]
        },
{
    crate::event::lemma_until_stops(text, '\n');
}

} // verus!
