//! A text buffer that indents what is written to it.

use crate::text::{push_char, string_views};
use vstd::prelude::*;

verus! {

/// An append-only text buffer that keeps track of an indentation depth.
///
/// Text that is pushed while the depth is positive has every line after the
/// first one prefixed with one tab per level.
pub struct Buffer {
    buffer: String,
    indents: i8,
}

/// What a [`Buffer`] stands for: the text written so far and the current depth.
pub ghost struct BufferView {
    pub text: Seq<char>,
    pub indents: int,
}

/// The prefix written at the start of a line at the given depth: one tab per
/// level, nothing when the depth is zero or negative.
pub open spec fn indentation(depth: int) -> Seq<char> {
    Seq::new(if depth > 0 { depth as nat } else { 0 }, |i: int| '\t')
}

/// The text `s` with the indentation of `depth` inserted in front of every
/// character that directly follows a line break.
///
/// A line break at the very end of `s` is followed by nothing, so no
/// indentation is written after it.
pub open spec fn indented(s: Seq<char>, depth: int) -> Seq<char>
    decreases s.len(),
{
    if s.len() == 0 {
        s
    } else {
        let init = s.drop_last();
        let lead = if init.len() > 0 && init.last() == '\n' {
            indentation(depth)
        } else {
            Seq::empty()
        };
        indented(init, depth) + lead + seq![s.last()]
    }
}

/// What starts a new line at the given depth: a line feed and the
/// indentation.
pub open spec fn line_start(depth: int) -> Seq<char> {
    seq!['\n'] + indentation(depth)
}

/// Whether `s` holds no line feed.
pub open spec fn plain(s: Seq<char>) -> bool {
    forall|i: int| 0 <= i < s.len() ==> s[i] != '\n'
}

/// A text of one line stays as it is, whatever the depth.
pub proof fn lemma_indented_plain(s: Seq<char>, depth: int)
    requires
        plain(s),
    ensures
        indented(s, depth) == s,
    decreases s.len(),
{
    if s.len() > 0 {
        lemma_indented_plain(s.drop_last(), depth);
        assert(s.drop_last() + Seq::<char>::empty() + seq![s.last()] =~= s);
    }
}

/// With no indentation to insert, the text stays as it is.
pub proof fn lemma_indented_flat(s: Seq<char>, depth: int)
    requires
        depth <= 0,
    ensures
        indented(s, depth) == s,
    decreases s.len(),
{
    if s.len() > 0 {
        lemma_indented_flat(s.drop_last(), depth);
        assert(indentation(depth) =~= Seq::<char>::empty());
        assert(s.drop_last() + Seq::<char>::empty() + seq![s.last()] =~= s);
    }
}

impl View for Buffer {
    type V = BufferView;

    closed spec fn view(&self) -> BufferView {
        BufferView { text: self.buffer@, indents: self.indents as int }
    }
}

impl Buffer {
    /// An empty buffer at depth zero.
    pub fn default() -> (buffer: Buffer)
        ensures
            buffer@ == (BufferView { text: Seq::empty(), indents: 0 }),
    {
        Buffer { buffer: String::new(), indents: 0 }
    }

    /// Goes one level deeper.
    pub fn indent(&mut self)
        requires
            old(self)@.indents < i8::MAX,
        ensures
            final(self)@ == (BufferView { indents: old(self)@.indents + 1, ..old(self)@ }),
    {
        self.indents = self.indents + 1;
    }

    /// Goes one level back up.
    pub fn unindent(&mut self)
        requires
            old(self)@.indents > i8::MIN,
        ensures
            final(self)@ == (BufferView { indents: old(self)@.indents - 1, ..old(self)@ }),
    {
        self.indents = self.indents - 1;
    }

    fn push_indentation(&mut self)
        ensures
            final(self)@ == (BufferView {
                text: old(self)@.text + indentation(old(self)@.indents),
                ..old(self)@
            }),
    {
        let mut level: i8 = 0;
        while level < self.indents
            invariant
                0 <= level,
                level <= self.indents || self.indents < 0,
                self.indents == old(self).indents,
                self.buffer@ == old(self).buffer@ + indentation(
                    if self.indents < 0 { 0 } else { level as int },
                ),
            decreases self.indents - level,
        {
            push_char(&mut self.buffer, '\t');
            level = level + 1;
            assert(indentation(level as int) =~= indentation(level - 1).push('\t'));
            assert(self.buffer@ =~= old(self).buffer@ + indentation(level as int));
        }
        assert(self.buffer@ =~= old(self).buffer@ + indentation(self.indents as int));
    }

    /// Starts a new line at the current depth.
    pub fn new_line(&mut self)
        ensures
            final(self)@ == (BufferView {
                text: old(self)@.text + line_start(old(self)@.indents),
                ..old(self)@
            }),
            old(self)@.indents <= 0 ==> final(self)@.text == old(self)@.text.push('\n'),
    {
        push_char(&mut self.buffer, '\n');
        self.push_indentation();
        assert(self.buffer@ =~= old(self).buffer@ + line_start(old(self).indents as int));
        assert(old(self).indents <= 0 ==> indentation(old(self).indents as int) =~= Seq::<
            char,
        >::empty());
    }

    /// Appends `string`, indenting each of its lines but the first.
    pub fn push(&mut self, string: &str)
        ensures
            final(self)@ == (BufferView {
                text: old(self)@.text + indented(string@, old(self)@.indents),
                ..old(self)@
            }),
            old(self)@.indents <= 0 || plain(string@) ==> final(self)@.text == old(self)@.text
                + string@,
    {
        proof {
            if old(self)@.indents <= 0 {
                lemma_indented_flat(string@, old(self)@.indents);
            } else if plain(string@) {
                lemma_indented_plain(string@, old(self)@.indents);
            }
        }
        let mut after_newline = false;
        for c in it: string.chars()
            invariant
                it.seq() == string@,
                self.indents == old(self).indents,
                self.buffer@ == old(self).buffer@ + indented(
                    string@.take(it.index()),
                    old(self).indents as int,
                ),
                after_newline == (it.index() > 0 && string@[it.index() - 1] == '\n'),
        {
            let ghost done = string@.take(it.index());
            let ghost next = string@.take(it.index() + 1);
            assert(next.drop_last() =~= done);
            assert(next.last() == c);
            if after_newline {
                self.push_indentation();
            }
            push_char(&mut self.buffer, c);
            after_newline = c == '\n';
            assert(self.buffer@ =~= old(self).buffer@ + indented(next, old(self).indents as int));
        }
        assert(string@.take(string@.len() as int) =~= string@);
    }

    /// Hands out the text written so far.
    pub fn flush(self) -> (text: String)
        ensures
            text@ == self@.text,
    {
        self.buffer
    }
}

impl core::ops::Add<&str> for Buffer {
    type Output = Buffer;

    /// The buffer after `rhs` has been pushed to it.
    fn add(self, rhs: &str) -> (sum: Buffer)
        ensures
            sum@ == (BufferView { text: self@.text + indented(rhs@, self@.indents), ..self@ }),
    {
        let mut sum = self;
        sum.push(rhs);
        sum
    }
}

impl vstd::std_specs::ops::AddSpecImpl<&str> for Buffer {
    open spec fn obeys_add_spec() -> bool {
        false
    }

    open spec fn add_req(self, rhs: &str) -> bool {
        true
    }

    open spec fn add_spec(self, rhs: &str) -> Buffer {
        self
    }
}

impl core::ops::Add<Buffer> for Buffer {
    type Output = Buffer;

    /// The buffer after the text of `rhs` has been pushed to it.
    fn add(self, rhs: Buffer) -> (sum: Buffer)
        ensures
            sum@ == (BufferView { text: self@.text + indented(rhs@.text, self@.indents), ..self@ }),
    {
        let mut sum = self;
        let text = rhs.flush();
        sum.push(text.as_str());
        sum
    }
}

impl vstd::std_specs::ops::AddSpecImpl<Buffer> for Buffer {
    open spec fn obeys_add_spec() -> bool {
        false
    }

    open spec fn add_req(self, rhs: Buffer) -> bool {
        true
    }

    open spec fn add_spec(self, rhs: Buffer) -> Buffer {
        self
    }
}

impl core::ops::AddAssign<&str> for Buffer {
    /// Pushes `rhs` to the buffer.
    fn add_assign(&mut self, rhs: &str)
        ensures
            final(self)@ == (BufferView {
                text: old(self)@.text + indented(rhs@, old(self)@.indents),
                ..old(self)@
            }),
    {
        self.push(rhs);
    }
}

/// The lines of a block, one level deep: each entry on a line of its own
/// with `end` after it.
pub open spec fn entry_lines(entries: Seq<Seq<char>>, end: Seq<char>) -> Seq<char>
    decreases entries.len(),
{
    if entries.len() == 0 {
        Seq::empty()
    } else {
        entry_lines(entries.drop_last(), end) + line_start(1) + indented(entries.last(), 1) + end
    }
}

/// A block: the head, the entries one level deep, and the closing brace on
/// a line of its own.
pub open spec fn block(head: Seq<char>, entries: Seq<Seq<char>>, end: Seq<char>) -> Seq<char> {
    head + entry_lines(entries, end) + line_start(0) + "}"@
}

/// Writes `entries` into `buffer`: each on a line of its own, with `end`
/// after it.
pub(crate) fn push_entries(buffer: &mut Buffer, entries: &Vec<String>, end: &str)
    requires
        plain(end@),
        old(buffer)@.indents == 1,
    ensures
        final(buffer)@ == (BufferView {
            text: old(buffer)@.text + entry_lines(string_views(entries@), end@),
            ..old(buffer)@
        }),
{
    let ghost all = string_views(entries@);
    let ghost start = buffer@.text;
    let mut i: usize = 0;
    assert(all.take(0) =~= Seq::<Seq<char>>::empty());
    assert(buffer@.text =~= start + entry_lines(all.take(0), end@));
    while i < entries.len()
        invariant
            i <= entries.len(),
            all == string_views(entries@),
            plain(end@),
            buffer@.indents == 1,
            buffer@.text == start + entry_lines(all.take(i as int), end@),
        decreases entries.len() - i,
    {
        assert(all.take(i + 1).drop_last() =~= all.take(i as int));
        assert(all.take(i + 1).last() == entries@[i as int]@);
        buffer.new_line();
        buffer.push(entries[i].as_str());
        buffer.push(end);
        assert(buffer@.text =~= start + (entry_lines(all.take(i as int), end@) + line_start(1)
            + indented(entries@[i as int]@, 1) + end@));
        i = i + 1;
    }
    assert(all.take(i as int) =~= all);
}

/// Writes a block: the head, the entries one level deep, each with `end`
/// after it, and the closing brace.
pub(crate) fn write_block(head: &str, entries: &Vec<String>, end: &str) -> (text: String)
    requires
        plain(end@),
    ensures
        text@ == block(head@, string_views(entries@), end@),
{
    let mut buffer = Buffer::default();
    buffer.push(head);
    buffer.indent();
    push_entries(&mut buffer, entries, end);
    buffer.unindent();
    buffer.new_line();
    buffer.push("}");
    assert(buffer@.text =~= block(head@, string_views(entries@), end@));
    buffer.flush()
}

} // verus!
