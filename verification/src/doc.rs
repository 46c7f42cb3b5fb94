//! A snapshot of a document: its characters, its lines and its primary selection.

use vstd::prelude::*;

use crate::path::last_before;
use crate::text::{chars_of, string_of};

verus! {

/// A line: where it starts, and how many characters it has before its line break.
#[derive(Debug, Clone, Copy, PartialEq, Eq, Structural)]
pub struct Line {
    pub start: usize,
    pub len: usize,
}

/// A selection: where it was started, and where its caret is.
#[derive(Debug, Clone, Copy, PartialEq, Eq, Structural)]
pub struct Selection {
    pub anchor: usize,
    pub head: usize,
}

impl Selection {
    /// Where the selected text starts.
    pub open spec fn from_of(self) -> int {
        lesser(self.anchor as int, self.head as int)
    }

    /// Where the selected text ends.
    pub open spec fn to_of(self) -> int {
        greater(self.anchor as int, self.head as int)
    }

    /// Where the selected text starts.
    pub fn from(&self) -> (r: usize)
        ensures
            r == self.from_of(),
    {
        min_of(self.anchor, self.head)
    }

    /// Where the selected text ends.
    pub fn to(&self) -> (r: usize)
        ensures
            r == self.to_of(),
    {
        max_of(self.anchor, self.head)
    }

    /// Whether nothing is selected.
    pub fn is_empty(&self) -> (r: bool)
        ensures
            r == (self.anchor == self.head),
    {
        self.anchor == self.head
    }
}

/// A document as a plugin reads it.
pub struct Doc {
    pub chars: Vec<char>,
    pub lines: Vec<Line>,
    /// Where the primary selection was started.
    pub anchor: usize,
    /// Where the primary caret is.
    pub head: usize,
    pub tab_width: usize,
    /// The first line in view.
    pub scroll_line: usize,
    pub revision: u64,
}

/// The lesser of two numbers.
pub open spec fn lesser(a: int, b: int) -> int {
    if a <= b {
        a
    } else {
        b
    }
}

/// The greater of two numbers.
pub open spec fn greater(a: int, b: int) -> int {
    if a >= b {
        a
    } else {
        b
    }
}

/// The difference, or zero where it is negative.
pub open spec fn minus(a: int, b: int) -> int {
    if a >= b {
        a - b
    } else {
        0
    }
}

pub fn min_of(a: usize, b: usize) -> (r: usize)
    ensures
        r == lesser(a as int, b as int),
{
    if a <= b {
        a
    } else {
        b
    }
}

pub fn max_of(a: usize, b: usize) -> (r: usize)
    ensures
        r == greater(a as int, b as int),
{
    if a >= b {
        a
    } else {
        b
    }
}

pub fn minus_of(a: usize, b: usize) -> (r: usize)
    ensures
        r == minus(a as int, b as int),
{
    if a >= b {
        a - b
    } else {
        0
    }
}

/// The lesser of a sum and a bound.
pub fn sum_within(a: usize, b: usize, bound: usize) -> (r: usize)
    ensures
        r == lesser(a + b, bound as int),
{
    if a > bound || b > bound - a {
        bound
    } else {
        a + b
    }
}

/// Where the line that character `n` is on starts: past the last line break before it.
pub open spec fn start_before(s: Seq<char>, n: int) -> int {
    last_before(s, '\n', n) + 1
}

/// The line from `a` whose line break is at `i`. A carriage return before the break belongs to it.
pub open spec fn broken_line(s: Seq<char>, a: int, i: int) -> Line {
    let end = if i > a && s[i - 1] == '\r' {
        i - 1
    } else {
        i
    };
    Line { start: a as usize, len: (end - a) as usize }
}

/// The lines of a text that end before character `n`.
pub open spec fn broken_lines(s: Seq<char>, n: int) -> Seq<Line>
    decreases n,
{
    if n <= 0 {
        Seq::empty()
    } else if s[n - 1] == '\n' {
        broken_lines(s, n - 1).push(broken_line(s, start_before(s, n - 1), n - 1))
    } else {
        broken_lines(s, n - 1)
    }
}

/// The lines of a text: one for each line break, and what follows the last.
pub open spec fn line_table(s: Seq<char>) -> Seq<Line> {
    let n = s.len() as int;
    let a = start_before(s, n);
    broken_lines(s, n).push(Line { start: a as usize, len: (n - a) as usize })
}

impl Doc {
    /// There is at least one line, the first starts at the beginning, each starts past the content
    /// of the one before, and the last ends within the text. The selection is within the text, which
    /// is no larger than memory.
    pub open spec fn wf(&self) -> bool {
        &&& self.lines@.len() >= 1
        &&& self.lines@[0].start == 0
        &&& forall|i: int, j: int|
            #![trigger self.lines@[i], self.lines@[j]]
            0 <= i < j < self.lines@.len() ==> self.lines@[i].start + self.lines@[i].len
                < self.lines@[j].start
        &&& forall|i: int|
            0 <= i < self.lines@.len() ==> (#[trigger] self.lines@[i]).start + self.lines@[i].len
                <= self.chars@.len()
        &&& 4 * self.chars@.len() <= isize::MAX
        &&& self.head <= self.chars@.len()
        &&& self.anchor <= self.chars@.len()
    }

    /// The number of characters.
    pub open spec fn size(&self) -> int {
        self.chars@.len() as int
    }

    /// The number of lines.
    pub open spec fn count(&self) -> int {
        self.lines@.len() as int
    }

    /// The last line's number.
    pub open spec fn last(&self) -> int {
        self.lines@.len() - 1
    }

    /// Where line `l` starts.
    pub open spec fn start(&self, l: int) -> int {
        self.lines@[l].start as int
    }

    /// Where the content of line `l` ends.
    pub open spec fn end(&self, l: int) -> int {
        self.lines@[l].start + self.lines@[l].len
    }

    /// The last of the lines below `n` that starts at or before `p`.
    pub open spec fn line_below(&self, p: int, n: int) -> int
        decreases n,
    {
        if n <= 1 || self.start(n - 1) <= p {
            n - 1
        } else {
            self.line_below(p, n - 1)
        }
    }

    /// The line that position `p` is on.
    pub open spec fn line_of(&self, p: int) -> int {
        self.line_below(p, self.count())
    }

    /// Position `p`, cut down to the text.
    pub open spec fn within(&self, p: int) -> int {
        lesser(p, self.size())
    }

    /// The characters from `a` to `b`, both cut down to the text; none where they are the wrong way
    /// round.
    pub open spec fn slice(&self, a: int, b: int) -> Seq<char> {
        if self.within(a) < self.within(b) {
            self.chars@.subrange(self.within(a), self.within(b))
        } else {
            Seq::empty()
        }
    }

    /// The document with a text, cut into lines, and a selection, cut down to the text. None where the
    /// text is larger than memory.
    pub fn of_text(
        text: &str,
        anchor: usize,
        head: usize,
        tab_width: usize,
        scroll_line: usize,
        revision: u64,
    ) -> (r: Option<Doc>)
        ensures
            r is Some == (4 * text@.len() <= isize::MAX),
            r matches Some(d) ==> {
                &&& d.wf()
                &&& d.chars@ == text@
                &&& d.lines@ == line_table(text@)
                &&& d.anchor == lesser(anchor as int, text@.len() as int)
                &&& d.head == lesser(head as int, text@.len() as int)
                &&& d.tab_width == tab_width
                &&& d.scroll_line == scroll_line
                &&& d.revision == revision
            },
    {
        let n: usize = text.unicode_len();
        if n > isize::MAX as usize / 4 {
            return None;
        }
        let chars: Vec<char> = chars_of(text);
        let mut lines: Vec<Line> = Vec::new();
        let mut start: usize = 0;
        let mut i: usize = 0;
        while i < n
            invariant
                n == chars@.len(),
                start <= i <= n,
                start == start_before(chars@, i as int),
                lines@ == broken_lines(chars@, i as int),
                lines@.len() == 0 ==> start == 0,
                lines@.len() > 0 ==> lines@[0].start == 0,
                forall|j: int, k: int|
                    #![trigger lines@[j], lines@[k]]
                    0 <= j < k < lines@.len() ==> lines@[j].start + lines@[j].len < lines@[k].start,
                forall|j: int|
                    0 <= j < lines@.len() ==> (#[trigger] lines@[j]).start + lines@[j].len < start,
            decreases n - i,
        {
            if chars[i] == '\n' {
                let end: usize = if i > start && chars[i - 1] == '\r' {
                    i - 1
                } else {
                    i
                };
                lines.push(Line { start, len: end - start });
                start = i + 1;
            }
            i += 1;
        }
        lines.push(Line { start, len: n - start });
        Some(
            Doc {
                anchor: min_of(anchor, n),
                head: min_of(head, n),
                chars,
                lines,
                tab_width,
                scroll_line,
                revision,
            },
        )
    }

    /// The line that position `p` is on is a line, and starts at or before `p`; the one after it
    /// starts past `p`.
    pub proof fn lemma_line_of(&self, p: int)
        requires
            self.wf(),
            0 <= p,
        ensures
            0 <= self.line_of(p) < self.count(),
            self.start(self.line_of(p)) <= p,
            self.line_of(p) + 1 < self.count() ==> p < self.start(self.line_of(p) + 1),
    {
        self.lemma_line_below(p, self.count());
    }

    proof fn lemma_line_below(&self, p: int, n: int)
        requires
            self.wf(),
            0 <= p,
            1 <= n <= self.count(),
            n < self.count() ==> p < self.start(n),
        ensures
            0 <= self.line_below(p, n) < self.count(),
            self.start(self.line_below(p, n)) <= p,
            self.line_below(p, n) + 1 < self.count() ==> p < self.start(
                self.line_below(p, n) + 1,
            ),
        decreases n,
    {
        if n > 1 && self.start(n - 1) > p {
            self.lemma_line_below(p, n - 1);
        }
    }

    /// The line that position `p` is on.
    pub fn char_to_line(&self, p: usize) -> (r: usize)
        requires
            self.wf(),
        ensures
            r == self.line_of(p as int),
            r < self.lines@.len(),
            self.start(r as int) <= p,
    {
        proof {
            self.lemma_line_of(p as int);
        }
        let mut n: usize = self.lines.len();
        while n > 1 && self.lines[n - 1].start > p
            invariant
                self.wf(),
                1 <= n <= self.lines@.len(),
                self.line_of(p as int) == self.line_below(p as int, n as int),
            decreases n,
        {
            n -= 1;
        }
        n - 1
    }

    pub fn line_to_char(&self, l: usize) -> (r: usize)
        requires
            self.wf(),
            l < self.lines@.len(),
        ensures
            r == self.start(l as int),
            r <= self.chars@.len(),
    {
        self.lines[l].start
    }

    /// Where the content of line `l` ends.
    pub fn line_end(&self, l: usize) -> (r: usize)
        requires
            self.wf(),
            l < self.lines@.len(),
        ensures
            r == self.end(l as int),
            self.start(l as int) <= r <= self.chars@.len(),
    {
        self.lines[l].start + self.lines[l].len
    }

    pub fn clamp(&self, p: usize) -> (r: usize)
        ensures
            r == self.within(p as int),
    {
        min_of(p, self.chars.len())
    }

    /// The characters from `a` to `b`.
    pub fn text_between(&self, a: usize, b: usize) -> (r: String)
        ensures
            r@ == self.slice(a as int, b as int),
    {
        let s: usize = self.clamp(a);
        let e: usize = self.clamp(b);
        if s < e {
            string_of(self.chars.as_slice(), s, e)
        } else {
            let r: String = String::new();
            assert(r@ =~= Seq::empty());
            r
        }
    }
}

/// Where the primary caret is; at the beginning where there is no document.
pub open spec fn head_of(d: Option<&Doc>) -> int {
    match d {
        Some(d) => d.head as int,
        None => 0,
    }
}

pub open spec fn opt_wf(d: Option<&Doc>) -> bool {
    match d {
        Some(d) => d.wf(),
        None => true,
    }
}

/// Where the primary caret is; at the beginning where there is no document.
pub fn primary_head(d: Option<&Doc>) -> (r: usize)
    ensures
        r == head_of(d),
{
    match d {
        Some(d) => d.head,
        None => 0,
    }
}

} // verus!
