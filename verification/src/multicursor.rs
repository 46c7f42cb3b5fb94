//! More than one caret: selecting further occurrences, and carets on the lines around.

use vstd::prelude::*;

use crate::contribution::{Contributions, Offer};
use crate::doc::{greater, lesser, max_of, min_of, opt_wf, Doc, Selection};
use crate::effect::{effects_view, emit, no_effects, Effect, EffectView};
use crate::text::{same, stands, stands_at};

verus! {

/// The place `off` after `at`, among `span` places, going round at the end.
pub open spec fn round(at: int, off: int, span: int) -> int {
    if at + off < span {
        at + off
    } else {
        at + off - span
    }
}

/// The first place from the one `off` after `at` on where `needle` stands, going round once.
pub open spec fn first_round(
    chars: Seq<char>,
    needle: Seq<char>,
    at: int,
    off: int,
    span: int,
) -> Option<int>
    decreases span - off,
{
    if off >= span {
        None
    } else if stands(chars, needle, round(at, off, span)) {
        Some(round(at, off, span))
    } else {
        first_round(chars, needle, at, off + 1, span)
    }
}

/// Where a search from `from` starts, among `span` places: at the beginning where `from` is past
/// them all.
pub open spec fn search_start(from: int, span: int) -> int {
    if from < span {
        from
    } else {
        0
    }
}

/// The first occurrence of `needle` at or after `from`, or else from the beginning.
pub open spec fn next_occurrence(chars: Seq<char>, needle: Seq<char>, from: int) -> Option<int> {
    let span = chars.len() - needle.len() + 1;
    if needle.len() == 0 || span <= 0 {
        None
    } else {
        first_round(chars, needle, search_start(from, span), 0, span)
    }
}

/// Find the next occurrence of `needle` at or after `from`, or else from the beginning.
pub fn find_next_occurrence(chars: &[char], needle: &[char], from: usize) -> (r: Option<
    (usize, usize),
>)
    ensures
        match r {
            Some((a, b)) => next_occurrence(chars@, needle@, from as int) == Some(a as int) && b
                == a + needle@.len(),
            None => next_occurrence(chars@, needle@, from as int) is None,
        },
{
    let n: usize = chars.len();
    let m: usize = needle.len();
    if m == 0 || m > n {
        return None;
    }
    let span: usize = n - m + 1;
    let at: usize = if from < span {
        from
    } else {
        0
    };
    let mut off: usize = 0;
    while off < span
        invariant
            off <= span,
            at < span,
            m == needle@.len(),
            n == chars@.len(),
            1 <= m <= n,
            span == n - m + 1,
            first_round(chars@, needle@, at as int, 0, span as int) == first_round(
                chars@,
                needle@,
                at as int,
                off as int,
                span as int,
            ),
            next_occurrence(chars@, needle@, from as int) == first_round(
                chars@,
                needle@,
                at as int,
                0,
                span as int,
            ),
        decreases span - off,
    {
        let i: usize = if off < span - at {
            at + off
        } else {
            off - (span - at)
        };
        assert(i == round(at as int, off as int, span as int));
        if stands_at(chars, needle, i) {
            return Some((i, i + m));
        }
        off += 1;
    }
    None
}

/// The occurrences of `needle` from `i` on that do not overlap, behind those found so far.
pub open spec fn occurrences(
    chars: Seq<char>,
    needle: Seq<char>,
    i: int,
    acc: Seq<(usize, usize)>,
) -> Seq<(usize, usize)>
    decreases chars.len() - i,
{
    if needle.len() == 0 || i < 0 || i + needle.len() > chars.len() {
        acc
    } else if stands(chars, needle, i) {
        occurrences(
            chars,
            needle,
            i + needle.len(),
            acc.push((i as usize, (i + needle.len()) as usize)),
        )
    } else {
        occurrences(chars, needle, i + 1, acc)
    }
}

/// Where the last of the selections ends.
pub open spec fn last_end(sels: Seq<Selection>, n: int) -> int
    decreases n,
{
    if n <= 0 {
        0
    } else {
        greater(last_end(sels, n - 1), sels[n - 1].to_of())
    }
}

/// Whether one of the selections covers the range.
pub open spec fn covered(sels: Seq<Selection>, a: int, b: int) -> bool {
    exists|i: int|
        0 <= i < sels.len() && (#[trigger] sels[i]).from_of() == a && sels[i].to_of() == b
}

/// The range that occurrences are looked for of: the primary selection, or else the word.
pub open spec fn sought(d: &Doc, word: (usize, usize)) -> (int, int) {
    if d.anchor == d.head {
        (word.0 as int, word.1 as int)
    } else {
        (lesser(d.anchor as int, d.head as int), greater(d.anchor as int, d.head as int))
    }
}

/// A bare caret selects its word. A selection is joined by the next occurrence of its text, unless
/// that is selected.
pub open spec fn next_match(d: &Doc, sels: Seq<Selection>, word: (usize, usize)) -> Option<
    EffectView,
> {
    let (a, b) = sought(d, word);
    if d.anchor == d.head {
        if a < b {
            Some(EffectView::Select { anchor: a, head: b })
        } else {
            None
        }
    } else {
        match next_occurrence(d.chars@, d.chars@.subrange(a, b), last_end(sels, sels.len() as int)) {
            Some(i) => if covered(sels, i, i + (b - a)) {
                None
            } else {
                Some(EffectView::AddSelection { anchor: i, head: i + (b - a) })
            },
            None => None,
        }
    }
}

/// Every occurrence of the selected text, or of the word at a bare caret, is selected.
pub open spec fn all_matches(d: &Doc, word: (usize, usize)) -> Option<EffectView> {
    let (a, b) = sought(d, word);
    if a < b {
        Some(
            EffectView::SelectRanges {
                ranges: occurrences(d.chars@, d.chars@.subrange(a, b), 0, Seq::empty()),
                near: a,
            },
        )
    } else {
        None
    }
}

/// The line that a caret is added on.
pub open spec fn line_beside(d: &Doc, up: bool) -> Option<int> {
    let l = d.line_of(d.head as int);
    if up {
        if l > 0 {
            Some(l - 1)
        } else {
            None
        }
    } else if l < d.last() {
        Some(l + 1)
    } else {
        None
    }
}

/// Where a caret goes: on `line`, behind as many of its characters as are in front of the display
/// column of the character `column` of line `from`.
#[derive(Debug, Clone, Copy, PartialEq, Eq, Structural)]
pub struct Beside {
    pub from: usize,
    pub column: usize,
    pub line: usize,
}

/// A caret is added behind `column` characters of the line.
pub open spec fn caret_beside(d: &Doc, up: bool, column: int) -> Option<EffectView> {
    match line_beside(d, up) {
        Some(l) => Some(
            EffectView::AddSelection { anchor: d.start(l) + column, head: d.start(l) + column },
        ),
        None => None,
    }
}

/// What a command asks for; nothing where it is not one of these.
pub open spec fn commanded(
    command: Seq<char>,
    d: Option<&Doc>,
    sels: Seq<Selection>,
    word: (usize, usize),
    column: int,
) -> Option<Option<EffectView>> {
    if command == "cursor.addNextMatch"@ {
        Some(
            match d {
                Some(d) => next_match(d, sels, word),
                None => None,
            },
        )
    } else if command == "cursor.selectAllMatches"@ {
        Some(
            match d {
                Some(d) => all_matches(d, word),
                None => None,
            },
        )
    } else if command == "cursor.addAbove"@ {
        Some(
            match d {
                Some(d) => caret_beside(d, true, column),
                None => None,
            },
        )
    } else if command == "cursor.addBelow"@ {
        Some(
            match d {
                Some(d) => caret_beside(d, false, column),
                None => None,
            },
        )
    } else {
        None
    }
}

/// The word is within the document.
pub open spec fn word_within(d: Option<&Doc>, word: (usize, usize)) -> bool {
    match d {
        Some(d) => word.1 <= d.chars@.len(),
        None => true,
    }
}

/// The column is within the content of the line that a caret is added on.
pub open spec fn column_within(command: Seq<char>, d: Option<&Doc>, column: int) -> bool {
    match d {
        Some(d) => {
            &&& command == "cursor.addAbove"@ && line_beside(d, true) is Some ==> column
                <= d.lines@[line_beside(d, true)->0].len
            &&& command == "cursor.addBelow"@ && line_beside(d, false) is Some ==> column
                <= d.lines@[line_beside(d, false)->0].len
        },
        None => true,
    }
}

fn copy_chars(chars: &Vec<char>, a: usize, b: usize) -> (r: Vec<char>)
    requires
        a <= b <= chars@.len(),
    ensures
        r@ == chars@.subrange(a as int, b as int),
{
    let mut out: Vec<char> = Vec::new();
    let mut i: usize = a;
    while i < b
        invariant
            a <= i <= b <= chars@.len(),
            out@ == chars@.subrange(a as int, i as int),
        decreases b - i,
    {
        out.push(chars[i]);
        i += 1;
        assert(out@ =~= chars@.subrange(a as int, i as int));
    }
    out
}

/// Whether one of the selections covers the range.
fn is_covered(sels: &[Selection], a: usize, b: usize) -> (r: bool)
    ensures
        r == covered(sels@, a as int, b as int),
{
    let mut i: usize = 0;
    while i < sels.len()
        invariant
            i <= sels.len(),
            forall|k: int|
                0 <= k < i ==> !((#[trigger] sels@[k]).from_of() == a && sels@[k].to_of() == b),
        decreases sels.len() - i,
    {
        if sels[i].from() == a && sels[i].to() == b {
            assert(sels@[i as int].from_of() == a && sels@[i as int].to_of() == b);
            return true;
        }
        i += 1;
    }
    false
}

/// Selects occurrences, and adds carets.
pub struct MultiCursorPlugin;

/// What the plugin contributes.
pub open spec fn contributed() -> Offer {
    Offer::none()
        .command("cursor.addNextMatch"@, "Multi-cursor: Add Next Match"@)
        .command("cursor.selectAllMatches"@, "Multi-cursor: Select All Occurrences"@)
        .command("cursor.addAbove"@, "Multi-cursor: Add Cursor Above"@)
        .command("cursor.addBelow"@, "Multi-cursor: Add Cursor Below"@)
        .keybinding("ctrl+d"@, "cursor.addNextMatch"@)
        .keybinding("ctrl+f2"@, "cursor.selectAllMatches"@)
        .keybinding("ctrl+alt+up"@, "cursor.addAbove"@)
        .keybinding("ctrl+alt+down"@, "cursor.addBelow"@)
}

impl MultiCursorPlugin {
    /// What the plugin contributes.
    pub fn contributions() -> (r: Contributions)
        ensures
            r@ == contributed(),
    {
        Contributions::builder()
            .command("cursor.addNextMatch", "Multi-cursor: Add Next Match")
            .command("cursor.selectAllMatches", "Multi-cursor: Select All Occurrences")
            .command("cursor.addAbove", "Multi-cursor: Add Cursor Above")
            .command("cursor.addBelow", "Multi-cursor: Add Cursor Below")
            .keybinding("ctrl+d", "cursor.addNextMatch")
            .keybinding("ctrl+f2", "cursor.selectAllMatches")
            .keybinding("ctrl+alt+up", "cursor.addAbove")
            .keybinding("ctrl+alt+down", "cursor.addBelow")
    }

    /// Where the caret that a command adds goes, for the editor to find its column; none where the
    /// command adds none.
    pub fn beside(command_id: &str, doc: &Doc) -> (r: Option<Beside>)
        requires
            doc.wf(),
        ensures
            r is Some == ((command_id@ == "cursor.addAbove"@ && line_beside(doc, true) is Some) || (
            command_id@ == "cursor.addBelow"@ && line_beside(doc, false) is Some)),
            r is Some ==> r->0.line < doc.lines@.len(),
            r is Some ==> r->0.from == doc.line_of(doc.head as int) && r->0.column == doc.head
                - doc.start(doc.line_of(doc.head as int)),
            r is Some && command_id@ == "cursor.addAbove"@ ==> line_beside(doc, true) == Some(
                r->0.line as int,
            ),
            r is Some && command_id@ == "cursor.addBelow"@ ==> line_beside(doc, false) == Some(
                r->0.line as int,
            ),
    {
        proof {
            reveal_strlit("cursor.addAbove");
            reveal_strlit("cursor.addBelow");
            assert("cursor.addAbove"@[10] == 'A' && "cursor.addBelow"@[10] == 'B');
        }
        let up: bool = same(command_id, "cursor.addAbove");
        if !up && !same(command_id, "cursor.addBelow") {
            return None;
        }
        let l: usize = doc.char_to_line(doc.head);
        let column: usize = doc.head - doc.line_to_char(l);
        if up {
            if l > 0 {
                Some(Beside { from: l, column, line: l - 1 })
            } else {
                None
            }
        } else if l < doc.lines.len() - 1 {
            Some(Beside { from: l, column, line: l + 1 })
        } else {
            None
        }
    }

    /// Select the word at a bare caret, or add the next occurrence of the selected text.
    pub fn add_next_match(doc: &Doc, sels: &[Selection], word: (usize, usize)) -> (r: Option<
        Effect,
    >)
        requires
            doc.wf(),
        ensures
            match r {
                Some(e) => next_match(doc, sels@, word) == Some(e@),
                None => next_match(doc, sels@, word) is None,
            },
    {
        if doc.anchor == doc.head {
            return if word.0 < word.1 {
                Some(Effect::Select { anchor: word.0, head: word.1 })
            } else {
                None
            };
        }
        let a: usize = min_of(doc.anchor, doc.head);
        let b: usize = max_of(doc.anchor, doc.head);
        let needle: Vec<char> = copy_chars(&doc.chars, a, b);
        let mut end: usize = 0;
        let mut i: usize = 0;
        while i < sels.len()
            invariant
                i <= sels.len(),
                end == last_end(sels@, i as int),
            decreases sels.len() - i,
        {
            end = max_of(end, sels[i].to());
            i += 1;
        }
        match find_next_occurrence(doc.chars.as_slice(), needle.as_slice(), end) {
            Some((s, e)) => {
                if is_covered(sels, s, e) {
                    return None;
                }
                Some(Effect::AddSelection { anchor: s, head: e })
            },
            None => None,
        }
    }

    /// Select every occurrence of the selected text, or of the word at a bare caret.
    pub fn select_all_matches(doc: &Doc, word: (usize, usize)) -> (r: Option<Effect>)
        requires
            doc.wf(),
            word.1 <= doc.chars@.len(),
        ensures
            match r {
                Some(e) => all_matches(doc, word) == Some(e@),
                None => all_matches(doc, word) is None,
            },
    {
        let (a, b): (usize, usize) = if doc.anchor == doc.head {
            word
        } else {
            (min_of(doc.anchor, doc.head), max_of(doc.anchor, doc.head))
        };
        if a >= b {
            return None;
        }
        let needle: Vec<char> = copy_chars(&doc.chars, a, b);
        let n: usize = doc.chars.len();
        let m: usize = b - a;
        let mut ranges: Vec<(usize, usize)> = Vec::new();
        let mut i: usize = 0;
        assert(ranges@ =~= Seq::empty());
        while i <= n - m
            invariant
                1 <= m <= n,
                m == needle@.len(),
                n == doc.chars@.len(),
                i <= n,
                occurrences(doc.chars@, needle@, 0, Seq::empty()) == occurrences(
                    doc.chars@,
                    needle@,
                    i as int,
                    ranges@,
                ),
            decreases n - i,
        {
            if stands_at(doc.chars.as_slice(), needle.as_slice(), i) {
                ranges.push((i, i + m));
                i += m;
            } else {
                i += 1;
            }
        }
        Some(Effect::SelectRanges { ranges, near: a })
    }

    /// Run a command; none where it is not one of these. `sels` are the document's selections,
    /// `word` is the word at the primary caret, and `column` is where on its line an added caret
    /// goes.
    pub fn run_command(
        command_id: &str,
        doc: Option<&Doc>,
        sels: &[Selection],
        word: (usize, usize),
        column: usize,
    ) -> (r: Option<Vec<Effect>>)
        requires
            opt_wf(doc),
            word_within(doc, word),
            column_within(command_id@, doc, column as int),
        ensures
            match commanded(command_id@, doc, sels@, word, column as int) {
                Some(Some(e)) => r is Some && effects_view(r->0@) == seq![e],
                Some(None) => r is Some && effects_view(r->0@) == Seq::<EffectView>::empty(),
                None => r is None,
            },
    {
        let next: bool = same(command_id, "cursor.addNextMatch");
        let all: bool = same(command_id, "cursor.selectAllMatches");
        let above: bool = same(command_id, "cursor.addAbove");
        if !next && !all && !above && !same(command_id, "cursor.addBelow") {
            return None;
        }
        let mut out: Vec<Effect> = no_effects();
        if let Some(d) = doc {
            let e: Option<Effect> = if next {
                Self::add_next_match(d, sels, word)
            } else if all {
                Self::select_all_matches(d, word)
            } else {
                match Self::beside(command_id, d) {
                    Some(p) => {
                        assert(d.lines@[p.line as int].start + d.lines@[p.line as int].len
                            <= d.chars@.len());
                        let head: usize = d.line_to_char(p.line) + column;
                        Some(Effect::AddSelection { anchor: head, head })
                    },
                    None => None,
                }
            };
            if let Some(e) = e {
                emit(&mut out, e);
            }
        }
        Some(out)
    }
}

proof fn lemma_first_round(chars: Seq<char>, needle: Seq<char>, at: int, off: int, span: int)
    requires
        0 <= at < span,
        0 <= off <= span,
    ensures
        match first_round(chars, needle, at, off, span) {
            Some(i) => stands(chars, needle, i) && exists|k: int|
                off <= k < span && i == #[trigger] round(at, k, span) && (forall|j: int|
                    off <= j < k ==> !stands(chars, needle, #[trigger] round(at, j, span))),
            None => forall|j: int|
                off <= j < span ==> !stands(chars, needle, #[trigger] round(at, j, span)),
        },
    decreases span - off,
{
    if off < span && !stands(chars, needle, round(at, off, span)) {
        lemma_first_round(chars, needle, at, off + 1, span);
    }
}

/// The next occurrence is one, and the first from the given place on; where none follows, it is the
/// first of all. Where the text occurs at all there is one.
pub proof fn the_next_occurrence_is_found(chars: Seq<char>, needle: Seq<char>, from: int)
    requires
        needle.len() > 0,
        0 <= from,
    ensures
        match next_occurrence(chars, needle, from) {
            Some(i) => {
                &&& stands(chars, needle, i)
                &&& forall|p: int|
                    #![trigger stands(chars, needle, p)]
                    from <= p && stands(chars, needle, p) ==> from <= i <= p
                &&& i < from ==> forall|p: int| #[trigger] stands(chars, needle, p) ==> i <= p < from
            },
            None => forall|p: int| !#[trigger] stands(chars, needle, p),
        },
{
    let span = chars.len() - needle.len() + 1;
    if span > 0 {
        let at = search_start(from, span);
        lemma_first_round(chars, needle, at, 0, span);
        match next_occurrence(chars, needle, from) {
            Some(i) => {
                let k = choose|k: int|
                    0 <= k < span && i == #[trigger] round(at, k, span) && (forall|j: int|
                        0 <= j < k ==> !stands(chars, needle, #[trigger] round(at, j, span)));
                assert forall|p: int|
                    #![trigger stands(chars, needle, p)]
                    from <= p && stands(chars, needle, p) implies from <= i <= p by {
                    assert(round(at, p - from, span) == p);
                    assert(k <= p - from);
                }
                if i < from {
                    assert forall|p: int| #[trigger] stands(chars, needle, p) implies i <= p
                        < from by {
                        let j = if p >= at {
                            p - at
                        } else {
                            p - at + span
                        };
                        assert(round(at, j, span) == p);
                        assert(k <= j);
                    }
                }
            },
            None => {
                assert forall|p: int| !#[trigger] stands(chars, needle, p) by {
                    if stands(chars, needle, p) {
                        let j = if p >= at {
                            p - at
                        } else {
                            p - at + span
                        };
                        assert(round(at, j, span) == p);
                    }
                }
            },
        }
    }
}

/// Whether one of the ranges overlaps the `m` characters at `p`.
pub open spec fn touched(ranges: Seq<(usize, usize)>, p: int, m: int) -> bool {
    exists|k: int|
        0 <= k < ranges.len() && (#[trigger] ranges[k]).0 < p + m && p < ranges[k].1
}

/// The ranges are occurrences, in order and without overlap.
pub open spec fn apart(chars: Seq<char>, needle: Seq<char>, ranges: Seq<(usize, usize)>) -> bool {
    &&& forall|k: int|
        0 <= k < ranges.len() ==> stands(chars, needle, (#[trigger] ranges[k]).0 as int)
            && ranges[k].1 == ranges[k].0 + needle.len()
    &&& forall|j: int, k: int|
        #![trigger ranges[j], ranges[k]]
        0 <= j < k < ranges.len() ==> ranges[j].1 <= ranges[k].0
}

/// Every occurrence below `i` is among the ranges or overlaps one of them.
pub open spec fn all_touched(
    chars: Seq<char>,
    needle: Seq<char>,
    ranges: Seq<(usize, usize)>,
    i: int,
) -> bool {
    forall|p: int|
        p < i && #[trigger] stands(chars, needle, p) ==> touched(ranges, p, needle.len() as int)
}

/// A further occurrence behind the ranges found so far.
proof fn lemma_one_more(chars: Seq<char>, needle: Seq<char>, i: int, acc: Seq<(usize, usize)>)
    requires
        needle.len() > 0,
        chars.len() <= usize::MAX,
        stands(chars, needle, i),
        apart(chars, needle, acc),
        forall|k: int| 0 <= k < acc.len() ==> (#[trigger] acc[k]).1 <= i,
        all_touched(chars, needle, acc, i),
    ensures
        ({
            let next = acc.push((i as usize, (i + needle.len()) as usize));
            &&& apart(chars, needle, next)
            &&& forall|k: int| 0 <= k < next.len() ==> (#[trigger] next[k]).1 <= i + needle.len()
            &&& all_touched(chars, needle, next, i + needle.len())
        }),
{
    let e = (i as usize, (i + needle.len()) as usize);
    let next = acc.push(e);
    assert forall|p: int|
        p < i + needle.len() && #[trigger] stands(chars, needle, p) implies touched(
        next,
        p,
        needle.len() as int,
    ) by {
        if p < i {
            assert(touched(acc, p, needle.len() as int));
            let k = choose|k: int|
                0 <= k < acc.len() && (#[trigger] acc[k]).0 < p + needle.len() && p < acc[k].1;
            assert(next[k] == acc[k]);
        } else {
            assert(next[acc.len() as int] == e);
        }
    }
}

proof fn lemma_occurrences(chars: Seq<char>, needle: Seq<char>, i: int, acc: Seq<(usize, usize)>)
    requires
        needle.len() > 0,
        chars.len() <= usize::MAX,
        0 <= i,
        apart(chars, needle, acc),
        forall|k: int| 0 <= k < acc.len() ==> (#[trigger] acc[k]).1 <= i,
        all_touched(chars, needle, acc, i),
    ensures
        apart(chars, needle, occurrences(chars, needle, i, acc)),
        all_touched(
            chars,
            needle,
            occurrences(chars, needle, i, acc),
            chars.len() as int,
        ),
    decreases chars.len() - i,
{
    if i + needle.len() <= chars.len() {
        if stands(chars, needle, i) {
            lemma_one_more(chars, needle, i, acc);
            lemma_occurrences(
                chars,
                needle,
                i + needle.len(),
                acc.push((i as usize, (i + needle.len()) as usize)),
            );
        } else {
            lemma_occurrences(chars, needle, i + 1, acc);
        }
    }
}

/// All that is selected are occurrences, in order and without overlap, and every occurrence is
/// selected or overlaps one that is.
pub proof fn every_occurrence_is_selected(chars: Seq<char>, needle: Seq<char>)
    requires
        needle.len() > 0,
        chars.len() <= usize::MAX,
    ensures
        apart(chars, needle, occurrences(chars, needle, 0, Seq::empty())),
        all_touched(
            chars,
            needle,
            occurrences(chars, needle, 0, Seq::empty()),
            chars.len() as int,
        ),
{
    lemma_occurrences(chars, needle, 0, Seq::empty());
}

/// A selection that joins the others holds the selected text and was not selected.
pub proof fn an_added_selection_is_another_occurrence(
    d: &Doc,
    sels: Seq<Selection>,
    word: (usize, usize),
    anchor: int,
    head: int,
)
    requires
        next_match(d, sels, word) == Some(EffectView::AddSelection { anchor, head }),
        d.anchor <= d.chars@.len(),
        d.head <= d.chars@.len(),
    ensures
        ({
            let (a, b) = sought(d, word);
            &&& 0 <= anchor <= head <= d.chars@.len()
            &&& d.chars@.subrange(anchor, head) == d.chars@.subrange(a, b)
            &&& !covered(sels, anchor, head)
        }),
{
    let (a, b) = sought(d, word);
    let from = last_end(sels, sels.len() as int);
    lemma_last_end(sels, sels.len() as int);
    the_next_occurrence_is_found(d.chars@, d.chars@.subrange(a, b), from);
}

proof fn lemma_last_end(sels: Seq<Selection>, n: int)
    ensures
        0 <= last_end(sels, n),
    decreases n,
{
    if n > 0 {
        lemma_last_end(sels, n - 1);
    }
}

proof fn lemma_commands()
    ensures
        "cursor.addNextMatch"@ != "cursor.selectAllMatches"@,
        "cursor.addNextMatch"@ != "cursor.addAbove"@,
        "cursor.addNextMatch"@ != "cursor.addBelow"@,
        "cursor.selectAllMatches"@ != "cursor.addAbove"@,
        "cursor.selectAllMatches"@ != "cursor.addBelow"@,
        "cursor.addAbove"@ != "cursor.addBelow"@,
{
    reveal_strlit("cursor.addNextMatch");
    reveal_strlit("cursor.selectAllMatches");
    reveal_strlit("cursor.addAbove");
    reveal_strlit("cursor.addBelow");
    assert("cursor.addNextMatch"@.len() == 19 && "cursor.selectAllMatches"@.len() == 23);
    assert("cursor.addAbove"@.len() == 15 && "cursor.addBelow"@.len() == 15);
    assert("cursor.addAbove"@[10] == 'A' && "cursor.addBelow"@[10] == 'B');
}

/// A caret is added above on the line before the caret's, and below on the line after it, behind the
/// same number of characters; none where there is no such line.
pub proof fn carets_are_added_beside(
    d: &Doc,
    sels: Seq<Selection>,
    word: (usize, usize),
    column: int,
)
    requires
        d.wf(),
    ensures
        ({
            let l = d.line_of(d.head as int);
            let above = commanded("cursor.addAbove"@, Some(d), sels, word, column);
            let below = commanded("cursor.addBelow"@, Some(d), sels, word, column);
            &&& l == 0 ==> above == Some(None::<EffectView>)
            &&& l > 0 ==> above == Some(
                Some(
                    EffectView::AddSelection {
                        anchor: d.start(l - 1) + column,
                        head: d.start(l - 1) + column,
                    },
                ),
            )
            &&& l + 1 == d.count() ==> below == Some(None::<EffectView>)
            &&& l + 1 < d.count() ==> below == Some(
                Some(
                    EffectView::AddSelection {
                        anchor: d.start(l + 1) + column,
                        head: d.start(l + 1) + column,
                    },
                ),
            )
        }),
{
    lemma_commands();
    d.lemma_line_of(d.head as int);
}

/// A bare caret selects its word, whole; every occurrence that is selected is one of the word, or of
/// the selected text.
pub proof fn a_bare_caret_selects_its_word(
    d: &Doc,
    sels: Seq<Selection>,
    word: (usize, usize),
    column: int,
)
    requires
        d.anchor == d.head,
        word.0 < word.1 <= d.size(),
    ensures
        commanded("cursor.addNextMatch"@, Some(d), sels, word, column) == Some(
            Some(EffectView::Select { anchor: word.0 as int, head: word.1 as int }),
        ),
        commanded("cursor.selectAllMatches"@, Some(d), sels, word, column) matches Some(
            Some(EffectView::SelectRanges { ranges, near }),
        ) && near == word.0 && ranges == occurrences(
            d.chars@,
            d.chars@.subrange(word.0 as int, word.1 as int),
            0,
            Seq::empty(),
        ),
{
    lemma_commands();
}

} // verus!
