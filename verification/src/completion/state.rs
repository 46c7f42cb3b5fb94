//! Completion items, and those of them that match what was typed.

use vstd::prelude::*;

use crate::number::wrapped;
use crate::protocol::{edits_view, ServerCommand, TextEdit, TextEditView};
use crate::text::{chars_of, lowered, starts_with, strip_start, to_lower};
use crate::ui::opt_text;

verus! {

/// What a server offers.
#[derive(Debug, PartialEq, Eq)]
pub struct CompletionItem {
    pub label: String,
    pub detail: Option<String>,
    pub insert_text: String,
    pub kind: Option<u8>,
    /// Further changes that come with it, such as imports.
    pub additional_edits: Vec<TextEdit>,
    pub is_snippet: bool,
    /// What the server wants back to fill the item in, as JSON text.
    pub data: Option<String>,
    pub command: Option<ServerCommand>,
}

pub struct ItemView {
    pub label: Seq<char>,
    pub detail: Option<Seq<char>>,
    pub insert_text: Seq<char>,
    pub kind: Option<u8>,
    pub edits: Seq<TextEditView>,
    pub is_snippet: bool,
    pub data: Option<Seq<char>>,
    pub command: Option<(Seq<char>, Seq<char>)>,
}

pub open spec fn command_view(c: Option<ServerCommand>) -> Option<(Seq<char>, Seq<char>)> {
    match c {
        Some(c) => Some((c.command@, c.arguments@)),
        None => None,
    }
}

impl View for CompletionItem {
    type V = ItemView;

    open spec fn view(&self) -> ItemView {
        ItemView {
            label: self.label@,
            detail: opt_text(self.detail),
            insert_text: self.insert_text@,
            kind: self.kind,
            edits: edits_view(self.additional_edits@),
            is_snippet: self.is_snippet,
            data: opt_text(self.data),
            command: command_view(self.command),
        }
    }
}

pub open spec fn items_view(v: Seq<CompletionItem>) -> Seq<ItemView> {
    v.map_values(|i: CompletionItem| i@)
}

/// The sign of an item's kind.
pub open spec fn kind_sign(kind: Option<u8>) -> Seq<char> {
    match kind {
        None => "•"@,
        Some(k) => if k == 2 || k == 3 || k == 4 {
            "ƒ"@
        } else if k == 5 || k == 10 {
            "."@
        } else if k == 6 {
            "x"@
        } else if k == 7 || k == 8 || k == 22 {
            "T"@
        } else if k == 9 {
            "M"@
        } else if k == 13 {
            "E"@
        } else if k == 14 {
            "K"@
        } else if k == 15 {
            "S"@
        } else if k == 21 {
            "C"@
        } else {
            "•"@
        },
    }
}

/// The sign of an item's kind.
pub fn kind_label(kind: Option<u8>) -> (r: &'static str)
    ensures
        r@ == kind_sign(kind),
{
    match kind {
        None => "•",
        Some(k) => if k == 2 || k == 3 || k == 4 {
            "ƒ"
        } else if k == 5 || k == 10 {
            "."
        } else if k == 6 {
            "x"
        } else if k == 7 || k == 8 || k == 22 {
            "T"
        } else if k == 9 {
            "M"
        } else if k == 13 {
            "E"
        } else if k == 14 {
            "K"
        } else if k == 15 {
            "S"
        } else if k == 21 {
            "C"
        } else {
            "•"
        },
    }
}

/// Whether the needle's characters from `i` on appear in this order in the haystack from `j` on.
pub open spec fn subsequence(needle: Seq<char>, i: int, hay: Seq<char>, j: int) -> bool
    decreases hay.len() - j,
{
    if i >= needle.len() {
        true
    } else if j >= hay.len() {
        false
    } else if hay[j] == needle[i] {
        subsequence(needle, i + 1, hay, j + 1)
    } else {
        subsequence(needle, i, hay, j + 1)
    }
}

/// How well a label matches a prefix in lower case: 0 for an empty prefix, 100 where it starts with
/// the prefix, 50 where the prefix's characters appear in it in order.
pub open spec fn score_of(label: Seq<char>, prefix: Seq<char>) -> Option<int> {
    if prefix.len() == 0 {
        Some(0)
    } else if starts_with(lowered(label), prefix) {
        Some(100)
    } else if subsequence(prefix, 0, lowered(label), 0) {
        Some(50)
    } else {
        None
    }
}

/// Those of the first `n` items that match with the score.
pub open spec fn with_score(items: Seq<ItemView>, prefix: Seq<char>, score: int, n: int) -> Seq<
    usize,
>
    decreases n,
{
    if n <= 0 {
        Seq::empty()
    } else if score_of(items[n - 1].label, prefix) == Some(score) {
        with_score(items, prefix, score, n - 1).push((n - 1) as usize)
    } else {
        with_score(items, prefix, score, n - 1)
    }
}

/// The items that match what was typed, the better matches first, and equal ones in their order.
pub open spec fn ranked(items: Seq<ItemView>, typed: Seq<char>) -> Seq<usize> {
    let p = lowered(typed);
    let n = items.len() as int;
    with_score(items, p, 0, n) + with_score(items, p, 100, n) + with_score(items, p, 50, n)
}

/// Items, those that match, and the selected one of them.
pub struct CompletionState {
    pub items: Vec<CompletionItem>,
    pub filtered: Vec<usize>,
    pub selected: usize,
    /// Where the name that is completed starts.
    pub anchor: usize,
    /// What was typed of it.
    pub prefix: String,
}

pub struct CompletionView {
    pub items: Seq<ItemView>,
    pub filtered: Seq<usize>,
    pub selected: usize,
    pub anchor: usize,
    pub prefix: Seq<char>,
}

impl View for CompletionState {
    type V = CompletionView;

    open spec fn view(&self) -> CompletionView {
        CompletionView {
            items: items_view(self.items@),
            filtered: self.filtered@,
            selected: self.selected,
            anchor: self.anchor,
            prefix: self.prefix@,
        }
    }
}

impl CompletionView {
    /// The matches for what was typed, the first selected.
    pub open spec fn refiltered(self) -> CompletionView {
        CompletionView { filtered: ranked(self.items, self.prefix), selected: 0, ..self }
    }

    /// Whether the matches are items.
    pub open spec fn wf(self) -> bool {
        forall|i: int| 0 <= i < self.filtered.len() ==> (#[trigger] self.filtered[i]) < self.items.len()
    }

    pub open spec fn selected_item(self) -> Option<ItemView> {
        if self.selected < self.filtered.len() && self.filtered[self.selected as int]
            < self.items.len() {
            Some(self.items[self.filtered[self.selected as int] as int])
        } else {
            None
        }
    }

    /// The selection after a step, going round at the ends.
    pub open spec fn moved(self, delta: int) -> CompletionView {
        if self.filtered.len() == 0 {
            self
        } else {
            CompletionView {
                selected: ((self.selected + delta) % (self.filtered.len() as int)) as usize,
                ..self
            }
        }
    }
}

/// A completion of a name that starts at `anchor`, of which `prefix` was typed.
pub open spec fn started(items: Seq<ItemView>, anchor: usize, prefix: Seq<char>) -> CompletionView {
    CompletionView { items, filtered: ranked(items, prefix), selected: 0, anchor, prefix }
}

proof fn lemma_with_score(items: Seq<ItemView>, prefix: Seq<char>, score: int, n: int)
    requires
        0 <= n <= items.len() <= usize::MAX,
    ensures
        forall|i: int|
            0 <= i < with_score(items, prefix, score, n).len() ==> (#[trigger] with_score(
                items,
                prefix,
                score,
                n,
            )[i]) < n && score_of(
                items[with_score(items, prefix, score, n)[i] as int].label,
                prefix,
            ) == Some(score),
        forall|i: int, j: int|
            #![trigger with_score(items, prefix, score, n)[i], with_score(items, prefix, score, n)[j]]
            0 <= i < j < with_score(items, prefix, score, n).len() ==> with_score(
                items,
                prefix,
                score,
                n,
            )[i] < with_score(items, prefix, score, n)[j],
        forall|k: int|
            0 <= k < n && score_of((#[trigger] items[k]).label, prefix) == Some(score)
                ==> with_score(items, prefix, score, n).contains(k as usize),
    decreases n,
{
    if n > 0 {
        lemma_with_score(items, prefix, score, n - 1);
        let p = with_score(items, prefix, score, n - 1);
        let w = with_score(items, prefix, score, n);
        assert forall|k: int|
            0 <= k < n && score_of((#[trigger] items[k]).label, prefix) == Some(
                score,
            ) implies w.contains(k as usize) by {
            if k == n - 1 {
                assert(w[w.len() - 1] == k as usize);
            } else {
                assert(p.contains(k as usize));
                let i = choose|i: int| 0 <= i < p.len() && p[i] == k as usize;
                assert(w[i] == k as usize);
            }
        }
    }
}

/// The matches are exactly the items that have a score.
pub proof fn matches_have_a_score(items: Seq<ItemView>, typed: Seq<char>, k: int)
    requires
        0 <= k < items.len() <= usize::MAX,
    ensures
        ranked(items, typed).contains(k as usize) <==> score_of(items[k].label, lowered(typed))
            is Some,
        forall|i: int|
            0 <= i < ranked(items, typed).len() ==> (#[trigger] ranked(items, typed)[i])
                < items.len(),
{
    let p = lowered(typed);
    let n = items.len() as int;
    lemma_with_score(items, p, 0, n);
    lemma_with_score(items, p, 100, n);
    lemma_with_score(items, p, 50, n);
    let (a, b, c) = (
        with_score(items, p, 0, n),
        with_score(items, p, 100, n),
        with_score(items, p, 50, n),
    );
    let r = ranked(items, typed);
    assert forall|i: int| 0 <= i < r.len() implies (#[trigger] r[i]) < n && score_of(
        items[r[i] as int].label,
        p,
    ) is Some by {
        if i < a.len() {
            assert(r[i] == a[i]);
        } else if i < a.len() + b.len() {
            assert(r[i] == b[i - a.len()]);
        } else {
            assert(r[i] == c[i - a.len() - b.len()]);
        }
    }
    if score_of(items[k].label, p) is Some {
        if a.contains(k as usize) {
            let i = choose|i: int| 0 <= i < a.len() && a[i] == k as usize;
            assert(r[i] == k as usize);
        } else if b.contains(k as usize) {
            let i = choose|i: int| 0 <= i < b.len() && b[i] == k as usize;
            assert(r[a.len() + i] == k as usize);
        } else {
            assert(c.contains(k as usize));
            let i = choose|i: int| 0 <= i < c.len() && c[i] == k as usize;
            assert(r[a.len() + b.len() + i] == k as usize);
        }
    }
}

/// Of two matches the one with the higher score comes first, and of two with the same score the one
/// that the server listed first.
pub proof fn better_matches_come_first(items: Seq<ItemView>, typed: Seq<char>, i: int, j: int)
    requires
        items.len() <= usize::MAX,
        0 <= i < j < ranked(items, typed).len(),
    ensures
        ({
            let r = ranked(items, typed);
            let a = score_of(items[r[i] as int].label, lowered(typed)).unwrap();
            let b = score_of(items[r[j] as int].label, lowered(typed)).unwrap();
            a > b || (a == b && r[i] < r[j])
        }),
{
    let p = lowered(typed);
    let n = items.len() as int;
    lemma_with_score(items, p, 0, n);
    lemma_with_score(items, p, 100, n);
    lemma_with_score(items, p, 50, n);
    let (a, b, c) = (
        with_score(items, p, 0, n),
        with_score(items, p, 100, n),
        with_score(items, p, 50, n),
    );
    let r = ranked(items, typed);
    if i < a.len() {
        assert(r[i] == a[i]);
    } else if i < a.len() + b.len() {
        assert(r[i] == b[i - a.len()]);
    } else {
        assert(r[i] == c[i - a.len() - b.len()]);
    }
    if j < a.len() {
        assert(r[j] == a[j]);
    } else if j < a.len() + b.len() {
        assert(r[j] == b[j - a.len()]);
    } else {
        assert(r[j] == c[j - a.len() - b.len()]);
    }
}

/// Where more was typed, fewer labels match: one that matches the longer text matches the shorter.
pub proof fn typing_more_narrows(label: Seq<char>, shorter: Seq<char>, longer: Seq<char>)
    requires
        starts_with(longer, shorter),
        score_of(label, longer) is Some,
    ensures
        score_of(label, shorter) is Some,
{
    let h = lowered(label);
    assert forall|k: int| 0 <= k < shorter.len() implies longer[k] == shorter[k] by {
        assert(longer.take(shorter.len() as int)[k] == longer[k]);
    }
    if shorter.len() > 0 {
        if starts_with(h, longer) {
            assert(h.take(shorter.len() as int) =~= shorter) by {
                assert forall|k: int| 0 <= k < shorter.len() implies h[k] == shorter[k] by {
                    assert(h.take(longer.len() as int)[k] == longer[k]);
                }
            }
        } else {
            lemma_shorter_needle(shorter, longer, 0, h, 0);
        }
    }
}

proof fn lemma_shorter_needle(
    shorter: Seq<char>,
    longer: Seq<char>,
    i: int,
    hay: Seq<char>,
    j: int,
)
    requires
        shorter.len() <= longer.len(),
        forall|k: int| 0 <= k < shorter.len() ==> longer[k] == shorter[k],
        0 <= i,
        subsequence(longer, i, hay, j),
    ensures
        subsequence(shorter, i, hay, j),
    decreases hay.len() - j,
{
    if i < shorter.len() && j < hay.len() {
        if hay[j] == longer[i] {
            lemma_shorter_needle(shorter, longer, i + 1, hay, j + 1);
        } else {
            lemma_shorter_needle(shorter, longer, i, hay, j + 1);
        }
    }
}

/// Whether the needle's characters appear in this order in the haystack.
pub fn is_subsequence(needle: &str, haystack: &str) -> (r: bool)
    ensures
        r == subsequence(needle@, 0, haystack@, 0),
{
    let a: Vec<char> = chars_of(needle);
    let b: Vec<char> = chars_of(haystack);
    let mut i: usize = 0;
    let mut j: usize = 0;
    while i < a.len() && j < b.len()
        invariant
            i <= a.len(),
            j <= b.len(),
            a@ == needle@,
            b@ == haystack@,
            subsequence(needle@, 0, haystack@, 0) == subsequence(
                needle@,
                i as int,
                haystack@,
                j as int,
            ),
        decreases b.len() - j,
    {
        if b[j] == a[i] {
            i += 1;
        }
        j += 1;
    }
    i >= a.len()
}

/// How well a label matches a prefix in lower case.
pub fn score(label: &str, prefix: &str) -> (r: Option<u8>)
    ensures
        match r {
            Some(n) => score_of(label@, prefix@) == Some(n as int),
            None => score_of(label@, prefix@) is None,
        },
{
    if prefix.is_empty() {
        return Some(0);
    }
    let lower: String = to_lower(label);
    if strip_start(lower.as_str(), prefix).is_some() {
        Some(100)
    } else if is_subsequence(prefix, lower.as_str()) {
        Some(50)
    } else {
        None
    }
}

impl CompletionState {
    /// A completion of a name that starts at `anchor`, of which `prefix` was typed.
    pub fn new(items: Vec<CompletionItem>, anchor: usize, prefix: String) -> (r: CompletionState)
        ensures
            r@ == started(items_view(items@), anchor, prefix@),
            r@.wf(),
    {
        let mut s = CompletionState { items, filtered: Vec::new(), selected: 0, anchor, prefix };
        s.refilter();
        s
    }

    /// Those of the items that match with the score, appended.
    fn collect(&self, prefix: &str, wanted: u8, out: &mut Vec<usize>)
        ensures
            final(out)@ == old(out)@ + with_score(
                self@.items,
                prefix@,
                wanted as int,
                self@.items.len() as int,
            ),
    {
        let ghost start = out@;
        let mut i: usize = 0;
        assert(start + Seq::<usize>::empty() =~= start);
        while i < self.items.len()
            invariant
                i <= self.items.len(),
                out@ == start + with_score(self@.items, prefix@, wanted as int, i as int),
            decreases self.items.len() - i,
        {
            assert(self@.items[i as int] == self.items@[i as int]@);
            let s: Option<u8> = score(self.items[i].label.as_str(), prefix);
            if let Some(n) = s {
                if n == wanted {
                    out.push(i);
                    assert(out@ =~= start + with_score(
                        self@.items,
                        prefix@,
                        wanted as int,
                        i + 1,
                    ));
                }
            }
            i += 1;
        }
    }

    /// Find the matches for what was typed, and select the first.
    pub fn refilter(&mut self)
        ensures
            final(self)@ == old(self)@.refiltered(),
            final(self)@.wf(),
    {
        let prefix: String = to_lower(self.prefix.as_str());
        let mut out: Vec<usize> = Vec::new();
        self.collect(prefix.as_str(), 0, &mut out);
        self.collect(prefix.as_str(), 100, &mut out);
        self.collect(prefix.as_str(), 50, &mut out);
        assert(out@ =~= ranked(self@.items, self@.prefix));
        proof {
            assert(self@.items.len() == self.items.len());
            if self@.items.len() > 0 {
                matches_have_a_score(self@.items, self@.prefix, 0);
            }
        }
        self.filtered = out;
        self.selected = 0;
    }

    /// The selected match, by its number among the items.
    fn selected_index(&self) -> (r: Option<usize>)
        ensures
            match r {
                Some(i) => i < self.items@.len() && self@.selected_item() == Some(
                    self.items@[i as int]@,
                ),
                None => self@.selected_item() is None,
            },
    {
        if self.selected < self.filtered.len() {
            let i: usize = self.filtered[self.selected];
            if i < self.items.len() {
                assert(self@.items[i as int] == self.items@[i as int]@);
                return Some(i);
            }
        }
        None
    }

    /// The selected match.
    pub fn selected_item(&self) -> (r: Option<&CompletionItem>)
        ensures
            match r {
                Some(item) => self@.selected_item() == Some(item@),
                None => self@.selected_item() is None,
            },
    {
        match self.selected_index() {
            Some(i) => Some(&self.items[i]),
            None => None,
        }
    }

    /// The selected match, taken out.
    pub fn take_selected(self) -> (r: Option<CompletionItem>)
        ensures
            match r {
                Some(item) => self@.selected_item() == Some(item@),
                None => self@.selected_item() is None,
            },
    {
        match self.selected_index() {
            Some(i) => {
                let mut items: Vec<CompletionItem> = self.items;
                Some(items.remove(i))
            },
            None => None,
        }
    }

    /// Move the selection, going round at the ends.
    pub fn move_sel(&mut self, delta: isize)
        ensures
            final(self)@ == old(self)@.moved(delta as int),
    {
        if self.filtered.len() > 0 {
            self.selected = wrapped(self.selected, delta, self.filtered.len());
        }
    }

    /// Whether nothing matches.
    pub fn is_empty(&self) -> (r: bool)
        ensures
            r == (self@.filtered.len() == 0),
    {
        self.filtered.len() == 0
    }
}

proof fn lemma_ranked_scored(items: Seq<ItemView>, typed: Seq<char>, i: int)
    requires
        items.len() <= usize::MAX,
        0 <= i < ranked(items, typed).len(),
    ensures
        ranked(items, typed)[i] < items.len(),
        score_of(items[ranked(items, typed)[i] as int].label, lowered(typed)) is Some,
{
    let p = lowered(typed);
    let n = items.len() as int;
    lemma_with_score(items, p, 0, n);
    lemma_with_score(items, p, 100, n);
    lemma_with_score(items, p, 50, n);
    let (a, b, c) = (
        with_score(items, p, 0, n),
        with_score(items, p, 100, n),
        with_score(items, p, 50, n),
    );
    let r = ranked(items, typed);
    if i < a.len() {
        assert(r[i] == a[i]);
    } else if i < a.len() + b.len() {
        assert(r[i] == b[i - a.len()]);
    } else {
        assert(r[i] == c[i - a.len() - b.len()]);
    }
}

/// The items whose labels start with what was typed come before the others that are found, whatever
/// the case of the letters; those that start with it keep the server's order, and so do the others.
pub proof fn labels_that_start_with_the_name_come_first(
    items: Seq<ItemView>,
    typed: Seq<char>,
    i: int,
    j: int,
)
    requires
        items.len() <= usize::MAX,
        0 <= i < j < ranked(items, typed).len(),
    ensures
        ({
            let r = ranked(items, typed);
            let first = starts_with(lowered(items[r[i] as int].label), lowered(typed));
            let second = starts_with(lowered(items[r[j] as int].label), lowered(typed));
            &&& second ==> first
            &&& first == second ==> r[i] < r[j]
        }),
{
    better_matches_come_first(items, typed, i, j);
    let r = ranked(items, typed);
    let p = lowered(typed);
    lemma_ranked_scored(items, typed, i);
    lemma_ranked_scored(items, typed, j);
    if p.len() == 0 {
        let a = lowered(items[r[i] as int].label);
        let b = lowered(items[r[j] as int].label);
        assert(a.take(0) =~= p && b.take(0) =~= p);
        assert(a.subrange(0, 0) =~= p && b.subrange(0, 0) =~= p);
    }
}

} // verus!
