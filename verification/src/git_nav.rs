//! Going from one changed place of a document to the next.

use vstd::prelude::*;

use crate::contribution::{Contributions, Offer};
use crate::doc::Doc;
use crate::effect::{effects_view, emit, no_effects, Effect, EffectView};
use crate::order::{nearest_round, next_round, prev_round};
use crate::text::same;

verus! {

/// Whether a change starts at a line: the line is changed, and the one before is not.
pub open spec fn starts_at(changed: Seq<usize>, l: usize) -> bool {
    changed.contains(l) && (l == 0 || !changed.contains((l - 1) as usize))
}

/// Those of the first `n` changed lines where a change starts, in a document of `count` lines. A line
/// that the document does not have is passed over.
pub open spec fn starts(changed: Seq<usize>, count: int, n: int) -> Seq<usize>
    decreases n,
{
    if n <= 0 {
        Seq::empty()
    } else if changed[n - 1] < count && starts_at(changed, changed[n - 1]) {
        starts(changed, count, n - 1).push(changed[n - 1])
    } else {
        starts(changed, count, n - 1)
    }
}

/// Where the nearest change after or before the caret's line starts, going round at the ends.
pub open spec fn hunk(d: &Doc, changed: Seq<usize>, forward: bool) -> Option<int> {
    let s = starts(changed, d.lines@.len() as int, changed.len() as int);
    let l = d.line_of(d.head as int);
    if s.len() == 0 {
        None
    } else {
        Some(
            d.start(
                if forward {
                    next_round(s, l)
                } else {
                    prev_round(s, l)
                },
            ),
        )
    }
}

/// Whether a line is among others.
fn has_line(v: &[usize], l: usize) -> (r: bool)
    ensures
        r == v@.contains(l),
{
    let mut i: usize = 0;
    while i < v.len()
        invariant
            i <= v.len(),
            forall|k: int| 0 <= k < i ==> v@[k] != l,
        decreases v.len() - i,
    {
        if v[i] == l {
            assert(v@[i as int] == l);
            return true;
        }
        i += 1;
    }
    false
}

/// Where the nearest change starts; none where there is no change.
pub fn goto_hunk(doc: &Doc, changed: &[usize], forward: bool) -> (r: Option<usize>)
    requires
        doc.wf(),
    ensures
        match r {
            Some(p) => hunk(doc, changed@, forward) == Some(p as int),
            None => hunk(doc, changed@, forward) is None,
        },
{
    let mut s: Vec<usize> = Vec::new();
    let mut i: usize = 0;
    assert(s@ =~= Seq::empty());
    while i < changed.len()
        invariant
            i <= changed.len(),
            s@ == starts(changed@, doc.lines@.len() as int, i as int),
            forall|k: int| 0 <= k < s@.len() ==> (#[trigger] s@[k]) < doc.lines@.len(),
        decreases changed.len() - i,
    {
        let l: usize = changed[i];
        assert(changed@[i as int] == l);
        if l < doc.lines.len() && (l == 0 || !has_line(changed, l - 1)) {
            s.push(l);
        }
        i += 1;
    }
    if s.len() == 0 {
        return None;
    }
    let at: usize = doc.char_to_line(doc.head);
    let l: usize = nearest_round(&s, at, forward);
    proof {
        if forward {
            crate::order::next_is_the_nearest(s@, at as int);
        } else {
            crate::order::prev_is_the_nearest(s@, at as int);
        }
    }
    Some(doc.line_to_char(l))
}

/// What a command asks for; nothing where it is not one of these.
pub open spec fn commanded(command: Seq<char>, d: Option<&Doc>, changed: Seq<usize>) -> Option<
    Seq<EffectView>,
> {
    if command == "git.nextHunk"@ || command == "git.prevHunk"@ {
        Some(
            match d {
                Some(d) => match hunk(d, changed, command == "git.nextHunk"@) {
                    Some(p) => seq![EffectView::Caret(p)],
                    None => Seq::empty(),
                },
                None => Seq::empty(),
            },
        )
    } else {
        None
    }
}

/// Goes to changes.
pub struct GitNavPlugin;

/// What the plugin contributes.
pub open spec fn contributed() -> Offer {
    Offer::none()
        .command("git.nextHunk"@, "Go: Next Change"@)
        .command("git.prevHunk"@, "Go: Previous Change"@)
        .keybinding("alt+j"@, "git.nextHunk"@)
        .keybinding("alt+k"@, "git.prevHunk"@)
}

impl GitNavPlugin {
    /// What the plugin contributes.
    pub fn contributions() -> (r: Contributions)
        ensures
            r@ == contributed(),
    {
        Contributions::builder()
            .command("git.nextHunk", "Go: Next Change")
            .command("git.prevHunk", "Go: Previous Change")
            .keybinding("alt+j", "git.nextHunk")
            .keybinding("alt+k", "git.prevHunk")
    }

    /// Run a command; none where it is not one of these. `changed` are the changed lines of the
    /// document.
    pub fn run_command(command_id: &str, doc: Option<&Doc>, changed: &[usize]) -> (r: Option<
        Vec<Effect>,
    >)
        requires
            doc is Some ==> doc->0.wf(),
        ensures
            match commanded(command_id@, doc, changed@) {
                Some(out) => r is Some && effects_view(r->0@) == out,
                None => r is None,
            },
    {
        let forward: bool = same(command_id, "git.nextHunk");
        if !forward && !same(command_id, "git.prevHunk") {
            return None;
        }
        let mut out: Vec<Effect> = no_effects();
        if let Some(d) = doc {
            if let Some(p) = goto_hunk(d, changed, forward) {
                emit(&mut out, Effect::Caret(p));
            }
        }
        Some(out)
    }
}

proof fn lemma_starts(changed: Seq<usize>, count: int, n: int)
    requires
        0 <= n <= changed.len(),
    ensures
        forall|i: int|
            0 <= i < starts(changed, count, n).len() ==> starts_at(
                changed,
                #[trigger] starts(changed, count, n)[i],
            ) && starts(changed, count, n)[i] < count,
        forall|k: int|
            0 <= k < n && changed[k] < count && starts_at(changed, #[trigger] changed[k])
                ==> starts(changed, count, n).contains(changed[k]),
    decreases n,
{
    if n > 0 {
        lemma_starts(changed, count, n - 1);
        let p = starts(changed, count, n - 1);
        let s = starts(changed, count, n);
        assert forall|k: int|
            0 <= k < n && changed[k] < count && starts_at(
                changed,
                #[trigger] changed[k],
            ) implies s.contains(changed[k]) by {
            if k == n - 1 {
                assert(s[s.len() - 1] == changed[k]);
            } else {
                assert(p.contains(changed[k]));
                let i = choose|i: int| 0 <= i < p.len() && p[i] == changed[k];
                assert(s[i] == changed[k]);
            }
        }
    }
}

/// Wherever a line of a document is changed, going to the next or the last change ends where a change
/// starts.
pub proof fn navigation_ends_on_a_change(d: &Doc, changed: Seq<usize>, forward: bool)
    requires
        exists|i: int| 0 <= i < changed.len() && (#[trigger] changed[i]) < d.lines@.len(),
    ensures
        hunk(d, changed, forward) is Some,
        exists|l: usize|
            #![trigger starts_at(changed, l)]
            starts_at(changed, l) && l < d.lines@.len() && hunk(d, changed, forward) == Some(
                d.start(l as int),
            ),
{
    let count = d.lines@.len() as int;
    lemma_starts(changed, count, changed.len() as int);
    let s = starts(changed, count, changed.len() as int);
    let k = lemma_first_change(changed, changed.len() as int);
    assert(s.contains(changed[k]));
    let at = d.line_of(d.head as int);
    crate::order::next_is_the_nearest(s, at);
    crate::order::prev_is_the_nearest(s, at);
    let to = if forward {
        next_round(s, at)
    } else {
        prev_round(s, at)
    };
    let i = choose|i: int| 0 <= i < s.len() && #[trigger] s[i] == to;
    assert(starts_at(changed, s[i]));
}

/// The first of the changed lines is where a change starts.
proof fn lemma_first_change(changed: Seq<usize>, n: int) -> (k: int)
    requires
        0 < n <= changed.len(),
        n == changed.len(),
    ensures
        0 <= k < changed.len(),
        starts_at(changed, changed[k]),
        forall|j: int| 0 <= j < n ==> changed[k] <= #[trigger] changed[j],
{
    let k = lemma_least(changed, n);
    assert(changed.contains(changed[k]));
    if changed[k] > 0 && changed.contains((changed[k] - 1) as usize) {
        let j = choose|j: int| 0 <= j < changed.len() && changed[j] == (changed[k] - 1) as usize;
        assert(changed[k] <= changed[j]);
    }
    k
}

proof fn lemma_least(v: Seq<usize>, n: int) -> (k: int)
    requires
        0 < n <= v.len(),
    ensures
        0 <= k < n,
        forall|j: int| 0 <= j < n ==> v[k] <= #[trigger] v[j],
    decreases n,
{
    if n == 1 {
        0
    } else {
        let k = lemma_least(v, n - 1);
        if v[n - 1] < v[k] {
            n - 1
        } else {
            k
        }
    }
}

/// The next change is the nearest that starts below the caret's line, and the previous one the nearest
/// above it; the caret goes to the start of its line, and nothing else is asked for.
pub proof fn navigation_goes_to_the_nearest_change(d: &Doc, changed: Seq<usize>, l: usize)
    requires
        d.wf(),
        starts_at(changed, l),
        l < d.count(),
    ensures
        ({
            let at = d.line_of(d.head as int);
            let next = commanded("git.nextHunk"@, Some(d), changed);
            let prev = commanded("git.prevHunk"@, Some(d), changed);
            &&& l > at ==> exists|m: usize|
                at < m <= l && #[trigger] starts_at(changed, m) && next == Some(
                    seq![EffectView::Caret(d.start(m as int))],
                )
            &&& l < at ==> exists|m: usize|
                l <= m < at && #[trigger] starts_at(changed, m) && prev == Some(
                    seq![EffectView::Caret(d.start(m as int))],
                )
        }),
{
    reveal_strlit("git.nextHunk");
    reveal_strlit("git.prevHunk");
    assert("git.nextHunk"@[4] == 'n' && "git.prevHunk"@[4] == 'p');
    let count = d.lines@.len() as int;
    let s = starts(changed, count, changed.len() as int);
    lemma_starts(changed, count, changed.len() as int);
    let k = choose|k: int| 0 <= k < changed.len() && changed[k] == l;
    assert(s.contains(changed[k]));
    let at = d.line_of(d.head as int);
    crate::order::next_is_the_nearest(s, at);
    crate::order::prev_is_the_nearest(s, at);
    let j = choose|j: int| 0 <= j < s.len() && s[j] == l;
    assert(s[j] == l);
    if l > at {
        let i = choose|i: int| 0 <= i < s.len() && #[trigger] s[i] == next_round(s, at);
        assert(starts_at(changed, s[i]));
        assert(at < s[i] <= l);
    }
    if l < at {
        let i = choose|i: int| 0 <= i < s.len() && #[trigger] s[i] == prev_round(s, at);
        assert(starts_at(changed, s[i]));
        assert(l <= s[i] < at);
    }
}

} // verus!
