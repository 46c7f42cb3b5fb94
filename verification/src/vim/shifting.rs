//! What indenting and outdenting do to the lines of a range.

use vstd::prelude::*;

use crate::doc::{broken_line, broken_lines, line_table, start_before, Doc, Line};
use crate::effect::{after, after_all, edited, lemma_edited_push, ChangeView, EffectView};
use crate::vim::operators::{indent_width, outdent_width, shifts, tab_of};
use crate::vim::session::Step;
use crate::vim::state::Operator;

verus! {

/// Four spaces: one level of indentation.
pub open spec fn level() -> Seq<char> {
    seq![' ', ' ', ' ', ' ']
}

/// A blank that indents.
pub open spec fn is_indent(c: char) -> bool {
    c == ' ' || c == '\t'
}

/// The changes of the one transaction among the requests of a shift: it stands between a mark and a
/// caret that goes back to the mark, and is left out where there is nothing to change.
pub open spec fn shifted_by(out: Seq<EffectView>, line: int) -> Seq<ChangeView> {
    if out.len() == 3 && out[0] == EffectView::MarkFirstNonBlank(line) && out[2]
        == EffectView::CaretFirstNonBlankAtMark {
        match out[1] {
            EffectView::Apply(cs) => cs,
            _ => Seq::empty(),
        }
    } else {
        Seq::empty()
    }
}

/// A change that takes away the indentation that line `l` starts with: a single tab, or at most
/// `width` spaces, all that there are up to then.
pub open spec fn takes_level(d: &Doc, l: int, width: int, c: ChangeView) -> bool {
    let n = c.removed.len() as int;
    &&& c.inserted.len() == 0
    &&& c.at == d.start(l)
    &&& n >= 1
    &&& d.start(l) + n <= d.end(l)
    &&& c.removed == d.chars@.subrange(d.start(l), d.start(l) + n)
    &&& if c.removed[0] == '\t' {
        n == 1
    } else {
        &&& n <= width
        &&& forall|i: int| 0 <= i < n ==> #[trigger] c.removed[i] == ' '
        &&& n == width || d.start(l) + n == d.end(l) || d.chars@[d.start(l) + n] != ' '
    }
}

/// Whether line `l` starts with a blank that indents.
pub open spec fn starts_blank(d: &Doc, l: int) -> bool {
    d.start(l) < d.end(l) && is_indent(d.chars@[d.start(l)])
}

/// Changes that outdent the lines from `first` up to `l`: each takes a level off one of them, in
/// their order, and each that starts with a blank is among them.
pub open spec fn outdents(d: &Doc, first: int, l: int, width: int, cs: Seq<ChangeView>) -> bool {
    &&& forall|k: int| 0 <= k < cs.len() ==> takes_some(d, first, l, width, #[trigger] cs[k])
    &&& forall|j: int, k: int|
        #![trigger cs[j], cs[k]]
        0 <= j < k < cs.len() ==> cs[j].at < cs[k].at
    &&& forall|m: int|
        first <= m < l && #[trigger] starts_blank(d, m) ==> exists|k: int|
            0 <= k < cs.len() && (#[trigger] cs[k]).at == d.start(m)
}

/// A change that takes a level off one of the lines from `first` up to `l`.
pub open spec fn takes_some(d: &Doc, first: int, l: int, width: int, c: ChangeView) -> bool {
    exists|m: int| first <= m < l && #[trigger] takes_level(d, m, width, c)
}

/// A change that puts a level in at `p`.
pub open spec fn level_at(p: int) -> ChangeView {
    ChangeView { at: p, removed: Seq::empty(), inserted: level() }
}

/// A change that takes a level out at `p`.
pub open spec fn no_level_at(p: int) -> ChangeView {
    ChangeView { at: p, removed: level(), inserted: Seq::empty() }
}

proof fn lemma_level()
    ensures
        "    "@ == level(),
{
    reveal_strlit("    ");
    assert("    "@ =~= level());
}

proof fn lemma_indents(d: &Doc, l: int, last: int, acc: Seq<ChangeView>)
    requires
        0 <= l <= last + 1,
    ensures
        shifts(d, l, last, true, acc) == acc + Seq::new(
            (last + 1 - l) as nat,
            |k: int| level_at(d.start(l + k)),
        ),
    decreases last + 1 - l,
{
    lemma_level();
    let tail = Seq::new((last + 1 - l) as nat, |k: int| level_at(d.start(l + k)));
    if l <= last {
        let next = acc.push(level_at(d.start(l)));
        lemma_indents(d, l + 1, last, next);
        let rest = Seq::new((last - l) as nat, |k: int| level_at(d.start(l + 1 + k)));
        assert forall|k: int| 0 <= k < tail.len() - 1 implies #[trigger] rest[k] == tail[k + 1] by {
            assert(l + 1 + k == l + (k + 1));
        }
        assert(next + rest =~= acc + tail) by {
            assert forall|i: int| 0 <= i < (acc + tail).len() implies (next + rest)[i] == (acc
                + tail)[i] by {
                if i > acc.len() {
                    assert(rest[i - acc.len() - 1] == tail[i - acc.len()]);
                }
            }
        }
    } else {
        assert(acc + tail =~= acc);
    }
}

proof fn lemma_indent_width(s: Seq<char>, width: int, n: int)
    requires
        width >= 1,
        0 <= n <= width,
        n <= s.len(),
        n > 0 ==> s[0] == ' ',
        forall|i: int| 0 <= i < n ==> s[i] == ' ',
    ensures
        ({
            let w = indent_width(s, width, n);
            if n == 0 && s.len() > 0 && s[0] == '\t' {
                w == 1
            } else {
                &&& n <= w <= width
                &&& w <= s.len()
                &&& forall|i: int| 0 <= i < w ==> s[i] == ' '
                &&& w == width || w == s.len() || s[w] != ' '
            }
        }),
    decreases width - n,
{
    if n == 0 && s.len() > 0 && s[0] == '\t' {
    } else if n < width && n < s.len() && s[n] == ' ' {
        lemma_indent_width(s, width, n + 1);
    }
}

proof fn lemma_outdents(d: &Doc, first: int, l: int, last: int, acc: Seq<ChangeView>)
    requires
        d.wf(),
        0 <= first <= l <= last + 1,
        last < d.count(),
        outdents(d, first, l, tab_of(d), acc),
    ensures
        outdents(d, first, last + 1, tab_of(d), shifts(d, l, last, false, acc)),
    decreases last + 1 - l,
{
    if l <= last {
        let width = tab_of(d);
        let w = outdent_width(d, l);
        let s = d.chars@.subrange(d.start(l), d.end(l));
        assert(d.lines@[l].start + d.lines@[l].len <= d.chars@.len());
        lemma_indent_width(s, width, 0);
        assert(forall|i: int| 0 <= i < s.len() ==> #[trigger] s[i] == d.chars@[d.start(l) + i]);
        if w > 0 {
            let c = ChangeView {
                at: d.start(l),
                removed: d.slice(d.start(l), d.start(l) + w),
                inserted: Seq::empty(),
            };
            let next = acc.push(c);
            assert(c.removed =~= s.take(w));
            assert(c.removed =~= d.chars@.subrange(d.start(l), d.start(l) + w));
            assert(takes_level(d, l, width, c)) by {
                assert(c.removed[0] == s[0]);
                assert(d.start(l) + w < d.end(l) ==> d.chars@[d.start(l) + w] == s[w]);
                assert forall|i: int| 0 <= i < w && s[0] != '\t' implies #[trigger] c.removed[i]
                    == ' ' by {
                    assert(c.removed[i] == s[i]);
                }
            }
            assert forall|k: int| 0 <= k < next.len() implies takes_some(
                d,
                first,
                l + 1,
                width,
                #[trigger] next[k],
            ) by {
                if k < acc.len() {
                    assert(takes_some(d, first, l, width, acc[k]));
                    let m = choose|m: int| first <= m < l && takes_level(d, m, width, acc[k]);
                    assert(takes_level(d, m, width, next[k]));
                } else {
                    assert(takes_level(d, l, width, next[k]));
                }
            }
            assert forall|j: int, k: int|
                #![trigger next[j], next[k]]
                0 <= j < k < next.len() implies next[j].at < next[k].at by {
                if k == acc.len() {
                    assert(takes_some(d, first, l, width, acc[j]));
                    let m = choose|m: int| first <= m < l && takes_level(d, m, width, acc[j]);
                    assert(d.lines@[m].start + d.lines@[m].len < d.lines@[l].start);
                } else {
                    assert(acc[j].at < acc[k].at);
                }
            }
            assert forall|m: int| first <= m < l + 1 && #[trigger] starts_blank(d, m) implies exists|
                k: int,
            |
                0 <= k < next.len() && (#[trigger] next[k]).at == d.start(m) by {
                if m < l {
                    let k = choose|k: int|
                        0 <= k < acc.len() && (#[trigger] acc[k]).at == d.start(m);
                    assert(next[k].at == d.start(m));
                } else {
                    assert(next[acc.len() as int].at == d.start(m));
                }
            }
            lemma_outdents(d, first, l + 1, last, next);
        } else {
            assert(!starts_blank(d, l)) by {
                if starts_blank(d, l) {
                    assert(s[0] == d.chars@[d.start(l) + 0]);
                }
            }
            assert forall|k: int| 0 <= k < acc.len() implies takes_some(
                d,
                first,
                l + 1,
                width,
                #[trigger] acc[k],
            ) by {
                assert(takes_some(d, first, l, width, acc[k]));
                let m = choose|m: int| first <= m < l && takes_level(d, m, width, acc[k]);
                assert(takes_level(d, m, width, acc[k]));
            }
            lemma_outdents(d, first, l + 1, last, acc);
        }
    }
}

/// Indenting puts four spaces in at the start of every line of the range, takes nothing away and
/// changes nothing else: neither the mode nor a register.
pub proof fn indenting_inserts_a_level(s: Step, d: &Doc, start: int, end: int, linewise: bool)
    requires
        d.wf(),
        s.out.len() == 0,
        0 <= start < end <= d.size(),
    ensures
        ({
            let r = s.operate(Some(d), Operator::Indent, start, end, linewise);
            let first = d.line_of(start);
            let last = d.line_of(end - 1);
            let cs = shifted_by(r.out, first);
            &&& r.vim == s.vim
            &&& cs.len() == last - first + 1
            &&& forall|k: int|
                0 <= k < cs.len() ==> {
                    &&& (#[trigger] cs[k]).removed.len() == 0
                    &&& cs[k].inserted == level()
                    &&& cs[k].at == d.start(first + k)
                }
        }),
{
    let first = d.line_of(start);
    let last = d.line_of(end - 1);
    d.lemma_line_of(start);
    d.lemma_line_of(end - 1);
    lemma_lines_in_order(d, start, end - 1);
    lemma_indents(d, first, last, Seq::empty());
    let cs = shifts(d, first, last, true, Seq::empty());
    assert(cs =~= Seq::new((last + 1 - first) as nat, |k: int| level_at(d.start(first + k))));
    let r = s.operate(Some(d), Operator::Indent, start, end, linewise);
    assert(r.out =~= seq![
        EffectView::MarkFirstNonBlank(first),
        EffectView::Apply(cs),
        EffectView::CaretFirstNonBlankAtMark,
    ]);
}

/// Outdenting puts nothing in. It takes away blanks that lines of the range start with, a single tab
/// or at most the tab width of spaces, and every line of the range that starts with a blank loses
/// some. It changes nothing else: neither the mode nor a register.
pub proof fn outdenting_removes_a_level(s: Step, d: &Doc, start: int, end: int, linewise: bool)
    requires
        d.wf(),
        s.out.len() == 0,
        0 <= start < end <= d.size(),
    ensures
        ({
            let r = s.operate(Some(d), Operator::Outdent, start, end, linewise);
            let first = d.line_of(start);
            let last = d.line_of(end - 1);
            let width = if d.tab_width >= 1 {
                d.tab_width as int
            } else {
                1
            };
            &&& r.vim == s.vim
            &&& outdents(d, first, last + 1, width, shifted_by(r.out, first))
            &&& forall|i: int|
                0 <= i < r.out.len() && (#[trigger] r.out[i]) is Apply ==> r.out[i]
                    == EffectView::Apply(shifted_by(r.out, first))
        }),
{
    let first = d.line_of(start);
    let last = d.line_of(end - 1);
    d.lemma_line_of(start);
    d.lemma_line_of(end - 1);
    lemma_lines_in_order(d, start, end - 1);
    lemma_outdents(d, first, first, last, Seq::empty());
    let cs = shifts(d, first, last, false, Seq::empty());
    let r = s.operate(Some(d), Operator::Outdent, start, end, linewise);
    if cs.len() > 0 {
        assert(r.out =~= seq![
            EffectView::MarkFirstNonBlank(first),
            EffectView::Apply(cs),
            EffectView::CaretFirstNonBlankAtMark,
        ]);
    } else {
        assert(r.out =~= seq![
            EffectView::MarkFirstNonBlank(first),
            EffectView::CaretFirstNonBlankAtMark,
        ]);
        assert(cs =~= Seq::empty());
    }
}

/// A position further on is on no earlier line.
pub proof fn lemma_lines_in_order(d: &Doc, p: int, q: int)
    requires
        d.wf(),
        0 <= p <= q,
    ensures
        d.line_of(p) <= d.line_of(q),
{
    d.lemma_line_of(p);
    d.lemma_line_of(q);
    if d.line_of(q) < d.line_of(p) {
        assert(d.start(d.line_of(q) + 1) <= d.start(d.line_of(p))) by {
            if d.line_of(q) + 1 < d.line_of(p) {
                assert(d.lines@[d.line_of(q) + 1].start + d.lines@[d.line_of(q) + 1].len
                    < d.lines@[d.line_of(p)].start);
            }
        }
    }
}

/// A text with a level put in at `p`.
pub open spec fn with_level(s: Seq<char>, p: int) -> Seq<char> {
    s.take(p) + level() + s.skip(p)
}

/// Lines `t` are lines `s`, with those from `first` to `last` one level longer, and those after them
/// as much further on.
pub open spec fn longer(s: Seq<Line>, t: Seq<Line>, first: int, last: int) -> bool {
    &&& t.len() == s.len()
    &&& forall|l: int|
        0 <= l < s.len() ==> {
            let before = if l <= first {
                0
            } else if l <= last {
                l - first
            } else {
                last + 1 - first
            };
            &&& (#[trigger] t[l]).start == s[l].start + 4 * before
            &&& t[l].len == s[l].len + (if first <= l <= last {
                4int
            } else {
                0
            })
        }
}

proof fn lemma_line_starts(s: Seq<char>, n: int)
    requires
        0 <= n <= s.len() <= isize::MAX,
    ensures
        0 <= start_before(s, n) <= n,
        start_before(s, n) == 0 || s[start_before(s, n) - 1] == '\n',
        broken_lines(s, start_before(s, n)).len() == broken_lines(s, n).len(),
        forall|j: int|
            0 <= j < broken_lines(s, n).len() ==> {
                let p = (#[trigger] broken_lines(s, n)[j]).start as int;
                &&& 0 <= p <= n
                &&& p == 0 || s[p - 1] == '\n'
                &&& broken_lines(s, p).len() == j
            },
    decreases n,
{
    if n > 0 {
        lemma_line_starts(s, n - 1);
        let before = broken_lines(s, n - 1);
        if s[n - 1] == '\n' {
            let q = start_before(s, n - 1);
            let all = broken_lines(s, n);
            assert forall|j: int| 0 <= j < all.len() implies {
                let p = (#[trigger] all[j]).start as int;
                &&& 0 <= p <= n
                &&& p == 0 || s[p - 1] == '\n'
                &&& broken_lines(s, p).len() == j
            } by {
                if j < before.len() {
                    assert(all[j] == before[j]);
                } else {
                    assert(all[j] == broken_line(s, q, n - 1));
                    assert(all[j].start == q);
                }
            }
        }
    }
}

proof fn lemma_same_before(s: Seq<char>, t: Seq<char>, p: int, n: int)
    requires
        0 <= n <= p <= s.len(),
        t == with_level(s, p),
    ensures
        start_before(t, n) == start_before(s, n),
        broken_lines(t, n) == broken_lines(s, n),
    decreases n,
{
    if n > 0 {
        lemma_same_before(s, t, p, n - 1);
        assert(t[n - 1] == s[n - 1]);
        assert(start_before(s, n - 1) <= n - 1) by {
            lemma_start_within(s, n - 1);
        }
        let a = start_before(s, n - 1);
        assert(n - 1 > a ==> t[n - 2] == s[n - 2]) by {
            lemma_start_within(s, n - 1);
        }
    }
}

proof fn lemma_start_within(s: Seq<char>, n: int)
    requires
        0 <= n <= s.len(),
    ensures
        0 <= start_before(s, n) <= n,
    decreases n,
{
    if n > 0 {
        lemma_start_within(s, n - 1);
    }
}

proof fn lemma_moved_after(s: Seq<char>, t: Seq<char>, p: int, n: int)
    requires
        0 <= p <= n <= s.len(),
        s.len() + 4 <= isize::MAX,
        t == with_level(s, p),
        p == 0 || s[p - 1] == '\n',
    ensures
        start_before(s, n) >= p,
        start_before(t, n + 4) == start_before(s, n) + (if start_before(s, n) > p {
            4int
        } else {
            0
        }),
        start_before(s, n) > p <==> broken_lines(s, n).len() > broken_lines(s, p).len(),
        broken_lines(s, n).len() >= broken_lines(s, p).len(),
        ({
            let k = broken_lines(s, p).len() as int;
            let a = broken_lines(s, n);
            let b = broken_lines(t, n + 4);
            &&& b.len() == a.len()
            &&& forall|j: int|
                0 <= j < a.len() ==> {
                    &&& (#[trigger] b[j]).start == a[j].start + (if j > k {
                        4int
                    } else {
                        0
                    })
                    &&& b[j].len == a[j].len + (if j == k {
                        4int
                    } else {
                        0
                    })
                }
        }),
    decreases n,
{
    let k = broken_lines(s, p).len() as int;
    if n == p {
        lemma_same_before(s, t, p, p);
        lemma_start_within(s, p);
        assert(t[p] == ' ' && t[p + 1] == ' ' && t[p + 2] == ' ' && t[p + 3] == ' ');
        reveal_with_fuel(broken_lines, 6);
        reveal_with_fuel(crate::path::last_before, 6);
        assert(broken_lines(t, p + 1) == broken_lines(t, p));
        assert(broken_lines(t, p + 2) == broken_lines(t, p));
        assert(broken_lines(t, p + 3) == broken_lines(t, p));
        assert(broken_lines(t, p + 4) == broken_lines(t, p));
    } else {
        lemma_moved_after(s, t, p, n - 1);
        assert(t[n + 3] == s[n - 1]);
        lemma_start_within(s, n - 1);
        lemma_start_within(t, n + 3);
        if s[n - 1] == '\n' {
            let a0 = broken_lines(s, n - 1);
            let b0 = broken_lines(t, n + 3);
            let a = broken_lines(s, n);
            let b = broken_lines(t, n + 4);
            let q = start_before(s, n - 1);
            let r = start_before(t, n + 3);
            assert(a == a0.push(broken_line(s, q, n - 1)));
            assert(b == b0.push(broken_line(t, r, n + 3)));
            assert(n - 1 > p ==> t[n + 2] == s[n - 2]);
            assert(n - 1 == p ==> t[n + 2] == ' ');
            assert forall|j: int| 0 <= j < a.len() implies {
                &&& (#[trigger] b[j]).start == a[j].start + (if j > k {
                    4int
                } else {
                    0
                })
                &&& b[j].len == a[j].len + (if j == k {
                    4int
                } else {
                    0
                })
            } by {
                if j < a0.len() {
                    assert(b[j] == b0[j] && a[j] == a0[j]);
                }
            }
        }
    }
}

/// Putting a level in where a line starts makes that line longer, and no other.
proof fn lemma_level_put_in(s: Seq<char>, k: int)
    requires
        0 <= k < line_table(s).len(),
        s.len() + 4 <= isize::MAX,
    ensures
        0 <= line_table(s)[k].start <= s.len(),
        longer(line_table(s), line_table(with_level(s, line_table(s)[k].start as int)), k, k),
{
    let n = s.len() as int;
    let all = line_table(s);
    lemma_line_starts(s, n);
    let p = all[k].start as int;
    assert(0 <= p <= n && (p == 0 || s[p - 1] == '\n') && broken_lines(s, p).len() == k) by {
        if k < broken_lines(s, n).len() {
            assert(all[k] == broken_lines(s, n)[k]);
        }
    }
    let t = with_level(s, p);
    lemma_moved_after(s, t, p, n);
    lemma_start_within(s, n);
    let b = line_table(t);
    assert(t.len() == n + 4);
    assert forall|l: int| 0 <= l < all.len() implies {
        let before = if l <= k {
            0int
        } else {
            1
        };
        &&& (#[trigger] b[l]).start == all[l].start + 4 * before
        &&& b[l].len == all[l].len + (if k <= l <= k {
            4int
        } else {
            0
        })
    } by {
        if l < broken_lines(s, n).len() {
            assert(b[l] == broken_lines(t, n + 4)[l]);
            assert(all[l] == broken_lines(s, n)[l]);
        }
    }
}

/// The changes that put a level in at each of the first `n` places.
pub open spec fn levels(p: Seq<int>, n: int) -> Seq<ChangeView> {
    Seq::new(n as nat, |k: int| level_at(p[k]))
}

/// The changes that take them out again.
pub open spec fn no_levels(p: Seq<int>, n: int) -> Seq<ChangeView> {
    Seq::new(n as nat, |k: int| no_level_at(p[k] + 4 * k))
}

/// Places in order, within a text of `size` characters.
pub open spec fn places(p: Seq<int>, size: int) -> bool {
    &&& forall|i: int| 0 <= i < p.len() ==> 0 <= #[trigger] p[i] <= size
    &&& forall|i: int, j: int| #![trigger p[i], p[j]] 0 <= i < j < p.len() ==> p[i] < p[j]
}

proof fn lemma_levels_tail(x: Seq<char>, y: Seq<char>, p: Seq<int>, n: int)
    requires
        0 <= n <= p.len(),
        places(p, x.len() as int),
    ensures
        after_all(x + y, levels(p, n)) == after_all(x, levels(p, n)) + y,
        after_all(x, levels(p, n)).len() == x.len() + 4 * n,
    decreases n,
{
    let cs = levels(p, n);
    if n > 0 {
        let q = p[n - 1];
        assert(cs.drop_last() =~= levels(p, n - 1));
        assert(cs.last() == level_at(q));
        let x1 = after(x, level_at(q));
        assert(after(x + y, level_at(q)) =~= x1 + y);
        lemma_levels_tail(x1, y, p, n - 1);
    }
}

proof fn lemma_no_levels_tail(x: Seq<char>, y: Seq<char>, p: Seq<int>, n: int)
    requires
        0 <= n <= p.len(),
        places(p, x.len() - 4 * n),
        x.len() >= 4 * n,
    ensures
        after_all(x + y, no_levels(p, n)) == after_all(x, no_levels(p, n)) + y,
    decreases n,
{
    let cs = no_levels(p, n);
    if n > 0 {
        let q = p[n - 1] + 4 * (n - 1);
        assert(cs.drop_last() =~= no_levels(p, n - 1));
        assert(cs.last() == no_level_at(q));
        let x1 = after(x, no_level_at(q));
        assert(x1.len() == x.len() - 4);
        assert(after(x + y, no_level_at(q)) =~= x1 + y);
        lemma_no_levels_tail(x1, y, p, n - 1);
    }
}

/// Taking out the levels that were put in gives the text back.
proof fn lemma_levels_undone(t: Seq<char>, p: Seq<int>, n: int)
    requires
        0 <= n == p.len(),
        places(p, t.len() as int),
    ensures
        after_all(after_all(t, levels(p, n)), no_levels(p, n)) == t,
    decreases n,
{
    if n > 0 {
        let q = p[n - 1];
        let p1 = p.drop_last();
        let x = t.take(q);
        let y = t.skip(q);
        let m = n - 1;
        assert(levels(p, n).drop_last() =~= levels(p1, m));
        assert(levels(p, n).last() == level_at(q));
        assert(no_levels(p, n).drop_last() =~= no_levels(p1, m));
        assert(no_levels(p, n).last() == no_level_at(q + 4 * m));
        assert(places(p1, x.len() as int)) by {
            assert forall|i: int| 0 <= i < p1.len() implies 0 <= #[trigger] p1[i] <= x.len() by {
                assert(p[i] < p[n - 1]);
            }
        }
        let z = level() + y;
        assert(after(t, level_at(q)) =~= x + z);
        lemma_levels_tail(x, z, p1, m);
        lemma_levels_tail(x, y, p1, m);
        let w = after_all(x, levels(p1, m));
        let all = after_all(t, levels(p, n));
        assert(all == w + z);
        assert(after(w + z, no_level_at(q + 4 * m)) =~= w + y);
        lemma_no_levels_tail(w, y, p1, m);
        lemma_levels_undone(x, p1, m);
        assert(x + y =~= t);
    } else {
        assert(levels(p, n) =~= Seq::empty());
        assert(no_levels(p, n) =~= Seq::empty());
    }
}

/// Where the lines from `first` on start, `n` of them.
pub open spec fn line_starts(lines: Seq<Line>, first: int, n: int) -> Seq<int> {
    Seq::new(n as nat, |k: int| lines[first + k].start as int)
}

/// Putting a level in where each of the lines from `first` to `last` starts makes these longer, and
/// no others.
proof fn lemma_levels_put_in(s: Seq<char>, first: int, last: int)
    requires
        0 <= first <= last + 1,
        last < line_table(s).len(),
        s.len() + 4 * (last + 1 - first) <= isize::MAX,
    ensures
        ({
            let n = last + 1 - first;
            let p = line_starts(line_table(s), first, n);
            longer(line_table(s), line_table(after_all(s, levels(p, n))), first, last)
        }),
    decreases last + 1 - first,
{
    let n = last + 1 - first;
    let all = line_table(s);
    let p = line_starts(all, first, n);
    if n > 0 {
        let q = p[n - 1];
        lemma_level_put_in(s, last);
        let t = with_level(s, q);
        assert(after(s, level_at(q)) =~= t);
        let p1 = line_starts(line_table(t), first, n - 1);
        assert(levels(p, n).drop_last() =~= levels(p1, n - 1)) by {
            assert forall|k: int| 0 <= k < n - 1 implies p[k] == #[trigger] p1[k] by {
                assert(line_table(t)[first + k].start == all[first + k].start);
            }
        }
        assert(levels(p, n).last() == level_at(q));
        lemma_levels_put_in(t, first, last - 1);
        let b = line_table(t);
        let c = line_table(after_all(s, levels(p, n)));
        assert forall|l: int| 0 <= l < all.len() implies {
            let before = if l <= first {
                0
            } else if l <= last {
                l - first
            } else {
                last + 1 - first
            };
            &&& (#[trigger] c[l]).start == all[l].start + 4 * before
            &&& c[l].len == all[l].len + (if first <= l <= last {
                4int
            } else {
                0
            })
        } by {
            assert(b[l].start == all[l].start + 4 * (if l <= last {
                0int
            } else {
                1
            }));
        }
    } else {
        assert(levels(p, n) =~= Seq::empty());
    }
}

/// The levels that were put in are there.
proof fn lemma_levels_there(t: Seq<char>, p: Seq<int>, n: int, k: int)
    requires
        0 <= k < n == p.len(),
        places(p, t.len() as int),
    ensures
        ({
            let all = after_all(t, levels(p, n));
            &&& all.len() == t.len() + 4 * n
            &&& all.subrange(p[k] + 4 * k, p[k] + 4 * k + 4) == level()
        }),
    decreases n,
{
    let q = p[n - 1];
    let p1 = p.drop_last();
    let x = t.take(q);
    let y = t.skip(q);
    let m = n - 1;
    assert(levels(p, n).drop_last() =~= levels(p1, m));
    assert(levels(p, n).last() == level_at(q));
    assert(places(p1, x.len() as int)) by {
        assert forall|i: int| 0 <= i < p1.len() implies 0 <= #[trigger] p1[i] <= x.len() by {
            assert(p[i] < p[n - 1]);
        }
    }
    let z = level() + y;
    assert(after(t, level_at(q)) =~= x + z);
    lemma_levels_tail(x, z, p1, m);
    let w = after_all(x, levels(p1, m));
    let all = after_all(t, levels(p, n));
    assert(all == w + z);
    if k < m {
        lemma_levels_there(x, p1, m, k);
        assert(p[k] < q);
        assert(all.subrange(p[k] + 4 * k, p[k] + 4 * k + 4) =~= w.subrange(
            p1[k] + 4 * k,
            p1[k] + 4 * k + 4,
        ));
    } else {
        assert(all.subrange(q + 4 * m, q + 4 * m + 4) =~= level());
    }
}

/// The changes that outdent lines that have a level each.
proof fn lemma_levels_taken(e: &Doc, first: int, l: int, last: int, p: Seq<int>)
    requires
        e.wf(),
        e.tab_width == 4,
        0 <= first <= l <= last + 1,
        last < e.count(),
        p.len() == last + 1 - first,
        forall|k: int|
            0 <= k < p.len() ==> {
                &&& e.start(first + k) == (#[trigger] p[k]) + 4 * k
                &&& e.start(first + k) + 4 <= e.end(first + k)
                &&& e.chars@.subrange(p[k] + 4 * k, p[k] + 4 * k + 4) == level()
            },
    ensures
        shifts(e, l, last, false, no_levels(p, l - first)) == no_levels(p, last + 1 - first),
    decreases last + 1 - l,
{
    if l <= last {
        let k = l - first;
        let s = e.chars@.subrange(e.start(l), e.end(l));
        assert(e.start(first + k) == p[k] + 4 * k);
        assert(e.lines@[l].start + e.lines@[l].len <= e.chars@.len());
        lemma_indent_width(s, 4, 0);
        let four = e.chars@.subrange(p[k] + 4 * k, p[k] + 4 * k + 4);
        assert forall|i: int| 0 <= i < 4 implies #[trigger] s[i] == ' ' by {
            assert(s[i] == four[i]);
            assert(level()[i] == ' ');
        }
        assert(outdent_width(e, l) == 4);
        assert(e.slice(e.start(l), e.start(l) + 4) =~= level());
        assert(no_levels(p, k).push(no_level_at(e.start(l))) =~= no_levels(p, k + 1));
        lemma_levels_taken(e, first, l + 1, last, p);
    }
}

/// Outdenting what was indented gives the text back, where a tab is four columns wide: document `e`
/// is document `d` after indenting lines, and the same lines are outdented.
pub proof fn outdenting_undoes_indenting(
    s: Step,
    d: &Doc,
    start: int,
    end: int,
    linewise: bool,
    t: Step,
    e: &Doc,
    from: int,
    to: int,
    by_lines: bool,
)
    requires
        d.wf(),
        d.lines@ == line_table(d.chars@),
        s.out.len() == 0,
        0 <= start < end <= d.size(),
        e.wf(),
        e.lines@ == line_table(e.chars@),
        e.tab_width == 4,
        e.chars@ == edited(
            d.chars@,
            s.operate(Some(d), Operator::Indent, start, end, linewise).out,
        ),
        t.out.len() == 0,
        0 <= from < to <= e.size(),
        e.line_of(from) == d.line_of(start),
        e.line_of(to - 1) == d.line_of(end - 1),
    ensures
        edited(e.chars@, t.operate(Some(e), Operator::Outdent, from, to, by_lines).out) == d.chars@,
{
    let first = d.line_of(start);
    let last = d.line_of(end - 1);
    let n = last + 1 - first;
    d.lemma_line_of(start);
    d.lemma_line_of(end - 1);
    lemma_lines_in_order(d, start, end - 1);
    let p = line_starts(d.lines@, first, n);
    lemma_indents(d, first, last, Seq::empty());
    let cs = shifts(d, first, last, true, Seq::empty());
    assert(cs =~= levels(p, n));
    let r = s.operate(Some(d), Operator::Indent, start, end, linewise);
    let mark = EffectView::MarkFirstNonBlank(first);
    assert(edited(d.chars@, r.out) == after_all(d.chars@, cs)) by {
        lemma_edited_push(d.chars@, s.out, mark);
        lemma_edited_push(d.chars@, s.out.push(mark), EffectView::Apply(cs));
        lemma_edited_push(
            d.chars@,
            s.out.push(mark).push(EffectView::Apply(cs)),
            EffectView::CaretFirstNonBlankAtMark,
        );
    }
    assert(places(p, d.size())) by {
        assert forall|i: int| 0 <= i < p.len() implies 0 <= #[trigger] p[i] <= d.size() by {
            assert(d.lines@[first + i].start + d.lines@[first + i].len <= d.chars@.len());
        }
        assert forall|i: int, j: int|
            #![trigger p[i], p[j]]
            0 <= i < j < p.len() implies p[i] < p[j] by {
            assert(d.lines@[first + i].start + d.lines@[first + i].len < d.lines@[first
                + j].start);
        }
    }
    lemma_levels_there(d.chars@, p, n, 0);
    lemma_levels_put_in(d.chars@, first, last);
    assert forall|k: int| 0 <= k < p.len() implies {
        &&& e.start(first + k) == (#[trigger] p[k]) + 4 * k
        &&& e.start(first + k) + 4 <= e.end(first + k)
        &&& e.chars@.subrange(p[k] + 4 * k, p[k] + 4 * k + 4) == level()
    } by {
        lemma_levels_there(d.chars@, p, n, k);
        assert(e.lines@[first + k].start == d.lines@[first + k].start + 4 * k);
    }
    assert(no_levels(p, 0) =~= Seq::empty());
    lemma_levels_taken(e, first, first, last, p);
    let ds = no_levels(p, n);
    assert(ds.len() > 0);
    lemma_edited_push(e.chars@, t.out, mark);
    lemma_edited_push(e.chars@, t.out.push(mark), EffectView::Apply(ds));
    lemma_edited_push(
        e.chars@,
        t.out.push(mark).push(EffectView::Apply(ds)),
        EffectView::CaretFirstNonBlankAtMark,
    );
    lemma_levels_undone(d.chars@, p, n);
}

} // verus!
