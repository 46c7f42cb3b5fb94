//! What the keys of the find widget come to.

use vstd::prelude::*;

use crate::doc::Doc;
use crate::effect::{after_all, ChangeView, EffectView};
use crate::find::plugin::{command_step, fits, key_step, marks, substitution, substitutions};
use crate::find::state::{Field, FindView};
use crate::format::decimal;
use crate::key::{Key, KeyCode};
use crate::pattern::{build_error, escaped, expansion};

verus! {

/// The key that replaces the current match.
pub open spec fn replaces_one(key: Key) -> bool {
    key.code == KeyCode::Enter && key.alt
}

/// A key that replaces every match.
pub open spec fn replaces_all(key: Key) -> bool {
    key.alt && (key.code == KeyCode::Char('a') || key.code == KeyCode::Char('A'))
}

/// Outside expressions, replacing the current match puts exactly the replacement in the place of
/// exactly the matched text, in one transaction of one change.
pub proof fn replacing_inserts_the_replacement(v: FindView, text: Seq<char>, key: Key)
    requires
        replaces_one(key),
        !v.regex,
        v.current < v.matches.len(),
        fits(v.matches[v.current as int], text),
    ensures
        ({
            let m = v.matches[v.current as int];
            let s = key_step(v, Some(text), key);
            let c = ChangeView {
                at: m.0 as int,
                removed: text.subrange(m.0 as int, m.1 as int),
                inserted: v.replace,
            };
            &&& s.out == seq![EffectView::Apply(seq![c])]
            &&& s.state == Some(v)
            &&& s.refresh
            &&& after_all(text, seq![c]) == text.take(m.0 as int) + v.replace + text.skip(
                m.1 as int,
            )
        }),
{
    reveal(key_step);
    let m = v.matches[v.current as int];
    let c = ChangeView {
        at: m.0 as int,
        removed: text.subrange(m.0 as int, m.1 as int),
        inserted: v.replace,
    };
    assert(seq![c].drop_last() =~= Seq::empty());
    assert(after_all(crate::effect::after(text, c), Seq::<ChangeView>::empty())
        == crate::effect::after(text, c));
}

/// In expressions, replacing the current match puts in the replacement with its references filled in
/// from the matched text, and the replacement as it is where nothing can be filled in. The expression
/// is the query, between word boundaries where whole words are asked for.
pub proof fn replacing_fills_references_in(v: FindView, text: Seq<char>, key: Key)
    requires
        replaces_one(key),
        v.regex,
        v.current < v.matches.len(),
        fits(v.matches[v.current as int], text),
    ensures
        ({
            let m = v.matches[v.current as int];
            let matched = text.subrange(m.0 as int, m.1 as int);
            let query = if v.whole_word {
                "\\b(?:"@ + v.query + ")\\b"@
            } else {
                v.query
            };
            let filled = expansion(query, !v.case_sensitive, matched, v.replace);
            let inserted = if build_error(query, !v.case_sensitive) is None && filled is Some {
                filled.unwrap()
            } else {
                v.replace
            };
            let s = key_step(v, Some(text), key);
            &&& s.out == seq![
                EffectView::Apply(seq![ChangeView { at: m.0 as int, removed: matched, inserted }]),
            ]
            &&& s.state == Some(v)
            &&& s.refresh
        }),
{
    reveal(key_step);
}

/// A current match that is not within the text is left alone, and so is a widget without one.
pub proof fn nothing_else_is_replaced(v: FindView, text: Option<Seq<char>>, key: Key)
    requires
        replaces_one(key),
        text is None || v.current >= v.matches.len() || !fits(
            v.matches[v.current as int],
            text.unwrap(),
        ),
    ensures
        key_step(v, text, key).out.len() == 0,
        key_step(v, text, key).state == Some(v),
{
    reveal(key_step);
}

/// Replacing every match makes one change for each, in their order: the very change that replacing it
/// as the current match makes.
pub proof fn replacing_all_replaces_each(v: FindView, text: Seq<char>, all: Key, one: Key, i: int)
    requires
        replaces_all(all),
        replaces_one(one),
        forall|k: int| 0 <= k < v.matches.len() ==> fits(#[trigger] v.matches[k], text),
        v.matches.len() <= usize::MAX,
        0 <= i < v.matches.len(),
    ensures
        ({
            let s = key_step(v, Some(text), all);
            let w = FindView { current: i as usize, ..v };
            &&& s.out.len() == 2
            &&& s.out[0] matches EffectView::Apply(cs) && cs.len() == v.matches.len() && key_step(
                w,
                Some(text),
                one,
            ).out == seq![EffectView::Apply(seq![cs[i]])]
            &&& s.out[1] == EffectView::Notify(
                "Replaced "@ + decimal(v.matches.len()) + " occurrence(s)"@,
            )
            &&& s.state == Some(v)
            &&& s.refresh
        }),
{
    reveal(key_step);
    lemma_all(v, text, v.matches.len() as int);
    let cs = substitutions(v, text, v.matches.len() as int);
    assert(cs[i] == substitution(v, text, v.matches[i]));
    let w = FindView { current: i as usize, ..v };
    assert(substitution(w, text, v.matches[i]) == substitution(v, text, v.matches[i]));
}

proof fn lemma_all(v: FindView, text: Seq<char>, n: int)
    requires
        0 <= n <= v.matches.len(),
        forall|k: int| 0 <= k < v.matches.len() ==> fits(#[trigger] v.matches[k], text),
    ensures
        substitutions(v, text, n).len() == n,
        forall|k: int|
            0 <= k < n ==> #[trigger] substitutions(v, text, n)[k] == substitution(
                v,
                text,
                v.matches[k],
            ),
    decreases n,
{
    if n > 0 {
        lemma_all(v, text, n - 1);
        let before = substitutions(v, text, n - 1);
        let all = substitutions(v, text, n);
        assert(fits(v.matches[n - 1], text));
        assert forall|k: int| 0 <= k < n implies #[trigger] all[k] == substitution(
            v,
            text,
            v.matches[k],
        ) by {
            if k < n - 1 {
                assert(all[k] == before[k]);
            }
        }
    }
}

/// Enter and down go to the match after the current one, with shift or up to the one before, going
/// round at the ends; the match is selected.
pub proof fn enter_goes_to_the_next_match(v: FindView, text: Seq<char>, key: Key)
    requires
        v.current < v.matches.len(),
        v.matches.len() <= usize::MAX,
        (key.code == KeyCode::Enter && !key.alt) || key.code == KeyCode::Up || key.code
            == KeyCode::Down,
    ensures
        ({
            let n = v.matches.len() as int;
            let back = key.code == KeyCode::Up || (key.code == KeyCode::Enter && key.shift);
            let i = if back {
                if v.current > 0 {
                    v.current - 1
                } else {
                    n - 1
                }
            } else if v.current + 1 < n {
                v.current + 1
            } else {
                0
            };
            let s = key_step(v, Some(text), key);
            &&& s.state == Some(FindView { current: i as usize, ..v })
            &&& s.out.len() == 3
            &&& s.out[0] == EffectView::Select {
                anchor: v.matches[i].0 as int,
                head: v.matches[i].1 as int,
            }
        }),
{
    reveal(key_step);
    let n = v.matches.len() as int;
    let c = v.current as int;
    if c + 1 < n {
        vstd::arithmetic::div_mod::lemma_small_mod((c + 1) as nat, n as nat);
    } else {
        vstd::arithmetic::div_mod::lemma_mod_self_0(n);
    }
    if c > 0 {
        vstd::arithmetic::div_mod::lemma_mod_add_multiples_vanish(c - 1, n);
        vstd::arithmetic::div_mod::lemma_small_mod((c - 1) as nat, n as nat);
        assert((c + n - 1) % n == c - 1);
    } else {
        vstd::arithmetic::div_mod::lemma_small_mod((n - 1) as nat, n as nat);
    }
}

/// The switches: Alt+C for case, Alt+W for whole words, Alt+R for expressions. Each turns one over,
/// leaves query, replacement and the other switches, and searches again from where the widget was
/// opened.
pub proof fn switches_turn_over(v: FindView, text: Seq<char>, key: Key)
    requires
        key.alt,
    ensures
        ({
            let s = key_step(v, Some(text), key).state;
            let case = FindView { case_sensitive: !v.case_sensitive, ..v };
            let word = FindView { whole_word: !v.whole_word, ..v };
            let expr = FindView { regex: !v.regex, ..v };
            &&& (key.code == KeyCode::Char('c') || key.code == KeyCode::Char('C')) ==> s == Some(
                case.recomputed(text, v.origin as int),
            )
            &&& (key.code == KeyCode::Char('w') || key.code == KeyCode::Char('W')) ==> s == Some(
                word.recomputed(text, v.origin as int),
            )
            &&& (key.code == KeyCode::Char('r') || key.code == KeyCode::Char('R')) ==> s == Some(
                expr.recomputed(text, v.origin as int),
            )
        }),
{
    reveal(key_step);
}

/// A search keeps everything but the matches, the current one and the error; with an empty query
/// nothing matches.
pub proof fn searching_keeps_the_rest(v: FindView, text: Seq<char>, cursor: int)
    ensures
        ({
            let w = v.recomputed(text, cursor);
            &&& w == (FindView { matches: w.matches, current: w.current, error: w.error, ..v })
            &&& v.query.len() == 0 ==> w.matches.len() == 0 && w.error is None
            &&& w.error is Some ==> w.matches.len() == 0
        }),
{
}

/// What is typed goes to the line that has the focus, backspace takes its last character off, and the
/// other line stays; the matches are those of the new query.
pub proof fn typing_edits_the_focused_line(v: FindView, text: Seq<char>, key: Key, c: char)
    requires
        !key.ctrl,
        !key.alt,
        key.code == KeyCode::Char(c),
    ensures
        ({
            let w = if v.field == Field::Query {
                FindView { query: v.query.push(c), ..v }
            } else {
                FindView { replace: v.replace.push(c), ..v }
            };
            key_step(v, Some(text), key).state == Some(w.recomputed(text, v.origin as int))
        }),
{
    reveal(key_step);
}

/// Backspace takes the last character off the line that has the focus.
pub proof fn backspace_erases_from_the_focused_line(v: FindView, text: Seq<char>, key: Key)
    requires
        key.code == KeyCode::Backspace,
    ensures
        ({
            let w = if v.field == Field::Query && v.query.len() > 0 {
                FindView { query: v.query.take(v.query.len() - 1), ..v }
            } else if v.field == Field::Replace && v.replace.len() > 0 {
                FindView { replace: v.replace.take(v.replace.len() - 1), ..v }
            } else {
                v
            };
            key_step(v, Some(text), key).state == Some(w.recomputed(text, v.origin as int))
        }),
{
    reveal(key_step);
    if v.query.len() > 0 {
        assert(v.query.drop_last() =~= v.query.take(v.query.len() - 1));
    }
    if v.replace.len() > 0 {
        assert(v.replace.drop_last() =~= v.replace.take(v.replace.len() - 1));
    }
    assert(crate::text::shorter(Seq::<char>::empty()) =~= Seq::empty());
    assert(v.query.len() == 0 ==> v.query =~= Seq::empty());
    assert(v.replace.len() == 0 ==> v.replace =~= Seq::empty());
}

/// Tab goes to the other line where there is one, and escape closes the widget and takes its marks
/// off.
pub proof fn tab_and_escape(v: FindView, text: Seq<char>, key: Key)
    ensures
        key.code == KeyCode::Tab ==> key_step(v, Some(text), key).state == Some(
            FindView {
                field: if !v.replace_mode {
                    v.field
                } else {
                    match v.field {
                        Field::Query => Field::Replace,
                        Field::Replace => Field::Query,
                    }
                },
                ..v
            },
        ),
        key.code == KeyCode::Esc ==> key_step(v, Some(text), key).state is None && key_step(
            v,
            Some(text),
            key,
        ).out == seq![EffectView::DismissPrompt, EffectView::ClearDecorations("find.match"@)],
{
    reveal(key_step);
}

/// Every match is marked, with its range, and nothing else.
pub proof fn every_match_is_marked(matches: Seq<(usize, usize)>)
    ensures
        marks(matches).len() == matches.len(),
        forall|i: int|
            0 <= i < matches.len() ==> #[trigger] marks(matches)[i] == (
                matches[i].0 as int,
                matches[i].1 as int,
                "find.match"@,
            ),
{
}

proof fn lemma_commands()
    ensures
        "search.find"@ != "search.replace"@,
        "search.findNext"@ != "search.find"@,
        "search.findNext"@ != "search.replace"@,
        "search.findPrev"@ != "search.find"@,
        "search.findPrev"@ != "search.replace"@,
        "search.findPrev"@ != "search.findNext"@,
        "search.replaceAll"@ != "search.find"@,
        "search.replaceAll"@ != "search.replace"@,
        "search.replaceAll"@ != "search.findNext"@,
        "search.replaceAll"@ != "search.findPrev"@,
{
    reveal_strlit("search.find");
    reveal_strlit("search.replace");
    reveal_strlit("search.findNext");
    reveal_strlit("search.findPrev");
    reveal_strlit("search.replaceAll");
    assert("search.find"@.len() == 11 && "search.replace"@.len() == 14);
    assert("search.findNext"@.len() == 15 && "search.findPrev"@.len() == 15);
    assert("search.findNext"@[11] == 'N' && "search.findPrev"@[11] == 'P');
    assert("search.replaceAll"@.len() == 17);
}

/// Opening the widget looks for the selected text, from where the selection starts; find shows one
/// line, replace two. Nothing is replaced, and case, whole words and expressions are off.
pub proof fn opening_looks_for_the_selection(
    state: Option<FindView>,
    d: &Doc,
    a: int,
    b: int,
    replace: bool,
)
    requires
        0 <= a <= b <= d.size(),
        b <= usize::MAX,
        (d.anchor == a && d.head == b) || (d.anchor == b && d.head == a),
    ensures
        ({
            let command = if replace {
                "search.replace"@
            } else {
                "search.find"@
            };
            let fresh = FindView {
                query: d.chars@.subrange(a, b),
                replace: Seq::empty(),
                replace_mode: replace,
                field: Field::Query,
                case_sensitive: false,
                whole_word: false,
                regex: false,
                matches: Seq::empty(),
                current: 0,
                origin: a as usize,
                error: None,
            };
            &&& command_step(state, Some(d), command) is Some
            &&& command_step(state, Some(d), command)->0.state == Some(
                fresh.recomputed(d.chars@, a),
            )
        }),
{
    lemma_commands();
    assert(d.slice(a, b) =~= d.chars@.subrange(a, b));
    if a == b {
        assert(d.chars@.subrange(a, b) =~= Seq::empty());
    }
}

/// The commands do what the keys do: next and previous go to the match after and before, and replace
/// all replaces every match.
pub proof fn commands_do_what_keys_do(v: FindView, d: &Doc, down: Key, up: Key, all: Key)
    requires
        down.code == KeyCode::Down,
        up.code == KeyCode::Up,
        replaces_all(all),
    ensures
        command_step(Some(v), Some(d), "search.findNext"@) == Some(
            key_step(v, Some(d.chars@), down),
        ),
        command_step(Some(v), Some(d), "search.findPrev"@) == Some(key_step(v, Some(d.chars@), up)),
        command_step(Some(v), Some(d), "search.replaceAll"@) == Some(
            key_step(v, Some(d.chars@), all),
        ),
{
    lemma_commands();
    reveal(key_step);
}

/// The widget shows both lines where replacing is on, the switches as they are, and the number of the
/// current match among all.
pub proof fn the_prompt_shows_the_state(v: FindView)
    ensures
        ({
            let p = v.prompt();
            &&& p.fields.len() == if v.replace_mode {
                2int
            } else {
                1
            }
            &&& p.fields[0].1 == v.query
            &&& v.replace_mode ==> p.fields[1].1 == v.replace
            &&& p.focused == if v.field == Field::Query {
                0int
            } else {
                1
            }
            &&& p.toggles.len() == 3
            &&& p.toggles[0].1 == v.case_sensitive
            &&& p.toggles[1].1 == v.whole_word
            &&& p.toggles[2].1 == v.regex
            &&& p.error == v.error
            &&& v.error is None && v.matches.len() > 0 ==> p.status == Some(
                decimal((v.current + 1) as nat) + "/"@ + decimal(v.matches.len()),
            )
            &&& v.error is None && v.matches.len() == 0 ==> p.status == Some("0/0"@)
        }),
{
}

/// Outside expressions every character of the query stands for itself; whole words are between word
/// boundaries.
pub proof fn queries_are_taken_as_they_are(v: FindView)
    ensures
        v.regex && !v.whole_word ==> v.expression() == v.query,
        !v.regex && !v.whole_word ==> v.expression() == escaped(v.query),
        v.whole_word ==> v.expression() == "\\b(?:"@ + (FindView {
            whole_word: false,
            ..v
        }).expression() + ")\\b"@,
{
}

} // verus!
