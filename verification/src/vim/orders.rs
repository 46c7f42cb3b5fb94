//! What the command line and the search line come to.

use vstd::prelude::*;

use crate::doc::Doc;
use crate::effect::{edited, lemma_one_edit, replaced, EffectView};
use crate::key::{Key, KeyCode};
use crate::text::{stands, starts_with, trimmed};
use crate::vim::exline::{line_number, slash_at, substituted, substitution, Substitution};
use crate::vim::laws::with;
use crate::vim::motion::{Answer, TextObject};
use crate::vim::normal::object_named;
use crate::vim::plugin::pressed;
use crate::vim::search::{first_in, found, last_in};
use crate::vim::session::Step;
use crate::vim::state::Vim;

verus! {

/// What is typed goes to the open line, backspace takes the last character off and closes a line of
/// one, and escape closes it.
pub proof fn the_command_line_is_typed(
    v: Vim,
    d: Option<&Doc>,
    key: Key,
    c: char,
    page: int,
    answer: &Answer,
    line: Seq<char>,
)
    requires
        v.command == Some(line),
    ensures
        ({
            let s = pressed(v, d, key, page, answer).0;
            &&& key.code == KeyCode::Char(c) && !key.ctrl ==> s.vim == (Vim {
                command: Some(line.push(c)),
                ..v
            }) && s.out.len() == 0
            &&& key.code == KeyCode::Backspace && line.len() > 1 ==> s.vim == (Vim {
                command: Some(line.take(line.len() - 1)),
                ..v
            }) && s.out.len() == 0
            &&& key.code == KeyCode::Backspace && line.len() <= 1 ==> s.vim == (Vim {
                command: None,
                ..v
            })
            &&& key.code == KeyCode::Esc ==> s.vim == (Vim { command: None, ..v })
                && s.out.len() == 0
            &&& key.code == KeyCode::Enter ==> s == (Step {
                vim: Vim { command: None, ..v },
                out: Seq::empty(),
            }).run_ex(d, trimmed(line))
        }),
{
    reveal(Step::command_key);
    if line.len() > 1 {
        assert(line.drop_last() =~= line.take(line.len() - 1));
    }
}

/// The search line is typed in the same way; Enter remembers the search and goes to the place found.
pub proof fn the_search_line_is_typed(
    v: Vim,
    d: &Doc,
    key: Key,
    c: char,
    page: int,
    answer: &Answer,
    forward: bool,
    line: Seq<char>,
)
    requires
        v.command is None,
        v.search == Some((forward, line)),
    ensures
        ({
            let s = pressed(v, Some(d), key, page, answer).0;
            let p = if forward {
                found(d.chars@, line, d.head + 1, true)
            } else {
                found(
                    d.chars@,
                    line,
                    if d.head > 0 {
                        d.head - 1
                    } else {
                        0
                    },
                    false,
                )
            };
            &&& key.code == KeyCode::Char(c) && !key.ctrl ==> s.vim == (Vim {
                search: Some((forward, line.push(c))),
                ..v
            }) && s.out.len() == 0
            &&& key.code == KeyCode::Backspace && line.len() > 1 ==> s.vim == (Vim {
                search: Some((forward, line.take(line.len() - 1))),
                ..v
            })
            &&& key.code == KeyCode::Esc ==> s.vim == (Vim { search: None, ..v }) && s.out.len()
                == 0
            &&& key.code == KeyCode::Enter && line.len() > 0 ==> s.vim == (Vim {
                search: None,
                last_search: Some((forward, line)),
                ..v
            })
            &&& key.code == KeyCode::Enter && line.len() > 0 && p is Some ==> s.out == seq![
                EffectView::Caret(p.unwrap()),
            ]
            &&& key.code == KeyCode::Enter && line.len() > 0 && p is None ==> s.out == seq![
                EffectView::Notify("Pattern not found: "@ + line),
            ]
        }),
{
    reveal(Step::search_key);
    if line.len() > 1 {
        assert(line.drop_last() =~= line.take(line.len() - 1));
    }
    let s = pressed(v, Some(d), key, page, answer).0;
    if key.code == KeyCode::Enter && line.len() > 0 {
        assert(s.out =~= seq![s.out[0]]);
    }
}

proof fn lemma_first(s: Seq<char>, pat: Seq<char>, a: int, b: int)
    ensures
        match first_in(s, pat, a, b) {
            Some(i) => a <= i < b && stands(s, pat, i) && forall|k: int|
                a <= k < i ==> !stands(s, pat, k),
            None => forall|k: int| a <= k < b ==> !stands(s, pat, k),
        },
    decreases b - a,
{
    if a < b && !stands(s, pat, a) {
        lemma_first(s, pat, a + 1, b);
    }
}

proof fn lemma_last(s: Seq<char>, pat: Seq<char>, a: int, b: int)
    ensures
        match last_in(s, pat, a, b) {
            Some(i) => a <= i < b && stands(s, pat, i) && forall|k: int|
                i < k < b ==> !stands(s, pat, k),
            None => forall|k: int| a <= k < b ==> !stands(s, pat, k),
        },
    decreases b - a,
{
    if a < b && !stands(s, pat, b - 1) {
        lemma_last(s, pat, a, b - 1);
    }
}

/// A forward search finds the nearest place at or behind its start, and the first of all where there
/// is none.
pub proof fn forward_search_finds_the_nearest(s: Seq<char>, pat: Seq<char>, start: int, k: int)
    requires
        pat.len() > 0,
        0 <= start,
        stands(s, pat, k),
    ensures
        found(s, pat, start, true) matches Some(i) && stands(s, pat, i) && if k >= start {
            start <= i <= k
        } else {
            i >= start || i <= k
        },
{
    let places = s.len() - pat.len() + 1;
    let begin = if start <= s.len() {
        start
    } else {
        s.len() as int
    };
    lemma_first(s, pat, begin, places);
    lemma_first(
        s,
        pat,
        0,
        if begin <= places {
            begin
        } else {
            places
        },
    );
}

/// A backward search finds the nearest place at or before its start, and the last of all where there
/// is none.
pub proof fn backward_search_finds_the_nearest(s: Seq<char>, pat: Seq<char>, start: int, k: int)
    requires
        pat.len() > 0,
        0 <= start,
        stands(s, pat, k),
    ensures
        found(s, pat, start, false) matches Some(i) && stands(s, pat, i) && if k <= start {
            k <= i <= start
        } else {
            i <= start || i >= k
        },
{
    let places = s.len() - pat.len() + 1;
    let begin = if start <= places - 1 {
        start
    } else {
        places - 1
    };
    lemma_last(s, pat, 0, begin + 1);
    lemma_last(s, pat, begin + 1, places);
}

/// A number goes to its line, counted from one, or to the last.
pub proof fn a_number_goes_to_its_line(s: Step, d: &Doc, cmd: Seq<char>)
    requires
        d.wf(),
        cmd.len() > 0,
        line_number(cmd) is Some,
        line_number(cmd).unwrap() >= 1,
    ensures
        ({
            let n = line_number(cmd).unwrap();
            s.run_ex(Some(d), cmd) == s.ask(
                EffectView::CaretFirstNonBlank(
                    if n <= d.count() {
                        n - 1
                    } else {
                        d.count() - 1
                    },
                ),
            )
        }),
{
}

/// Saving, closing and quitting each have their commands.
pub proof fn commands_save_and_close(s: Step, d: Option<&Doc>, cmd: Seq<char>)
    requires
        s.out.len() == 0,
        line_number(cmd) is None,
        cmd.len() > 0,
    ensures
        ({
            let r = s.run_ex(d, cmd);
            let save = EffectView::Execute("file.save"@);
            let close = EffectView::Execute("tab.close"@);
            &&& r.vim == s.vim || starts_with(cmd, "s/"@) || starts_with(cmd, "%s/"@)
            &&& cmd == "w"@ || cmd == "write"@ ==> r.out == seq![save]
            &&& cmd == "wq"@ || cmd == "x"@ ==> r.out == seq![save, close]
            &&& cmd == "wa"@ || cmd == "wall"@ ==> r.out == seq![
                EffectView::Execute("file.saveAll"@),
            ]
            &&& cmd == "q"@ || cmd == "quit"@ ==> r.out == seq![close]
            &&& cmd == "q!"@ || cmd == "quit!"@ ==> r.out == seq![
                EffectView::SetDirty(false),
                close,
            ]
            &&& cmd == "qa"@ || cmd == "qall"@ || cmd == "qa!"@ ==> r.out == seq![
                EffectView::Execute("app.quit"@),
            ]
            &&& cmd == "noh"@ ==> r.out == seq![
                EffectView::DismissPrompt,
                EffectView::ClearDecorations("find.match"@),
            ]
        }),
{
    lemma_words();
    let r = s.run_ex(d, cmd);
    let save = EffectView::Execute("file.save"@);
    let close = EffectView::Execute("tab.close"@);
    if cmd == "w"@ || cmd == "write"@ {
        assert(r.out =~= seq![save]);
    } else if cmd == "wq"@ || cmd == "x"@ {
        assert(r.out =~= seq![save, close]);
    } else if cmd == "wa"@ || cmd == "wall"@ {
        assert(r.out =~= seq![EffectView::Execute("file.saveAll"@)]);
    } else if cmd == "q"@ || cmd == "quit"@ {
        assert(r.out =~= seq![close]);
    } else if cmd == "q!"@ || cmd == "quit!"@ {
        assert(r.out =~= seq![EffectView::SetDirty(false), close]);
    } else if cmd == "qa"@ || cmd == "qall"@ || cmd == "qa!"@ {
        assert(r.out =~= seq![EffectView::Execute("app.quit"@)]);
    } else if cmd == "noh"@ {
        assert(r.out =~= seq![
            EffectView::DismissPrompt,
            EffectView::ClearDecorations("find.match"@),
        ]);
    }
}

/// A word by its length and two of its characters.
spec fn marked(s: Seq<char>, n: int, a: char, b: char) -> bool {
    s.len() == n && s[0] == a && s[n - 1] == b
}

proof fn lemma_words()
    ensures
        marked("w"@, 1, 'w', 'w'),
        marked("write"@, 5, 'w', 'e'),
        marked("wq"@, 2, 'w', 'q'),
        marked("x"@, 1, 'x', 'x'),
        marked("wq!"@, 3, 'w', '!'),
        marked("x!"@, 2, 'x', '!'),
        marked("wa"@, 2, 'w', 'a'),
        marked("wall"@, 4, 'w', 'l'),
        marked("q"@, 1, 'q', 'q'),
        marked("quit"@, 4, 'q', 't'),
        marked("q!"@, 2, 'q', '!'),
        marked("quit!"@, 5, 'q', '!'),
        marked("qa"@, 2, 'q', 'a'),
        marked("qall"@, 4, 'q', 'l'),
        marked("qa!"@, 3, 'q', '!'),
        marked("noh"@, 3, 'n', 'h'),
        marked("quitall"@, 7, 'q', 'l'),
        marked("quitall!"@, 8, 'q', '!'),
{
    reveal_strlit("w");
    reveal_strlit("write");
    reveal_strlit("wq");
    reveal_strlit("x");
    reveal_strlit("wq!");
    reveal_strlit("x!");
    reveal_strlit("wa");
    reveal_strlit("wall");
    reveal_strlit("q");
    reveal_strlit("quit");
    reveal_strlit("q!");
    reveal_strlit("quit!");
    reveal_strlit("qa");
    reveal_strlit("qall");
    reveal_strlit("qa!");
    reveal_strlit("noh");
    reveal_strlit("quitall");
    reveal_strlit("quitall!");
}

/// A text has no slash.
pub open spec fn no_slash(s: Seq<char>) -> bool {
    forall|i: int| 0 <= i < s.len() ==> s[i] != '/'
}

proof fn lemma_slash(s: Seq<char>, i: int, j: int)
    requires
        0 <= i <= j <= s.len(),
        forall|k: int| i <= k < j ==> s[k] != '/',
        j < s.len() ==> s[j] == '/',
    ensures
        slash_at(s, i) == j,
    decreases j - i,
{
    if i < j {
        lemma_slash(s, i + 1, j);
    }
}

/// A substitute command names what it replaces, by what, and with `g` that it replaces everywhere.
pub proof fn substitute_commands_read_back(
    whole: bool,
    everywhere: bool,
    old: Seq<char>,
    new: Seq<char>,
)
    requires
        no_slash(old),
        no_slash(new),
        old.len() > 0,
    ensures
        ({
            let head = if whole {
                seq!['%', 's', '/']
            } else {
                seq!['s', '/']
            };
            let flags = if everywhere {
                seq!['/', 'g']
            } else {
                seq!['/']
            };
            substitution(head + old + seq!['/'] + new + flags) == Some(
                Substitution { old, new, global: everywhere },
            )
        }),
{
    let head = if whole {
        seq!['%', 's', '/']
    } else {
        seq!['s', '/']
    };
    let flags = if everywhere {
        seq!['/', 'g']
    } else {
        seq!['/']
    };
    let s = head + old + seq!['/'] + new + flags;
    let b = if whole {
        2int
    } else {
        1
    };
    reveal_with_fuel(crate::vim::exline::percent_end, 3);
    assert(s[b] == '/');
    assert(whole ==> s[0] == '%' && s[1] == 's');
    assert(!whole ==> s[0] == 's');
    let second = b + 1 + old.len();
    let third = second + 1 + new.len();
    assert(s[second] == '/');
    assert(s[third] == '/');
    assert forall|k: int| b + 1 <= k < second implies s[k] != '/' by {
        assert(s[k] == old[k - b - 1]);
    }
    assert forall|k: int| second + 1 <= k < third implies s[k] != '/' by {
        assert(s[k] == new[k - second - 1]);
    }
    lemma_slash(s, b, b);
    lemma_slash(s, b + 1, second);
    lemma_slash(s, second + 1, third);
    assert(s.subrange(b + 1, second) =~= old);
    assert(s.subrange(second + 1, third) =~= new);
    let rest = s.subrange(third + 1, s.len() as int);
    if everywhere {
        assert(rest[0] == 'g');
        assert(rest.contains('g'));
    } else {
        assert(rest.len() == 0);
    }
}

/// The substitution works on the caret's line, or on the whole text with a percent sign: what it gives
/// takes the place of that, and nothing is asked for where it changes nothing.
pub proof fn substituting_changes_the_range(s: Step, d: &Doc, cmd: Seq<char>, sub: Substitution)
    requires
        s.out.len() == 0,
        d.wf(),
        cmd.len() > 0,
        substitution(cmd) == Some(sub),
    ensures
        ({
            let line = d.line_of(d.head as int);
            let a = if cmd[0] == '%' {
                0
            } else {
                d.start(line)
            };
            let b = if cmd[0] == '%' {
                d.size()
            } else {
                d.end(line)
            };
            let src = d.chars@.subrange(a, b);
            let n = if sub.global {
                src.len() as int
            } else {
                1
            };
            let out = substituted(src, sub.old, sub.new, 0, n, Seq::empty());
            let r = s.substitute_ex(Some(d), cmd);
            &&& r.vim == s.vim
            &&& out == src ==> r.out.len() == 0
            &&& out != src ==> edited(d.chars@, r.out) == with(d.chars@, a, b, out)
                && r.out.last() == EffectView::Caret(a)
        }),
{
    let line = d.line_of(d.head as int);
    d.lemma_line_of(d.head as int);
    assert(d.lines@[line].start + d.lines@[line].len <= d.chars@.len());
    let a = if cmd[0] == '%' {
        0
    } else {
        d.start(line)
    };
    let b = if cmd[0] == '%' {
        d.size()
    } else {
        d.end(line)
    };
    let src = d.chars@.subrange(a, b);
    assert(d.slice(a, b) =~= src);
    let n = if sub.global {
        src.len() as int
    } else {
        1
    };
    let out = substituted(src, sub.old, sub.new, 0, n, Seq::empty());
    let none = Seq::<EffectView>::empty();
    lemma_one_edit(d, none, a, b, out, seq![EffectView::Caret(a)]);
    let r = s.substitute_ex(Some(d), cmd);
    if out != src {
        assert(r.out =~= none.push(replaced(d, a, b, out)) + seq![EffectView::Caret(a)]);
    }
}

proof fn lemma_substituted(
    s: Seq<char>,
    old: Seq<char>,
    new: Seq<char>,
    i: int,
    j: int,
    left: int,
    acc: Seq<char>,
)
    requires
        old.len() > 0,
        0 <= i <= j <= s.len(),
        forall|k: int| i <= k < j ==> !stands(s, old, k),
    ensures
        substituted(s, old, new, i, left, acc) == substituted(
            s,
            old,
            new,
            j,
            left,
            acc + s.subrange(i, j),
        ),
    decreases j - i,
{
    if i < j {
        lemma_substituted(s, old, new, i + 1, j, left, acc.push(s[i]));
        assert(acc.push(s[i]) + s.subrange(i + 1, j) =~= acc + s.subrange(i, j));
    } else {
        assert(acc + s.subrange(i, j) =~= acc);
    }
}

proof fn lemma_substituted_none(
    s: Seq<char>,
    old: Seq<char>,
    new: Seq<char>,
    i: int,
    acc: Seq<char>,
)
    requires
        old.len() > 0,
        0 <= i <= s.len(),
    ensures
        substituted(s, old, new, i, 0, acc) == acc + s.skip(i),
    decreases s.len() - i,
{
    if i < s.len() {
        lemma_substituted_none(s, old, new, i + 1, acc.push(s[i]));
        assert(acc.push(s[i]) + s.skip(i + 1) =~= acc + s.skip(i));
    } else {
        assert(acc + s.skip(i) =~= acc);
    }
}

/// One substitution replaces the first occurrence and keeps the rest; where nothing occurs, the text
/// stays.
pub proof fn one_substitution_replaces_the_first(
    s: Seq<char>,
    old: Seq<char>,
    new: Seq<char>,
    k: int,
)
    requires
        old.len() > 0,
        0 <= k <= s.len(),
        forall|i: int| 0 <= i < k ==> !stands(s, old, i),
    ensures
        stands(s, old, k) ==> substituted(s, old, new, 0, 1, Seq::empty()) == s.take(k) + new
            + s.skip(k + old.len()),
        k == s.len() ==> substituted(s, old, new, 0, 1, Seq::empty()) == s,
{
    lemma_substituted(s, old, new, 0, k, 1, Seq::empty());
    assert(Seq::<char>::empty() + s.subrange(0, k) =~= s.take(k));
    if stands(s, old, k) {
        lemma_substituted_none(s, old, new, k + old.len(), s.take(k) + new);
    }
    if k == s.len() {
        assert(s.take(k) =~= s);
    }
}

/// Substituting everywhere goes on behind each occurrence.
pub proof fn every_substitution_goes_on_behind(
    s: Seq<char>,
    old: Seq<char>,
    new: Seq<char>,
    i: int,
    k: int,
    left: int,
    acc: Seq<char>,
)
    requires
        old.len() > 0,
        0 <= i <= k,
        left > 0,
        stands(s, old, k),
        forall|j: int| i <= j < k ==> !stands(s, old, j),
    ensures
        substituted(s, old, new, i, left, acc) == substituted(
            s,
            old,
            new,
            k + old.len(),
            left - 1,
            acc + s.subrange(i, k) + new,
        ),
{
    lemma_substituted(s, old, new, i, k, left, acc);
}

/// The brackets of a pair name the pair, and so do `b` and `B`; a quote names what it quotes.
pub proof fn objects_are_named_by_their_keys(c: char)
    ensures
        ({
            let named = |k: char| object_named(KeyCode::Char(k));
            &&& c == '(' || c == ')' || c == 'b' ==> named(c) == Some(
                TextObject::Pair { open: '(', close: ')' },
            )
            &&& c == '{' || c == '}' || c == 'B' ==> named(c) == Some(
                TextObject::Pair { open: '{', close: '}' },
            )
            &&& c == '[' || c == ']' ==> named(c) == Some(
                TextObject::Pair { open: '[', close: ']' },
            )
            &&& c == '<' || c == '>' ==> named(c) == Some(
                TextObject::Pair { open: '<', close: '>' },
            )
            &&& c == '"' || c == '\'' || c == '`' ==> named(c) == Some(
                TextObject::Quote { quote: c },
            )
            &&& named('w') == Some(TextObject::Word { big: false })
            &&& named('W') == Some(TextObject::Word { big: true })
            &&& named(c) == Some(TextObject::Paragraph) <==> c == 'p'
        }),
{
}

} // verus!
