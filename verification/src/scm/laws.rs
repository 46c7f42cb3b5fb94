//! What the commands and keys of source control ask for.

use vstd::prelude::*;

use crate::effect::EffectView;
use crate::format::decimal;
use crate::key::{Key, KeyCode};
use crate::path::joined;
use crate::scm::plugin::{entry_at, entry_row, entry_rows, staged, ScmView};
use crate::scm::status::EntryView;
use crate::text::is_blank;

verus! {

/// The job that a request of source control starts, on arguments.
pub open spec fn job(v: ScmView, args: Seq<Seq<char>>) -> EffectView {
    EffectView::Git { job: "scm-status:"@ + decimal((v.generation + 1) as nat), args }
}

proof fn lemma_commands()
    ensures
        "scm.show"@ != "scm.refresh"@,
        "scm.show"@ != "scm.stage"@,
        "scm.show"@ != "scm.unstage"@,
        "scm.show"@ != "scm.commit"@,
        "scm.show"@ != "scm.next"@,
        "scm.show"@ != "scm.prev"@,
        "scm.refresh"@ != "scm.stage"@,
        "scm.refresh"@ != "scm.unstage"@,
        "scm.refresh"@ != "scm.commit"@,
        "scm.refresh"@ != "scm.next"@,
        "scm.refresh"@ != "scm.prev"@,
        "scm.stage"@ != "scm.unstage"@,
        "scm.stage"@ != "scm.commit"@,
        "scm.stage"@ != "scm.next"@,
        "scm.stage"@ != "scm.prev"@,
        "scm.unstage"@ != "scm.commit"@,
        "scm.unstage"@ != "scm.next"@,
        "scm.unstage"@ != "scm.prev"@,
        "scm.commit"@ != "scm.next"@,
        "scm.commit"@ != "scm.prev"@,
        "scm.next"@ != "scm.prev"@,
{
    reveal_strlit("scm.show");
    reveal_strlit("scm.refresh");
    reveal_strlit("scm.stage");
    reveal_strlit("scm.unstage");
    reveal_strlit("scm.commit");
    reveal_strlit("scm.next");
    reveal_strlit("scm.prev");
    assert("scm.show"@[4] == 's' && "scm.show"@[5] == 'h');
    assert("scm.next"@[4] == 'n');
    assert("scm.prev"@[4] == 'p');
    assert("scm.commit"@.len() == 10 && "scm.stage"@.len() == 9);
    assert("scm.refresh"@[4] == 'r' && "scm.unstage"@[4] == 'u');
}

/// The stage command asks git to add the path of the selected entry, and for nothing else.
pub proof fn staging_adds_the_selected_path(v: ScmView)
    requires
        v.selected < v.entries.len(),
        v.generation < u64::MAX,
    ensures
        v.commanded("scm.stage"@) matches Some(s) && s.out == seq![
            job(v, seq!["add"@, "-A"@, "--"@, v.entries[v.selected as int].path]),
        ] && s.state == (ScmView { generation: (v.generation + 1) as u64, ..v }),
{
    lemma_commands();
    let s = v.commanded("scm.stage"@).unwrap();
    let path = v.entries[v.selected as int].path;
    assert(seq!["add"@, "-A"@, "--"@].push(path) =~= seq!["add"@, "-A"@, "--"@, path]);
    assert(s.out =~= seq![job(v, seq!["add"@, "-A"@, "--"@, path])]);
}

/// The unstage command asks git to restore the index of the selected entry's path, and for nothing
/// else.
pub proof fn unstaging_restores_the_selected_path(v: ScmView)
    requires
        v.selected < v.entries.len(),
        v.generation < u64::MAX,
    ensures
        v.commanded("scm.unstage"@) matches Some(s) && s.out == seq![
            job(v, seq!["restore"@, "--staged"@, "--"@, v.entries[v.selected as int].path]),
        ] && s.state == (ScmView { generation: (v.generation + 1) as u64, ..v }),
{
    lemma_commands();
    let s = v.commanded("scm.unstage"@).unwrap();
    let path = v.entries[v.selected as int].path;
    assert(seq!["restore"@, "--staged"@, "--"@].push(path) =~= seq![
        "restore"@,
        "--staged"@,
        "--"@,
        path,
    ]);
    assert(s.out =~= seq![job(v, seq!["restore"@, "--staged"@, "--"@, path])]);
}

/// Staging and unstaging never ask for the same job, whatever is selected; where nothing is selected
/// neither asks for one.
pub proof fn staging_and_unstaging_differ(v: ScmView)
    requires
        v.generation < u64::MAX,
    ensures
        v.commanded("scm.stage"@) is Some,
        v.commanded("scm.unstage"@) is Some,
        v.selected < v.entries.len() ==> v.commanded("scm.stage"@)->0.out != v.commanded(
            "scm.unstage"@,
        )->0.out,
        v.selected >= v.entries.len() ==> v.commanded("scm.stage"@)->0.out.len() == 0
            && v.commanded("scm.unstage"@)->0.out.len() == 0 && v.commanded("scm.stage"@)->0.state
            == v && v.commanded("scm.unstage"@)->0.state == v,
{
    lemma_commands();
    if v.selected < v.entries.len() {
        staging_adds_the_selected_path(v);
        unstaging_restores_the_selected_path(v);
        let path = v.entries[v.selected as int].path;
        let a = seq!["add"@, "-A"@, "--"@, path];
        let b = seq!["restore"@, "--staged"@, "--"@, path];
        assert(a[0] != b[0]) by {
            reveal_strlit("add");
            reveal_strlit("restore");
            assert("add"@.len() != "restore"@.len());
        }
        let p = v.commanded("scm.stage"@)->0.out;
        let q = v.commanded("scm.unstage"@)->0.out;
        assert(p[0] == job(v, a));
        assert(q[0] == job(v, b));
        assert(p[0]->Git_args[0] != q[0]->Git_args[0]);
    }
}

/// Showing the panel opens it, and refreshing leaves it as it is; both ask for one status job, under
/// a new number.
pub proof fn showing_asks_for_the_status(v: ScmView)
    requires
        v.generation < u64::MAX,
    ensures
        v.commanded("scm.show"@) matches Some(s) && s.out == seq![job(v, Seq::empty())] && s.state
            == (ScmView { open: true, generation: (v.generation + 1) as u64, ..v }),
        v.commanded("scm.refresh"@) matches Some(s) && s.out == seq![job(v, Seq::empty())]
            && s.state == (ScmView { generation: (v.generation + 1) as u64, ..v }),
{
    lemma_commands();
    assert(v.commanded("scm.show"@)->0.out =~= seq![job(v, Seq::empty())]);
    assert(v.commanded("scm.refresh"@)->0.out =~= seq![job(v, Seq::empty())]);
}

/// The next entry is the one after the selected, the previous the one before it, going round at the
/// ends; each undoes the other, and neither asks for anything.
pub proof fn moving_goes_round(v: ScmView)
    requires
        v.selected < v.entries.len(),
        v.entries.len() <= usize::MAX,
    ensures
        v.commanded("scm.next"@) matches Some(s) && s.out.len() == 0 && s.state == (ScmView {
            selected: if v.selected + 1 < v.entries.len() {
                (v.selected + 1) as usize
            } else {
                0
            },
            ..v
        }) && s.state.commanded("scm.prev"@)->0.state == v,
        v.commanded("scm.prev"@) matches Some(s) && s.out.len() == 0 && s.state == (ScmView {
            selected: if v.selected > 0 {
                (v.selected - 1) as usize
            } else {
                (v.entries.len() - 1) as usize
            },
            ..v
        }) && s.state.commanded("scm.next"@)->0.state == v,
{
    lemma_commands();
    let n = v.entries.len() as int;
    let i = v.selected as int;
    lemma_round(i, n);
    if i + 1 < n {
        lemma_round(i + 1, n);
    } else {
        lemma_round(0, n);
    }
    if i > 0 {
        lemma_round(i - 1, n);
    } else {
        lemma_round(n - 1, n);
    }
}

proof fn lemma_round(i: int, n: int)
    requires
        0 <= i < n,
    ensures
        (i + 1) % n == if i + 1 < n {
            i + 1
        } else {
            0
        },
        (i - 1) % n == if i > 0 {
            i - 1
        } else {
            n - 1
        },
{
    if i + 1 < n {
        vstd::arithmetic::div_mod::lemma_small_mod((i + 1) as nat, n as nat);
    } else {
        vstd::arithmetic::div_mod::lemma_mod_self_0(n);
    }
    if i > 0 {
        vstd::arithmetic::div_mod::lemma_small_mod((i - 1) as nat, n as nat);
    } else {
        vstd::arithmetic::div_mod::lemma_mod_add_multiples_vanish(-1, n);
        vstd::arithmetic::div_mod::lemma_small_mod((n - 1) as nat, n as nat);
    }
}

/// The number of staged entries is that of those whose index column shows a change: it grows by one
/// for each, and only for these.
pub proof fn staged_entries_are_counted(v: Seq<EntryView>, e: EntryView)
    ensures
        staged(Seq::<EntryView>::empty(), 0) == 0,
        staged(v.push(e), (v.len() + 1) as int) == staged(v, v.len() as int) + (if e.index != ' ' && e.index
            != '?' {
            1nat
        } else {
            0nat
        }),
{
    lemma_staged_prefix(v, v.push(e), v.len() as int);
}

proof fn lemma_staged_prefix(v: Seq<EntryView>, w: Seq<EntryView>, n: int)
    requires
        n <= v.len(),
        n <= w.len(),
        forall|i: int| 0 <= i < n ==> v[i] == w[i],
    ensures
        staged(v, n) == staged(w, n),
    decreases n,
{
    if n > 0 {
        lemma_staged_prefix(v, w, n - 1);
    }
}

/// Committing asks for the message, and for nothing while nothing is staged. Enter then hands the
/// message to git as it was typed and closes the prompt.
pub proof fn committing_uses_the_message(v: ScmView, message: Seq<char>, key: Key)
    requires
        v.generation < u64::MAX,
        v.commit_message == Some(message),
        key.code == KeyCode::Enter,
        !is_blank(message),
    ensures
        v.pressed(key).out == seq![
            EffectView::DismissPrompt,
            job(v, seq!["commit"@, "-m"@, message]),
            EffectView::Notify("Committed"@),
        ],
        v.pressed(key).state == (ScmView {
            commit_message: None,
            generation: (v.generation + 1) as u64,
            ..v
        }),
        staged(v.entries, v.entries.len() as int) > 0 ==> v.commanded("scm.commit"@)->0.state == (
        ScmView { commit_message: Some(Seq::empty()), ..v }),
{
    lemma_commands();
    assert(v.pressed(key).out =~= seq![
        EffectView::DismissPrompt,
        job(v, seq!["commit"@, "-m"@, message]),
        EffectView::Notify("Committed"@),
    ]);
}

/// Typing adds to the message, backspace takes the last character off, and escape gives it up.
pub proof fn the_message_is_typed(v: ScmView, message: Seq<char>, key: Key, c: char)
    requires
        v.commit_message == Some(message),
    ensures
        key.code == KeyCode::Char(c) && !key.ctrl && !key.alt ==> v.pressed(key).state == (ScmView {
            commit_message: Some(message.push(c)),
            ..v
        }),
        key.code == KeyCode::Backspace && message.len() > 0 ==> v.pressed(key).state == (ScmView {
            commit_message: Some(message.take(message.len() - 1)),
            ..v
        }),
        key.code == KeyCode::Backspace && message.len() == 0 ==> v.pressed(key).state == v,
        key.code == KeyCode::Esc ==> v.pressed(key).state == (ScmView {
            commit_message: None,
            ..v
        }) && v.pressed(key).out == seq![EffectView::DismissPrompt],
{
    if message.len() > 0 {
        assert(message.drop_last() =~= message.take(message.len() - 1));
    }
}

/// The row shown as selected is that of the selected entry: it carries its path, and a click on it
/// opens that path under the root and leaves the entry selected, or an earlier one with the path.
pub proof fn the_selected_row_is_the_entry(v: ScmView, root: Seq<char>)
    requires
        v.open,
        v.selected < v.listed(),
        v.entries.len() <= usize::MAX,
    ensures
        ({
            let p = v.panel();
            let e = v.entries[v.selected as int];
            let s = v.clicked(root, e.path);
            &&& 0 <= p.selected < p.lines.len()
            &&& p.lines[p.selected] == entry_row(e)
            &&& p.lines[p.selected].payload == Some(e.path)
            &&& s.out[0] == EffectView::OpenPath(joined(root, e.path))
            &&& s.out == seq![s.out[0], s.state.shown()]
            &&& s.state.selected <= v.selected
            &&& v.entries[s.state.selected as int].path == e.path
            &&& s.state == (ScmView { selected: s.state.selected, ..v })
        }),
{
    let e = v.entries[v.selected as int];
    lemma_entry_at(v.entries, e.path, 0, v.selected as int);
    assert(v.panel().lines[v.selected + 1] == entry_rows(v.entries, v.listed())[
        v.selected as int]);
}

proof fn lemma_entry_at(v: Seq<EntryView>, path: Seq<char>, i: int, k: int)
    requires
        0 <= i <= k < v.len(),
        v[k].path == path,
    ensures
        entry_at(v, path, i) matches Some(j) && i <= j <= k && v[j].path == path,
    decreases k - i,
{
    if v[i].path != path {
        lemma_entry_at(v, path, i + 1, k);
    }
}

/// Every listed entry has a row, in order, behind the title.
pub proof fn every_listed_entry_has_a_row(v: ScmView, i: int)
    requires
        v.open,
        0 <= i < v.listed(),
    ensures
        i + 1 < v.panel().lines.len(),
        v.panel().lines[i + 1] == entry_row(v.entries[i]),
        v.panel().lines[0] == v.title(),
{
    assert(v.panel().lines[i + 1] == entry_rows(v.entries, v.listed())[i]);
}

} // verus!
