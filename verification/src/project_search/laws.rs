//! What the keys of the search panel come to.

use vstd::prelude::*;

use crate::bytes::le_value;
use crate::doc::Doc;
use crate::effect::EffectView;
use crate::format::decimal;
use crate::key::{Key, KeyCode};
use crate::pattern::{char_range, expansion, matches_in};
use crate::place::payloads_read_back;
use crate::project_search::plugin::{
    clicked, hit_row, job_names_read_back, Field, OpenDoc, SearchView,
};
use crate::ui::empty_panel;

verus! {

/// Enter on a query that has been searched for opens the selected result: its path, at its line, and
/// nothing else.
pub proof fn enter_opens_the_selected_result(
    v: SearchView,
    i: int,
    key: Key,
    root: Seq<char>,
    docs: Seq<OpenDoc>,
)
    requires
        key.code == KeyCode::Enter,
        v.query == v.last_run,
        v.selected == i,
        0 <= i < v.results.len(),
    ensures
        v.pressed(key, root, docs).state == v,
        v.pressed(key, root, docs).out == seq![
            EffectView::OpenPathAt {
                path: v.results[i].path,
                line: if v.results[i].line >= 1 {
                    v.results[i].line - 1
                } else {
                    0
                },
            },
        ],
{
    reveal(SearchView::pressed);
}

/// Enter opens the place that a click on the row shown as selected opens.
pub proof fn enter_opens_the_row_shown_as_selected(
    v: SearchView,
    key: Key,
    root: Seq<char>,
    docs: Seq<OpenDoc>,
)
    requires
        key.code == KeyCode::Enter,
        v.query == v.last_run,
        v.selected < v.results.len(),
    ensures
        ({
            let panel = v.rows(root, v.results.len() as int);
            let row = panel.lines[panel.selected];
            &&& v.shown(root) == (EffectView::SetPanel {
                panel: "search.results"@,
                content: panel,
            })
            &&& 0 <= panel.selected < panel.lines.len()
            &&& row.payload is Some
            &&& v.pressed(key, root, docs).out == clicked("search.results"@, row.payload.unwrap())
        }),
{
    reveal(SearchView::pressed);
    lemma_selected_row(v, root, v.results.len() as int);
    let h = v.results[v.selected as int];
    payloads_read_back(h.path, h.line);
}

proof fn lemma_selected_row(v: SearchView, root: Seq<char>, n: int)
    requires
        v.selected < n <= v.results.len(),
    ensures
        ({
            let panel = v.rows(root, n);
            &&& 0 <= panel.selected < panel.lines.len()
            &&& panel.lines[panel.selected] == hit_row(v.results[v.selected as int])
        }),
    decreases n,
{
    if v.selected < n - 1 {
        lemma_selected_row(v, root, n - 1);
    }
}

/// Every result has a row that carries its place, in the order of the results.
pub proof fn every_result_has_a_row(v: SearchView, root: Seq<char>, n: int, i: int)
    requires
        0 <= i < n <= v.results.len(),
    ensures
        exists|k: int|
            2 <= k < v.rows(root, n).lines.len() && #[trigger] v.rows(root, n).lines[k] == hit_row(
                v.results[i],
            ),
        clicked("search.results"@, hit_row(v.results[i]).payload->0) == seq![
            EffectView::OpenPathAt {
                path: v.results[i].path,
                line: if v.results[i].line >= 1 {
                    v.results[i].line - 1
                } else {
                    0
                },
            },
        ],
    decreases n,
{
    payloads_read_back(v.results[i].path, v.results[i].line);
    lemma_rows_grow(v, root, n - 1);
    let p = v.rows(root, n - 1);
    let q = v.rows(root, n);
    if i < n - 1 {
        every_result_has_a_row(v, root, n - 1, i);
        let k = choose|k: int|
            2 <= k < p.lines.len() && #[trigger] p.lines[k] == hit_row(v.results[i]);
        assert(q.lines[k] == p.lines[k]);
    } else {
        assert(q.lines[q.lines.len() - 1] == hit_row(v.results[i]));
    }
}

proof fn lemma_rows_grow(v: SearchView, root: Seq<char>, n: int)
    ensures
        v.rows(root, n).lines.len() >= 2,
    decreases n,
{
    if n > 0 {
        lemma_rows_grow(v, root, n - 1);
    }
}

/// Down selects the result after the selected, up the one before it, going round at the ends.
pub proof fn arrows_move_the_selection(
    v: SearchView,
    key: Key,
    root: Seq<char>,
    docs: Seq<OpenDoc>,
)
    requires
        v.selected < v.results.len(),
        v.results.len() <= usize::MAX,
    ensures
        key.code == KeyCode::Down ==> v.pressed(key, root, docs).state == (SearchView {
            selected: if v.selected + 1 < v.results.len() {
                (v.selected + 1) as usize
            } else {
                0
            },
            ..v
        }),
        key.code == KeyCode::Up ==> v.pressed(key, root, docs).state == (SearchView {
            selected: if v.selected > 0 {
                (v.selected - 1) as usize
            } else {
                (v.results.len() - 1) as usize
            },
            ..v
        }),
        key.code == KeyCode::Down || key.code == KeyCode::Up ==> v.pressed(key, root, docs).out
            == seq![v.pressed(key, root, docs).state.shown(root)],
{
    reveal(SearchView::pressed);
    let n = v.results.len() as int;
    let i = v.selected as int;
    if i + 1 < n {
        vstd::arithmetic::div_mod::lemma_small_mod((i + 1) as nat, n as nat);
    } else {
        vstd::arithmetic::div_mod::lemma_mod_self_0(n);
    }
    if i > 0 {
        vstd::arithmetic::div_mod::lemma_small_mod((i - 1) as nat, n as nat);
    } else {
        vstd::arithmetic::div_mod::lemma_mod_add_multiples_vanish(-1, n);
        vstd::arithmetic::div_mod::lemma_small_mod((n - 1) as nat, n as nat);
    }
}

/// Enter on a query that has not been searched for starts one search for it, under a new number,
/// drops the results of the last one, and remembers the query as searched for. An empty query starts
/// none.
pub proof fn enter_starts_a_search(
    v: SearchView,
    key: Key,
    root: Seq<char>,
    docs: Seq<OpenDoc>,
)
    requires
        key.code == KeyCode::Enter,
        v.query != v.last_run,
        v.generation < u64::MAX,
    ensures
        ({
            let s = v.pressed(key, root, docs);
            &&& v.query.len() > 0 ==> s.out == seq![
                EffectView::Search {
                    job: "search:"@ + decimal((v.generation + 1) as nat),
                    query: v.query,
                    case_sensitive: v.case_sensitive,
                    cap: 2000,
                },
                s.state.shown(root),
            ] && s.state == (SearchView {
                running: true,
                results: Seq::empty(),
                selected: 0,
                generation: (v.generation + 1) as u64,
                last_run: v.query,
                ..v
            })
            &&& v.query.len() == 0 ==> s.out.len() == 0 && s.state == v
        }),
{
    reveal(SearchView::pressed);
    let s = v.pressed(key, root, docs);
    if v.query.len() > 0 {
        assert(s.out =~= seq![
            EffectView::Search {
                job: "search:"@ + decimal((v.generation + 1) as nat),
                query: v.query,
                case_sensitive: v.case_sensitive,
                cap: 2000,
            },
            s.state.shown(root),
        ]);
    }
}

/// Typing goes to the line that has the focus, backspace takes its last character off, Tab goes to the
/// other line, and escape closes the panel.
pub proof fn typing_edits_the_focused_line(
    v: SearchView,
    key: Key,
    c: char,
    root: Seq<char>,
    docs: Seq<OpenDoc>,
)
    ensures
        key.code == KeyCode::Char(c) && !key.ctrl && !key.alt ==> v.pressed(key, root, docs).state
            == if v.field == Field::Query {
            SearchView { query: v.query.push(c), ..v }
        } else {
            SearchView { replace: v.replace.push(c), ..v }
        },
        key.code == KeyCode::Backspace ==> v.pressed(key, root, docs).state == if v.field
            == Field::Query && v.query.len() > 0 {
            SearchView { query: v.query.take(v.query.len() - 1), ..v }
        } else if v.field == Field::Replace && v.replace.len() > 0 {
            SearchView { replace: v.replace.take(v.replace.len() - 1), ..v }
        } else {
            v
        },
        key.code == KeyCode::Tab ==> v.pressed(key, root, docs).state == (SearchView {
            field: match v.field {
                Field::Query => Field::Replace,
                Field::Replace => Field::Query,
            },
            ..v
        }),
        key.code == KeyCode::Esc ==> v.pressed(key, root, docs).state == v && v.pressed(
            key,
            root,
            docs,
        ).out == seq![
            EffectView::DismissPrompt,
            EffectView::SetPanel { panel: "search.results"@, content: empty_panel() },
        ],
{
    reveal(SearchView::pressed);
    if v.query.len() > 0 {
        assert(v.query.drop_last() =~= v.query.take(v.query.len() - 1));
    }
    if v.replace.len() > 0 {
        assert(v.replace.drop_last() =~= v.replace.take(v.replace.len() - 1));
    }
}

/// Replacing in an open document makes one change for each match of the searched query, in order:
/// what was matched goes, and the replacement comes, its references filled in where they can be.
pub proof fn each_match_is_replaced(v: SearchView, text: Seq<char>, i: int)
    requires
        0 <= i < matches_in(v.sought(), !v.case_sensitive, text).len(),
    ensures
        v.sought() == if v.last_run.len() > 0 {
            v.last_run
        } else {
            v.query
        },
        v.substitutions(text).len() == matches_in(v.sought(), !v.case_sensitive, text).len(),
        ({
            let m = char_range(text, matches_in(v.sought(), !v.case_sensitive, text)[i]);
            let c = v.substitutions(text)[i];
            let matched = text.subrange(m.0 as int, m.1 as int);
            let filled = expansion(v.sought(), !v.case_sensitive, matched, v.replace);
            &&& c.at == m.0
            &&& c.removed == matched
            &&& filled is Some ==> c.inserted == filled.unwrap()
            &&& filled is None ==> c.inserted == v.replace
        }),
{
}

/// Opening the panel takes the selected text as the query, and keeps the last query where nothing is
/// selected; the results of the last search go, and typing goes to the query.
pub proof fn opening_takes_the_selection(v: SearchView, d: &Doc, a: int, b: int)
    requires
        0 <= a <= b <= d.size(),
        (d.anchor == a && d.head == b) || (d.anchor == b && d.head == a),
    ensures
        ({
            let w = v.opened(Some(d));
            &&& w.query == if a < b {
                d.chars@.subrange(a, b)
            } else {
                v.query
            }
            &&& w.results.len() == 0
            &&& w.selected == 0
            &&& !w.running
            &&& w.field == Field::Query
            &&& w.replace == v.replace
            &&& w.case_sensitive == v.case_sensitive
            &&& w.generation == v.generation
        }),
{
    assert(d.slice(a, b) =~= d.chars@.subrange(a, b));
}

/// The panel's first rows show the query and the replacement, and how many results there are.
pub proof fn the_panel_shows_the_query(v: SearchView, root: Seq<char>, n: int)
    requires
        0 <= n <= v.results.len(),
        !v.running,
        v.field == Field::Replace,
    ensures
        ({
            let rows = v.rows(root, n).lines;
            let search = rows[0].spans[0].text;
            let replace = rows[1].spans[0].text;
            &&& rows.len() >= 2
            &&& search == "Search:  "@ + v.query + ""@ + "  ["@ + (decimal(v.results.len())
                + " result(s)"@ + "]"@)
            &&& replace.len() >= "Replace: "@.len() + v.replace.len()
            &&& replace.subrange(
                "Replace: "@.len() as int,
                ("Replace: "@.len() + v.replace.len()) as int,
            ) == v.replace
        }),
{
    lemma_head_stays(v, root, n);
    let replace = v.head_rows()[1].spans[0].text;
    assert(replace.subrange(
        "Replace: "@.len() as int,
        ("Replace: "@.len() + v.replace.len()) as int,
    ) =~= v.replace);
}

proof fn lemma_head_stays(v: SearchView, root: Seq<char>, n: int)
    ensures
        v.rows(root, n).lines.len() >= 2,
        v.rows(root, n).lines[0] == v.head_rows()[0],
        v.rows(root, n).lines[1] == v.head_rows()[1],
    decreases n,
{
    if n > 0 {
        lemma_head_stays(v, root, n - 1);
    }
}

/// When a rewriting job is done the searched query is searched for again, and the files that it
/// changed are told together with the open ones.
pub proof fn a_finished_replacement_searches_again(
    v: SearchView,
    payload: Seq<u8>,
    root: Seq<char>,
)
    requires
        v.query.len() > 0,
        v.generation < u64::MAX,
        payload.len() == 8,
        le_value(payload, 0, 8) + v.pending <= u64::MAX,
    ensures
        ({
            let s = v.answered("replace:"@ + decimal(v.generation as nat), payload, root);
            let n = le_value(payload, 0, 8) + v.pending;
            &&& s.out.len() == 3
            &&& s.out[0] == EffectView::Notify(
                "Replaced in "@ + decimal(n as nat) + " file(s)"@,
            )
            &&& s.out[1] == EffectView::Search {
                job: "search:"@ + decimal((v.generation + 1) as nat),
                query: v.query,
                case_sensitive: v.case_sensitive,
                cap: 2000,
            }
            &&& s.state.pending == 0
            &&& s.state.running
            &&& s.state.results.len() == 0
        }),
{
    job_names_read_back("replace:"@, v.generation);
}

} // verus!
