//! What the commands and keys of the explorer come to.

use vstd::prelude::*;

use crate::effect::EffectView;
use crate::explorer::model::RowView;
use crate::explorer::plugin::{
    decided, line_of, row_at, ExplorerView, FileOpView, OpView,
};
use crate::key::{Key, KeyCode};
use crate::path::{joined, name_or_empty, parent_of, path_key, same_path};
use crate::text::trimmed;

verus! {

/// A command's name by its length and its first letter behind the dot.
spec fn marked(s: Seq<char>, n: int, a: char) -> bool {
    s.len() == n && s[9] == a
}

proof fn lemma_commands()
    ensures
        marked("explorer.down"@, 13, 'd'),
        marked("explorer.up"@, 11, 'u'),
        marked("explorer.activate"@, 17, 'a'),
        marked("explorer.expand"@, 15, 'e'),
        marked("explorer.collapse"@, 17, 'c'),
        marked("explorer.revealActiveFile"@, 25, 'r'),
        marked("explorer.newFile"@, 16, 'n'),
        marked("explorer.newFolder"@, 18, 'n'),
        marked("explorer.rename"@, 15, 'r'),
        marked("explorer.delete"@, 15, 'd'),
{
    reveal_strlit("explorer.down");
    reveal_strlit("explorer.up");
    reveal_strlit("explorer.activate");
    reveal_strlit("explorer.expand");
    reveal_strlit("explorer.collapse");
    reveal_strlit("explorer.revealActiveFile");
    reveal_strlit("explorer.newFile");
    reveal_strlit("explorer.newFolder");
    reveal_strlit("explorer.rename");
    reveal_strlit("explorer.delete");
}

/// Down selects the row below and up the row above, stopping at the ends; nothing else changes, and
/// the panel is drawn again.
pub proof fn moving_steps_by_one_row(v: ExplorerView, active: Option<Seq<char>>)
    requires
        v.selected < v.visible.len(),
        v.visible.len() <= usize::MAX,
    ensures
        ({
            let d = v.commanded("explorer.down"@, active).unwrap();
            let u = v.commanded("explorer.up"@, active).unwrap();
            &&& d.state == (ExplorerView {
                selected: if v.selected + 1 < v.visible.len() {
                    (v.selected + 1) as usize
                } else {
                    v.selected
                },
                ..v
            })
            &&& u.state == (ExplorerView {
                selected: if v.selected > 0 {
                    (v.selected - 1) as usize
                } else {
                    0
                },
                ..v
            })
            &&& d.out == seq![d.state.shown()]
            &&& u.out == seq![u.state.shown()]
            &&& d.perform is None && u.perform is None && !d.relist && !u.relist
        }),
{
    lemma_commands();
}

/// Activating a file opens it; activating a directory opens or shuts it, and asks for the rows again
/// with it selected.
pub proof fn activating_opens(v: ExplorerView, active: Option<Seq<char>>)
    requires
        v.selected < v.visible.len(),
        v.visible.len() <= usize::MAX,
        row_at(v.visible, v.visible[v.selected as int].path, 0) == Some(v.selected as int),
    ensures
        ({
            let r = v.visible[v.selected as int];
            let s = v.commanded("explorer.activate"@, active).unwrap();
            let k = path_key(r.path);
            &&& !r.is_dir ==> s.out == seq![EffectView::OpenPath(r.path), v.shown()] && s.state == v
                && !s.relist
            &&& r.is_dir ==> s.out.len() == 0 && s.relist && s.select == Some(r.path)
                && s.state.expanded.contains(k) == !v.expanded.contains(k) && s.state == (
            ExplorerView { expanded: s.state.expanded, ..v }) && forall|p: Seq<u64>|
                p != k ==> s.state.expanded.contains(p) == v.expanded.contains(p)
            &&& s.perform is None
        }),
{
    lemma_commands();
}

/// Expanding opens a directory that is shut, collapsing shuts one that is open, and either leaves any
/// other row alone.
pub proof fn expanding_and_collapsing(v: ExplorerView, active: Option<Seq<char>>)
    requires
        v.selected < v.visible.len(),
        row_at(v.visible, v.visible[v.selected as int].path, 0) == Some(v.selected as int),
    ensures
        ({
            let r = v.visible[v.selected as int];
            let e = v.commanded("explorer.expand"@, active).unwrap();
            let c = v.commanded("explorer.collapse"@, active).unwrap();
            let a = v.commanded("explorer.activate"@, active).unwrap();
            &&& r.is_dir && !r.expanded ==> e == a && c.state == v && !c.relist
            &&& r.is_dir && r.expanded ==> c == a && e.state == v && !e.relist
            &&& !r.is_dir ==> e.state == v && c.state == v && e.out == seq![v.shown()] && c.out
                == seq![v.shown()]
        }),
{
    lemma_commands();
}

/// New entries are asked for in the selected directory, or in that of the selected file; the prompt
/// starts empty. Renaming starts with the name as it is, deleting with nothing typed.
pub proof fn operations_are_begun_on_the_selected_row(v: ExplorerView, active: Option<Seq<char>>)
    requires
        v.selected < v.visible.len(),
    ensures
        ({
            let r = v.visible[v.selected as int];
            let dir = if r.is_dir {
                r.path
            } else {
                match parent_of(r.path) {
                    Some(p) => p,
                    None => v.root,
                }
            };
            let none = Seq::<char>::empty();
            &&& v.commanded("explorer.newFile"@, active)->0.state == (ExplorerView {
                pending: Some((OpView::NewFile { dir }, none)),
                ..v
            })
            &&& v.commanded("explorer.newFolder"@, active)->0.state == (ExplorerView {
                pending: Some((OpView::NewFolder { dir }, none)),
                ..v
            })
            &&& v.commanded("explorer.rename"@, active)->0.state == (ExplorerView {
                pending: Some((OpView::Rename { path: r.path }, name_or_empty(r.path))),
                ..v
            })
            &&& v.commanded("explorer.delete"@, active)->0.state == (ExplorerView {
                pending: Some((OpView::Delete { path: r.path }, none)),
                ..v
            })
            &&& v.commanded("explorer.delete"@, active)->0.perform is None
            &&& v.commanded("explorer.newFile"@, active)->0.perform is None
        }),
{
    lemma_commands();
}

/// Revealing a file asks for the rows again with it selected; no directory that was open is shut.
pub proof fn revealing_selects_the_file(v: ExplorerView, path: Seq<char>)
    ensures
        ({
            let s = v.commanded("explorer.revealActiveFile"@, Some(path)).unwrap();
            &&& s.relist
            &&& s.select == Some(path)
            &&& s.perform is None
            &&& forall|p: Seq<u64>| v.expanded.contains(p) ==> s.state.expanded.contains(p)
            &&& s.state == (ExplorerView { expanded: s.state.expanded, ..v })
        }),
{
    lemma_commands();
}

/// Typing adds to the name, backspace takes its last character off, and escape gives the operation up;
/// none of these performs anything.
pub proof fn names_are_typed(v: ExplorerView, op: OpView, value: Seq<char>, key: Key, c: char)
    requires
        v.pending == Some((op, value)),
    ensures
        ({
            let s = v.pressed(key);
            &&& key.code == KeyCode::Char(c) && !key.ctrl && !key.alt ==> s.state == (ExplorerView {
                pending: Some((op, value.push(c))),
                ..v
            })
            &&& key.code == KeyCode::Backspace && value.len() > 0 ==> s.state == (ExplorerView {
                pending: Some((op, value.take(value.len() - 1))),
                ..v
            })
            &&& key.code == KeyCode::Esc ==> s.state == (ExplorerView { pending: None, ..v })
                && s.out == seq![EffectView::DismissPrompt]
            &&& key.code != KeyCode::Enter ==> s.perform is None && !s.relist
        }),
{
    if value.len() > 0 {
        assert(value.drop_last() =~= value.take(value.len() - 1));
    }
}

/// Enter performs what was begun, on the name without the whitespace around it: a new file or folder
/// in its directory, a new name beside the old one, and a removal of exactly the path.
pub proof fn enter_performs_the_operation(v: ExplorerView, op: OpView, value: Seq<char>, key: Key)
    requires
        v.pending == Some((op, value)),
        key.code == KeyCode::Enter,
        trimmed(value).len() > 0,
        !trimmed(value).contains('/'),
        !trimmed(value).contains('\\'),
    ensures
        ({
            let s = v.pressed(key);
            let name = trimmed(value);
            &&& s.state == v
            &&& op matches OpView::NewFile { dir } ==> s.perform == Some(
                FileOpView::CreateFile(joined(dir, name)),
            )
            &&& op matches OpView::NewFolder { dir } ==> s.perform == Some(
                FileOpView::CreateDir(joined(dir, name)),
            )
            &&& op matches OpView::Rename { path } ==> parent_of(path) is Some ==> s.perform == Some(
                FileOpView::Rename { from: path, to: joined(parent_of(path).unwrap(), name) },
            )
            &&& op matches OpView::Delete { path } ==> name == name_or_empty(path) ==> s.perform
                == Some(FileOpView::Delete(path))
        }),
{
}

/// After a success the operation is over and the rows are asked for again; a new file is opened. After
/// a failure the operation stays, and nothing is opened.
pub proof fn results_end_the_operation(
    v: ExplorerView,
    op: OpView,
    value: Seq<char>,
    e: Seq<char>,
)
    requires
        v.pending == Some((op, value)),
    ensures
        ({
            let good = v.finished(None);
            let bad = v.finished(Some(e));
            &&& good.state.pending is None
            &&& good.relist
            &&& good.out.last() == EffectView::DismissPrompt
            &&& op matches OpView::NewFile { dir } ==> good.out[0] == EffectView::OpenPath(
                joined(dir, trimmed(value)),
            ) && good.out.len() == 2
            &&& !(op is NewFile) ==> good.out.len() == 1
            &&& bad.state == v
            &&& !bad.relist
            &&& bad.perform is None
            &&& bad.out.len() == 1
            &&& bad.out[0] is SetPrompt
        }),
{
}

/// Every row is drawn with its path behind it, at its depth.
pub proof fn rows_carry_their_paths(r: RowView, icons: bool)
    ensures
        line_of(r, icons).payload == Some(r.path),
        line_of(r, icons).depth == r.depth,
{
}

} // verus!
