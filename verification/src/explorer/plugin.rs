//! The explorer panel: the rows of the tree, its selection, and operations on files.
//!
//! Directories are listed by the editor. Where the rows have to be built again, a step says so, and
//! the editor comes back with the listings of the directories that are open.

use vstd::prelude::*;

use crate::contribution::{Contributions, Offer, PanelLocation};
use crate::doc::{lesser, minus};
use crate::effect::{effects_view, emit, no_effects, Effect, EffectView};
use crate::explorer::model::{
    dir_marker, file_glyph, flattened, glyph_for, longest_of, marker_for, push_dir, rows_view,
    Listing, Row, RowView,
};
use crate::format::{join2, join3};
use crate::key::{Key, KeyCode};
use crate::path::{
    below, file_name, file_name_or_empty, has_path, is_same_path, join, joined, joined_names_read_back,
    last_before, lemma_last_before, lemma_tail_once, name_of, name_or_empty, parent, parent_of,
    path_key, path_keys, same_path, strip_prefix, tail_end,
};
use crate::text::{chars_of, no_text, same, texts_of, trim, trimmed};
use crate::ui::{
    entry_prompt, lines_view, no_lines, opt_text, push_line, str_view, styled, LineView,
    PanelContent, PanelLine, PanelView, Prompt, PromptView, Span,
};

verus! {

/// A file operation that waits for a name, or for a confirmation.
#[derive(Debug, PartialEq)]
pub enum PendingOp {
    NewFile { dir: String },
    NewFolder { dir: String },
    Rename { path: String },
    Delete { path: String },
}

pub enum OpView {
    NewFile { dir: Seq<char> },
    NewFolder { dir: Seq<char> },
    Rename { path: Seq<char> },
    Delete { path: Seq<char> },
}

impl View for PendingOp {
    type V = OpView;

    open spec fn view(&self) -> OpView {
        match *self {
            PendingOp::NewFile { dir } => OpView::NewFile { dir: dir@ },
            PendingOp::NewFolder { dir } => OpView::NewFolder { dir: dir@ },
            PendingOp::Rename { path } => OpView::Rename { path: path@ },
            PendingOp::Delete { path } => OpView::Delete { path: path@ },
        }
    }
}

/// An operation for the editor to perform.
#[derive(Debug, PartialEq)]
pub enum FileOp {
    CreateFile(String),
    CreateDir(String),
    Rename { from: String, to: String },
    Delete(String),
}

pub enum FileOpView {
    CreateFile(Seq<char>),
    CreateDir(Seq<char>),
    Rename { from: Seq<char>, to: Seq<char> },
    Delete(Seq<char>),
}

impl View for FileOp {
    type V = FileOpView;

    open spec fn view(&self) -> FileOpView {
        match *self {
            FileOp::CreateFile(p) => FileOpView::CreateFile(p@),
            FileOp::CreateDir(p) => FileOpView::CreateDir(p@),
            FileOp::Rename { from, to } => FileOpView::Rename { from: from@, to: to@ },
            FileOp::Delete(p) => FileOpView::Delete(p@),
        }
    }
}

/// The explorer's state.
pub struct ExplorerPlugin {
    pub root: String,
    /// The open directories.
    pub expanded: Vec<String>,
    pub visible: Vec<Row>,
    pub selected: usize,
    /// Whether files and folders have symbols.
    pub icons: bool,
    /// The operation that a prompt is up for, and what was typed.
    pub pending: Option<(PendingOp, String)>,
}

pub struct ExplorerView {
    pub root: Seq<char>,
    /// The open directories, each by its components.
    pub expanded: Set<Seq<u64>>,
    pub visible: Seq<RowView>,
    pub selected: usize,
    pub icons: bool,
    pub pending: Option<(OpView, Seq<char>)>,
}

pub open spec fn pending_view(p: Option<(PendingOp, String)>) -> Option<(OpView, Seq<char>)> {
    match p {
        Some((op, value)) => Some((op@, value@)),
        None => None,
    }
}

impl View for ExplorerPlugin {
    type V = ExplorerView;

    open spec fn view(&self) -> ExplorerView {
        ExplorerView {
            root: self.root@,
            expanded: path_keys(texts_of(self.expanded@)).to_set(),
            visible: rows_view(self.visible@),
            selected: self.selected,
            icons: self.icons,
            pending: pending_view(self.pending),
        }
    }
}

/// The explorer before a folder is opened.
pub open spec fn unopened(icons: bool) -> ExplorerView {
    ExplorerView {
        root: Seq::empty(),
        expanded: Set::empty(),
        visible: Seq::empty(),
        selected: 0,
        icons,
        pending: None,
    }
}

/// What a step came to.
pub struct ExplorerOutcome {
    /// Whether the command or the key was the explorer's.
    pub claimed: bool,
    /// Whether the rows are to be built again once the requests are performed.
    pub relist: bool,
    /// The path to select once they are.
    pub select: Option<String>,
    /// An operation to perform first; its result goes to `finish`.
    pub perform: Option<FileOp>,
    pub effects: Vec<Effect>,
}

/// The explorer after a step, and what it asks for.
pub struct ExplorerStep {
    pub state: ExplorerView,
    pub relist: bool,
    pub select: Option<Seq<char>>,
    pub perform: Option<FileOpView>,
    pub out: Seq<EffectView>,
}

pub open spec fn op_view(p: Option<FileOp>) -> Option<FileOpView> {
    match p {
        Some(op) => Some(op@),
        None => None,
    }
}

impl ExplorerOutcome {
    /// Whether this is what a step says.
    pub open spec fn is(&self, step: ExplorerStep) -> bool {
        &&& self.relist == step.relist
        &&& opt_text(self.select) == step.select
        &&& op_view(self.perform) == step.perform
        &&& effects_view(self.effects@) =~= step.out
    }
}

/// The line of a row: its marker and its name.
pub open spec fn line_of(r: RowView, icons: bool) -> LineView {
    let marker = if r.is_dir {
        marker_for(r.expanded, icons)
    } else if icons {
        "  "@ + glyph_for(r.path) + " "@
    } else {
        "  "@
    };
    let style = if r.is_dir {
        "dir"@
    } else {
        "file"@
    };
    LineView {
        spans: seq![styled(marker + name_or_empty(r.path), style)],
        payload: Some(r.path),
        depth: r.depth,
    }
}

/// The lines of rows.
pub open spec fn drawn(rows: Seq<RowView>, icons: bool) -> Seq<LineView> {
    rows.map_values(|r: RowView| line_of(r, icons))
}

/// The first row from `i` on with the path.
pub open spec fn row_at(rows: Seq<RowView>, path: Seq<char>, i: int) -> Option<int>
    decreases rows.len() - i,
{
    if i >= rows.len() {
        None
    } else if same_path(rows[i].path, path) {
        Some(i)
    } else {
        row_at(rows, path, i + 1)
    }
}

/// A path's last component, or all of it.
pub open spec fn title_name(p: Seq<char>) -> Seq<char> {
    match name_of(p) {
        Some(n) => n,
        None => p,
    }
}

/// Whether a name holds a separator.
pub open spec fn has_separator(s: Seq<char>) -> bool {
    s.contains('/') || s.contains('\\')
}

/// What a typed name comes to: an operation, or why there is none.
pub open spec fn decided(op: OpView, value: Seq<char>) -> Result<FileOpView, Seq<char>> {
    let name = trimmed(value);
    match op {
        OpView::Delete { path } => if name != name_or_empty(path) {
            Err("Type \""@ + name_or_empty(path) + "\" to confirm"@)
        } else {
            Ok(FileOpView::Delete(path))
        },
        _ => if name.len() == 0 {
            Err("Give it a name"@)
        } else if has_separator(name) {
            Err("Names cannot contain a path separator"@)
        } else {
            match op {
                OpView::NewFile { dir } => Ok(FileOpView::CreateFile(joined(dir, name))),
                OpView::NewFolder { dir } => Ok(FileOpView::CreateDir(joined(dir, name))),
                OpView::Rename { path } => Ok(
                    FileOpView::Rename {
                        from: path,
                        to: match parent_of(path) {
                            Some(p) => joined(p, name),
                            None => name,
                        },
                    },
                ),
                OpView::Delete { path } => Ok(FileOpView::Delete(path)),
            }
        },
    }
}

/// The prompt of an operation.
pub open spec fn op_prompt(op: OpView, value: Seq<char>, error: Option<Seq<char>>) -> PromptView {
    let (title, label, footer) = match op {
        OpView::NewFile { dir } => (
            "New file in "@ + title_name(dir),
            "Name"@,
            "[Enter] Create   [Esc] Cancel"@,
        ),
        OpView::NewFolder { dir } => (
            "New folder in "@ + title_name(dir),
            "Name"@,
            "[Enter] Create   [Esc] Cancel"@,
        ),
        OpView::Rename { path } => (
            "Rename "@ + title_name(path),
            "Name"@,
            "[Enter] Rename   [Esc] Cancel"@,
        ),
        OpView::Delete { path } => (
            "Delete "@ + title_name(path) + "?"@,
            "Type the name to confirm"@,
            "[Enter] Delete   [Esc] Cancel"@,
        ),
    };
    entry_prompt("explorer"@, "explorer.fileop"@, title, label, value, footer, error)
}

/// The directories above a path, up to the root, that are below the root.
pub open spec fn ancestors(root: Seq<char>, path: Seq<char>) -> Set<Seq<u64>>
    decreases path.len(),
{
    match parent_of(path) {
        None => Set::empty(),
        Some(dir) => if same_path(dir, root) || dir.len() >= path.len() {
            Set::empty()
        } else if below(root, dir) is Some {
            ancestors(root, dir).insert(path_key(dir))
        } else {
            ancestors(root, dir)
        },
    }
}

impl ExplorerView {
    /// The panel's request.
    pub open spec fn shown(self) -> EffectView {
        EffectView::SetPanel {
            panel: "explorer.tree"@,
            content: PanelView {
                lines: drawn(self.visible, self.icons),
                selected: self.selected as int,
            },
        }
    }

    /// Nothing but the panel again.
    pub open spec fn redrawn(self) -> ExplorerStep {
        ExplorerStep {
            state: self,
            relist: false,
            select: None,
            perform: None,
            out: seq![self.shown()],
        }
    }

    /// Nothing at all.
    pub open spec fn idle(self) -> ExplorerStep {
        ExplorerStep { state: self, relist: false, select: None, perform: None, out: Seq::empty() }
    }

    /// The directory that a new entry goes into.
    pub open spec fn target_dir(self) -> Seq<char> {
        if self.selected >= self.visible.len() {
            self.root
        } else {
            let r = self.visible[self.selected as int];
            if r.is_dir {
                r.path
            } else {
                match parent_of(r.path) {
                    Some(p) => p,
                    None => self.root,
                }
            }
        }
    }

    /// An operation is begun: its prompt is up, and the panel is drawn.
    pub open spec fn begun(self, op: OpView, value: Seq<char>) -> ExplorerStep {
        let v = ExplorerView { pending: Some((op, value)), ..self };
        ExplorerStep {
            state: v,
            relist: false,
            select: None,
            perform: None,
            out: seq![EffectView::SetPrompt(op_prompt(op, value, None)), v.shown()],
        }
    }

    /// The rows are built from listings; the selection stays within them, and goes to a path where
    /// one is asked for.
    pub open spec fn relisted(self, l: Seq<Listing>, select: Option<Seq<char>>) -> ExplorerView {
        let rows = flattened(l, self.expanded, self.root);
        let kept = if self.selected >= rows.len() {
            minus(rows.len() as int, 1)
        } else {
            self.selected as int
        };
        ExplorerView {
            visible: rows,
            selected: match select {
                Some(p) => match row_at(rows, p, 0) {
                    Some(i) => i as usize,
                    None => kept as usize,
                },
                None => kept as usize,
            },
            ..self
        }
    }

    /// A directory is opened or shut, a file is opened.
    pub open spec fn toggled(self, path: Seq<char>) -> ExplorerStep {
        let at = row_at(self.visible, path, 0);
        let is_dir = at is Some && self.visible[at.unwrap()].is_dir;
        if is_dir {
            ExplorerStep {
                state: ExplorerView {
                    expanded: if self.expanded.contains(path_key(path)) {
                        self.expanded.remove(path_key(path))
                    } else {
                        self.expanded.insert(path_key(path))
                    },
                    ..self
                },
                relist: true,
                select: Some(path),
                perform: None,
                out: Seq::empty(),
            }
        } else {
            let v = ExplorerView {
                selected: match at {
                    Some(i) => i as usize,
                    None => self.selected,
                },
                ..self
            };
            ExplorerStep {
                state: v,
                relist: false,
                select: None,
                perform: None,
                out: seq![EffectView::OpenPath(path), v.shown()],
            }
        }
    }

    /// The selection after a step, stopping at the ends.
    pub open spec fn moved(self, down: bool) -> ExplorerView {
        if self.visible.len() == 0 {
            self
        } else {
            ExplorerView {
                selected: if down {
                    lesser(self.selected + 1, self.visible.len() - 1) as usize
                } else {
                    lesser(minus(self.selected as int, 1), self.visible.len() - 1) as usize
                },
                ..self
            }
        }
    }

    /// What a command does; nothing where it is not the explorer's.
    pub open spec fn commanded(self, command: Seq<char>, active: Option<Seq<char>>) -> Option<
        ExplorerStep,
    > {
        let at = if self.selected < self.visible.len() {
            Some(self.visible[self.selected as int])
        } else {
            None
        };
        if command == "explorer.down"@ {
            Some(self.moved(true).redrawn())
        } else if command == "explorer.up"@ {
            Some(self.moved(false).redrawn())
        } else if command == "explorer.activate"@ {
            match at {
                Some(r) => Some(self.toggled(r.path)),
                None => Some(self.redrawn()),
            }
        } else if command == "explorer.expand"@ || command == "explorer.collapse"@ {
            match at {
                Some(r) => if r.is_dir && r.expanded == (command == "explorer.collapse"@) {
                    Some(self.toggled(r.path))
                } else {
                    Some(self.redrawn())
                },
                None => Some(self.redrawn()),
            }
        } else if command == "explorer.revealActiveFile"@ {
            match active {
                Some(path) => Some(
                    ExplorerStep {
                        state: ExplorerView {
                            expanded: self.expanded.union(ancestors(self.root, path)),
                            ..self
                        },
                        relist: true,
                        select: Some(path),
                        perform: None,
                        out: Seq::empty(),
                    },
                ),
                None => Some(self.redrawn()),
            }
        } else if command == "explorer.newFile"@ {
            Some(self.begun(OpView::NewFile { dir: self.target_dir() }, Seq::empty()))
        } else if command == "explorer.newFolder"@ {
            Some(self.begun(OpView::NewFolder { dir: self.target_dir() }, Seq::empty()))
        } else if command == "explorer.rename"@ {
            match at {
                Some(r) => Some(
                    self.begun(OpView::Rename { path: r.path }, name_or_empty(r.path)),
                ),
                None => Some(self.redrawn()),
            }
        } else if command == "explorer.delete"@ {
            match at {
                Some(r) => Some(self.begun(OpView::Delete { path: r.path }, Seq::empty())),
                None => Some(self.redrawn()),
            }
        } else {
            None
        }
    }

    /// The typed name is another one; the prompt shows it.
    pub open spec fn named(self, op: OpView, value: Seq<char>) -> ExplorerStep {
        ExplorerStep {
            state: ExplorerView { pending: Some((op, value)), ..self },
            relist: false,
            select: None,
            perform: None,
            out: seq![EffectView::SetPrompt(op_prompt(op, value, None))],
        }
    }

    /// What a key does while an operation's prompt is up.
    pub open spec fn pressed(self, key: Key) -> ExplorerStep {
        let (op, value) = self.pending.unwrap();
        match key.code {
            KeyCode::Esc => ExplorerStep {
                state: ExplorerView { pending: None, ..self },
                out: seq![EffectView::DismissPrompt],
                ..self.idle()
            },
            KeyCode::Enter => match decided(op, value) {
                Ok(f) => ExplorerStep { perform: Some(f), ..self.idle() },
                Err(e) => ExplorerStep {
                    out: seq![EffectView::SetPrompt(op_prompt(op, value, Some(e)))],
                    ..self.idle()
                },
            },
            KeyCode::Backspace => self.named(
                op,
                if value.len() == 0 {
                    value
                } else {
                    value.drop_last()
                },
            ),
            KeyCode::Char(c) => if !key.ctrl && !key.alt {
                self.named(op, value.push(c))
            } else {
                self.idle()
            },
            _ => self.idle(),
        }
    }

    /// What the result of an operation does: after a success its directory is open and the rows are
    /// built again, after a failure the prompt says why.
    pub open spec fn finished(self, failure: Option<Seq<char>>) -> ExplorerStep {
        match self.pending {
            None => self.idle(),
            Some((op, value)) => match failure {
                Some(e) => ExplorerStep {
                    out: seq![EffectView::SetPrompt(op_prompt(op, value, Some(e)))],
                    ..self.idle()
                },
                None => ExplorerStep {
                    state: ExplorerView {
                        expanded: match op {
                            OpView::NewFile { dir } => self.expanded.insert(path_key(dir)),
                            OpView::NewFolder { dir } => self.expanded.insert(path_key(dir)),
                            _ => self.expanded,
                        },
                        pending: None,
                        ..self
                    },
                    relist: true,
                    out: match op {
                        OpView::NewFile { dir } => seq![
                            EffectView::OpenPath(joined(dir, trimmed(value))),
                            EffectView::DismissPrompt,
                        ],
                        _ => seq![EffectView::DismissPrompt],
                    },
                    ..self.idle()
                },
            },
        }
    }
}

impl ExplorerOutcome {
    /// Nothing.
    fn nothing(claimed: bool) -> (r: ExplorerOutcome)
        ensures
            r.claimed == claimed,
            !r.relist,
            r.select is None,
            r.perform is None,
            effects_view(r.effects@) == Seq::<EffectView>::empty(),
    {
        ExplorerOutcome {
            claimed,
            relist: false,
            select: None,
            perform: None,
            effects: no_effects(),
        }
    }
}

/// What the plugin contributes.
pub open spec fn contributed() -> Offer {
    Offer::none()
        .panel("explorer.tree"@, "Explorer"@, PanelLocation::Sidebar)
        .command("explorer.revealActiveFile"@, "Explorer: Reveal Active File"@)
        .command("explorer.up"@, "Explorer: Select Previous"@)
        .command("explorer.down"@, "Explorer: Select Next"@)
        .command("explorer.activate"@, "Explorer: Open / Toggle"@)
        .command("explorer.expand"@, "Explorer: Expand Folder"@)
        .command("explorer.collapse"@, "Explorer: Collapse Folder"@)
        .command("explorer.newFile"@, "Explorer: New File"@)
        .command("explorer.newFolder"@, "Explorer: New Folder"@)
        .command("explorer.rename"@, "Explorer: Rename"@)
        .command("explorer.delete"@, "Explorer: Delete"@)
}

impl ExplorerPlugin {
    /// What the plugin contributes.
    pub fn contributions() -> (r: Contributions)
        ensures
            r@ == contributed(),
    {
        Contributions::builder()
            .panel("explorer.tree", "Explorer", PanelLocation::Sidebar)
            .command("explorer.revealActiveFile", "Explorer: Reveal Active File")
            .command("explorer.up", "Explorer: Select Previous")
            .command("explorer.down", "Explorer: Select Next")
            .command("explorer.activate", "Explorer: Open / Toggle")
            .command("explorer.expand", "Explorer: Expand Folder")
            .command("explorer.collapse", "Explorer: Collapse Folder")
            .command("explorer.newFile", "Explorer: New File")
            .command("explorer.newFolder", "Explorer: New Folder")
            .command("explorer.rename", "Explorer: Rename")
            .command("explorer.delete", "Explorer: Delete")
    }

    /// An explorer of nothing, with or without symbols.
    pub fn new(icons: bool) -> (r: ExplorerPlugin)
        ensures
            r@ == unopened(icons),
    {
        let r = ExplorerPlugin {
            root: no_text(),
            expanded: Vec::new(),
            visible: Vec::new(),
            selected: 0,
            icons,
            pending: None,
        };
        assert(path_keys(texts_of(r.expanded@)).to_set() =~= Set::empty());
        assert(rows_view(r.visible@) =~= Seq::empty());
        r
    }

    /// Explore a directory.
    pub fn activate(&mut self, root: &str)
        ensures
            final(self)@ == (ExplorerView { root: root@, ..old(self)@ }),
    {
        self.root = root.to_owned();
    }

    /// The directories to list before the rows are built: the root and the open ones.
    pub fn open_dirs(&self) -> (r: Vec<String>)
        ensures
            path_keys(texts_of(r@)).to_set() == self@.expanded.insert(path_key(self.root@)),
    {
        let mut out: Vec<String> = crate::text::copy_texts(&self.expanded);
        let root: String = self.root.clone();
        proof {
            lemma_push_path(out@, root);
        }
        out.push(root);
        out
    }

    /// Build the rows from listings, select a path where one is asked for, and show the panel.
    pub fn relist(&mut self, listings: &[Listing], select: Option<&str>) -> (r: Vec<Effect>)
        ensures
            final(self)@ == old(self)@.relisted(listings@, str_view(select)),
            effects_view(r@) == seq![final(self)@.shown()],
    {
        let mut rows: Vec<Row> = Vec::new();
        assert(rows_view(rows@) =~= Seq::empty());
        // No row is deeper than the longest of the listed paths.
        let _deepest: usize = longest_of(listings);
        push_dir(listings, &self.expanded, self.root.as_str(), 0, &mut rows);
        assert(rows_view(rows@) =~= flattened(listings@, old(self)@.expanded, old(self)@.root));
        assert(rows_view(rows@).len() == rows@.len());
        self.visible = rows;
        if self.selected >= self.visible.len() {
            self.selected = if self.visible.len() == 0 {
                0
            } else {
                self.visible.len() - 1
            };
        }
        if let Some(p) = select {
            if let Some(i) = self.find_row(p) {
                self.selected = i;
            }
        }
        let mut out: Vec<Effect> = no_effects();
        self.render(&mut out);
        out
    }

    /// The first row with the path.
    fn find_row(&self, path: &str) -> (r: Option<usize>)
        ensures
            match r {
                Some(i) => i < self.visible@.len() && row_at(self@.visible, path@, 0) == Some(
                    i as int,
                ),
                None => row_at(self@.visible, path@, 0) is None,
            },
    {
        let mut i: usize = 0;
        while i < self.visible.len()
            invariant
                i <= self.visible.len(),
                row_at(self@.visible, path@, 0) == row_at(self@.visible, path@, i as int),
            decreases self.visible.len() - i,
        {
            assert(self@.visible[i as int] == self.visible@[i as int]@);
            if is_same_path(self.visible[i].path.as_str(), path) {
                return Some(i);
            }
            i += 1;
        }
        None
    }

    /// Show the panel.
    fn render(&self, out: &mut Vec<Effect>)
        ensures
            effects_view(final(out)@) == effects_view(old(out)@).push(self@.shown()),
    {
        let mut lines: Vec<PanelLine> = no_lines();
        let mut i: usize = 0;
        while i < self.visible.len()
            invariant
                i <= self.visible.len(),
                lines@.len() == i,
                forall|k: int|
                    0 <= k < i ==> (#[trigger] lines_view(lines@)[k]) == line_of(
                        self@.visible[k],
                        self.icons,
                    ),
            decreases self.visible.len() - i,
        {
            let r: &Row = &self.visible[i];
            assert(self@.visible[i as int] == r@);
            let name: String = file_name_or_empty(r.path.as_str());
            let marker: String = if r.is_dir {
                dir_marker(r.expanded, self.icons).to_owned()
            } else if self.icons {
                join3("  ", file_glyph(r.path.as_str()), " ")
            } else {
                "  ".to_owned()
            };
            let style: &str = if r.is_dir {
                "dir"
            } else {
                "file"
            };
            let mut line: PanelLine = PanelLine::one(
                Span::new(join2(marker.as_str(), name.as_str()), style),
            ).payload(r.path.clone());
            line.depth = r.depth;
            let ghost before = lines_view(lines@);
            push_line(&mut lines, line);
            assert forall|k: int| 0 <= k < i + 1 implies (#[trigger] lines_view(lines@)[k])
                == line_of(self@.visible[k], self.icons) by {
                if k < i {
                    assert(lines_view(lines@)[k] == before[k]);
                }
            }
            i += 1;
        }
        assert(lines_view(lines@) =~= drawn(self@.visible, self.icons));
        emit(
            out,
            Effect::SetPanel {
                panel: "explorer.tree".to_owned(),
                content: PanelContent { lines, selected: self.selected },
            },
        );
    }

    /// Open a directory in the tree.
    fn expand(&mut self, dir: &str)
        ensures
            final(self)@ == (ExplorerView {
                expanded: old(self)@.expanded.insert(path_key(dir@)),
                ..old(self)@
            }),
    {
        if has_path(&self.expanded, dir) {
            assert(self@.expanded.insert(path_key(dir@)) =~= self@.expanded);
        } else {
            let one: String = dir.to_owned();
            proof {
                lemma_push_path(self.expanded@, one);
            }
            self.expanded.push(one);
        }
    }

    /// Shut a directory in the tree.
    fn collapse(&mut self, dir: &str)
        ensures
            final(self)@ == (ExplorerView {
                expanded: old(self)@.expanded.remove(path_key(dir@)),
                ..old(self)@
            }),
    {
        let mut kept: Vec<String> = Vec::new();
        let mut i: usize = 0;
        let ghost key = path_key(dir@);
        assert(path_keys(texts_of(kept@)).to_set() =~= Set::empty());
        assert(path_keys(texts_of(self.expanded@.take(0))).to_set() =~= Set::empty());
        while i < self.expanded.len()
            invariant
                i <= self.expanded.len(),
                key == path_key(dir@),
                path_keys(texts_of(kept@)).to_set() == path_keys(
                    texts_of(self.expanded@.take(i as int)),
                ).to_set().remove(key),
            decreases self.expanded.len() - i,
        {
            let one: String = self.expanded[i].clone();
            let ghost had = path_keys(texts_of(self.expanded@.take(i as int))).to_set();
            proof {
                lemma_push_path(self.expanded@.take(i as int), self.expanded@[i as int]);
                assert(self.expanded@.take(i + 1) =~= self.expanded@.take(i as int).push(
                    self.expanded@[i as int],
                ));
            }
            if !is_same_path(one.as_str(), dir) {
                proof {
                    lemma_push_path(kept@, one);
                    assert(had.insert(path_key(one@)).remove(key) =~= had.remove(key).insert(
                        path_key(one@),
                    ));
                }
                kept.push(one);
            } else {
                assert(had.insert(key).remove(key) =~= had.remove(key));
            }
            i += 1;
        }
        assert(self.expanded@.take(self.expanded@.len() as int) =~= self.expanded@);
        self.expanded = kept;
    }

    /// Open or shut a directory, open a file.
    fn toggle_or_open(&mut self, path: &str) -> (r: ExplorerOutcome)
        ensures
            r.claimed,
            r.is(old(self)@.toggled(path@)),
            final(self)@ == old(self)@.toggled(path@).state,
    {
        let at: Option<usize> = self.find_row(path);
        let is_dir: bool = match at {
            Some(i) => self.visible[i].is_dir,
            None => false,
        };
        proof {
            if let Some(i) = at {
                assert(self@.visible[i as int] == self.visible@[i as int]@);
            }
        }
        let mut r: ExplorerOutcome = ExplorerOutcome::nothing(true);
        if is_dir {
            if has_path(&self.expanded, path) {
                self.collapse(path);
            } else {
                self.expand(path);
            }
            r.relist = true;
            r.select = Some(path.to_owned());
        } else {
            let mut out: Vec<Effect> = no_effects();
            emit(&mut out, Effect::OpenPath(path.to_owned()));
            if let Some(i) = at {
                self.selected = i;
            }
            self.render(&mut out);
            r.effects = out;
        }
        r
    }

    /// A click on a row opens or shuts its directory, or opens its file.
    pub fn on_panel_activate(&mut self, panel_id: &str, payload: &str) -> (r: ExplorerOutcome)
        ensures
            r.claimed == (panel_id@ == "explorer.tree"@),
            r.claimed ==> r.is(old(self)@.toggled(payload@)) && final(self)@ == old(self)@.toggled(
                payload@,
            ).state,
            !r.claimed ==> *final(self) == *old(self) && r.is(old(self)@.idle()),
    {
        if same(panel_id, "explorer.tree") {
            self.toggle_or_open(payload)
        } else {
            ExplorerOutcome::nothing(false)
        }
    }

    /// Move the selection down or up, stopping at the ends.
    fn move_selection(&mut self, down: bool)
        ensures
            final(self)@ == old(self)@.moved(down),
    {
        let n: usize = self.visible.len();
        if n > 0 {
            if down {
                self.selected = if self.selected >= n - 1 {
                    n - 1
                } else {
                    self.selected + 1
                };
            } else {
                let up: usize = if self.selected > 0 {
                    self.selected - 1
                } else {
                    0
                };
                self.selected = if up > n - 1 {
                    n - 1
                } else {
                    up
                };
            }
        }
    }

    /// The directory that a new entry goes into.
    fn target_dir(&self) -> (r: String)
        ensures
            r@ == self@.target_dir(),
    {
        if self.selected >= self.visible.len() {
            return self.root.clone();
        }
        let row: &Row = &self.visible[self.selected];
        assert(self@.visible[self.selected as int] == row@);
        if row.is_dir {
            row.path.clone()
        } else {
            match parent(row.path.as_str()) {
                Some(p) => p,
                None => self.root.clone(),
            }
        }
    }

    /// The panel again, as an outcome.
    fn redraw(&self) -> (r: ExplorerOutcome)
        ensures
            r.claimed,
            r.is(self@.redrawn()),
    {
        let mut r: ExplorerOutcome = ExplorerOutcome::nothing(true);
        self.render(&mut r.effects);
        r
    }

    /// Begin an operation: put its prompt up and draw the panel.
    fn begin(&mut self, op: PendingOp, value: String) -> (r: ExplorerOutcome)
        ensures
            r.claimed,
            r.is(old(self)@.begun(op@, value@)),
            final(self)@ == old(self)@.begun(op@, value@).state,
    {
        let mut r: ExplorerOutcome = ExplorerOutcome::nothing(true);
        let mut out: Vec<Effect> = no_effects();
        emit(&mut out, Effect::SetPrompt(prompt_for(&op, value.as_str(), None)));
        self.pending = Some((op, value));
        self.render(&mut out);
        r.effects = out;
        r
    }

    /// The selected row's path and kind.
    fn selected_row(&self) -> (r: Option<&Row>)
        ensures
            match r {
                Some(row) => self.selected < self.visible@.len() && row@
                    == self@.visible[self.selected as int],
                None => self.selected >= self.visible@.len(),
            },
    {
        if self.selected < self.visible.len() {
            Some(&self.visible[self.selected])
        } else {
            None
        }
    }

    /// Run a command of the explorer. `active` is the path of the active document.
    pub fn run_command(&mut self, command_id: &str, active: Option<&str>) -> (r: ExplorerOutcome)
        ensures
            match old(self)@.commanded(command_id@, str_view(active)) {
                Some(step) => r.claimed && r.is(step) && final(self)@ == step.state,
                None => !r.claimed && r.is(old(self)@.idle()) && *final(self) == *old(self),
            },
    {
        if same(command_id, "explorer.down") {
            self.move_selection(true);
            return self.redraw();
        }
        if same(command_id, "explorer.up") {
            self.move_selection(false);
            return self.redraw();
        }
        if same(command_id, "explorer.activate") {
            let path: String = match self.selected_row() {
                Some(row) => row.path.clone(),
                None => return self.redraw(),
            };
            return self.toggle_or_open(path.as_str());
        }
        let opening: bool = same(command_id, "explorer.expand");
        let closing: bool = same(command_id, "explorer.collapse");
        if opening || closing {
            let path: String = match self.selected_row() {
                Some(row) => {
                    if row.is_dir && row.expanded == closing {
                        row.path.clone()
                    } else {
                        return self.redraw();
                    }
                },
                None => return self.redraw(),
            };
            return self.toggle_or_open(path.as_str());
        }
        if same(command_id, "explorer.revealActiveFile") {
            return match active {
                Some(path) => self.reveal_path(path),
                None => self.redraw(),
            };
        }
        if same(command_id, "explorer.newFile") {
            let dir: String = self.target_dir();
            return self.begin(PendingOp::NewFile { dir }, no_text());
        }
        if same(command_id, "explorer.newFolder") {
            let dir: String = self.target_dir();
            return self.begin(PendingOp::NewFolder { dir }, no_text());
        }
        if same(command_id, "explorer.rename") {
            let path: String = match self.selected_row() {
                Some(row) => row.path.clone(),
                None => return self.redraw(),
            };
            let name: String = file_name_or_empty(path.as_str());
            return self.begin(PendingOp::Rename { path }, name);
        }
        if same(command_id, "explorer.delete") {
            let path: String = match self.selected_row() {
                Some(row) => row.path.clone(),
                None => return self.redraw(),
            };
            return self.begin(PendingOp::Delete { path }, no_text());
        }
        ExplorerOutcome::nothing(false)
    }

    /// Open the directories above a path, and select it.
    fn reveal_path(&mut self, path: &str) -> (r: ExplorerOutcome)
        ensures
            r.claimed,
            r.relist,
            opt_text(r.select) == Some(path@),
            r.perform is None,
            effects_view(r.effects@) == Seq::<EffectView>::empty(),
            final(self)@ == (ExplorerView {
                expanded: old(self)@.expanded.union(ancestors(old(self)@.root, path@)),
                ..old(self)@
            }),
    {
        self.expand_above(path);
        let mut r: ExplorerOutcome = ExplorerOutcome::nothing(true);
        r.relist = true;
        r.select = Some(path.to_owned());
        r
    }

    /// Open the directories above a path.
    fn expand_above(&mut self, path: &str)
        ensures
            final(self)@ == (ExplorerView {
                expanded: old(self)@.expanded.union(ancestors(old(self)@.root, path@)),
                ..old(self)@
            }),
        decreases path@.len(),
    {
        let ghost start = self@;
        let ghost above = ancestors(self@.root, path@);
        match parent(path) {
            None => {
                assert(start.expanded.union(above) =~= start.expanded);
            },
            Some(dir) => {
                if is_same_path(dir.as_str(), self.root.as_str()) || crate::format::char_count(
                    dir.as_str(),
                ) >= crate::format::char_count(path) {
                    assert(start.expanded.union(above) =~= start.expanded);
                } else {
                    let inside: bool = strip_prefix(self.root.as_str(), dir.as_str()).is_some();
                    if inside {
                        self.expand(dir.as_str());
                    }
                    self.expand_above(dir.as_str());
                    assert(self@.expanded =~= start.expanded.union(above));
                }
            },
        }
    }

    /// Handle a key while an operation's prompt is up.
    pub fn on_prompt_key(&mut self, prompt_id: &str, key: Key) -> (r: ExplorerOutcome)
        ensures
            r.claimed == (prompt_id@ == "explorer.fileop"@ && old(self).pending is Some),
            r.claimed ==> r.is(old(self)@.pressed(key)) && final(self)@ == old(self)@.pressed(
                key,
            ).state,
            !r.claimed ==> r.is(old(self)@.idle()) && *final(self) == *old(self),
    {
        if !same(prompt_id, "explorer.fileop") {
            return ExplorerOutcome::nothing(false);
        }
        let taken: Option<(PendingOp, String)> = self.pending.take();
        match taken {
            None => {
                ExplorerOutcome::nothing(false)
            },
            Some((op, mut value)) => {
                let mut r: ExplorerOutcome = ExplorerOutcome::nothing(true);
                match key.code {
                    KeyCode::Esc => {
                        emit(&mut r.effects, Effect::DismissPrompt);
                        return r;
                    },
                    KeyCode::Enter => {
                        match decide(&op, value.as_str()) {
                            Ok(f) => {
                                r.perform = Some(f);
                            },
                            Err(e) => {
                                emit(
                                    &mut r.effects,
                                    Effect::SetPrompt(prompt_for(&op, value.as_str(), Some(e))),
                                );
                            },
                        }
                    },
                    KeyCode::Backspace => {
                        let _ = value.pop();
                        emit(
                            &mut r.effects,
                            Effect::SetPrompt(prompt_for(&op, value.as_str(), None)),
                        );
                    },
                    KeyCode::Char(c) => {
                        if !key.ctrl && !key.alt {
                            value.push(c);
                            emit(
                                &mut r.effects,
                                Effect::SetPrompt(prompt_for(&op, value.as_str(), None)),
                            );
                        }
                    },
                    _ => {},
                }
                self.pending = Some((op, value));
                r
            },
        }
    }

    /// Take the result of an operation: none, or why it failed.
    pub fn finish(&mut self, failure: Option<String>) -> (r: ExplorerOutcome)
        ensures
            r.claimed,
            r.is(old(self)@.finished(opt_text(failure))),
            final(self)@ == old(self)@.finished(opt_text(failure)).state,
    {
        let mut r: ExplorerOutcome = ExplorerOutcome::nothing(true);
        let mut out: Vec<Effect> = no_effects();
        let taken: Option<(PendingOp, String)> = self.pending.take();
        if let Some((op, value)) = taken {
            match failure {
                Some(e) => {
                    emit(
                        &mut out,
                        Effect::SetPrompt(prompt_for(&op, value.as_str(), Some(e))),
                    );
                    self.pending = Some((op, value));
                },
                None => {
                    match &op {
                        PendingOp::NewFile { dir } => {
                            self.expand(dir.as_str());
                            emit(
                                &mut out,
                                Effect::OpenPath(
                                    join(dir.as_str(), trim(value.as_str()).as_str()),
                                ),
                            );
                        },
                        PendingOp::NewFolder { dir } => self.expand(dir.as_str()),
                        _ => {},
                    }
                    emit(&mut out, Effect::DismissPrompt);
                    r.relist = true;
                },
            }
        }
        r.effects = out;
        r
    }
}

/// Whether a name holds a separator.
fn separated(s: &str) -> (r: bool)
    ensures
        r == has_separator(s@),
{
    let cs: Vec<char> = chars_of(s);
    let mut i: usize = 0;
    while i < cs.len()
        invariant
            i <= cs.len(),
            cs@ == s@,
            forall|k: int| 0 <= k < i ==> s@[k] != '/' && s@[k] != '\\',
        decreases cs.len() - i,
    {
        if cs[i] == '/' || cs[i] == '\\' {
            assert(s@[i as int] == cs@[i as int]);
            return true;
        }
        i += 1;
    }
    false
}

/// What a typed name comes to.
fn decide(op: &PendingOp, value: &str) -> (r: Result<FileOp, String>)
    ensures
        match r {
            Ok(f) => decided(op@, value@) == Ok::<FileOpView, Seq<char>>(f@),
            Err(e) => decided(op@, value@) == Err::<FileOpView, Seq<char>>(e@),
        },
{
    let name: String = trim(value);
    if let PendingOp::Delete { path } = op {
        let expected: String = file_name_or_empty(path.as_str());
        return if same(name.as_str(), expected.as_str()) {
            Ok(FileOp::Delete(path.clone()))
        } else {
            Err(join3("Type \"", expected.as_str(), "\" to confirm"))
        };
    }
    if name.as_str().is_empty() {
        return Err("Give it a name".to_owned());
    }
    if separated(name.as_str()) {
        return Err("Names cannot contain a path separator".to_owned());
    }
    match op {
        PendingOp::NewFile { dir } => Ok(FileOp::CreateFile(join(dir.as_str(), name.as_str()))),
        PendingOp::NewFolder { dir } => Ok(FileOp::CreateDir(join(dir.as_str(), name.as_str()))),
        PendingOp::Rename { path } => {
            let to: String = match parent(path.as_str()) {
                Some(p) => join(p.as_str(), name.as_str()),
                None => name,
            };
            Ok(FileOp::Rename { from: path.clone(), to })
        },
        PendingOp::Delete { path } => Ok(FileOp::Delete(path.clone())),
    }
}

/// A path's last component, or all of it.
fn name_for_title(p: &str) -> (r: String)
    ensures
        r@ == title_name(p@),
{
    match file_name(p) {
        Some(n) => n,
        None => p.to_owned(),
    }
}

/// The prompt of an operation.
fn prompt_for(op: &PendingOp, value: &str, error: Option<String>) -> (r: Prompt)
    ensures
        r@ == op_prompt(op@, value@, opt_text(error)),
{
    let (title, label, footer): (String, &str, &str) = match op {
        PendingOp::NewFile { dir } => (
            join2("New file in ", name_for_title(dir.as_str()).as_str()),
            "Name",
            "[Enter] Create   [Esc] Cancel",
        ),
        PendingOp::NewFolder { dir } => (
            join2("New folder in ", name_for_title(dir.as_str()).as_str()),
            "Name",
            "[Enter] Create   [Esc] Cancel",
        ),
        PendingOp::Rename { path } => (
            join2("Rename ", name_for_title(path.as_str()).as_str()),
            "Name",
            "[Enter] Rename   [Esc] Cancel",
        ),
        PendingOp::Delete { path } => (
            join3("Delete ", name_for_title(path.as_str()).as_str(), "?"),
            "Type the name to confirm",
            "[Enter] Delete   [Esc] Cancel",
        ),
    };
    Prompt::entry(
        "explorer",
        "explorer.fileop",
        title,
        label,
        value.to_owned(),
        footer,
        error,
    )
}

proof fn lemma_push_path(v: Seq<String>, x: String)
    ensures
        path_keys(texts_of(v.push(x))).to_set() == path_keys(texts_of(v)).to_set().insert(
            path_key(x@),
        ),
{
    let s = path_keys(texts_of(v));
    let t = path_keys(texts_of(v.push(x)));
    assert(t =~= s.push(path_key(x@)));
    assert forall|y: Seq<u64>|
        t.to_set().contains(y) == s.to_set().insert(path_key(x@)).contains(y) by {
        if s.contains(y) {
            let i = choose|i: int| 0 <= i < s.len() && s[i] == y;
            assert(t[i] == y);
        }
        if y == path_key(x@) {
            assert(t[s.len() as int] == y);
        }
        if t.contains(y) {
            let i = choose|i: int| 0 <= i < t.len() && t[i] == y;
            if i < s.len() {
                assert(s[i] == y);
            }
        }
    }
    assert(t.to_set() =~= s.to_set().insert(path_key(x@)));
}

/// After the rows are built the selection is on one of them, where there are any.
pub proof fn the_selection_is_on_a_row(v: ExplorerView, l: Seq<Listing>, select: Option<Seq<char>>)
    requires
        flattened(l, v.expanded, v.root).len() <= usize::MAX,
    ensures
        ({
            let w = v.relisted(l, select);
            w.visible.len() > 0 ==> w.selected < w.visible.len()
        }),
{
    let rows = flattened(l, v.expanded, v.root);
    if let Some(p) = select {
        lemma_row_at(rows, p, 0);
    }
}

proof fn lemma_row_at(rows: Seq<RowView>, path: Seq<char>, i: int)
    requires
        0 <= i,
    ensures
        match row_at(rows, path, i) {
            Some(k) => i <= k < rows.len() && same_path(rows[k].path, path),
            None => forall|k: int|
                i <= k < rows.len() ==> !same_path((#[trigger] rows[k]).path, path),
        },
    decreases rows.len() - i,
{
    if i < rows.len() && !same_path(rows[i].path, path) {
        lemma_row_at(rows, path, i + 1);
    }
}

/// Moving the selection keeps it on a row.
pub proof fn moving_stays_on_a_row(v: ExplorerView, down: bool)
    requires
        v.visible.len() > 0,
        v.visible.len() <= usize::MAX,
    ensures
        v.moved(down).selected < v.visible.len(),
{
}

/// Nothing is deleted unless its own name was typed.
pub proof fn deleting_needs_the_name(op: OpView, value: Seq<char>, path: Seq<char>)
    requires
        decided(op, value) == Ok::<FileOpView, Seq<char>>(FileOpView::Delete(path)),
    ensures
        op == (OpView::Delete { path }),
        trimmed(value) == name_or_empty(path),
{
}

/// A new entry is made in the directory that it was begun in, and nowhere else. The directory is read
/// without what stands behind its last component.
pub proof fn new_entries_stay_in_their_directory(dir: Seq<char>, value: Seq<char>, path: Seq<char>)
    requires
        trimmed(value) != seq!['.'],
        trimmed(value) != seq!['.', '.'],
        decided(OpView::NewFile { dir }, value) == Ok::<FileOpView, Seq<char>>(
            FileOpView::CreateFile(path),
        ) || decided(OpView::NewFolder { dir }, value) == Ok::<FileOpView, Seq<char>>(
            FileOpView::CreateDir(path),
        ),
    ensures
        parent_of(path) == Some(dir.take(tail_end(dir, dir.len() as int))),
        name_of(path) == Some(trimmed(value)),
{
    joined_names_read_back(dir, trimmed(value));
}

/// A renamed entry stays in its directory.
pub proof fn renaming_stays_in_the_directory(
    dir: Seq<char>,
    path: Seq<char>,
    value: Seq<char>,
    to: Seq<char>,
)
    requires
        parent_of(path) == Some(dir),
        trimmed(value) != seq!['.'],
        trimmed(value) != seq!['.', '.'],
        decided(OpView::Rename { path }, value) == Ok::<FileOpView, Seq<char>>(
            FileOpView::Rename { from: path, to },
        ),
    ensures
        parent_of(to) == Some(dir),
        name_of(to) == Some(trimmed(value)),
{
    let e = tail_end(path, path.len() as int);
    lemma_tail_once(path, path.len() as int);
    lemma_last_before(path, '/', e);
    if last_before(path, '/', e) >= 0 {
        lemma_tail_once(path, last_before(path, '/', e) + 1);
    }
    assert(dir.take(dir.len() as int) =~= dir);
    joined_names_read_back(dir, trimmed(value));
}

/// Opening a shut directory and shutting it again leaves the open ones as they were.
pub proof fn toggling_twice_changes_nothing(v: ExplorerView, path: Seq<char>)
    requires
        v.toggled(path).relist,
    ensures
        v.toggled(path).state.toggled(path).state.expanded == v.expanded,
{
    let w = v.toggled(path).state;
    assert(w.toggled(path).state.expanded =~= v.expanded);
}

/// Expanding an open directory changes nothing, and neither does collapsing a shut one.
pub proof fn expanding_an_open_directory_changes_nothing(v: ExplorerView, active: Option<Seq<char>>)
    requires
        v.selected < v.visible.len(),
    ensures
        v.visible[v.selected as int].expanded ==> v.commanded("explorer.expand"@, active) == Some(
            v.redrawn(),
        ),
        !v.visible[v.selected as int].expanded ==> v.commanded("explorer.collapse"@, active)
            == Some(v.redrawn()),
{
    reveal_strlit("explorer.expand");
    reveal_strlit("explorer.collapse");
    reveal_strlit("explorer.down");
    reveal_strlit("explorer.up");
    reveal_strlit("explorer.activate");
    assert("explorer.expand"@.len() == 15);
    assert("explorer.collapse"@.len() == 17);
    assert("explorer.activate"@[9] == 'a');
    assert("explorer.collapse"@[9] == 'c');
}

} // verus!
