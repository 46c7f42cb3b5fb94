//! Diagnostics: what servers say of the files, in the documents, in the status line and in the
//! problems panel.
//!
//! Positions on the wire are turned into positions in the text by the editor. A plugin says which
//! ones it needs, in order, and gets them back in the same order.

use std::collections::HashMap;

use vstd::prelude::*;

use crate::contribution::{Contributions, Offer, PanelLocation};
use crate::doc::{greater, lesser, max_of};
use crate::effect::{effects_view, emit, no_effects, Effect, EffectView};
use crate::format::{decimal, decimal_of, join2, join3, pad_left, padded_left};
use crate::order::{nearest_round, next_round, ordered, prev_round, stable_order};
use crate::path::{
    before, is_before, is_same_path, lemma_before_trans, paths_are_ordered, same_path, show, shown,
};
use crate::place::{payload_of, place_of, read_place};
use crate::protocol::{copy_diagnostics, diagnostics_view, Diagnostic, DiagnosticView, Severity};
use crate::text::{chars_of, first_chars, no_text, same, take_chars};
use crate::ui::{
    decorations_view, empty_panel, gutter_view, lines_view, no_lines, push_line, row, row_with,
    styled, virtual_view, Decoration, DecorationSet, DecorationView, GutterMark, LineView,
    PanelContent, PanelLine, PanelView, Span,
};

verus! {

/// Problems listed at most.
pub const PROBLEM_CAP: usize = 500;

pub open spec fn suffix_of(s: Severity) -> Seq<char> {
    match s {
        Severity::Error => "error"@,
        Severity::Warning => "warning"@,
        Severity::Info => "info"@,
        Severity::Hint => "hint"@,
    }
}

pub open spec fn glyph_of(s: Severity) -> char {
    match s {
        Severity::Error => 'E',
        Severity::Warning => 'W',
        Severity::Info => 'i',
        Severity::Hint => 'h',
    }
}

/// The gravest comes first.
pub open spec fn rank_of(s: Severity) -> u64 {
    match s {
        Severity::Error => 0,
        Severity::Warning => 1,
        Severity::Info => 2,
        Severity::Hint => 3,
    }
}

pub fn sev_suffix(s: Severity) -> (r: &'static str)
    ensures
        r@ == suffix_of(s),
{
    match s {
        Severity::Error => "error",
        Severity::Warning => "warning",
        Severity::Info => "info",
        Severity::Hint => "hint",
    }
}

pub fn sev_glyph(s: Severity) -> (r: char)
    ensures
        r == glyph_of(s),
{
    match s {
        Severity::Error => 'E',
        Severity::Warning => 'W',
        Severity::Info => 'i',
        Severity::Hint => 'h',
    }
}

pub fn sev_rank(s: Severity) -> (r: u64)
    ensures
        r == rank_of(s),
{
    match s {
        Severity::Error => 0,
        Severity::Warning => 1,
        Severity::Info => 2,
        Severity::Hint => 3,
    }
}

/// A diagnostic as a line: its glyph, its source, its message and its code.
pub open spec fn described(d: DiagnosticView) -> Seq<char> {
    let head = seq![glyph_of(d.severity), ' '];
    let named = match d.source {
        Some(s) => head + s + ": "@,
        None => head,
    };
    let told = named + d.message;
    match d.code {
        Some(c) => (told + " ["@ + c).push(']'),
        None => told,
    }
}

/// A diagnostic as a line.
pub fn format_diagnostic(d: &Diagnostic) -> (r: String)
    ensures
        r@ == described(d@),
{
    let mut out: String = no_text();
    out.push(sev_glyph(d.severity));
    out.push(' ');
    assert(out@ =~= seq![glyph_of(d.severity), ' ']);
    if let Some(source) = &d.source {
        out.push_str(source.as_str());
        out.push_str(": ");
    }
    out.push_str(d.message.as_str());
    if let Some(code) = &d.code {
        out.push_str(" [");
        out.push_str(code.as_str());
        out.push(']');
    }
    out
}

/// The diagnostics of a file.
pub struct FileDiagnostics {
    pub path: String,
    pub diags: Vec<Diagnostic>,
}

/// The diagnostics of open documents and of files, and whether the problems panel is open.
pub struct DiagnosticsPlugin {
    /// By document.
    pub diags: HashMap<u64, Vec<Diagnostic>>,
    /// In the order of the paths.
    pub by_path: Vec<FileDiagnostics>,
    pub problems_open: bool,
}

pub struct FileView {
    pub path: Seq<char>,
    pub diags: Seq<DiagnosticView>,
}

pub open spec fn files_view(v: Seq<FileDiagnostics>) -> Seq<FileView> {
    v.map_values(|f: FileDiagnostics| FileView { path: f.path@, diags: diagnostics_view(f.diags@) })
}

pub open spec fn docs_view(m: Map<u64, Vec<Diagnostic>>) -> Map<u64, Seq<DiagnosticView>> {
    m.map_values(|v: Vec<Diagnostic>| diagnostics_view(v@))
}

/// Whether files are in the order of their paths, each path once.
pub open spec fn sorted_files(v: Seq<FileView>) -> bool {
    forall|i: int, j: int|
        #![trigger v[i], v[j]]
        0 <= i < j < v.len() ==> before(v[i].path, v[j].path)
}

/// Whether no document is kept without diagnostics.
pub open spec fn filled_docs(v: Map<u64, Seq<DiagnosticView>>) -> bool {
    forall|doc: u64| #[trigger] v.contains_key(doc) ==> v[doc].len() > 0
}

/// Where a path stands among files, or would stand: the first place from `i` on that is not before
/// it.
pub open spec fn file_place(v: Seq<FileView>, path: Seq<char>, i: int) -> int
    decreases v.len() - i,
{
    if i >= v.len() || !before(v[i].path, path) {
        i
    } else {
        file_place(v, path, i + 1)
    }
}

/// The files with the diagnostics of one of them replaced, under the name it has; without it where
/// there are none.
pub open spec fn files_with(v: Seq<FileView>, path: Seq<char>, diags: Seq<DiagnosticView>) -> Seq<
    FileView,
> {
    let i = file_place(v, path, 0);
    let there = i < v.len() && same_path(v[i].path, path);
    if diags.len() == 0 {
        if there {
            v.remove(i)
        } else {
            v
        }
    } else if there {
        v.update(i, FileView { path: v[i].path, diags })
    } else {
        v.insert(i, FileView { path, diags })
    }
}

/// The diagnostics of a document; none where it has none.
pub open spec fn diags_of(v: Map<u64, Seq<DiagnosticView>>, doc: u64) -> Seq<DiagnosticView> {
    if v.contains_key(doc) {
        v[doc]
    } else {
        Seq::empty()
    }
}

/// The documents with the diagnostics of one of them replaced; without it where there are none.
pub open spec fn docs_with(
    v: Map<u64, Seq<DiagnosticView>>,
    doc: u64,
    diags: Seq<DiagnosticView>,
) -> Map<u64, Seq<DiagnosticView>> {
    if diags.len() == 0 {
        v.remove(doc)
    } else {
        v.insert(doc, diags)
    }
}

/// The keys that problems of a file are sorted by: the gravest first, then by line.
pub open spec fn problem_keys(diags: Seq<DiagnosticView>) -> Seq<(u64, u64)> {
    diags.map_values(|d: DiagnosticView| (rank_of(d.severity), d.line as u64))
}

/// A text with blanks in place of line breaks.
pub open spec fn on_one_line(s: Seq<char>) -> Seq<char> {
    s.map_values(
        |c: char|
            if c == '\n' {
                ' '
            } else {
                c
            },
    )
}

/// The row of a problem.
pub open spec fn problem_row(path: Seq<char>, d: DiagnosticView) -> LineView {
    row_with(
        seq![
            styled(
                seq![' ', ' ', glyph_of(d.severity), ' '] + padded_left(
                    decimal((d.line + 1) as nat),
                    ' ',
                    5,
                ) + ": "@,
                suffix_of(d.severity),
            ),
            styled(first_chars(on_one_line(d.message), 160), "text"@),
        ],
        payload_of(path, d.line as nat),
    )
}

/// Rows, and how many problems are among them.
pub struct Listing {
    pub lines: Seq<LineView>,
    pub shown: int,
}

/// The rows of the first `n` problems of a file, after others.
pub open spec fn file_rows(f: FileView, order: Seq<usize>, n: int, at: Listing) -> Listing
    decreases n,
{
    if n <= 0 {
        at
    } else {
        let p = file_rows(f, order, n - 1, at);
        if p.shown >= PROBLEM_CAP {
            p
        } else {
            Listing {
                lines: p.lines.push(problem_row(f.path, f.diags[order[n - 1] as int])),
                shown: p.shown + 1,
            }
        }
    }
}

/// The rows of the first `n` files: each file's name, and its problems behind it.
pub open spec fn listing(files: Seq<FileView>, root: Seq<char>, n: int) -> Listing
    decreases n,
{
    if n <= 0 {
        Listing { lines: Seq::empty(), shown: 0 }
    } else {
        let p = listing(files, root, n - 1);
        let f = files[n - 1];
        if f.diags.len() == 0 || p.shown >= PROBLEM_CAP {
            p
        } else {
            file_rows(
                f,
                ordered(problem_keys(f.diags), f.diags.len() as int),
                f.diags.len() as int,
                Listing {
                    lines: p.lines.push(row(seq![styled(shown(root, f.path), "dir"@)])),
                    shown: p.shown,
                },
            )
        }
    }
}

/// How many of the first `n` diagnostics have the severity.
pub open spec fn count_in(diags: Seq<DiagnosticView>, s: Severity, n: int) -> nat
    decreases n,
{
    if n <= 0 {
        0
    } else {
        count_in(diags, s, n - 1) + if diags[n - 1].severity == s {
            1nat
        } else {
            0nat
        }
    }
}

/// How many diagnostics of the first `n` files have the severity.
pub open spec fn count_all(files: Seq<FileView>, s: Severity, n: int) -> nat
    decreases n,
{
    if n <= 0 {
        0
    } else {
        count_all(files, s, n - 1) + count_in(files[n - 1].diags, s, files[n - 1].diags.len() as int)
    }
}

/// A count as it is told: no greater than 64 bits hold.
pub open spec fn told(n: nat) -> nat {
    lesser(n as int, u64::MAX as int) as nat
}

/// The problems panel.
pub open spec fn problems(files: Seq<FileView>, root: Seq<char>, open: bool) -> PanelView {
    let l = listing(files, root, files.len() as int);
    let n = files.len() as int;
    if !open {
        empty_panel()
    } else if l.lines.len() == 0 {
        PanelView { lines: seq![row(seq![styled("No problems"@, "dim"@)])], selected: 0 }
    } else {
        let capped = if l.shown >= PROBLEM_CAP {
            "  (showing the first "@ + decimal(PROBLEM_CAP as nat) + ")"@
        } else {
            ""@
        };
        let title = decimal(told(count_all(files, Severity::Error, n))) + " error(s), "@ + decimal(
            told(count_all(files, Severity::Warning, n)),
        ) + " warning(s)"@ + capped;
        PanelView { lines: seq![row(seq![styled(title, "title"@)])] + l.lines, selected: 0 }
    }
}

/// The positions that a document's diagnostics need: of each its start, where its underline ends,
/// and where it ends itself. The underline of one that goes on to another line ends with the line.
pub open spec fn asked(diags: Seq<DiagnosticView>, n: int) -> Seq<(u32, u32)>
    decreases n,
{
    if n <= 0 {
        Seq::empty()
    } else {
        let d = diags[n - 1];
        asked(diags, n - 1).push((d.line, d.start_char16)).push(
            (
                d.line,
                if d.end_line == d.line {
                    d.end_char16
                } else {
                    u32::MAX
                },
            ),
        ).push((d.end_line, d.end_char16))
    }
}

/// The underlines of a document.
pub open spec fn underlines(diags: Seq<DiagnosticView>, at: Seq<usize>) -> Seq<
    (int, int, Seq<char>),
> {
    Seq::new(
        diags.len(),
        |i: int|
            (
                at[3 * i] as int,
                greater(at[3 * i + 1] as int, at[3 * i] + 1),
                "lsp.diag."@ + suffix_of(diags[i].severity),
            ),
    )
}

/// Lines with the gravest severity on each, with one more diagnostic taken in, from place `i` on.
/// The lines are ascending.
pub open spec fn noted(p: Seq<(u32, Severity)>, line: u32, s: Severity, i: int) -> Seq<
    (u32, Severity),
>
    decreases p.len() - i,
{
    if i >= p.len() {
        p.push((line, s))
    } else if p[i].0 == line {
        if rank_of(s) < rank_of(p[i].1) {
            p.update(i, (line, s))
        } else {
            p
        }
    } else if p[i].0 > line {
        p.insert(i, (line, s))
    } else {
        noted(p, line, s, i + 1)
    }
}

/// The lines of the first `n` diagnostics, with the gravest severity on each.
pub open spec fn line_marks(diags: Seq<DiagnosticView>, n: int) -> Seq<(u32, Severity)>
    decreases n,
{
    if n <= 0 {
        Seq::empty()
    } else {
        noted(line_marks(diags, n - 1), diags[n - 1].line, diags[n - 1].severity, 0)
    }
}

/// The marks of a document.
pub open spec fn marks_view(p: Seq<(u32, Severity)>) -> Seq<(int, char, Seq<char>)> {
    p.map_values(
        |m: (u32, Severity)|
            (m.0 as int, glyph_of(m.1), "lsp.diag.mark."@ + suffix_of(m.1)),
    )
}

/// The request that shows a document's diagnostics.
pub open spec fn decorated(diags: Seq<DiagnosticView>, at: Seq<usize>) -> EffectView {
    if diags.len() == 0 {
        EffectView::ClearDecorations("lsp.diag"@)
    } else {
        EffectView::SetDecorations {
            layer: "lsp.diag"@,
            set: DecorationView {
                spans: underlines(diags, at),
                gutter: marks_view(line_marks(diags, diags.len() as int)),
                virtual_text: Seq::empty(),
            },
        }
    }
}

/// The first diagnostic from `i` on that the caret is on, described; nothing where there is none.
pub open spec fn under(diags: Seq<DiagnosticView>, at: Seq<usize>, head: int, i: int) -> Seq<char>
    decreases diags.len() - i,
{
    if i >= diags.len() {
        Seq::empty()
    } else if at[3 * i] <= head <= greater(at[3 * i + 2] as int, at[3 * i] as int) {
        described(diags[i])
    } else {
        under(diags, at, head, i + 1)
    }
}

/// The request that shows the diagnostic under the caret.
pub open spec fn status_of(diags: Seq<DiagnosticView>, at: Seq<usize>, head: Option<usize>) -> EffectView {
    EffectView::SetStatus {
        item: "lsp.diag"@,
        text: match head {
            Some(h) => under(diags, at, h as int, 0),
            None => Seq::empty(),
        },
    }
}

/// The request that shows how many errors and warnings the active document has.
pub open spec fn counted(diags: Seq<DiagnosticView>) -> EffectView {
    let n = diags.len() as int;
    let e = count_in(diags, Severity::Error, n);
    let w = count_in(diags, Severity::Warning, n);
    EffectView::SetStatus {
        item: "lsp.diag.count"@,
        text: if e > 0 || w > 0 {
            decimal(e) + " "@ + decimal(w)
        } else {
            Seq::empty()
        },
    }
}

/// The diagnostics of the active document; none where there is none.
pub open spec fn active_diags(
    v: Map<u64, Seq<DiagnosticView>>,
    active: Option<u64>,
) -> Seq<DiagnosticView> {
    match active {
        Some(doc) => diags_of(v, doc),
        None => Seq::empty(),
    }
}

/// The starts among the positions of a document's diagnostics.
pub open spec fn starts(at: Seq<usize>, n: int) -> Seq<usize> {
    Seq::new(n as nat, |i: int| at[3 * i])
}

/// What the plugin contributes.
pub open spec fn contributed() -> Offer {
    Offer::none()
        .command("lsp.nextDiagnostic"@, "Go: Next Problem"@)
        .command("lsp.prevDiagnostic"@, "Go: Previous Problem"@)
        .keybinding("f8"@, "lsp.nextDiagnostic"@)
        .keybinding("shift+f8"@, "lsp.prevDiagnostic"@)
        .command("lsp.problems"@, "View: Problems"@)
        .panel("lsp.problems"@, "Problems"@, PanelLocation::Bottom)
}

impl DiagnosticsPlugin {
    /// What the plugin contributes.
    pub fn contributions() -> (r: Contributions)
        ensures
            r@ == contributed(),
    {
        Contributions::builder()
            .command("lsp.nextDiagnostic", "Go: Next Problem")
            .command("lsp.prevDiagnostic", "Go: Previous Problem")
            .keybinding("f8", "lsp.nextDiagnostic")
            .keybinding("shift+f8", "lsp.prevDiagnostic")
            .command("lsp.problems", "View: Problems")
            .panel("lsp.problems", "Problems", PanelLocation::Bottom)
    }

    pub open spec fn docs(&self) -> Map<u64, Seq<DiagnosticView>> {
        docs_view(self.diags@)
    }

    pub open spec fn files(&self) -> Seq<FileView> {
        files_view(self.by_path@)
    }

    /// Files are in order, and neither a file nor a document is kept without diagnostics.
    pub open spec fn wf(&self) -> bool {
        &&& sorted_files(self.files())
        &&& filled_docs(self.docs())
        &&& forall|i: int| 0 <= i < self.files().len() ==> (#[trigger] self.files()[i]).diags.len() > 0
    }

    /// No diagnostics, and no panel.
    pub fn new() -> (r: DiagnosticsPlugin)
        ensures
            r.wf(),
            r.docs() == Map::<u64, Seq<DiagnosticView>>::empty(),
            r.files() == Seq::<FileView>::empty(),
            !r.problems_open,
    {
        let r = DiagnosticsPlugin { diags: HashMap::new(), by_path: Vec::new(), problems_open: false };
        assert(r.docs() =~= Map::empty());
        assert(r.files() =~= Seq::empty());
        r
    }

    /// Where a path stands among the files, or would stand.
    fn file_at(&self, path: &str) -> (r: usize)
        ensures
            r == file_place(self.files(), path@, 0),
            r <= self.by_path@.len(),
    {
        let mut i: usize = 0;
        while i < self.by_path.len() && is_before(self.by_path[i].path.as_str(), path)
            invariant
                i <= self.by_path.len(),
                file_place(self.files(), path@, 0) == file_place(self.files(), path@, i as int),
                self.files().len() == self.by_path@.len(),
                forall|k: int|
                    0 <= k < self.by_path@.len() ==> (#[trigger] self.files()[k]).path
                        == self.by_path@[k].path@,
            decreases self.by_path.len() - i,
        {
            assert(self.files()[i as int].path == self.by_path@[i as int].path@);
            i += 1;
        }
        if i < self.by_path.len() {
            assert(self.files()[i as int].path == self.by_path@[i as int].path@);
        }
        i
    }

    /// The diagnostics of a document, where it has any.
    fn of_doc(&self, doc: u64) -> (r: Option<&Vec<Diagnostic>>)
        ensures
            match r {
                Some(v) => diagnostics_view(v@) == diags_of(self.docs(), doc),
                None => diags_of(self.docs(), doc) == Seq::<DiagnosticView>::empty(),
            },
    {
        broadcast use vstd::std_specs::hash::group_hash_axioms;

        self.diags.get(&doc)
    }

    /// Keep what a server says of a file, and of the document it is open in.
    fn keep(&mut self, doc: Option<u64>, path: &str, diagnostics: Vec<Diagnostic>)
        requires
            old(self).wf(),
        ensures
            final(self).wf(),
            final(self).problems_open == old(self).problems_open,
            final(self).files() == files_with(
                old(self).files(),
                path@,
                diagnostics_view(diagnostics@),
            ),
            final(self).docs() == match doc {
                Some(id) => docs_with(old(self).docs(), id, diagnostics_view(diagnostics@)),
                None => old(self).docs(),
            },
    {
        let i: usize = self.file_at(path);
        let there: bool = i < self.by_path.len() && is_same_path(
            self.by_path[i].path.as_str(),
            path,
        );
        let ghost old_files = self.files();
        let ghost old_docs = self.docs();
        let copy: Vec<Diagnostic> = copy_diagnostics(&diagnostics);
        let ghost dv = diagnostics_view(diagnostics@);
        let empty: bool = diagnostics.len() == 0;
        assert(dv.len() == diagnostics@.len());
        proof {
            lemma_file_place(old_files, path@, 0);
            lemma_files_with(old_files, path@, dv);
            if i < self.by_path@.len() {
                assert(self.files()[i as int].path == self.by_path@[i as int].path@);
            }
        }
        if empty {
            if there {
                let _ = self.by_path.remove(i);
                assert(self.files() =~= old_files.remove(i as int));
            }
        } else {
            if there {
                let name: String = self.by_path[i].path.clone();
                self.by_path.set(i, FileDiagnostics { path: name, diags: copy });
                assert(self.files() =~= old_files.update(
                    i as int,
                    FileView { path: old_files[i as int].path, diags: dv },
                ));
            } else {
                self.by_path.insert(i, FileDiagnostics { path: path.to_owned(), diags: copy });
                assert(self.files() =~= old_files.insert(
                    i as int,
                    FileView { path: path@, diags: dv },
                ));
            }
        }
        assert(self.docs() == old_docs);
        if let Some(id) = doc {
            broadcast use vstd::std_specs::hash::group_hash_axioms;

            if empty {
                let _ = self.diags.remove(&id);
                assert(self.docs() =~= old_docs.remove(id));
            } else {
                self.diags.insert(id, diagnostics);
                assert(self.docs() =~= old_docs.insert(id, dv));
            }
        }
    }

    /// Take what a server says of a file, and show the problems.
    pub fn on_diagnostics(
        &mut self,
        doc: Option<u64>,
        path: &str,
        diagnostics: Vec<Diagnostic>,
        root: &str,
    ) -> (r: Vec<Effect>)
        requires
            old(self).wf(),
        ensures
            final(self).wf(),
            final(self).problems_open == old(self).problems_open,
            final(self).files() == files_with(
                old(self).files(),
                path@,
                diagnostics_view(diagnostics@),
            ),
            final(self).docs() == match doc {
                Some(id) => docs_with(old(self).docs(), id, diagnostics_view(diagnostics@)),
                None => old(self).docs(),
            },
            effects_view(r@) == seq![
                EffectView::SetPanel {
                    panel: "lsp.problems"@,
                    content: problems(final(self).files(), root@, final(self).problems_open),
                },
            ],
    {
        self.keep(doc, path, diagnostics);
        let mut out: Vec<Effect> = no_effects();
        self.publish_problems(root, &mut out);
        out
    }

    /// Show the problems panel, or clear it where it is closed.
    fn publish_problems(&self, root: &str, out: &mut Vec<Effect>)
        ensures
            effects_view(final(out)@) == effects_view(old(out)@).push(
                EffectView::SetPanel {
                    panel: "lsp.problems"@,
                    content: problems(self.files(), root@, self.problems_open),
                },
            ),
    {
        let content: PanelContent = if self.problems_open {
            self.problem_panel(root)
        } else {
            PanelContent::empty()
        };
        emit(out, Effect::SetPanel { panel: "lsp.problems".to_owned(), content });
    }

    /// The problems panel while it is open.
    fn problem_panel(&self, root: &str) -> (r: PanelContent)
        ensures
            r@ == problems(self.files(), root@, true),
    {
        let mut lines: Vec<PanelLine> = no_lines();
        let mut shown: usize = 0;
        let mut errors: u64 = 0;
        let mut warnings: u64 = 0;
        let mut i: usize = 0;
        while i < self.by_path.len()
            invariant
                i <= self.by_path.len(),
                self.files().len() == self.by_path@.len(),
                lines_view(lines@) == listing(self.files(), root@, i as int).lines,
                shown == listing(self.files(), root@, i as int).shown,
                shown <= PROBLEM_CAP,
                errors == told(count_all(self.files(), Severity::Error, i as int)),
                warnings == told(count_all(self.files(), Severity::Warning, i as int)),
            decreases self.by_path.len() - i,
        {
            let f: &FileDiagnostics = &self.by_path[i];
            let ghost fv = self.files()[i as int];
            assert(fv.path == f.path@ && fv.diags == diagnostics_view(f.diags@));
            errors = add_within(errors, count(&f.diags, Severity::Error));
            warnings = add_within(warnings, count(&f.diags, Severity::Warning));
            if f.diags.len() > 0 && shown < PROBLEM_CAP {
                push_line(
                    &mut lines,
                    PanelLine::one(Span::new(show(root, f.path.as_str()), "dir")),
                );
                shown = list_file(f, &mut lines, shown);
            }
            i += 1;
        }
        assert(lines_view(lines@).len() == lines@.len());
        if lines.len() == 0 {
            push_line(
                &mut lines,
                PanelLine::one(Span::new("No problems".to_owned(), "dim")),
            );
            assert(lines_view(lines@) =~= seq![row(seq![styled("No problems"@, "dim"@)])]);
            return PanelContent { lines, selected: 0 };
        }
        let capped: String = if shown >= PROBLEM_CAP {
            join3("  (showing the first ", decimal_of(PROBLEM_CAP as u64).as_str(), ")")
        } else {
            "".to_owned()
        };
        let mut title: String = join3(
            decimal_of(errors).as_str(),
            " error(s), ",
            decimal_of(warnings).as_str(),
        );
        title.push_str(" warning(s)");
        title.push_str(capped.as_str());
        let ghost before = lines@;
        lines.insert(0, PanelLine::one(Span::new(title, "title")));
        assert(lines_view(lines@) =~= seq![row(seq![styled(title@, "title"@)])] + lines_view(
            before,
        ));
        PanelContent { lines, selected: 0 }
    }

    /// The positions that a document's diagnostics need, in order.
    pub fn positions(&self, doc: u64) -> (r: Vec<(u32, u32)>)
        ensures
            r@ == asked(
                diags_of(self.docs(), doc),
                diags_of(self.docs(), doc).len() as int,
            ),
            r@.len() == 3 * diags_of(self.docs(), doc).len(),
    {
        let mut out: Vec<(u32, u32)> = Vec::new();
        let ghost dv = diags_of(self.docs(), doc);
        assert(out@ =~= Seq::empty());
        if let Some(diags) = self.of_doc(doc) {
            let mut i: usize = 0;
            while i < diags.len()
                invariant
                    i <= diags.len(),
                    dv == diagnostics_view(diags@),
                    out@ == asked(dv, i as int),
                    out@.len() == 3 * i,
                decreases diags.len() - i,
            {
                let d: &Diagnostic = &diags[i];
                assert(dv[i as int] == d@);
                out.push((d.line, d.start_char16));
                out.push(
                    (
                        d.line,
                        if d.end_line == d.line {
                            d.end_char16
                        } else {
                            u32::MAX
                        },
                    ),
                );
                out.push((d.end_line, d.end_char16));
                i += 1;
            }
        }
        out
    }

    /// Show a document's diagnostics in it.
    fn publish_decorations(&self, doc: u64, at: &[usize], out: &mut Vec<Effect>)
        requires
            at@.len() == 3 * diags_of(self.docs(), doc).len(),
            forall|i: int| 0 <= i < at@.len() ==> (#[trigger] at@[i]) < usize::MAX,
        ensures
            effects_view(final(out)@) == effects_view(old(out)@).push(
                decorated(diags_of(self.docs(), doc), at@),
            ),
    {
        let ghost dv = diags_of(self.docs(), doc);
        let diags: &Vec<Diagnostic> = match self.of_doc(doc) {
            Some(v) if v.len() > 0 => v,
            _ => {
                assert(dv.len() == 0);
                emit(out, Effect::ClearDecorations("lsp.diag".to_owned()));
                return;
            },
        };
        let mut spans: Vec<Decoration> = Vec::new();
        let mut lines: Vec<(u32, Severity)> = Vec::new();
        let mut i: usize = 0;
        assert(lines@ =~= Seq::empty());
        while i < diags.len()
            invariant
                i <= diags.len(),
                dv == diagnostics_view(diags@),
                at.len() == 3 * diags@.len(),
                forall|j: int| 0 <= j < at@.len() ==> (#[trigger] at@[j]) < usize::MAX,
                spans@.len() == i,
                forall|j: int|
                    0 <= j < i ==> ((#[trigger] spans@[j]).start as int, spans@[j].end as int, spans@[j].style@)
                        == underlines(dv, at@)[j],
                lines@ == line_marks(dv, i as int),
            decreases diags.len() - i,
        {
            let d: &Diagnostic = &diags[i];
            assert(dv[i as int] == d@);
            let start: usize = at[3 * i];
            let end: usize = max_of(at[3 * i + 1], start + 1);
            spans.push(
                Decoration { start, end, style: join2("lsp.diag.", sev_suffix(d.severity)) },
            );
            note(&mut lines, d.line, d.severity);
            i += 1;
        }
        assert(decorations_view(spans@) =~= underlines(dv, at@));
        let mut gutter: Vec<GutterMark> = Vec::new();
        let mut j: usize = 0;
        while j < lines.len()
            invariant
                j <= lines.len(),
                gutter@.len() == j,
                forall|m: int|
                    0 <= m < j ==> ((#[trigger] gutter@[m]).line as int, gutter@[m].glyph, gutter@[m].style@)
                        == marks_view(lines@)[m],
            decreases lines.len() - j,
        {
            let (line, s): (u32, Severity) = lines[j];
            gutter.push(
                GutterMark {
                    line: line as usize,
                    glyph: sev_glyph(s),
                    style: join2("lsp.diag.mark.", sev_suffix(s)),
                },
            );
            j += 1;
        }
        assert(gutter_view(gutter@) =~= marks_view(lines@));
        let set = DecorationSet { spans, gutter, virtual_text: Vec::new() };
        assert(virtual_view(set.virtual_text@) =~= Seq::empty());
        emit(out, Effect::SetDecorations { layer: "lsp.diag".to_owned(), set });
    }

    /// Show the diagnostic under a document's caret, or clear it.
    fn refresh_status(&self, doc: u64, head: Option<usize>, at: &[usize], out: &mut Vec<Effect>)
        requires
            at@.len() == 3 * diags_of(self.docs(), doc).len(),
        ensures
            effects_view(final(out)@) == effects_view(old(out)@).push(
                status_of(diags_of(self.docs(), doc), at@, head),
            ),
    {
        let mut text: String = no_text();
        let ghost dv = diags_of(self.docs(), doc);
        if let Some(h) = head {
            if let Some(diags) = self.of_doc(doc) {
                let mut i: usize = 0;
                while i < diags.len() && !(at[3 * i] <= h && h <= max_of(at[3 * i + 2], at[3 * i]))
                    invariant
                        i <= diags.len(),
                        dv == diagnostics_view(diags@),
                        at.len() == 3 * diags@.len(),
                        under(dv, at@, h as int, 0) == under(dv, at@, h as int, i as int),
                    decreases diags.len() - i,
                {
                    i += 1;
                }
                if i < diags.len() {
                    assert(dv[i as int] == diags@[i as int]@);
                    text = format_diagnostic(&diags[i]);
                }
            }
        }
        emit(out, Effect::SetStatus { item: "lsp.diag".to_owned(), text });
    }

    /// Show how many errors and warnings the active document has.
    fn refresh_diag_count(&self, active: Option<u64>, out: &mut Vec<Effect>)
        ensures
            effects_view(final(out)@) == effects_view(old(out)@).push(
                counted(active_diags(self.docs(), active)),
            ),
    {
        let mut text: String = no_text();
        if let Some(doc) = active {
            if let Some(diags) = self.of_doc(doc) {
                let e: u64 = count(diags, Severity::Error);
                let w: u64 = count(diags, Severity::Warning);
                if e > 0 || w > 0 {
                    text = join3(decimal_of(e).as_str(), " ", decimal_of(w).as_str());
                }
            }
        }
        emit(out, Effect::SetStatus { item: "lsp.diag.count".to_owned(), text });
    }

    /// A document's text or diagnostics changed: show them again.
    pub fn on_change(
        &self,
        doc: u64,
        active: Option<u64>,
        head: Option<usize>,
        at: &[usize],
    ) -> (r: Vec<Effect>)
        requires
            at@.len() == 3 * diags_of(self.docs(), doc).len(),
            forall|i: int| 0 <= i < at@.len() ==> (#[trigger] at@[i]) < usize::MAX,
        ensures
            effects_view(r@) == changed(
                diags_of(self.docs(), doc),
                active_diags(self.docs(), active),
                at@,
                head,
            ),
    {
        let mut out: Vec<Effect> = no_effects();
        self.publish_decorations(doc, at, &mut out);
        self.refresh_status(doc, head, at, &mut out);
        self.refresh_diag_count(active, &mut out);
        out
    }

    /// A document's caret moved.
    pub fn on_cursor(&self, doc: u64, head: Option<usize>, at: &[usize]) -> (r: Vec<Effect>)
        requires
            at@.len() == 3 * diags_of(self.docs(), doc).len(),
        ensures
            effects_view(r@) == seq![status_of(diags_of(self.docs(), doc), at@, head)],
    {
        let mut out: Vec<Effect> = no_effects();
        self.refresh_status(doc, head, at, &mut out);
        out
    }

    /// Drop the diagnostics of documents that are no longer open.
    pub fn prune(&mut self, open: &[u64])
        requires
            old(self).wf(),
        ensures
            final(self).wf(),
            final(self).docs() == open_docs(old(self).docs(), open@),
            final(self).files() == old(self).files(),
            final(self).problems_open == old(self).problems_open,
    {
        broadcast use vstd::std_specs::hash::group_hash_axioms;

        let ghost before = self.docs();
        let ghost was = self.diags@;
        let mut kept: HashMap<u64, Vec<Diagnostic>> = HashMap::new();
        let mut i: usize = 0;
        while i < open.len()
            invariant
                i <= open.len(),
                was == old(self).diags@,
                self.by_path == old(self).by_path,
                self.problems_open == old(self).problems_open,
                forall|doc: u64| #[trigger]
                    kept@.contains_key(doc) == (was.contains_key(doc) && open@.take(
                        i as int,
                    ).contains(doc)),
                forall|doc: u64| #[trigger]
                    self.diags@.contains_key(doc) == (was.contains_key(doc) && !open@.take(
                        i as int,
                    ).contains(doc)),
                forall|doc: u64| #[trigger]
                    kept@.contains_key(doc) ==> kept@[doc] == was[doc],
                forall|doc: u64| #[trigger]
                    self.diags@.contains_key(doc) ==> self.diags@[doc] == was[doc],
            decreases open.len() - i,
        {
            broadcast use vstd::std_specs::hash::group_hash_axioms;

            let id: u64 = open[i];
            let ghost had = open@.take(i as int);
            assert(open@.take(i + 1) =~= had.push(id));
            assert forall|doc: u64| had.push(id).contains(doc) == (had.contains(doc) || doc == id) by {
                if had.contains(doc) {
                    let k = choose|k: int| 0 <= k < had.len() && had[k] == doc;
                    assert(had.push(id)[k] == doc);
                }
                assert(had.push(id)[had.len() as int] == id);
            }
            if let Some(v) = self.diags.remove(&id) {
                kept.insert(id, v);
            }
            i += 1;
        }
        assert(open@.take(open@.len() as int) =~= open@);
        self.diags = kept;
        assert(self.docs() =~= open_docs(before, open@));
    }

    /// Another document is active: drop what is closed, and show the active document's state.
    pub fn on_active(
        &mut self,
        open: &[u64],
        active: Option<u64>,
        head: Option<usize>,
        at: &[usize],
    ) -> (r: Vec<Effect>)
        requires
            old(self).wf(),
            at@.len() == 3 * active_diags(
                open_docs(old(self).docs(), open@),
                active,
            ).len(),
        ensures
            final(self).wf(),
            final(self).docs() == open_docs(old(self).docs(), open@),
            final(self).files() == old(self).files(),
            final(self).problems_open == old(self).problems_open,
            effects_view(r@) == if active is Some {
                seq![
                    status_of(active_diags(final(self).docs(), active), at@, head),
                    counted(active_diags(final(self).docs(), active)),
                ]
            } else {
                seq![counted(Seq::empty())]
            },
    {
        self.prune(open);
        let mut out: Vec<Effect> = no_effects();
        if let Some(doc) = active {
            self.refresh_status(doc, head, at, &mut out);
        }
        self.refresh_diag_count(active, &mut out);
        out
    }

    /// Run a command; none where it is not one of these. The positions are those of the active
    /// document's diagnostics.
    pub fn run_command(
        &mut self,
        command_id: &str,
        active: Option<u64>,
        head: Option<usize>,
        at: &[usize],
        root: &str,
    ) -> (r: Option<Vec<Effect>>)
        requires
            old(self).wf(),
            at@.len() == 3 * active_diags(old(self).docs(), active).len(),
        ensures
            final(self).wf(),
            final(self).docs() == old(self).docs(),
            final(self).files() == old(self).files(),
            final(self).problems_open == if command_id@ == "lsp.problems"@ {
                !old(self).problems_open
            } else {
                old(self).problems_open
            },
            ({
                let diags = active_diags(old(self).docs(), active);
                if command_id@ == "lsp.nextDiagnostic"@ {
                    r is Some && effects_view(r->0@) == went(diags, at@, head, true)
                } else if command_id@ == "lsp.prevDiagnostic"@ {
                    r is Some && effects_view(r->0@) == went(diags, at@, head, false)
                } else if command_id@ == "lsp.problems"@ {
                    r is Some && effects_view(r->0@) == seq![
                        EffectView::SetPanel {
                            panel: "lsp.problems"@,
                            content: problems(
                                old(self).files(),
                                root@,
                                !old(self).problems_open,
                            ),
                        },
                    ]
                } else {
                    r is None
                }
            }),
    {
        proof {
            reveal_strlit("lsp.problems");
            reveal_strlit("lsp.nextDiagnostic");
            reveal_strlit("lsp.prevDiagnostic");
            assert("lsp.problems"@.len() != "lsp.nextDiagnostic"@.len());
            assert("lsp.problems"@.len() != "lsp.prevDiagnostic"@.len());
        }
        if same(command_id, "lsp.nextDiagnostic") {
            Some(self.navigate(active, head, at, true))
        } else if same(command_id, "lsp.prevDiagnostic") {
            Some(self.navigate(active, head, at, false))
        } else if same(command_id, "lsp.problems") {
            self.problems_open = !self.problems_open;
            let mut out: Vec<Effect> = no_effects();
            self.publish_problems(root, &mut out);
            Some(out)
        } else {
            None
        }
    }

    /// Go to the nearest diagnostic after or before the caret, going round at the ends.
    fn navigate(&self, active: Option<u64>, head: Option<usize>, at: &[usize], forward: bool) -> (r:
        Vec<Effect>)
        requires
            at@.len() == 3 * active_diags(self.docs(), active).len(),
        ensures
            effects_view(r@) == went(active_diags(self.docs(), active), at@, head, forward),
    {
        let mut out: Vec<Effect> = no_effects();
        let n: usize = at.len() / 3;
        if n == 0 {
            return out;
        }
        let mut offs: Vec<usize> = Vec::new();
        let mut i: usize = 0;
        while i < n
            invariant
                i <= n,
                at.len() == 3 * n,
                offs@.len() == i,
                forall|k: int| 0 <= k < i ==> #[trigger] offs@[k] == at@[3 * k],
            decreases n - i,
        {
            offs.push(at[3 * i]);
            i += 1;
        }
        assert(offs@ =~= starts(at@, n as int));
        let from: usize = match head {
            Some(h) => h,
            None => 0,
        };
        emit(&mut out, Effect::Caret(nearest_round(&offs, from, forward)));
        out
    }

    /// Open the problem of a row that was clicked on.
    pub fn on_panel_activate(&self, panel_id: &str, payload: &str) -> (r: Vec<Effect>)
        ensures
            effects_view(r@) == clicked(panel_id@, payload@),
    {
        let mut out: Vec<Effect> = no_effects();
        if same(panel_id, "lsp.problems") {
            if let Some((path, line)) = read_place(payload) {
                emit(&mut out, Effect::OpenPathAt { path, line });
            }
        }
        out
    }
}

/// What a click on a row of a panel asks for: to open the place that the row carries, where it is a
/// problem's.
pub open spec fn clicked(panel: Seq<char>, payload: Seq<char>) -> Seq<EffectView> {
    match place_of(payload) {
        Some((path, line)) => if panel == "lsp.problems"@ {
            seq![EffectView::OpenPathAt { path, line }]
        } else {
            Seq::empty()
        },
        None => Seq::empty(),
    }
}

/// The requests after a document's text or diagnostics changed: its marks, the diagnostic under the
/// caret, and the counts of the active document.
pub open spec fn changed(
    diags: Seq<DiagnosticView>,
    active: Seq<DiagnosticView>,
    at: Seq<usize>,
    head: Option<usize>,
) -> Seq<EffectView> {
    seq![decorated(diags, at), status_of(diags, at, head), counted(active)]
}

/// The requests that go to the nearest diagnostic.
pub open spec fn went(
    diags: Seq<DiagnosticView>,
    at: Seq<usize>,
    head: Option<usize>,
    forward: bool,
) -> Seq<EffectView> {
    let from = match head {
        Some(h) => h as int,
        None => 0,
    };
    let s = starts(at, diags.len() as int);
    if diags.len() == 0 {
        Seq::empty()
    } else {
        seq![
            EffectView::Caret(
                if forward {
                    next_round(s, from)
                } else {
                    prev_round(s, from)
                },
            ),
        ]
    }
}

/// The documents that are open.
pub open spec fn open_docs(v: Map<u64, Seq<DiagnosticView>>, open: Seq<u64>) -> Map<
    u64,
    Seq<DiagnosticView>,
> {
    Map::new(|doc: u64| v.contains_key(doc) && open.contains(doc), |doc: u64| v[doc])
}

/// Take one more diagnostic into the lines.
fn note(lines: &mut Vec<(u32, Severity)>, line: u32, s: Severity)
    ensures
        final(lines)@ == noted(old(lines)@, line, s, 0),
{
    let mut i: usize = 0;
    while i < lines.len() && lines[i].0 < line
        invariant
            i <= lines.len(),
            lines@ == old(lines)@,
            noted(lines@, line, s, 0) == noted(lines@, line, s, i as int),
        decreases lines.len() - i,
    {
        i += 1;
    }
    if i >= lines.len() {
        lines.push((line, s));
    } else if lines[i].0 == line {
        if sev_rank(s) < sev_rank(lines[i].1) {
            lines.set(i, (line, s));
        }
    } else {
        lines.insert(i, (line, s));
    }
}

/// The sum, or the greatest number where it is greater.
fn add_within(a: u64, b: u64) -> (r: u64)
    ensures
        r == lesser(a + b, u64::MAX as int),
{
    if b > u64::MAX - a {
        u64::MAX
    } else {
        a + b
    }
}

/// How many diagnostics have the severity.
fn count(diags: &Vec<Diagnostic>, s: Severity) -> (r: u64)
    ensures
        r == count_in(diagnostics_view(diags@), s, diags@.len() as int),
{
    let mut n: u64 = 0;
    let mut i: usize = 0;
    while i < diags.len()
        invariant
            i <= diags.len(),
            n <= i,
            n == count_in(diagnostics_view(diags@), s, i as int),
        decreases diags.len() - i,
    {
        assert(diagnostics_view(diags@)[i as int] == diags@[i as int]@);
        if diags[i].severity == s {
            n += 1;
        }
        i += 1;
    }
    n
}

/// A text with blanks in place of line breaks.
fn one_line(s: &str) -> (r: String)
    ensures
        r@ == on_one_line(s@),
{
    let cs: Vec<char> = chars_of(s);
    let mut out: String = no_text();
    let mut i: usize = 0;
    while i < cs.len()
        invariant
            i <= cs.len(),
            cs@ == s@,
            out@.len() == i,
            forall|k: int| 0 <= k < i ==> #[trigger] out@[k] == on_one_line(s@)[k],
        decreases cs.len() - i,
    {
        out.push(
            if cs[i] == '\n' {
                ' '
            } else {
                cs[i]
            },
        );
        i += 1;
    }
    assert(out@ =~= on_one_line(s@));
    out
}

/// Append a file's problems, in their order, as far as there is room.
fn list_file(f: &FileDiagnostics, lines: &mut Vec<PanelLine>, shown: usize) -> (r: usize)
    requires
        shown <= PROBLEM_CAP,
    ensures
        ({
            let fv = FileView { path: f.path@, diags: diagnostics_view(f.diags@) };
            let l = file_rows(
                fv,
                ordered(problem_keys(fv.diags), fv.diags.len() as int),
                fv.diags.len() as int,
                Listing { lines: lines_view(old(lines)@), shown: shown as int },
            );
            lines_view(final(lines)@) == l.lines && r == l.shown && r <= PROBLEM_CAP
        }),
{
    let ghost fv = FileView { path: f.path@, diags: diagnostics_view(f.diags@) };
    let ghost start = Listing { lines: lines_view(lines@), shown: shown as int };
    let mut keys: Vec<(u64, u64)> = Vec::new();
    let mut i: usize = 0;
    while i < f.diags.len()
        invariant
            i <= f.diags.len(),
            keys@.len() == i,
            forall|k: int|
                0 <= k < i ==> #[trigger] keys@[k] == (
                    rank_of(f.diags@[k].severity),
                    f.diags@[k].line as u64,
                ),
        decreases f.diags.len() - i,
    {
        keys.push((sev_rank(f.diags[i].severity), f.diags[i].line as u64));
        i += 1;
    }
    assert(keys@ =~= problem_keys(fv.diags));
    let order: Vec<usize> = stable_order(&keys);
    let mut n: usize = shown;
    let mut j: usize = 0;
    while j < order.len()
        invariant
            j <= order.len(),
            order@ == ordered(problem_keys(fv.diags), fv.diags.len() as int),
            fv == (FileView { path: f.path@, diags: diagnostics_view(f.diags@) }),
            forall|k: int| 0 <= k < order@.len() ==> (#[trigger] order@[k]) < f.diags@.len(),
            lines_view(lines@) == file_rows(fv, order@, j as int, start).lines,
            n == file_rows(fv, order@, j as int, start).shown,
            n <= PROBLEM_CAP,
        decreases order.len() - j,
    {
        if n < PROBLEM_CAP {
            let d: &Diagnostic = &f.diags[order[j]];
            assert(fv.diags[order@[j as int] as int] == d@);
            let mut place: String = no_text();
            place.push(' ');
            place.push(' ');
            place.push(sev_glyph(d.severity));
            place.push(' ');
            assert(place@ =~= seq![' ', ' ', glyph_of(d.severity), ' ']);
            place.push_str(pad_left(decimal_of(d.line as u64 + 1).as_str(), ' ', 5).as_str());
            place.push_str(": ");
            let message: String = one_line(d.message.as_str());
            let line: PanelLine = PanelLine::two(
                Span::new(place, sev_suffix(d.severity)),
                Span::new(take_chars(message.as_str(), 160), "text"),
            ).payload(join3(f.path.as_str(), "\t", decimal_of(d.line as u64).as_str()));
            push_line(lines, line);
            n += 1;
        }
        j += 1;
    }
    n
}

proof fn lemma_file_place(v: Seq<FileView>, path: Seq<char>, i: int)
    requires
        0 <= i <= v.len(),
        forall|k: int| 0 <= k < i ==> before((#[trigger] v[k]).path, path),
    ensures
        i <= file_place(v, path, i) <= v.len(),
        forall|k: int| 0 <= k < file_place(v, path, i) ==> before((#[trigger] v[k]).path, path),
        file_place(v, path, i) < v.len() ==> !before(v[file_place(v, path, i)].path, path),
    decreases v.len() - i,
{
    if i < v.len() && before(v[i].path, path) {
        lemma_file_place(v, path, i + 1);
    }
}

/// Files stay in order, each path once, whatever is said of one of them, and none is kept without
/// diagnostics.
proof fn lemma_files_with(v: Seq<FileView>, path: Seq<char>, diags: Seq<DiagnosticView>)
    requires
        sorted_files(v),
        forall|i: int| 0 <= i < v.len() ==> (#[trigger] v[i]).diags.len() > 0,
    ensures
        sorted_files(files_with(v, path, diags)),
        forall|i: int|
            0 <= i < files_with(v, path, diags).len() ==> (#[trigger] files_with(
                v,
                path,
                diags,
            )[i]).diags.len() > 0,
{
    lemma_file_place(v, path, 0);
    let p = file_place(v, path, 0);
    let w = files_with(v, path, diags);
    assert forall|i: int, j: int|
        #![trigger w[i], w[j]]
        0 <= i < j < w.len() implies before(w[i].path, w[j].path) by {
        let there = p < v.len() && same_path(v[p].path, path);
        if diags.len() == 0 {
            if there {
                let a = if i < p {
                    i
                } else {
                    i + 1
                };
                let b = if j < p {
                    j
                } else {
                    j + 1
                };
                assert(w[i] == v[a] && w[j] == v[b]);
            }
        } else if there {
            assert(w[i].path == v[i].path && w[j].path == v[j].path);
        } else {
            if p < v.len() {
                paths_are_ordered(v[p].path, path);
            }
            let a = if i < p {
                i
            } else {
                i - 1
            };
            let b = if j < p {
                j
            } else {
                j - 1
            };
            if j == p {
                assert(w[i] == v[i]);
            } else if i == p {
                assert(w[j] == v[b]);
                if p < b {
                    assert(before(v[p].path, v[b].path));
                    lemma_before_trans(path, v[p].path, v[b].path);
                }
            } else {
                assert(w[i] == v[a] && w[j] == v[b]);
            }
        }
    }
}

/// No more problems are listed than there is room for.
pub proof fn listed_problems_are_capped(files: Seq<FileView>, root: Seq<char>, n: int)
    requires
        0 <= n <= files.len(),
    ensures
        0 <= listing(files, root, n).shown <= PROBLEM_CAP,
    decreases n,
{
    if n > 0 {
        listed_problems_are_capped(files, root, n - 1);
        let f = files[n - 1];
        let p = listing(files, root, n - 1);
        lemma_file_rows(
            f,
            ordered(problem_keys(f.diags), f.diags.len() as int),
            f.diags.len() as int,
            Listing {
                lines: p.lines.push(row(seq![styled(shown(root, f.path), "dir"@)])),
                shown: p.shown,
            },
        );
    }
}

proof fn lemma_file_rows(f: FileView, order: Seq<usize>, n: int, at: Listing)
    requires
        0 <= at.shown <= PROBLEM_CAP,
    ensures
        at.shown <= file_rows(f, order, n, at).shown <= PROBLEM_CAP,
        file_rows(f, order, n, at).lines.len() - at.lines.len() == file_rows(f, order, n, at).shown
            - at.shown,
    decreases n,
{
    if n > 0 {
        lemma_file_rows(f, order, n - 1, at);
    }
}

/// Whether marks are in the order of their lines, each line once.
pub open spec fn ascending(p: Seq<(u32, Severity)>) -> bool {
    forall|i: int, j: int| #![trigger p[i], p[j]] 0 <= i < j < p.len() ==> p[i].0 < p[j].0
}

/// Whether a line has a mark at least as grave as the severity.
pub open spec fn marked(p: Seq<(u32, Severity)>, line: u32, s: Severity) -> bool {
    exists|m: int| 0 <= m < p.len() && (#[trigger] p[m]).0 == line && rank_of(p[m].1) <= rank_of(s)
}

/// Whether a mark is that of one of the first `n` diagnostics.
pub open spec fn comes_from(diags: Seq<DiagnosticView>, n: int, mark: (u32, Severity)) -> bool {
    exists|k: int|
        0 <= k < n && (#[trigger] diags[k]).line == mark.0 && diags[k].severity == mark.1
}

proof fn lemma_noted(p: Seq<(u32, Severity)>, line: u32, s: Severity, i: int)
    requires
        ascending(p),
        0 <= i <= p.len(),
        forall|k: int| 0 <= k < i ==> (#[trigger] p[k]).0 < line,
    ensures
        ascending(noted(p, line, s, i)),
        marked(noted(p, line, s, i), line, s),
        forall|l: u32, t: Severity| marked(p, l, t) ==> #[trigger] marked(noted(p, line, s, i), l, t),
        forall|m: int|
            0 <= m < noted(p, line, s, i).len() ==> (#[trigger] noted(p, line, s, i)[m]) == (
                line,
                s,
            ) || p.contains(noted(p, line, s, i)[m]),
    decreases p.len() - i,
{
    let q = noted(p, line, s, i);
    if i < p.len() && p[i].0 < line {
        lemma_noted(p, line, s, i + 1);
    } else {
        assert forall|l: u32, t: Severity| marked(p, l, t) implies #[trigger] marked(q, l, t) by {
            let k = choose|k: int|
                0 <= k < p.len() && (#[trigger] p[k]).0 == l && rank_of(p[k].1) <= rank_of(t);
            if i >= p.len() || p[i].0 == line {
                assert(q[k].0 == p[k].0);
            } else if k < i {
                assert(q[k] == p[k]);
            } else {
                assert(q[k + 1] == p[k]);
            }
        }
        if i >= p.len() {
            assert(q[p.len() as int].0 == line);
        } else {
            assert(q[i].0 == line);
        }
        assert forall|m: int| 0 <= m < q.len() implies (#[trigger] q[m]) == (line, s) || p.contains(
            q[m],
        ) by {
            if i >= p.len() {
                if m < p.len() {
                    assert(q[m] == p[m]);
                }
            } else if p[i].0 == line {
                if m != i || rank_of(s) >= rank_of(p[i].1) {
                    assert(q[m] == p[m]);
                }
            } else if m < i {
                assert(q[m] == p[m]);
            } else if m > i {
                assert(q[m] == p[m - 1]);
            }
        }
    }
}

/// Every line with a diagnostic has one mark, in the order of the lines, and the mark is as grave as
/// the gravest diagnostic on the line.
pub proof fn marks_show_the_gravest(diags: Seq<DiagnosticView>, n: int)
    requires
        0 <= n <= diags.len(),
    ensures
        ascending(line_marks(diags, n)),
        forall|k: int|
            0 <= k < n ==> marked(
                line_marks(diags, n),
                (#[trigger] diags[k]).line,
                diags[k].severity,
            ),
        forall|m: int|
            0 <= m < line_marks(diags, n).len() ==> comes_from(
                diags,
                n,
                #[trigger] line_marks(diags, n)[m],
            ),
    decreases n,
{
    if n > 0 {
        marks_show_the_gravest(diags, n - 1);
        let p = line_marks(diags, n - 1);
        let q = line_marks(diags, n);
        let d = diags[n - 1];
        lemma_noted(p, d.line, d.severity, 0);
        assert forall|m: int| 0 <= m < q.len() implies comes_from(diags, n, #[trigger] q[m]) by {
            if q[m] == (d.line, d.severity) {
                assert(diags[n - 1].line == q[m].0);
            } else {
                let j = choose|j: int| 0 <= j < p.len() && p[j] == q[m];
                assert(comes_from(diags, n - 1, p[j]));
            }
        }
    }
}

/// What is said of one document leaves what is said of the others.
pub proof fn documents_do_not_mix(
    v: Map<u64, Seq<DiagnosticView>>,
    doc: u64,
    diags: Seq<DiagnosticView>,
    other: u64,
)
    ensures
        diags_of(docs_with(v, doc, diags), doc) == diags,
        other != doc ==> diags_of(docs_with(v, doc, diags), other) == diags_of(v, other),
{
    assert(diags.len() == 0 ==> diags =~= Seq::empty());
}

/// A click on a problem's row opens its file at its line.
pub proof fn problem_rows_open_their_places(path: Seq<char>, d: DiagnosticView)
    ensures
        problem_row(path, d).payload is Some,
        clicked("lsp.problems"@, problem_row(path, d).payload->0) == seq![
            EffectView::OpenPathAt { path, line: d.line as int },
        ],
{
    crate::place::payloads_read_back(path, d.line as usize);
}

/// The next problem is the nearest that starts behind the caret and the previous one the nearest that
/// starts before it; the caret goes there, and nothing else is asked for.
pub proof fn navigation_goes_to_the_nearest_problem(
    diags: Seq<DiagnosticView>,
    at: Seq<usize>,
    head: usize,
    i: int,
)
    requires
        at.len() == 3 * diags.len(),
        0 <= i < diags.len(),
    ensures
        at[3 * i] > head ==> exists|k: int|
            0 <= k < diags.len() && head < #[trigger] at[3 * k] <= at[3 * i] && went(
                diags,
                at,
                Some(head),
                true,
            ) == seq![EffectView::Caret(at[3 * k] as int)],
        at[3 * i] < head ==> exists|k: int|
            0 <= k < diags.len() && at[3 * i] <= #[trigger] at[3 * k] < head && went(
                diags,
                at,
                Some(head),
                false,
            ) == seq![EffectView::Caret(at[3 * k] as int)],
{
    let s = starts(at, diags.len() as int);
    crate::order::next_is_the_nearest(s, head as int);
    crate::order::prev_is_the_nearest(s, head as int);
    assert(s[i] == at[3 * i]);
    if at[3 * i] > head {
        let k = choose|k: int| 0 <= k < s.len() && #[trigger] s[k] == next_round(s, head as int);
        assert(s[k] == at[3 * k]);
        assert(head < at[3 * k] <= at[3 * i]);
    }
    if at[3 * i] < head {
        let k = choose|k: int| 0 <= k < s.len() && #[trigger] s[k] == prev_round(s, head as int);
        assert(s[k] == at[3 * k]);
        assert(at[3 * i] <= at[3 * k] < head);
    }
}

/// Of every diagnostic three positions are asked for: where it starts, where its underline ends, and
/// where it ends; one that goes on to another line is underlined to the end of its first.
pub proof fn three_positions_are_asked_for(diags: Seq<DiagnosticView>, n: int, i: int)
    requires
        0 <= i < n <= diags.len(),
    ensures
        asked(diags, n).len() == 3 * n,
        asked(diags, n)[3 * i] == (diags[i].line, diags[i].start_char16),
        diags[i].line == diags[i].end_line ==> asked(diags, n)[3 * i + 1] == (
            diags[i].line,
            diags[i].end_char16,
        ),
        diags[i].line != diags[i].end_line ==> asked(diags, n)[3 * i + 1].0 == diags[i].line
            && asked(diags, n)[3 * i + 1].1 == u32::MAX,
        asked(diags, n)[3 * i + 2] == (diags[i].end_line, diags[i].end_char16),
    decreases n,
{
    lemma_asked_len(diags, n - 1);
    if i < n - 1 {
        three_positions_are_asked_for(diags, n - 1, i);
    }
}

proof fn lemma_asked_len(diags: Seq<DiagnosticView>, n: int)
    requires
        0 <= n,
    ensures
        asked(diags, n).len() == 3 * n,
    decreases n,
{
    if n > 0 {
        lemma_asked_len(diags, n - 1);
    }
}

/// Every diagnostic is underlined from its start on, at least one character long, in the style of its
/// severity.
pub proof fn every_diagnostic_is_underlined(diags: Seq<DiagnosticView>, at: Seq<usize>, i: int)
    requires
        at.len() == 3 * diags.len(),
        0 <= i < diags.len(),
    ensures
        ({
            let u = underlines(diags, at)[i];
            &&& underlines(diags, at).len() == diags.len()
            &&& u.0 == at[3 * i]
            &&& u.1 > u.0
            &&& at[3 * i + 1] > at[3 * i] ==> u.1 == at[3 * i + 1]
            &&& u.2 == "lsp.diag."@ + suffix_of(diags[i].severity)
        }),
{
}

/// The status line describes the first diagnostic that the caret is on, from its start to its end, and
/// nothing where it is on none.
pub proof fn the_first_diagnostic_under_the_caret_is_told(
    diags: Seq<DiagnosticView>,
    at: Seq<usize>,
    head: usize,
    k: int,
)
    requires
        at.len() == 3 * diags.len(),
        0 <= k <= diags.len(),
        forall|i: int|
            0 <= i < k ==> head < #[trigger] at[3 * i] || (head > at[3 * i] && head > at[3 * i + 2]),
        k < diags.len() ==> at[3 * k] <= head && (head <= at[3 * k + 2] || head == at[3 * k]),
    ensures
        status_of(diags, at, Some(head)) == (EffectView::SetStatus {
            item: "lsp.diag"@,
            text: if k < diags.len() {
                described(diags[k])
            } else {
                Seq::empty()
            },
        }),
{
    lemma_under(diags, at, head as int, 0, k);
}

proof fn lemma_under(diags: Seq<DiagnosticView>, at: Seq<usize>, head: int, i: int, k: int)
    requires
        at.len() == 3 * diags.len(),
        0 <= i <= k <= diags.len(),
        forall|j: int|
            0 <= j < k ==> head < #[trigger] at[3 * j] || (head > at[3 * j] && head > at[3 * j + 2]),
        k < diags.len() ==> at[3 * k] <= head && (head <= at[3 * k + 2] || head == at[3 * k]),
    ensures
        under(diags, at, head, i) == if k < diags.len() {
            described(diags[k])
        } else {
            Seq::<char>::empty()
        },
    decreases k - i,
{
    if i < k {
        assert(head < at[3 * i] || (head > at[3 * i] && head > at[3 * i + 2]));
        lemma_under(diags, at, head, i + 1, k);
    }
}

/// Diagnostics are counted one by one, each under its own severity.
pub proof fn diagnostics_are_counted(diags: Seq<DiagnosticView>, d: DiagnosticView, s: Severity)
    ensures
        count_in(diags.push(d), s, (diags.len() + 1) as int) == count_in(diags, s, diags.len() as int) + (
        if d.severity == s {
            1nat
        } else {
            0nat
        }),
        count_in(Seq::empty(), s, 0) == 0,
{
    lemma_count_prefix(diags, diags.push(d), s, diags.len() as int);
}

proof fn lemma_count_prefix(
    a: Seq<DiagnosticView>,
    b: Seq<DiagnosticView>,
    s: Severity,
    n: int,
)
    requires
        n <= a.len(),
        n <= b.len(),
        forall|i: int| 0 <= i < n ==> a[i] == b[i],
    ensures
        count_in(a, s, n) == count_in(b, s, n),
    decreases n,
{
    if n > 0 {
        lemma_count_prefix(a, b, s, n - 1);
    }
}

/// A description holds the whole message, behind the sign of the severity and the source, and before
/// the code.
pub proof fn descriptions_hold_the_message(d: DiagnosticView)
    ensures
        described(d)[0] == glyph_of(d.severity),
        ({
            let n: int = match d.source {
                Some(s) => 2int + s.len() + ": "@.len(),
                None => 2,
            };
            let m: int = n + d.message.len();
            let k: int = m + " ["@.len();
            &&& described(d).len() >= m
            &&& described(d).subrange(n, m) == d.message
            &&& d.code is None ==> described(d).len() == m
            &&& d.code matches Some(c) ==> described(d).subrange(k, k + c.len()) == c
        }),
{
    let n: int = match d.source {
        Some(s) => 2int + s.len() + ": "@.len(),
        None => 2,
    };
    let m: int = n + d.message.len();
    let k: int = m + " ["@.len();
    assert(described(d).subrange(n, m) =~= d.message);
    if d.code is Some {
        let c = d.code.unwrap();
        assert(described(d).subrange(k, k + c.len()) =~= c);
    }
}

/// No two severities are shown alike, and an error comes before a warning, that before information,
/// that before a hint.
pub proof fn severities_are_told_apart(s: Severity, t: Severity)
    ensures
        s != t ==> glyph_of(s) != glyph_of(t),
        rank_of(Severity::Error) < rank_of(Severity::Warning) < rank_of(Severity::Info) < rank_of(
            Severity::Hint,
        ),
{
}

/// What is said of one file is kept under its path and leaves what is said of the others; a file of
/// which nothing is said any more is not listed.
pub proof fn files_do_not_mix(
    v: Seq<FileView>,
    path: Seq<char>,
    diags: Seq<DiagnosticView>,
    other: int,
)
    requires
        sorted_files(v),
        0 <= other < v.len(),
        !same_path(v[other].path, path),
    ensures
        ({
            let r = files_with(v, path, diags);
            &&& exists|k: int| 0 <= k < r.len() && #[trigger] r[k] == v[other]
            &&& diags.len() > 0 ==> exists|k: int|
                0 <= k < r.len() && same_path((#[trigger] r[k]).path, path) && r[k].diags == diags
            &&& diags.len() == 0 ==> forall|k: int|
                0 <= k < r.len() ==> !same_path((#[trigger] r[k]).path, path)
        }),
{
    let r = files_with(v, path, diags);
    let i = file_place(v, path, 0);
    lemma_file_place(v, path, 0);
    let there = i < v.len() && same_path(v[i].path, path);
    paths_are_ordered(path, path);
    assert(r[if there && diags.len() == 0 && other > i {
        other - 1
    } else if !there && diags.len() > 0 && other >= i {
        other + 1
    } else {
        other
    }] == v[other]);
    if diags.len() > 0 {
        assert(same_path(r[i].path, path) && r[i].diags == diags);
    } else {
        assert forall|k: int| 0 <= k < r.len() implies !same_path((#[trigger] r[k]).path, path) by {
            let j = if there && k >= i {
                k + 1
            } else {
                k
            };
            assert(r[k] == v[j]);
            if j < i {
                assert(before(v[j].path, path));
            } else if j > i {
                assert(before(v[i].path, v[j].path));
            }
        }
    }
}

} // verus!
