//! What the language client hands to plugins, and what plugins ask of it.
//!
//! Columns are in UTF-16 units, as on the wire; the editor turns them into positions.

use vstd::prelude::*;

use crate::ui::opt_text;

verus! {

/// A place in a file.
#[derive(Debug, PartialEq, Eq)]
pub struct Location {
    pub path: String,
    pub line: u32,
    pub character: u32,
}

pub struct LocationView {
    pub path: Seq<char>,
    pub line: u32,
    pub character: u32,
}

impl View for Location {
    type V = LocationView;

    open spec fn view(&self) -> LocationView {
        LocationView { path: self.path@, line: self.line, character: self.character }
    }
}

/// A place to go to, with what to show for it.
#[derive(Debug, PartialEq, Eq)]
pub struct NavItem {
    pub location: Location,
    pub label: String,
}

/// How grave a diagnostic is.
#[derive(Debug, Clone, Copy, PartialEq, Eq, Structural)]
pub enum Severity {
    Error,
    Warning,
    Info,
    Hint,
}

/// What a server says of a range of a file.
#[derive(Debug, PartialEq, Eq)]
pub struct Diagnostic {
    pub line: u32,
    pub start_char16: u32,
    pub end_line: u32,
    pub end_char16: u32,
    pub severity: Severity,
    pub message: String,
    pub source: Option<String>,
    pub code: Option<String>,
}

pub struct DiagnosticView {
    pub line: u32,
    pub start_char16: u32,
    pub end_line: u32,
    pub end_char16: u32,
    pub severity: Severity,
    pub message: Seq<char>,
    pub source: Option<Seq<char>>,
    pub code: Option<Seq<char>>,
}

impl View for Diagnostic {
    type V = DiagnosticView;

    open spec fn view(&self) -> DiagnosticView {
        DiagnosticView {
            line: self.line,
            start_char16: self.start_char16,
            end_line: self.end_line,
            end_char16: self.end_char16,
            severity: self.severity,
            message: self.message@,
            source: opt_text(self.source),
            code: opt_text(self.code),
        }
    }
}

pub open spec fn diagnostics_view(v: Seq<Diagnostic>) -> Seq<DiagnosticView> {
    v.map_values(|d: Diagnostic| d@)
}

/// The same text again, where there is one.
pub fn copy_opt(s: &Option<String>) -> (r: Option<String>)
    ensures
        opt_text(r) == opt_text(*s),
{
    match s {
        Some(s) => Some(s.clone()),
        None => None,
    }
}

/// The same diagnostics again.
pub fn copy_diagnostics(v: &Vec<Diagnostic>) -> (r: Vec<Diagnostic>)
    ensures
        diagnostics_view(r@) == diagnostics_view(v@),
{
    let mut out: Vec<Diagnostic> = Vec::new();
    let mut i: usize = 0;
    while i < v.len()
        invariant
            i <= v.len(),
            out@.len() == i,
            forall|k: int| 0 <= k < i ==> (#[trigger] out@[k])@ == v@[k]@,
        decreases v.len() - i,
    {
        let d: &Diagnostic = &v[i];
        out.push(
            Diagnostic {
                line: d.line,
                start_char16: d.start_char16,
                end_line: d.end_line,
                end_char16: d.end_char16,
                severity: d.severity,
                message: d.message.clone(),
                source: copy_opt(&d.source),
                code: copy_opt(&d.code),
            },
        );
        i += 1;
    }
    assert(diagnostics_view(out@) =~= diagnostics_view(v@));
    out
}

/// A replacement in a file.
#[derive(Debug, PartialEq, Eq)]
pub struct TextEdit {
    pub start_line: u32,
    pub start_char16: u32,
    pub end_line: u32,
    pub end_char16: u32,
    pub new_text: String,
}

pub struct TextEditView {
    pub start_line: u32,
    pub start_char16: u32,
    pub end_line: u32,
    pub end_char16: u32,
    pub new_text: Seq<char>,
}

impl View for TextEdit {
    type V = TextEditView;

    open spec fn view(&self) -> TextEditView {
        TextEditView {
            start_line: self.start_line,
            start_char16: self.start_char16,
            end_line: self.end_line,
            end_char16: self.end_char16,
            new_text: self.new_text@,
        }
    }
}

pub open spec fn edits_view(v: Seq<TextEdit>) -> Seq<TextEditView> {
    v.map_values(|e: TextEdit| e@)
}

/// The replacements in one file.
#[derive(Debug, PartialEq, Eq)]
pub struct FileEdit {
    pub path: String,
    pub edits: Vec<TextEdit>,
}

/// Replacements in several files.
#[derive(Debug, PartialEq, Eq)]
pub struct WorkspaceEdit {
    pub changes: Vec<FileEdit>,
}

/// What a workspace edit is: the replacements of each file.
pub type EditView = Seq<(Seq<char>, Seq<TextEditView>)>;

pub open spec fn files_view(v: Seq<FileEdit>) -> EditView {
    v.map_values(|f: FileEdit| (f.path@, edits_view(f.edits@)))
}

impl View for WorkspaceEdit {
    type V = EditView;

    open spec fn view(&self) -> EditView {
        files_view(self.changes@)
    }
}

/// The same replacements again.
pub fn copy_edits(edits: &Vec<TextEdit>) -> (r: Vec<TextEdit>)
    ensures
        edits_view(r@) == edits_view(edits@),
{
    let mut out: Vec<TextEdit> = Vec::new();
    let mut i: usize = 0;
    while i < edits.len()
        invariant
            i <= edits.len(),
            out@.len() == i,
            forall|k: int| 0 <= k < i ==> (#[trigger] out@[k])@ == edits@[k]@,
        decreases edits.len() - i,
    {
        let e: &TextEdit = &edits[i];
        out.push(
            TextEdit {
                start_line: e.start_line,
                start_char16: e.start_char16,
                end_line: e.end_line,
                end_char16: e.end_char16,
                new_text: e.new_text.clone(),
            },
        );
        i += 1;
    }
    assert(edits_view(out@) =~= edits_view(edits@));
    out
}

impl WorkspaceEdit {
    /// The same edit again.
    pub fn copy(&self) -> (r: WorkspaceEdit)
        ensures
            r@ == self@,
    {
        let mut out: Vec<FileEdit> = Vec::new();
        let mut i: usize = 0;
        while i < self.changes.len()
            invariant
                i <= self.changes.len(),
                out@.len() == i,
                forall|k: int|
                    0 <= k < i ==> (#[trigger] out@[k]).path@ == self.changes@[k].path@
                        && edits_view(out@[k].edits@) == edits_view(self.changes@[k].edits@),
            decreases self.changes.len() - i,
        {
            let f: &FileEdit = &self.changes[i];
            out.push(FileEdit { path: f.path.clone(), edits: copy_edits(&f.edits) });
            i += 1;
        }
        assert(files_view(out@) =~= files_view(self.changes@));
        WorkspaceEdit { changes: out }
    }
}

/// A command of the server, with its arguments as JSON text.
#[derive(Debug, PartialEq, Eq)]
pub struct ServerCommand {
    pub command: String,
    pub arguments: String,
}

/// A request to the server.
#[derive(Debug, PartialEq, Eq)]
pub enum Request {
    Hover,
    Definition,
    Implementation,
    TypeDefinition,
    References,
    DocumentSymbols,
    Formatting,
    Rename(String),
    SignatureHelp,
    Completion,
    DocumentHighlight,
    CodeAction,
    /// Fill in a completion item; `data` is the JSON text it came with.
    ResolveCompletion { label: String, data: String },
    ExecuteCommand(ServerCommand),
}

/// What a request to the server is.
pub enum RequestView {
    Hover,
    Definition,
    Implementation,
    TypeDefinition,
    References,
    DocumentSymbols,
    Formatting,
    Rename(Seq<char>),
    SignatureHelp,
    Completion,
    DocumentHighlight,
    CodeAction,
    ResolveCompletion { label: Seq<char>, data: Seq<char> },
    ExecuteCommand { command: Seq<char>, arguments: Seq<char> },
}

impl View for Request {
    type V = RequestView;

    open spec fn view(&self) -> RequestView {
        match *self {
            Request::Hover => RequestView::Hover,
            Request::Definition => RequestView::Definition,
            Request::Implementation => RequestView::Implementation,
            Request::TypeDefinition => RequestView::TypeDefinition,
            Request::References => RequestView::References,
            Request::DocumentSymbols => RequestView::DocumentSymbols,
            Request::Formatting => RequestView::Formatting,
            Request::Rename(name) => RequestView::Rename(name@),
            Request::SignatureHelp => RequestView::SignatureHelp,
            Request::Completion => RequestView::Completion,
            Request::DocumentHighlight => RequestView::DocumentHighlight,
            Request::CodeAction => RequestView::CodeAction,
            Request::ResolveCompletion { label, data } => RequestView::ResolveCompletion {
                label: label@,
                data: data@,
            },
            Request::ExecuteCommand(c) => RequestView::ExecuteCommand {
                command: c.command@,
                arguments: c.arguments@,
            },
        }
    }
}

} // verus!
