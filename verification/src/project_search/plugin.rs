//! The search panel: query and replacement, the results of the last search, and replacing them.

use vstd::prelude::*;

use crate::bytes::{le_value, read_long, utf8};
use crate::contribution::{Contributions, Offer, PanelLocation};
use crate::doc::{greater, lesser, max_of, min_of, minus, minus_of, Doc};
use crate::effect::{
    changes_view, effects_view, emit, no_effects, Change, ChangeView, Effect, EffectView,
};
use crate::format::{decimal, decimal_of, join2, join3, join5, pad_left, padded_left};
use crate::key::{Key, KeyCode};
use crate::number::{decimals_read_back, parse_within, parsed, wrapped};
use crate::path::{has_path, is_same_path, path_key, path_keys, same_path, show, shown};
use crate::pattern::{
    build_error, char_range, char_ranges, compile, expand, expansion, find_ranges, matches_in,
    replace_all, rewritten, Pattern,
};
use crate::place::{payload_of, place_of, read_place};
use crate::project_search::framing::{decode, decoded, hits_view, HitView, SearchHit};
use crate::text::{
    after_prefix, first_chars, lemma_prefix_comes_off, lemma_texts_push, no_text, same, shorter,
    string_of, strip_start, take_chars, texts_of, utf8_text,
};
use crate::ui::{
    blank_prompt, empty_panel, lines_view, no_lines, opt_text, push_line, row, row_with, styled,
    LineView, PanelContent, PanelLine, PanelView, Placement, Prompt, Span,
};
use vstd::utf8::{decode_utf8, valid_utf8};

verus! {

/// Hits kept at most.
pub const HIT_CAP: usize = 2000;

/// The input line that typing goes to.
#[derive(Debug, Clone, Copy, PartialEq, Eq, Structural)]
pub enum Field {
    Query,
    Replace,
}

/// The search panel's state.
pub struct ProjectSearchPlugin {
    pub query: String,
    pub case_sensitive: bool,
    pub results: Vec<SearchHit>,
    pub selected: usize,
    pub running: bool,
    /// The number of the last job; the answers of earlier ones are dropped.
    pub generation: u64,
    /// The query of the last search.
    pub last_run: String,
    pub replace: String,
    pub field: Field,
    /// Open documents changed by a replacement whose job is still running.
    pub pending_buffer_replacements: usize,
}

pub struct SearchView {
    pub query: Seq<char>,
    pub case_sensitive: bool,
    pub results: Seq<HitView>,
    pub selected: usize,
    pub running: bool,
    pub generation: u64,
    pub last_run: Seq<char>,
    pub replace: Seq<char>,
    pub field: Field,
    pub pending: usize,
}

impl View for ProjectSearchPlugin {
    type V = SearchView;

    open spec fn view(&self) -> SearchView {
        SearchView {
            query: self.query@,
            case_sensitive: self.case_sensitive,
            results: hits_view(self.results@),
            selected: self.selected,
            running: self.running,
            generation: self.generation,
            last_run: self.last_run@,
            replace: self.replace@,
            field: self.field,
            pending: self.pending_buffer_replacements,
        }
    }
}

/// An open document.
pub struct OpenDoc {
    pub id: u64,
    pub path: Option<String>,
    pub chars: Vec<char>,
}

/// The panel after an event, and what it asks for.
pub struct SearchStep {
    pub state: SearchView,
    pub out: Seq<EffectView>,
}

/// A mark behind the input line that typing goes to.
pub open spec fn caret(on: bool) -> Seq<char> {
    if on {
        "▏"@
    } else {
        ""@
    }
}

/// The row of a hit.
pub open spec fn hit_row(h: HitView) -> LineView {
    row_with(
        seq![
            styled("  "@ + padded_left(decimal(h.line as nat), ' ', 4) + ": "@, "dim"@),
            styled(first_chars(h.text, 120), "text"@),
        ],
        payload_of(h.path, h.line as nat),
    )
}

impl SearchView {
    /// The two input lines.
    pub open spec fn head_rows(self) -> Seq<LineView> {
        let status = if self.running {
            "searching…"@
        } else {
            decimal(self.results.len()) + " result(s)"@
        };
        seq![
            row(
                seq![
                    styled(
                        "Search:  "@ + self.query + caret(self.field == Field::Query) + "  ["@ + (
                        status + "]"@),
                        "title"@,
                    ),
                ],
            ),
            row(
                seq![
                    styled(
                        "Replace: "@ + self.replace + caret(self.field == Field::Replace)
                            + "   (Tab switches · Alt+A replaces every match)"@,
                        "dim"@,
                    ),
                ],
            ),
        ]
    }

    /// The rows of the first `n` hits, each file's name in front of its hits.
    pub open spec fn rows(self, root: Seq<char>, n: int) -> PanelView
        decreases n,
    {
        if n <= 0 {
            PanelView { lines: self.head_rows(), selected: 0 }
        } else {
            let p = self.rows(root, n - 1);
            let h = self.results[n - 1];
            let lines = if n == 1 || !same_path(self.results[n - 2].path, h.path) {
                p.lines.push(row(seq![styled(shown(root, h.path), "dir"@)]))
            } else {
                p.lines
            };
            PanelView {
                lines: lines.push(hit_row(h)),
                selected: if n - 1 == self.selected {
                    lines.len() as int
                } else {
                    p.selected
                },
            }
        }
    }

    /// The panel's request.
    pub open spec fn shown(self, root: Seq<char>) -> EffectView {
        EffectView::SetPanel {
            panel: "search.results"@,
            content: self.rows(root, self.results.len() as int),
        }
    }

    /// The panel is opened on a document: the query is the selected text, where there is one.
    pub open spec fn opened(self, d: Option<&Doc>) -> SearchView {
        SearchView {
            query: match d {
                Some(d) => if d.anchor == d.head {
                    self.query
                } else {
                    d.slice(
                        lesser(d.anchor as int, d.head as int),
                        greater(d.anchor as int, d.head as int),
                    )
                },
                None => self.query,
            },
            results: Seq::empty(),
            selected: 0,
            running: false,
            last_run: Seq::empty(),
            field: Field::Query,
            ..self
        }
    }

    /// The selection after a step, going round at the ends.
    pub open spec fn moved(self, delta: int) -> SearchView {
        if self.results.len() == 0 {
            self
        } else {
            SearchView {
                selected: ((self.selected + delta) % (self.results.len() as int)) as usize,
                ..self
            }
        }
    }

    /// A search is started, after other requests.
    pub open spec fn run(self, root: Seq<char>, out: Seq<EffectView>) -> SearchStep {
        if self.query.len() == 0 {
            SearchStep { state: self, out }
        } else {
            let v = SearchView {
                running: true,
                results: Seq::empty(),
                selected: 0,
                generation: (self.generation + 1) as u64,
                last_run: self.query,
                ..self
            };
            SearchStep {
                state: v,
                out: out.push(
                    EffectView::Search {
                        job: "search:"@ + decimal(v.generation as nat),
                        query: self.query,
                        case_sensitive: self.case_sensitive,
                        cap: HIT_CAP as int,
                    },
                ).push(v.shown(root)),
            }
        }
    }

    /// What is replaced: the query of the last search, or the one in the box where none was run.
    pub open spec fn sought(self) -> Seq<char> {
        if self.last_run.len() == 0 {
            self.query
        } else {
            self.last_run
        }
    }

    /// The change that replaces a match in a text, where the replacement's references are filled in
    /// to `expanded`; the replacement as it is where nothing was filled in.
    pub open spec fn change(
        self,
        text: Seq<char>,
        m: (usize, usize),
        expanded: Option<Seq<char>>,
    ) -> ChangeView {
        ChangeView {
            at: m.0 as int,
            removed: text.subrange(m.0 as int, m.1 as int),
            inserted: match expanded {
                Some(t) => t,
                None => self.replace,
            },
        }
    }

    /// The change that replaces a match of the last search in a text.
    pub open spec fn substitution(self, text: Seq<char>, m: (usize, usize)) -> ChangeView {
        let matched = text.subrange(m.0 as int, m.1 as int);
        self.change(
            text,
            m,
            expansion(self.sought(), !self.case_sensitive, matched, self.replace),
        )
    }

    /// The changes that replace every match in a text.
    pub open spec fn substitutions(self, text: Seq<char>) -> Seq<ChangeView> {
        matches_in(self.sought(), !self.case_sensitive, text).map_values(
            |m: (usize, usize)| self.substitution(text, char_range(text, m)),
        )
    }

    /// The files of the first `n` hits, each once, in the order of their first hits.
    pub open spec fn files(self, n: int) -> Seq<Seq<char>>
        decreases n,
    {
        if n <= 0 {
            Seq::empty()
        } else if path_keys(self.files(n - 1)).contains(path_key(self.results[n - 1].path)) {
            self.files(n - 1)
        } else {
            self.files(n - 1).push(self.results[n - 1].path)
        }
    }

    /// The first `n` files: those that are open are changed, the others are left for the disk.
    pub open spec fn split(self, docs: Seq<OpenDoc>, files: Seq<Seq<char>>, n: int) -> Split
        decreases n,
    {
        if n <= 0 {
            Split { out: Seq::empty(), changed: 0, disk: Seq::empty() }
        } else {
            let p = self.split(docs, files, n - 1);
            match open_at(docs, files[n - 1], 0) {
                None => Split { disk: p.disk.push(files[n - 1]), ..p },
                Some(k) => {
                    let changes = self.substitutions(docs[k].chars@);
                    if changes.len() == 0 {
                        p
                    } else {
                        Split {
                            out: p.out.push(EffectView::ApplyTo { doc: docs[k].id, changes }),
                            changed: p.changed + 1,
                            ..p
                        }
                    }
                },
            }
        }
    }

    /// Every match of the last search is replaced: at once in open documents, in a job in the other files.
    pub open spec fn replaced(self, root: Seq<char>, docs: Seq<OpenDoc>) -> SearchStep {
        let files = self.files(self.results.len() as int);
        let s = self.split(docs, files, files.len() as int);
        if self.query.len() == 0 || self.results.len() == 0 {
            SearchStep { state: self, out: Seq::empty() }
        } else if build_error(self.sought(), !self.case_sensitive) is Some {
            SearchStep {
                state: self,
                out: seq![
                    EffectView::Notify("Replace: the search pattern is not a valid regex"@),
                ],
            }
        } else if s.disk.len() == 0 {
            self.run(
                root,
                s.out.push(
                    EffectView::Notify(
                        "Replaced in "@ + decimal(s.changed as nat) + " open file(s)"@,
                    ),
                ),
            )
        } else {
            let v = SearchView {
                generation: (self.generation + 1) as u64,
                pending: s.changed as usize,
                ..self
            };
            SearchStep {
                state: v,
                out: s.out.push(
                    EffectView::Rewrite {
                        job: "replace:"@ + decimal(v.generation as nat),
                        paths: s.disk,
                        query: self.sought(),
                        case_sensitive: self.case_sensitive,
                        replacement: self.replace,
                    },
                ).push(EffectView::Notify("Replacing…"@)),
            }
        }
    }

    /// The requests that open the selected hit.
    pub open spec fn open_selected(self) -> Seq<EffectView> {
        if self.selected < self.results.len() {
            let h = self.results[self.selected as int];
            seq![EffectView::OpenPathAt { path: h.path, line: minus(h.line as int, 1) }]
        } else {
            Seq::empty()
        }
    }

    pub open spec fn typed(self, c: char) -> SearchView {
        match self.field {
            Field::Query => SearchView { query: self.query.push(c), ..self },
            Field::Replace => SearchView { replace: self.replace.push(c), ..self },
        }
    }

    pub open spec fn erased(self) -> SearchView {
        match self.field {
            Field::Query => SearchView { query: shorter(self.query), ..self },
            Field::Replace => SearchView { replace: shorter(self.replace), ..self },
        }
    }

    pub open spec fn switched(self) -> SearchView {
        SearchView {
            field: if self.field == Field::Query {
                Field::Replace
            } else {
                Field::Query
            },
            ..self
        }
    }

    /// What a key does while the panel has the keys.
    #[verifier::opaque]
    pub open spec fn pressed(self, key: Key, root: Seq<char>, docs: Seq<OpenDoc>) -> SearchStep {
        let idle = SearchStep { state: self, out: Seq::empty() };
        match key.code {
            KeyCode::Esc => SearchStep {
                state: self,
                out: seq![
                    EffectView::DismissPrompt,
                    EffectView::SetPanel { panel: "search.results"@, content: empty_panel() },
                ],
            },
            KeyCode::Up => show_step(self.moved(-1), root),
            KeyCode::Down => show_step(self.moved(1), root),
            KeyCode::Tab => show_step(self.switched(), root),
            KeyCode::Backspace => show_step(self.erased(), root),
            KeyCode::Enter => if self.query != self.last_run {
                self.run(root, Seq::empty())
            } else {
                SearchStep { state: self, out: self.open_selected() }
            },
            KeyCode::Char(c) => if key.alt && (c == 'a' || c == 'A') {
                self.replaced(root, docs)
            } else if !key.ctrl && !key.alt {
                show_step(self.typed(c), root)
            } else {
                idle
            },
            _ => idle,
        }
    }

    /// What the answer of a job does. Only the last job's answer counts.
    pub open spec fn answered(self, job: Seq<char>, payload: Seq<u8>, root: Seq<char>) -> SearchStep {
        let idle = SearchStep { state: self, out: Seq::empty() };
        match job_number(job, "replace:"@) {
            Some(g) => if g != self.generation {
                idle
            } else {
                let files = lesser(rewritten_files(payload) + self.pending, u64::MAX as int);
                SearchView { pending: 0, ..self }.run(
                    root,
                    seq![
                        EffectView::Notify("Replaced in "@ + decimal(files as nat) + " file(s)"@),
                    ],
                )
            },
            None => match job_number(job, "search:"@) {
                Some(g) => if g != self.generation {
                    idle
                } else {
                    show_step(
                        SearchView {
                            results: decoded(payload),
                            selected: 0,
                            running: false,
                            ..self
                        },
                        root,
                    )
                },
                None => idle,
            },
        }
    }
}

/// A state, shown.
pub open spec fn show_step(v: SearchView, root: Seq<char>) -> SearchStep {
    SearchStep { state: v, out: seq![v.shown(root)] }
}

/// What replacing comes to: the changes of open documents, how many of them there are, and the files
/// that are left.
pub struct Split {
    pub out: Seq<EffectView>,
    pub changed: int,
    pub disk: Seq<Seq<char>>,
}

/// The first document from `i` on that has the path.
pub open spec fn open_at(docs: Seq<OpenDoc>, path: Seq<char>, i: int) -> Option<int>
    decreases docs.len() - i,
{
    if i >= docs.len() {
        None
    } else if docs[i].path is Some && same_path(docs[i].path->0@, path) {
        Some(i)
    } else {
        open_at(docs, path, i + 1)
    }
}

/// What a click on a row of a panel asks for: to open the place that the row carries, where it is a
/// row of the results.
pub open spec fn clicked(panel: Seq<char>, payload: Seq<char>) -> Seq<EffectView> {
    match place_of(payload) {
        Some((path, line)) => if panel == "search.results"@ {
            seq![EffectView::OpenPathAt { path, line: minus(line, 1) }]
        } else {
            Seq::empty()
        },
        None => Seq::empty(),
    }
}

/// The number in a job's name.
pub open spec fn job_number(job: Seq<char>, prefix: Seq<char>) -> Option<int> {
    match after_prefix(job, prefix) {
        Some(rest) => parsed(rest, u64::MAX as int),
        None => None,
    }
}

/// How many files a rewriting job says it changed.
pub open spec fn rewritten_files(payload: Seq<u8>) -> int {
    if payload.len() < 8 {
        0
    } else {
        le_value(payload, 0, 8)
    }
}

/// The pattern of a query, where it compiles.
pub fn search_pattern(query: &str, case_sensitive: bool) -> (r: Option<Pattern>)
    ensures
        match r {
            Some(p) => build_error(query@, !case_sensitive) is None && p.source() == query@
                && p.insensitive() == !case_sensitive,
            None => build_error(query@, !case_sensitive) is Some,
        },
{
    match compile(query.to_owned(), !case_sensitive) {
        Ok(p) => Some(p),
        Err(_) => None,
    }
}

/// A file's bytes with every match replaced; none where nothing changes, and none where the bytes
/// are no text.
pub open spec fn rewritten_bytes(
    source: Seq<char>,
    insensitive: bool,
    bytes: Seq<u8>,
    template: Seq<char>,
) -> Option<Seq<u8>> {
    let text = decode_utf8(bytes);
    if valid_utf8(bytes) {
        changed_bytes(text, rewritten(source, insensitive, text, template))
    } else {
        None
    }
}

/// What is written in place of a file's text that was changed to `after`; nothing where that is the
/// text as it was.
pub open spec fn changed_bytes(text: Seq<char>, after: Seq<char>) -> Option<Seq<u8>> {
    if after == text {
        None
    } else {
        Some(utf8(after))
    }
}

/// What is written in place of a file's text that was changed to `after`.
pub fn bytes_if_changed(text: &str, after: &str) -> (r: Option<Vec<u8>>)
    ensures
        match r {
            Some(b) => changed_bytes(text@, after@) == Some(b@),
            None => changed_bytes(text@, after@) is None,
        },
{
    if same(after, text) {
        None
    } else {
        let mut out: Vec<u8> = Vec::new();
        crate::bytes::push_bytes(&mut out, after.as_bytes());
        assert(out@ =~= utf8(after@));
        Some(out)
    }
}

/// A file's bytes with every match replaced.
pub fn rewrite_bytes(p: &Pattern, bytes: &[u8], replacement: &str) -> (r: Option<Vec<u8>>)
    ensures
        match r {
            Some(b) => rewritten_bytes(p.source(), p.insensitive(), bytes@, replacement@) == Some(
                b@,
            ),
            None => rewritten_bytes(p.source(), p.insensitive(), bytes@, replacement@) is None,
        },
{
    match utf8_text(bytes) {
        None => None,
        Some(text) => {
            let after: String = replace_all(p, text.as_str(), replacement);
            bytes_if_changed(text.as_str(), after.as_str())
        },
    }
}

/// The plugin before the first search.
pub open spec fn unsearched() -> SearchView {
    SearchView {
        query: Seq::empty(),
        case_sensitive: false,
        results: Seq::empty(),
        selected: 0,
        running: false,
        generation: 0,
        last_run: Seq::empty(),
        replace: Seq::empty(),
        field: Field::Query,
        pending: 0,
    }
}

/// What the plugin contributes.
pub open spec fn contributed() -> Offer {
    Offer::none()
        .command("search.project"@, "Search: Find in Files"@)
        .panel("search.results"@, "Search"@, PanelLocation::Bottom)
        .keybinding("ctrl+shift+f"@, "search.project"@)
}

impl ProjectSearchPlugin {
    /// What the plugin contributes.
    pub fn contributions() -> (r: Contributions)
        ensures
            r@ == contributed(),
    {
        Contributions::builder()
            .command("search.project", "Search: Find in Files")
            .panel("search.results", "Search", PanelLocation::Bottom)
            .keybinding("ctrl+shift+f", "search.project")
    }

    /// A closed panel.
    pub fn new() -> (r: ProjectSearchPlugin)
        ensures
            r@ == unsearched(),
    {
        let r = ProjectSearchPlugin {
            query: no_text(),
            case_sensitive: false,
            results: Vec::new(),
            selected: 0,
            running: false,
            generation: 0,
            last_run: no_text(),
            replace: no_text(),
            field: Field::Query,
            pending_buffer_replacements: 0,
        };
        assert(hits_view(r.results@) =~= Seq::empty());
        r
    }

    /// Move the selection, going round at the ends.
    pub fn move_selection(&mut self, delta: isize)
        ensures
            final(self)@ == old(self)@.moved(delta as int),
    {
        if self.results.len() > 0 {
            let n: usize = self.results.len();
            self.selected = wrapped(self.selected, delta, n);
        }
    }

    /// Open the panel on a document.
    pub fn open(&mut self, doc: Option<&Doc>, root: &str) -> (r: Vec<Effect>)
        ensures
            final(self)@ == old(self)@.opened(doc),
            effects_view(r@) == seq![
                EffectView::SetPrompt(
                    blank_prompt("project-search"@, "search"@, Placement::Panel),
                ),
                final(self)@.shown(root@),
            ],
    {
        if let Some(d) = doc {
            if d.anchor != d.head {
                self.query = d.text_between(min_of(d.anchor, d.head), max_of(d.anchor, d.head));
            }
        }
        self.results = Vec::new();
        assert(hits_view(self.results@) =~= Seq::empty());
        self.selected = 0;
        self.running = false;
        self.last_run = no_text();
        self.field = Field::Query;
        let mut out: Vec<Effect> = no_effects();
        emit(
            &mut out,
            Effect::SetPrompt(Prompt::new("project-search", "search", Placement::Panel)),
        );
        self.render(root, &mut out);
        out
    }

    /// Show the panel.
    fn render(&self, root: &str, out: &mut Vec<Effect>)
        ensures
            effects_view(final(out)@) == effects_view(old(out)@).push(self@.shown(root@)),
    {
        let status: String = if self.running {
            "searching…".to_owned()
        } else {
            join2(decimal_of(self.results.len() as u64).as_str(), " result(s)")
        };
        let on_query: &str = match self.field {
            Field::Query => "▏",
            Field::Replace => "",
        };
        let on_replace: &str = match self.field {
            Field::Query => "",
            Field::Replace => "▏",
        };
        let mut lines: Vec<PanelLine> = no_lines();
        let title: String = join5(
            "Search:  ",
            self.query.as_str(),
            on_query,
            "  [",
            join2(status.as_str(), "]").as_str(),
        );
        push_line(&mut lines, PanelLine::one(Span::new(title, "title")));
        let mut second: String = join3("Replace: ", self.replace.as_str(), on_replace);
        second.push_str("   (Tab switches · Alt+A replaces every match)");
        push_line(&mut lines, PanelLine::one(Span::new(second, "dim")));
        assert(lines_view(lines@) == self@.head_rows());
        let mut selected: usize = 0;
        let mut i: usize = 0;
        while i < self.results.len()
            invariant
                i <= self.results.len(),
                lines_view(lines@) == self@.rows(root@, i as int).lines,
                selected == self@.rows(root@, i as int).selected,
            decreases self.results.len() - i,
        {
            let h: &SearchHit = &self.results[i];
            assert(self@.results[i as int] == h@);
            if i > 0 {
                assert(self@.results[i - 1] == self.results@[i - 1]@);
            }
            if i == 0 || !is_same_path(self.results[i - 1].path.as_str(), h.path.as_str()) {
                push_line(
                    &mut lines,
                    PanelLine::one(Span::new(show(root, h.path.as_str()), "dir")),
                );
            }
            if i == self.selected {
                selected = lines.len();
                assert(lines_view(lines@).len() == lines@.len());
            }
            let number: String = decimal_of(h.line as u64);
            let place: String = join3("  ", pad_left(number.as_str(), ' ', 4).as_str(), ": ");
            let line: PanelLine = PanelLine::two(
                Span::new(place, "dim"),
                Span::new(take_chars(h.text.as_str(), 120), "text"),
            ).payload(join3(h.path.as_str(), "\t", number.as_str()));
            push_line(&mut lines, line);
            i += 1;
        }
        emit(
            out,
            Effect::SetPanel {
                panel: "search.results".to_owned(),
                content: PanelContent { lines, selected },
            },
        );
    }

    /// Start a search, after other requests.
    fn run(&mut self, root: &str, out: &mut Vec<Effect>)
        requires
            old(self).generation < u64::MAX,
        ensures
            final(self)@ == old(self)@.run(root@, effects_view(old(out)@)).state,
            effects_view(final(out)@) == old(self)@.run(root@, effects_view(old(out)@)).out,
    {
        if self.query.as_str().is_empty() {
            return;
        }
        self.running = true;
        self.results = Vec::new();
        assert(hits_view(self.results@) =~= Seq::empty());
        self.selected = 0;
        self.generation = self.generation + 1;
        self.last_run = self.query.clone();
        emit(
            out,
            Effect::Search {
                job: join2("search:", decimal_of(self.generation).as_str()),
                query: self.query.clone(),
                case_sensitive: self.case_sensitive,
                cap: HIT_CAP,
            },
        );
        self.render(root, out);
    }

    /// The files of the hits, each once, in the order of their first hits.
    fn files(&self) -> (r: Vec<String>)
        ensures
            texts_of(r@) == self@.files(self.results@.len() as int),
    {
        let mut files: Vec<String> = Vec::new();
        let mut i: usize = 0;
        assert(texts_of(files@) =~= Seq::empty());
        while i < self.results.len()
            invariant
                i <= self.results.len(),
                texts_of(files@) == self@.files(i as int),
            decreases self.results.len() - i,
        {
            let path: &String = &self.results[i].path;
            assert(self@.results[i as int] == self.results@[i as int]@);
            if !has_path(&files, path.as_str()) {
                let one: String = path.clone();
                proof {
                    lemma_texts_push(files@, one);
                }
                files.push(one);
            }
            i += 1;
        }
        files
    }

    /// What is replaced.
    fn sought(&self) -> (r: String)
        ensures
            r@ == self@.sought(),
    {
        if self.last_run.as_str().is_empty() {
            self.query.clone()
        } else {
            self.last_run.clone()
        }
    }

    /// The changes that replace every match in an open document.
    fn substitute(&self, p: &Pattern, chars: &Vec<char>) -> (r: Vec<Change>)
        requires
            p.source() == self@.sought(),
            p.insensitive() == !self.case_sensitive,
        ensures
            changes_view(r@) == self@.substitutions(chars@),
    {
        let text: String = string_of(chars.as_slice(), 0, chars.len());
        assert(text@ =~= chars@);
        let raw: Vec<(usize, usize)> = find_ranges(p, text.as_str());
        let ranges: Vec<(usize, usize)> = char_ranges(chars, &raw);
        proof {
            crate::pattern::lemma_char_ranges(chars@, raw@, ranges@);
        }
        let mut changes: Vec<Change> = Vec::new();
        let mut i: usize = 0;
        while i < ranges.len()
            invariant
                p.source() == self@.sought(),
                p.insensitive() == !self.case_sensitive,
                i <= ranges.len(),
                forall|k: int|
                    0 <= k < ranges@.len() ==> (#[trigger] ranges@[k]).0 <= ranges@[k].1
                        && ranges@[k].1 <= chars@.len(),
                changes@.len() == i,
                forall|k: int|
                    0 <= k < i ==> (#[trigger] changes@[k])@ == self@.substitution(
                        chars@,
                        ranges@[k],
                    ),
            decreases ranges.len() - i,
        {
            let (from, to): (usize, usize) = ranges[i];
            let removed: String = string_of(chars.as_slice(), from, to);
            let expanded: Option<String> = expand(p, removed.as_str(), self.replace.as_str());
            changes.push(self.change_for(chars.as_slice(), from, to, expanded));
            i += 1;
        }
        assert(changes_view(changes@) =~= self@.substitutions(chars@));
        changes
    }

    /// The change that replaces the match from `from` to `to`, with the replacement's references
    /// filled in to `expanded`.
    pub fn change_for(
        &self,
        chars: &[char],
        from: usize,
        to: usize,
        expanded: Option<String>,
    ) -> (r: Change)
        requires
            from <= to <= chars@.len(),
        ensures
            r@ == self@.change(chars@, (from, to), opt_text(expanded)),
    {
        let removed: String = string_of(chars, from, to);
        let inserted: String = match expanded {
            Some(t) => t,
            None => self.replace.clone(),
        };
        Change { at: from, removed, inserted }
    }

    /// Replace every match of the last search.
    pub fn replace_all(&mut self, root: &str, docs: &[OpenDoc]) -> (r: Vec<Effect>)
        requires
            old(self).generation < u64::MAX,
        ensures
            final(self)@ == old(self)@.replaced(root@, docs@).state,
            effects_view(r@) == old(self)@.replaced(root@, docs@).out,
    {
        let mut out: Vec<Effect> = no_effects();
        if self.query.as_str().is_empty() || self.results.len() == 0 {
            return out;
        }
        let query: String = self.sought();
        let p: Pattern = match search_pattern(query.as_str(), self.case_sensitive) {
            Some(p) => p,
            None => {
                emit(
                    &mut out,
                    Effect::Notify("Replace: the search pattern is not a valid regex".to_owned()),
                );
                return out;
            },
        };
        let files: Vec<String> = self.files();
        let mut disk: Vec<String> = Vec::new();
        let mut changed: usize = 0;
        let mut i: usize = 0;
        assert(texts_of(disk@) =~= Seq::empty());
        while i < files.len()
            invariant
                p.source() == self@.sought(),
                p.insensitive() == !self.case_sensitive,
                i <= files.len(),
                changed <= i,
                effects_view(out@) == self@.split(docs@, texts_of(files@), i as int).out,
                changed == self@.split(docs@, texts_of(files@), i as int).changed,
                texts_of(disk@) == self@.split(docs@, texts_of(files@), i as int).disk,
            decreases files.len() - i,
        {
            assert(texts_of(files@)[i as int] == files@[i as int]@);
            match find_open(docs, files[i].as_str()) {
                None => {
                    let one: String = files[i].clone();
                    proof {
                        lemma_texts_push(disk@, one);
                    }
                    disk.push(one);
                },
                Some(k) => {
                    let changes: Vec<Change> = self.substitute(&p, &docs[k].chars);
                    assert(changes_view(changes@).len() == changes@.len());
                    if changes.len() > 0 {
                        emit(&mut out, Effect::ApplyTo { doc: docs[k].id, changes });
                        changed += 1;
                    }
                },
            }
            i += 1;
        }
        assert(texts_of(disk@).len() == disk@.len());
        if disk.len() == 0 {
            emit(
                &mut out,
                Effect::Notify(
                    join3("Replaced in ", decimal_of(changed as u64).as_str(), " open file(s)"),
                ),
            );
            self.run(root, &mut out);
            return out;
        }
        self.generation = self.generation + 1;
        emit(
            &mut out,
            Effect::Rewrite {
                job: join2("replace:", decimal_of(self.generation).as_str()),
                paths: disk,
                query,
                case_sensitive: self.case_sensitive,
                replacement: self.replace.clone(),
            },
        );
        self.pending_buffer_replacements = changed;
        emit(&mut out, Effect::Notify("Replacing…".to_owned()));
        out
    }

    /// Run a command of the panel; none where it is not the panel's.
    pub fn run_command(&mut self, command_id: &str, doc: Option<&Doc>, root: &str) -> (r: Option<
        Vec<Effect>,
    >)
        ensures
            r is Some == (command_id@ == "search.project"@),
            r is None ==> *final(self) == *old(self),
            r is Some ==> final(self)@ == old(self)@.opened(doc) && effects_view(r->0@) == seq![
                EffectView::SetPrompt(
                    blank_prompt("project-search"@, "search"@, Placement::Panel),
                ),
                final(self)@.shown(root@),
            ],
    {
        if same(command_id, "search.project") {
            Some(self.open(doc, root))
        } else {
            None
        }
    }

    /// Handle a key while the panel has the keys; none where another prompt has them.
    pub fn on_prompt_key(&mut self, prompt_id: &str, key: Key, root: &str, docs: &[OpenDoc]) -> (r:
        Option<Vec<Effect>>)
        requires
            old(self).generation < u64::MAX,
        ensures
            r is Some == (prompt_id@ == "search"@),
            r is None ==> *final(self) == *old(self),
            r is Some ==> final(self)@ == old(self)@.pressed(key, root@, docs@).state
                && effects_view(r->0@) == old(self)@.pressed(key, root@, docs@).out,
    {
        proof {
            reveal(SearchView::pressed);
        }
        if !same(prompt_id, "search") {
            return None;
        }
        let mut out: Vec<Effect> = no_effects();
        match key.code {
            KeyCode::Esc => {
                emit(&mut out, Effect::DismissPrompt);
                emit(
                    &mut out,
                    Effect::SetPanel {
                        panel: "search.results".to_owned(),
                        content: PanelContent::empty(),
                    },
                );
                return Some(out);
            },
            KeyCode::Up => self.move_selection(-1),
            KeyCode::Down => self.move_selection(1),
            KeyCode::Tab => {
                self.field = match self.field {
                    Field::Query => Field::Replace,
                    Field::Replace => Field::Query,
                };
            },
            KeyCode::Backspace => match self.field {
                Field::Query => {
                    let _ = self.query.pop();
                },
                Field::Replace => {
                    let _ = self.replace.pop();
                },
            },
            KeyCode::Enter => {
                if !same(self.query.as_str(), self.last_run.as_str()) {
                    self.run(root, &mut out);
                } else if self.selected < self.results.len() {
                    let h: &SearchHit = &self.results[self.selected];
                    assert(self@.results[self.selected as int] == h@);
                    emit(
                        &mut out,
                        Effect::OpenPathAt { path: h.path.clone(), line: minus_of(h.line, 1) },
                    );
                }
                return Some(out);
            },
            KeyCode::Char(c) => {
                if key.alt && (c == 'a' || c == 'A') {
                    return Some(self.replace_all(root, docs));
                }
                if key.ctrl || key.alt {
                    return Some(out);
                }
                match self.field {
                    Field::Query => self.query.push(c),
                    Field::Replace => self.replace.push(c),
                }
            },
            _ => {
                return Some(out);
            },
        }
        self.render(root, &mut out);
        Some(out)
    }

    /// Take the answer of a job.
    pub fn on_job(&mut self, id: &str, payload: &[u8], root: &str) -> (r: Vec<Effect>)
        requires
            old(self).generation < u64::MAX,
        ensures
            final(self)@ == old(self)@.answered(id@, payload@, root@).state,
            effects_view(r@) == old(self)@.answered(id@, payload@, root@).out,
    {
        let mut out: Vec<Effect> = no_effects();
        if let Some(g) = read_job(id, "replace:") {
            if g != self.generation {
                return out;
            }
            let files: u64 = if payload.len() < 8 {
                0
            } else {
                read_long(payload)
            };
            let pending: u64 = self.pending_buffer_replacements as u64;
            let total: u64 = if files > u64::MAX - pending {
                u64::MAX
            } else {
                files + pending
            };
            self.pending_buffer_replacements = 0;
            emit(
                &mut out,
                Effect::Notify(join3("Replaced in ", decimal_of(total).as_str(), " file(s)")),
            );
            self.run(root, &mut out);
            return out;
        }
        if let Some(g) = read_job(id, "search:") {
            if g == self.generation {
                self.results = decode(payload);
                self.selected = 0;
                self.running = false;
                self.render(root, &mut out);
            }
        }
        out
    }

    /// Open the hit of a row that was clicked on.
    pub fn on_panel_activate(&self, panel_id: &str, payload: &str) -> (r: Vec<Effect>)
        ensures
            effects_view(r@) == clicked(panel_id@, payload@),
    {
        let mut out: Vec<Effect> = no_effects();
        if same(panel_id, "search.results") {
            if let Some((path, line)) = read_place(payload) {
                emit(&mut out, Effect::OpenPathAt { path, line: minus_of(line, 1) });
            }
        }
        out
    }
}

/// The first document that has the path.
fn find_open(docs: &[OpenDoc], path: &str) -> (r: Option<usize>)
    ensures
        match r {
            Some(k) => k < docs@.len() && open_at(docs@, path@, 0) == Some(k as int),
            None => open_at(docs@, path@, 0) is None,
        },
{
    let mut i: usize = 0;
    while i < docs.len()
        invariant
            i <= docs.len(),
            open_at(docs@, path@, 0) == open_at(docs@, path@, i as int),
        decreases docs.len() - i,
    {
        if let Some(p) = &docs[i].path {
            if is_same_path(p.as_str(), path) {
                return Some(i);
            }
        }
        i += 1;
    }
    None
}

/// The number in a job's name.
pub fn read_job(id: &str, prefix: &str) -> (r: Option<u64>)
    ensures
        match r {
            Some(g) => job_number(id@, prefix@) == Some(g as int),
            None => job_number(id@, prefix@) is None,
        },
{
    match strip_start(id, prefix) {
        Some(rest) => parse_within(rest.as_str(), u64::MAX),
        None => None,
    }
}

/// The number of a job reads back from its name.
pub proof fn job_names_read_back(prefix: Seq<char>, g: u64)
    ensures
        job_number(prefix + decimal(g as nat), prefix) == Some(g as int),
{
    lemma_prefix_comes_off(prefix, decimal(g as nat));
    decimals_read_back(g as nat, u64::MAX as int);
}

proof fn lemma_search_is_no_replace(g: u64)
    ensures
        job_number("search:"@ + decimal(g as nat), "replace:"@) is None,
{
    reveal_strlit("search:");
    reveal_strlit("replace:");
    let id = "search:"@ + decimal(g as nat);
    if id.len() >= "replace:"@.len() {
        assert(id.take("replace:"@.len() as int)[0] == 's');
    }
}

/// The answer of an earlier search changes nothing.
pub proof fn stale_answers_are_dropped(v: SearchView, g: u64, payload: Seq<u8>, root: Seq<char>)
    requires
        g != v.generation,
    ensures
        v.answered("search:"@ + decimal(g as nat), payload, root) == (SearchStep {
            state: v,
            out: Seq::empty(),
        }),
        v.answered("replace:"@ + decimal(g as nat), payload, root) == (SearchStep {
            state: v,
            out: Seq::empty(),
        }),
{
    job_names_read_back("search:"@, g);
    job_names_read_back("replace:"@, g);
    lemma_search_is_no_replace(g);
}

/// The answer of the search that was started last is what is shown.
pub proof fn the_last_search_is_shown(v: SearchView, payload: Seq<u8>, root: Seq<char>)
    ensures
        v.answered("search:"@ + decimal(v.generation as nat), payload, root).state == (SearchView {
            results: decoded(payload),
            selected: 0,
            running: false,
            ..v
        }),
{
    job_names_read_back("search:"@, v.generation);
    lemma_search_is_no_replace(v.generation);
}

proof fn lemma_files_upto(v: SearchView, n: int, k: int)
    requires
        0 <= k < n <= v.results.len(),
    ensures
        path_keys(v.files(n)).contains(path_key(v.results[k].path)),
    decreases n,
{
    let key = path_key(v.results[k].path);
    let f = path_keys(v.files(n - 1));
    let g = path_keys(v.files(n));
    if k < n - 1 {
        lemma_files_upto(v, n - 1, k);
        let j = choose|j: int| 0 <= j < f.len() && f[j] == key;
        assert(g[j] == key);
    } else if !f.contains(key) {
        assert(g[g.len() - 1] == key);
    }
}

/// Replacing reaches every file with a hit, and each once.
pub proof fn replacing_reaches_every_file_once(v: SearchView, n: int)
    requires
        0 <= n <= v.results.len(),
    ensures
        path_keys(v.files(n)).no_duplicates(),
        forall|k: int|
            0 <= k < n ==> path_keys(v.files(n)).contains(path_key((#[trigger] v.results[k]).path)),
    decreases n,
{
    if n > 0 {
        replacing_reaches_every_file_once(v, n - 1);
        let f = path_keys(v.files(n - 1));
        let g = path_keys(v.files(n));
        let key = path_key(v.results[n - 1].path);
        if !f.contains(key) {
            assert(g =~= f.push(key));
        }
    }
    assert forall|k: int| 0 <= k < n implies path_keys(v.files(n)).contains(
        path_key((#[trigger] v.results[k]).path),
    ) by {
        lemma_files_upto(v, n, k);
    }
}

/// Every file that replacing reaches is either open or left for the job, and none is both.
pub proof fn open_files_are_not_rewritten(
    v: SearchView,
    docs: Seq<OpenDoc>,
    files: Seq<Seq<char>>,
    n: int,
    path: Seq<char>,
)
    requires
        0 <= n <= files.len(),
        v.split(docs, files, n).disk.contains(path),
    ensures
        open_at(docs, path, 0) is None,
    decreases n,
{
    if n > 0 {
        let p = v.split(docs, files, n - 1);
        if !p.disk.contains(path) {
            let d = v.split(docs, files, n).disk;
            let j = choose|j: int| 0 <= j < d.len() && d[j] == path;
            if j < p.disk.len() {
                assert(p.disk[j] == path);
            }
        } else {
            open_files_are_not_rewritten(v, docs, files, n - 1, path);
        }
    }
}

} // verus!
