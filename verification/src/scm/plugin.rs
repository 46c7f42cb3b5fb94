//! The changes panel: the changed files of the repository, staging and committing.

use vstd::prelude::*;

use crate::contribution::{Contributions, Offer, PanelLocation};
use crate::doc::{lesser, minus};
use crate::effect::{effects_view, emit, no_effects, Effect, EffectView};
use crate::format::{decimal, decimal_of, join2, join3};
use crate::key::{Key, KeyCode};
use crate::number::wrapped;
use crate::path::{join, joined};
use crate::project_search::plugin::{job_names_read_back, job_number, read_job};
use crate::scm::status::{entries_view, opt_view, parse_status, status_of, EntryView, ScmEntry};
use crate::text::{is_blank, no_text, same, texts_of, trim};
use crate::ui::{
    empty_panel, entry_prompt, lines_view, no_lines, push_line, row, row_with, styled, LineView,
    PanelContent, PanelLine, PanelView, Prompt, Span,
};

verus! {

/// Entries listed at most.
pub const ENTRY_CAP: usize = 500;

/// The state of source control.
pub struct ScmPlugin {
    pub branch: Option<String>,
    pub entries: Vec<ScmEntry>,
    pub selected: usize,
    pub open: bool,
    /// The number of the last job; the answers of earlier ones are dropped.
    pub generation: u64,
    /// What was typed so far, while a commit message is asked for.
    pub commit_message: Option<String>,
}

pub struct ScmView {
    pub branch: Option<Seq<char>>,
    pub entries: Seq<EntryView>,
    pub selected: usize,
    pub open: bool,
    pub generation: u64,
    pub commit_message: Option<Seq<char>>,
}

impl View for ScmPlugin {
    type V = ScmView;

    open spec fn view(&self) -> ScmView {
        ScmView {
            branch: opt_view(self.branch),
            entries: entries_view(self.entries@),
            selected: self.selected,
            open: self.open,
            generation: self.generation,
            commit_message: opt_view(self.commit_message),
        }
    }
}

/// The state after an event, and what it asks for.
pub struct ScmStep {
    pub state: ScmView,
    pub out: Seq<EffectView>,
}

/// How many of the first `n` entries are staged.
pub open spec fn staged(v: Seq<EntryView>, n: int) -> nat
    decreases n,
{
    if n <= 0 {
        0
    } else {
        staged(v, n - 1) + if v[n - 1].is_staged() {
            1nat
        } else {
            0nat
        }
    }
}

/// The row of an entry.
pub open spec fn entry_row(e: EntryView) -> LineView {
    row_with(
        seq![
            styled(seq![e.index, e.worktree, ' '], "dim"@),
            styled(e.path, e.style()),
            styled("  "@ + e.label(), "dim"@),
        ],
        e.path,
    )
}

/// The rows of the first `n` entries.
pub open spec fn entry_rows(v: Seq<EntryView>, n: int) -> Seq<LineView> {
    Seq::new(n as nat, |i: int| entry_row(v[i]))
}

/// The first entry from `i` on with the path.
pub open spec fn entry_at(v: Seq<EntryView>, path: Seq<char>, i: int) -> Option<int>
    decreases v.len() - i,
{
    if i >= v.len() {
        None
    } else if v[i].path == path {
        Some(i)
    } else {
        entry_at(v, path, i + 1)
    }
}

impl ScmView {
    /// The number of entries that are listed.
    pub open spec fn listed(self) -> int {
        lesser(self.entries.len() as int, ENTRY_CAP as int)
    }

    /// The panel's first row.
    pub open spec fn title(self) -> LineView {
        let head = match self.branch {
            Some(b) => "on "@ + b,
            None => "not a git repository"@,
        };
        row(
            seq![
                styled(
                    head + "  ("@ + decimal(self.entries.len()) + " changed, "@ + decimal(
                        staged(self.entries, self.entries.len() as int),
                    ) + " staged)"@,
                    "title"@,
                ),
            ],
        )
    }

    /// What follows the listed entries.
    pub open spec fn ending(self) -> Seq<LineView> {
        let more = if self.entries.len() > ENTRY_CAP {
            seq![
                row(
                    seq![
                        styled(
                            "  … and "@ + decimal((self.entries.len() - ENTRY_CAP) as nat)
                                + " more"@,
                            "dim"@,
                        ),
                    ],
                ),
            ]
        } else {
            Seq::empty()
        };
        if self.entries.len() == 0 && self.branch is Some {
            more.push(row(seq![styled("Nothing to commit, working tree clean"@, "dim"@)]))
        } else {
            more
        }
    }

    /// The panel.
    pub open spec fn panel(self) -> PanelView {
        if !self.open {
            empty_panel()
        } else {
            PanelView {
                lines: seq![self.title()] + entry_rows(self.entries, self.listed())
                    + self.ending(),
                selected: if self.selected < self.listed() {
                    self.selected + 1
                } else {
                    0
                },
            }
        }
    }

    /// The panel's request.
    pub open spec fn shown(self) -> EffectView {
        EffectView::SetPanel { panel: "scm.changes"@, content: self.panel() }
    }

    /// A job is started, after other requests.
    pub open spec fn ran(self, args: Seq<Seq<char>>, out: Seq<EffectView>) -> ScmStep {
        let v = ScmView { generation: (self.generation + 1) as u64, ..self };
        ScmStep {
            state: v,
            out: out.push(
                EffectView::Git { job: "scm-status:"@ + decimal(v.generation as nat), args },
            ),
        }
    }

    /// A job on the selected path; nothing where none is selected.
    pub open spec fn ran_selected(self, args: Seq<Seq<char>>) -> ScmStep {
        if self.selected < self.entries.len() {
            self.ran(args.push(self.entries[self.selected as int].path), Seq::empty())
        } else {
            ScmStep { state: self, out: Seq::empty() }
        }
    }

    /// The prompt for the message.
    pub open spec fn prompt(self, message: Seq<char>, error: Option<Seq<char>>) -> EffectView {
        EffectView::SetPrompt(
            entry_prompt(
                "scm"@,
                "scm.commit"@,
                "Commit "@ + decimal(staged(self.entries, self.entries.len() as int))
                    + " staged file(s)"@,
                "Message"@,
                message,
                "[Enter] Commit   [Esc] Cancel"@,
                error,
            ),
        )
    }

    /// A commit is begun, where anything is staged.
    pub open spec fn begun(self) -> ScmStep {
        if staged(self.entries, self.entries.len() as int) == 0 {
            ScmStep { state: self, out: seq![EffectView::Notify("Nothing staged to commit"@)] }
        } else {
            let v = ScmView { commit_message: Some(Seq::empty()), ..self };
            ScmStep { state: v, out: seq![v.prompt(Seq::empty(), None)] }
        }
    }

    /// The staged changes are committed. A blank message is refused.
    pub open spec fn committed(self, message: Seq<char>) -> ScmStep {
        if is_blank(message) {
            ScmStep {
                state: self,
                out: seq![self.prompt(message, Some("A commit needs a message"@))],
            }
        } else {
            let s = ScmView { commit_message: None, ..self }.ran(
                seq!["commit"@, "-m"@, message],
                seq![EffectView::DismissPrompt],
            );
            ScmStep { out: s.out.push(EffectView::Notify("Committed"@)), ..s }
        }
    }

    /// The selection after a step, going round at the ends.
    pub open spec fn moved(self, delta: int) -> ScmView {
        if self.entries.len() == 0 {
            self
        } else {
            ScmView {
                selected: ((self.selected + delta) % (self.entries.len() as int)) as usize,
                ..self
            }
        }
    }

    /// What a command does, apart from showing the panel; nothing where it is not one of these.
    pub open spec fn commanded(self, command: Seq<char>) -> Option<ScmStep> {
        if command == "scm.show"@ {
            Some(ScmView { open: true, ..self }.ran(Seq::empty(), Seq::empty()))
        } else if command == "scm.refresh"@ {
            Some(self.ran(Seq::empty(), Seq::empty()))
        } else if command == "scm.stage"@ {
            Some(self.ran_selected(seq!["add"@, "-A"@, "--"@]))
        } else if command == "scm.unstage"@ {
            Some(self.ran_selected(seq!["restore"@, "--staged"@, "--"@]))
        } else if command == "scm.commit"@ {
            Some(self.begun())
        } else if command == "scm.next"@ {
            Some(ScmStep { state: self.moved(1), out: Seq::empty() })
        } else if command == "scm.prev"@ {
            Some(ScmStep { state: self.moved(-1), out: Seq::empty() })
        } else {
            None
        }
    }

    /// The message is another one; the prompt shows it.
    pub open spec fn worded(self, message: Seq<char>) -> ScmStep {
        let v = ScmView { commit_message: Some(message), ..self };
        ScmStep { state: v, out: seq![v.prompt(message, None)] }
    }

    /// What a key does while the message is asked for.
    pub open spec fn pressed(self, key: Key) -> ScmStep {
        let message = self.commit_message.unwrap();
        let idle = ScmStep { state: self, out: Seq::empty() };
        match key.code {
            KeyCode::Esc => ScmStep {
                state: ScmView { commit_message: None, ..self },
                out: seq![EffectView::DismissPrompt],
            },
            KeyCode::Enter => self.committed(message),
            KeyCode::Backspace => self.worded(
                if message.len() == 0 {
                    message
                } else {
                    message.drop_last()
                },
            ),
            KeyCode::Char(c) => if !key.ctrl && !key.alt {
                self.worded(message.push(c))
            } else {
                idle
            },
            _ => idle,
        }
    }

    /// What a job's answer does. Only the last job's answer counts; the selection stays on an entry.
    pub open spec fn answered(self, job: Seq<char>, payload: Seq<u8>) -> ScmStep {
        let st = status_of(payload);
        if job_number(job, "scm-status:"@) != Some(self.generation as int) {
            ScmStep { state: self, out: Seq::empty() }
        } else {
            let v = ScmView {
                branch: st.branch,
                entries: st.entries,
                selected: if self.selected >= st.entries.len() {
                    minus(st.entries.len() as int, 1) as usize
                } else {
                    self.selected
                },
                ..self
            };
            ScmStep { state: v, out: seq![v.shown()] }
        }
    }

    /// A click on an entry opens and selects it.
    pub open spec fn clicked(self, root: Seq<char>, payload: Seq<char>) -> ScmStep {
        let v = ScmView {
            selected: match entry_at(self.entries, payload, 0) {
                Some(i) => i as usize,
                None => self.selected,
            },
            ..self
        };
        ScmStep { state: v, out: seq![EffectView::OpenPath(joined(root, payload)), v.shown()] }
    }
}

/// Texts as arguments.
fn args3(a: &str, b: &str, c: &str) -> (r: Vec<String>)
    ensures
        texts_of(r@) == seq![a@, b@, c@],
{
    let mut v: Vec<String> = Vec::new();
    v.push(a.to_owned());
    v.push(b.to_owned());
    v.push(c.to_owned());
    assert(texts_of(v@) =~= seq![a@, b@, c@]);
    v
}

/// What the plugin contributes.
pub open spec fn contributed() -> Offer {
    Offer::none()
        .panel("scm.changes"@, "Source Control"@, PanelLocation::Sidebar)
        .command("scm.show"@, "Source Control: Show Changes"@)
        .command("scm.refresh"@, "Source Control: Refresh"@)
        .command("scm.stage"@, "Source Control: Stage File"@)
        .command("scm.unstage"@, "Source Control: Unstage File"@)
        .command("scm.commit"@, "Source Control: Commit Staged"@)
        .command("scm.next"@, "Source Control: Select Next"@)
        .command("scm.prev"@, "Source Control: Select Previous"@)
}

impl ScmPlugin {
    /// What the plugin contributes.
    pub fn contributions() -> (r: Contributions)
        ensures
            r@ == contributed(),
    {
        Contributions::builder()
            .panel("scm.changes", "Source Control", PanelLocation::Sidebar)
            .command("scm.show", "Source Control: Show Changes")
            .command("scm.refresh", "Source Control: Refresh")
            .command("scm.stage", "Source Control: Stage File")
            .command("scm.unstage", "Source Control: Unstage File")
            .command("scm.commit", "Source Control: Commit Staged")
            .command("scm.next", "Source Control: Select Next")
            .command("scm.prev", "Source Control: Select Previous")
    }

    /// A closed panel.
    pub fn new() -> (r: ScmPlugin)
        ensures
            r@ == (ScmView {
                branch: None,
                entries: Seq::empty(),
                selected: 0,
                open: false,
                generation: 0,
                commit_message: None,
            }),
    {
        let r = ScmPlugin {
            branch: None,
            entries: Vec::new(),
            selected: 0,
            open: false,
            generation: 0,
            commit_message: None,
        };
        assert(entries_view(r.entries@) =~= Seq::empty());
        r
    }

    /// How many entries are staged.
    fn staged_count(&self) -> (r: u64)
        ensures
            r == staged(self@.entries, self@.entries.len() as int),
    {
        let mut n: u64 = 0;
        let mut i: usize = 0;
        while i < self.entries.len()
            invariant
                i <= self.entries.len(),
                n <= i,
                n == staged(self@.entries, i as int),
            decreases self.entries.len() - i,
        {
            assert(self@.entries[i as int] == self.entries@[i as int]@);
            if self.entries[i].is_staged() {
                n += 1;
            }
            i += 1;
        }
        n
    }

    /// Show the panel, or clear it where it is closed.
    fn render(&self, out: &mut Vec<Effect>)
        ensures
            effects_view(final(out)@) == effects_view(old(out)@).push(self@.shown()),
    {
        if !self.open {
            emit(
                out,
                Effect::SetPanel {
                    panel: "scm.changes".to_owned(),
                    content: PanelContent::empty(),
                },
            );
            return;
        }
        let mut title: String = match &self.branch {
            Some(b) => join2("on ", b.as_str()),
            None => "not a git repository".to_owned(),
        };
        title.push_str("  (");
        title.push_str(decimal_of(self.entries.len() as u64).as_str());
        title.push_str(" changed, ");
        title.push_str(decimal_of(self.staged_count()).as_str());
        title.push_str(" staged)");
        let mut lines: Vec<PanelLine> = no_lines();
        push_line(&mut lines, PanelLine::one(Span::new(title, "title")));
        let n: usize = if self.entries.len() > ENTRY_CAP {
            ENTRY_CAP
        } else {
            self.entries.len()
        };
        let ghost rows = entry_rows(self@.entries, n as int);
        assert(lines_view(lines@) =~= seq![self@.title()] + rows.take(0));
        let mut i: usize = 0;
        while i < n
            invariant
                i <= n <= self.entries.len(),
                rows == entry_rows(self@.entries, n as int),
                lines_view(lines@) == seq![self@.title()] + rows.take(i as int),
            decreases n - i,
        {
            let e: &ScmEntry = &self.entries[i];
            assert(self@.entries[i as int] == e@);
            let mut letters: String = no_text();
            letters.push(e.index);
            letters.push(e.worktree);
            letters.push(' ');
            assert(letters@ =~= seq![e.index, e.worktree, ' ']);
            let line: PanelLine = PanelLine::three(
                Span::new(letters, "dim"),
                Span::new(e.path.clone(), e.style()),
                Span::new(join2("  ", e.label()), "dim"),
            ).payload(e.path.clone());
            push_line(&mut lines, line);
            assert(rows.take(i + 1) =~= rows.take(i as int).push(rows[i as int]));
            assert(lines_view(lines@) =~= seq![self@.title()] + rows.take(i + 1));
            i += 1;
        }
        assert(rows.take(n as int) =~= rows);
        if self.entries.len() > ENTRY_CAP {
            push_line(
                &mut lines,
                PanelLine::one(
                    Span::new(
                        join3(
                            "  … and ",
                            decimal_of((self.entries.len() - ENTRY_CAP) as u64).as_str(),
                            " more",
                        ),
                        "dim",
                    ),
                ),
            );
        }
        if self.entries.len() == 0 && self.branch.is_some() {
            push_line(
                &mut lines,
                PanelLine::one(
                    Span::new("Nothing to commit, working tree clean".to_owned(), "dim"),
                ),
            );
        }
        assert(lines_view(lines@) =~= self@.panel().lines);
        let selected: usize = if self.selected < n {
            self.selected + 1
        } else {
            0
        };
        emit(
            out,
            Effect::SetPanel {
                panel: "scm.changes".to_owned(),
                content: PanelContent { lines, selected },
            },
        );
    }

    /// Start a job: a change of the repository, where there are arguments, and its status.
    fn run_git(&mut self, args: Vec<String>, out: &mut Vec<Effect>)
        requires
            old(self).generation < u64::MAX,
        ensures
            final(self)@ == old(self)@.ran(texts_of(args@), effects_view(old(out)@)).state,
            effects_view(final(out)@) == old(self)@.ran(
                texts_of(args@),
                effects_view(old(out)@),
            ).out,
    {
        self.generation = self.generation + 1;
        emit(
            out,
            Effect::Git { job: join2("scm-status:", decimal_of(self.generation).as_str()), args },
        );
    }

    /// Start a job on the selected path.
    fn run_selected(&mut self, args: Vec<String>, out: &mut Vec<Effect>)
        requires
            old(self).generation < u64::MAX,
            effects_view(old(out)@) == Seq::<EffectView>::empty(),
        ensures
            final(self)@ == old(self)@.ran_selected(texts_of(args@)).state,
            effects_view(final(out)@) == old(self)@.ran_selected(texts_of(args@)).out,
    {
        if self.selected < self.entries.len() {
            let path: String = self.entries[self.selected].path.clone();
            assert(self@.entries[self.selected as int] == self.entries@[self.selected as int]@);
            let mut all: Vec<String> = args;
            proof {
                crate::text::lemma_texts_push(all@, path);
            }
            all.push(path);
            self.run_git(all, out);
        }
    }

    /// The prompt for the message.
    fn message_prompt(&self, message: &str, error: Option<String>) -> (r: Effect)
        ensures
            r@ == self@.prompt(message@, opt_view(error)),
    {
        let title: String = join3(
            "Commit ",
            decimal_of(self.staged_count()).as_str(),
            " staged file(s)",
        );
        Effect::SetPrompt(
            Prompt::entry(
                "scm",
                "scm.commit",
                title,
                "Message",
                message.to_owned(),
                "[Enter] Commit   [Esc] Cancel",
                error,
            ),
        )
    }

    /// Move the selection, going round at the ends.
    pub fn move_selection(&mut self, delta: isize)
        ensures
            final(self)@ == old(self)@.moved(delta as int),
    {
        if self.entries.len() > 0 {
            self.selected = wrapped(self.selected, delta, self.entries.len());
        }
    }

    /// Run a command and show the panel; none where it is not one of these.
    pub fn run_command(&mut self, command_id: &str) -> (r: Option<Vec<Effect>>)
        requires
            old(self).generation < u64::MAX,
        ensures
            match old(self)@.commanded(command_id@) {
                Some(step) => r is Some && final(self)@ == step.state && effects_view(r->0@)
                    == step.out.push(step.state.shown()),
                None => r is None && *final(self) == *old(self),
            },
    {
        let mut out: Vec<Effect> = no_effects();
        if same(command_id, "scm.show") {
            self.open = true;
            self.refresh(&mut out);
        } else if same(command_id, "scm.refresh") {
            self.refresh(&mut out);
        } else if same(command_id, "scm.stage") {
            self.run_selected(args3("add", "-A", "--"), &mut out);
        } else if same(command_id, "scm.unstage") {
            self.run_selected(args3("restore", "--staged", "--"), &mut out);
        } else if same(command_id, "scm.commit") {
            if self.staged_count() == 0 {
                emit(&mut out, Effect::Notify("Nothing staged to commit".to_owned()));
            } else {
                self.commit_message = Some(no_text());
                emit(&mut out, self.message_prompt("", None));
                proof {
                    reveal_strlit("");
                    assert(""@ =~= Seq::empty());
                }
            }
        } else if same(command_id, "scm.next") {
            self.move_selection(1);
        } else if same(command_id, "scm.prev") {
            self.move_selection(-1);
        } else {
            return None;
        }
        self.render(&mut out);
        Some(out)
    }

    /// Ask for the status.
    fn refresh(&mut self, out: &mut Vec<Effect>)
        requires
            old(self).generation < u64::MAX,
        ensures
            final(self)@ == old(self)@.ran(Seq::empty(), effects_view(old(out)@)).state,
            effects_view(final(out)@) == old(self)@.ran(
                Seq::empty(),
                effects_view(old(out)@),
            ).out,
    {
        let none: Vec<String> = Vec::new();
        assert(texts_of(none@) =~= Seq::empty());
        self.run_git(none, out);
    }

    /// Handle a key while a message is asked for; none where another prompt has the keys.
    pub fn on_prompt_key(&mut self, prompt_id: &str, key: Key) -> (r: Option<Vec<Effect>>)
        requires
            old(self).generation < u64::MAX,
        ensures
            r is Some == (prompt_id@ == "scm.commit"@ && old(self).commit_message is Some),
            r is None ==> *final(self) == *old(self),
            r is Some ==> final(self)@ == old(self)@.pressed(key).state && effects_view(r->0@)
                == old(self)@.pressed(key).out,
    {
        if !same(prompt_id, "scm.commit") {
            return None;
        }
        let taken: Option<String> = self.commit_message.take();
        let mut message: String = match taken {
            Some(m) => m,
            None => return None,
        };
        let mut out: Vec<Effect> = no_effects();
        match key.code {
            KeyCode::Esc => {
                emit(&mut out, Effect::DismissPrompt);
                return Some(out);
            },
            KeyCode::Enter => {
                if trim(message.as_str()).as_str().is_empty() {
                    let shown: Effect = self.message_prompt(
                        message.as_str(),
                        Some("A commit needs a message".to_owned()),
                    );
                    emit(&mut out, shown);
                    self.commit_message = Some(message);
                    assert(effects_view(out@) == old(self)@.pressed(key).out);
                    return Some(out);
                }
                emit(&mut out, Effect::DismissPrompt);
                self.run_git(args3("commit", "-m", message.as_str()), &mut out);
                emit(&mut out, Effect::Notify("Committed".to_owned()));
                return Some(out);
            },
            KeyCode::Backspace => {
                let _ = message.pop();
                emit(&mut out, self.message_prompt(message.as_str(), None));
            },
            KeyCode::Char(c) => {
                if !key.ctrl && !key.alt {
                    message.push(c);
                    emit(&mut out, self.message_prompt(message.as_str(), None));
                }
            },
            _ => {},
        }
        self.commit_message = Some(message);
        Some(out)
    }

    /// Open and select an entry that was clicked on.
    pub fn on_panel_activate(&mut self, panel_id: &str, payload: &str, root: &str) -> (r: Vec<
        Effect,
    >)
        ensures
            panel_id@ == "scm.changes"@ ==> final(self)@ == old(self)@.clicked(
                root@,
                payload@,
            ).state && effects_view(r@) == old(self)@.clicked(root@, payload@).out,
            panel_id@ != "scm.changes"@ ==> *final(self) == *old(self) && effects_view(r@) == Seq::<
                EffectView,
            >::empty(),
    {
        let mut out: Vec<Effect> = no_effects();
        if !same(panel_id, "scm.changes") {
            return out;
        }
        emit(&mut out, Effect::OpenPath(join(root, payload)));
        let mut i: usize = 0;
        while i < self.entries.len() && !same(self.entries[i].path.as_str(), payload)
            invariant
                i <= self.entries.len(),
                self@ == old(self)@,
                entry_at(self@.entries, payload@, 0) == entry_at(
                    self@.entries,
                    payload@,
                    i as int,
                ),
            decreases self.entries.len() - i,
        {
            assert(self@.entries[i as int] == self.entries@[i as int]@);
            i += 1;
        }
        if i < self.entries.len() {
            assert(self@.entries[i as int] == self.entries@[i as int]@);
            self.selected = i;
        }
        self.render(&mut out);
        out
    }

    /// Take the answer of a job.
    pub fn on_job(&mut self, id: &str, payload: &[u8]) -> (r: Vec<Effect>)
        ensures
            final(self)@ == old(self)@.answered(id@, payload@).state,
            effects_view(r@) == old(self)@.answered(id@, payload@).out,
    {
        let mut out: Vec<Effect> = no_effects();
        let g: u64 = match read_job(id, "scm-status:") {
            Some(g) => g,
            None => return out,
        };
        if g != self.generation {
            return out;
        }
        let (branch, entries): (Option<String>, Vec<ScmEntry>) = parse_status(payload);
        assert(entries_view(entries@).len() == entries@.len());
        self.branch = branch;
        self.entries = entries;
        if self.selected >= self.entries.len() {
            self.selected = if self.entries.len() == 0 {
                0
            } else {
                self.entries.len() - 1
            };
        }
        self.render(&mut out);
        out
    }

    /// A document was saved: ask for the status, where the panel is open.
    pub fn on_save(&mut self) -> (r: Vec<Effect>)
        requires
            old(self).generation < u64::MAX,
        ensures
            old(self).open ==> final(self)@ == old(self)@.ran(Seq::empty(), Seq::empty()).state
                && effects_view(r@) == old(self)@.ran(Seq::empty(), Seq::empty()).out,
            !old(self).open ==> *final(self) == *old(self) && effects_view(r@) == Seq::<
                EffectView,
            >::empty(),
    {
        let mut out: Vec<Effect> = no_effects();
        if self.open {
            self.refresh(&mut out);
        }
        out
    }
}

/// The answer of an earlier job changes nothing.
pub proof fn stale_statuses_are_dropped(v: ScmView, g: u64, payload: Seq<u8>)
    requires
        g != v.generation,
    ensures
        v.answered("scm-status:"@ + decimal(g as nat), payload) == (ScmStep {
            state: v,
            out: Seq::empty(),
        }),
{
    job_names_read_back("scm-status:"@, g);
}

/// The answer of the last job is what is shown, with the selection on an entry where there are any.
pub proof fn the_last_status_is_shown(v: ScmView, payload: Seq<u8>)
    requires
        status_of(payload).entries.len() <= usize::MAX,
    ensures
        ({
            let w = v.answered("scm-status:"@ + decimal(v.generation as nat), payload).state;
            w.branch == status_of(payload).branch && w.entries == status_of(payload).entries && (
            w.entries.len() > 0 ==> w.selected < w.entries.len())
        }),
{
    job_names_read_back("scm-status:"@, v.generation);
}

/// Nothing is committed without a message.
pub proof fn commits_need_a_message(v: ScmView, message: Seq<char>)
    requires
        is_blank(message),
    ensures
        v.committed(message).state == v,
        v.committed(message).out.len() == 1,
        v.committed(message).out[0] is SetPrompt,
{
}

/// Nothing is committed while nothing is staged.
pub proof fn commits_need_staged_changes(v: ScmView)
    requires
        forall|i: int| 0 <= i < v.entries.len() ==> !(#[trigger] v.entries[i]).is_staged(),
    ensures
        v.begun() == (ScmStep {
            state: v,
            out: seq![EffectView::Notify("Nothing staged to commit"@)],
        }),
{
    lemma_none_staged(v.entries, v.entries.len() as int);
}

proof fn lemma_none_staged(v: Seq<EntryView>, n: int)
    requires
        0 <= n <= v.len(),
        forall|i: int| 0 <= i < v.len() ==> !(#[trigger] v[i]).is_staged(),
    ensures
        staged(v, n) == 0,
    decreases n,
{
    if n > 0 {
        lemma_none_staged(v, n - 1);
    }
}

} // verus!
