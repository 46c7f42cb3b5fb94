//! The modal layer as a whole: what a key needs to know, what it does, and how it is shown.

use vstd::prelude::*;

use crate::contribution::{Contributions, Offer};
use crate::doc::{min_of, minus_of, opt_wf, Doc};
use crate::effect::{effects_view, emit, no_effects, Effect, EffectView};
use crate::key::{Key, KeyCode};
use crate::text::same;
use crate::vim::motion::{ask_motion, motion_query, turn, turned, Answer, Query, StepKind};
use crate::vim::normal::{gg_line, object_from_key, object_named};
use crate::vim::session::{Session, Step};
use crate::vim::state::{fresh, opt_line, Mode, Prefix, Vim, VimState};

verus! {

/// The modal layer; its state is there while it is enabled.
pub struct VimPlugin {
    pub state: Option<VimState>,
}

/// What a key came to.
pub struct KeyOutcome {
    /// Whether the key goes no further.
    pub consumed: bool,
    /// Whether the recording is to be finished once the requests are performed.
    pub finish: bool,
    pub effects: Vec<Effect>,
}

/// What the status line shows: the mode, and the pending command.
pub struct VimBadge {
    pub mode: Mode,
    pub pending: Option<String>,
}

/// The query of `;` and `,`.
pub open spec fn find_query(v: Vim, reverse: bool) -> Query {
    match v.last_find {
        None => Query::Nothing,
        Some((fp, ch)) => Query::FindChar {
            kind: if reverse {
                turned(fp)
            } else {
                fp
            },
            ch,
        },
    }
}

/// The query of a key behind `g`.
pub open spec fn g_query(v: Vim, d: &Doc, code: KeyCode) -> Query {
    let count = match v.typed() {
        Some(n) => n as usize,
        None => 1,
    };
    match code {
        KeyCode::Char(c) => if c == 'g' {
            Query::FirstNonBlank(gg_line(d, v.typed()) as usize)
        } else if c == 'e' || c == 'E' {
            Query::Steps { step: StepKind::WordEndBack { big: c == 'E' }, count }
        } else if c == '_' {
            Query::LastNonBlank
        } else {
            Query::Nothing
        },
        _ => Query::Nothing,
    }
}

/// The query of a key behind a prefix.
pub open spec fn prefix_query(v: Vim, d: &Doc, prefix: Prefix, code: KeyCode) -> Query {
    match prefix {
        Prefix::Object { around } => match object_named(code) {
            Some(object) => Query::Object { object, around },
            None => Query::Nothing,
        },
        Prefix::G => g_query(v, d, code),
        _ => Query::Nothing,
    }
}

/// Whether the clipboard has to be read for a paste.
pub open spec fn pastes_clipboard(v: Vim) -> bool {
    v.register == Some('+') || v.register == Some('*')
}

/// What has to be known before a key can be handled: the answer to at most one query.
pub open spec fn needed(v: Vim, d: &Doc, key: Key, page: int) -> Query {
    if v.command is Some || v.search is Some || v.mode == Mode::Insert || key.code
        == KeyCode::Esc {
        Query::Nothing
    } else if v.find_pending is Some {
        match key.code {
            KeyCode::Char(ch) => Query::FindChar { kind: v.find_pending.unwrap(), ch },
            _ => Query::Nothing,
        }
    } else if v.prefix is Some {
        prefix_query(v, d, v.prefix.unwrap(), key.code)
    } else if v.mode == Mode::Normal && (key.ctrl || key.alt) {
        Query::Nothing
    } else if key.code == KeyCode::Char(';') {
        find_query(v, false)
    } else if key.code == KeyCode::Char(',') {
        find_query(v, true)
    } else if v.mode == Mode::Normal && v.operator is None && (key.code == KeyCode::Char('*')
        || key.code == KeyCode::Char('#')) {
        Query::WordAt
    } else if v.mode == Mode::Normal && v.operator is None && (key.code == KeyCode::Char('p')
        || key.code == KeyCode::Char('P')) {
        if pastes_clipboard(v) {
            Query::Clipboard
        } else {
            Query::Nothing
        }
    } else {
        motion_query(Some(d), key.code, v.typed(), page)
    }
}

/// Whether a key is the dot that repeats the last change. It is no part of a change, and neither is a
/// count or a register in front of it.
pub open spec fn is_dot(v: Vim, key: Key) -> bool {
    &&& v.mode == Mode::Normal
    &&& key.code == KeyCode::Char('.')
    &&& !key.ctrl
    &&& !key.alt
    &&& v.operator is None
    &&& v.prefix is None
    &&& v.find_pending is None
}

/// The state and requests after a key, whether it was taken, and whether the recording may be
/// finished after it.
pub open spec fn pressed(v: Vim, d: Option<&Doc>, key: Key, page: int, answer: &Answer) -> (
    Step,
    bool,
    bool,
) {
    let start = Step { vim: v, out: Seq::empty() };
    let rev = match d {
        Some(d) => d.revision,
        None => 0,
    };
    if v.command is Some {
        (start.command_key(d, key), true, false)
    } else if v.search is Some {
        (start.search_key(d, key), true, false)
    } else {
        let s = if v.replaying {
            start
        } else if is_dot(v, key) {
            Step { vim: Vim { recording: None, ..v }, out: Seq::empty() }
        } else {
            Step { vim: v.recorded(key, rev), out: Seq::empty() }
        };
        if v.mode == Mode::Insert {
            let r = s.insert_key(d, key);
            (r.0, r.1, true)
        } else if v.mode == Mode::Normal {
            let r = s.normal_key(d, key, page, answer);
            (r.0, r.1, true)
        } else {
            (s.visual_key(d, key, page, answer), true, true)
        }
    }
}

/// What the plugin contributes.
pub open spec fn contributed() -> Offer {
    Offer::none()
        .command("vim.toggle"@, "Vim: Toggle Vim Mode"@)
        .command("vim.enable"@, "Vim: Enable Vim Mode"@)
        .command("vim.disable"@, "Vim: Disable Vim Mode"@)
}

impl VimPlugin {
    /// What the plugin contributes.
    pub fn contributions() -> (r: Contributions)
        ensures
            r@ == contributed(),
    {
        Contributions::builder()
            .command("vim.toggle", "Vim: Toggle Vim Mode")
            .command("vim.enable", "Vim: Enable Vim Mode")
            .command("vim.disable", "Vim: Disable Vim Mode")
    }

    /// The layer, not enabled.
    pub fn new() -> (r: VimPlugin)
        ensures
            r.state is None,
    {
        VimPlugin { state: None }
    }

    /// What has to be known before a key can be handled.
    pub fn query(&self, d: Option<&Doc>, key: Key, page: usize) -> (r: Query)
        requires
            opt_wf(d),
        ensures
            r == (match (self.state, d) {
                (Some(s), Some(doc)) => needed(s@, doc, key, page as int),
                _ => Query::Nothing,
            }),
    {
        match (&self.state, d) {
            (Some(s), Some(doc)) => query_of(s, doc, key, page),
            _ => Query::Nothing,
        }
    }

    /// Handle a key, given the answer to its query. A key that is not taken falls through, so that
    /// typed text reaches the editor and its chords keep working.
    pub fn handle_key(&mut self, d: Option<&Doc>, key: Key, page: usize, answer: &Answer) -> (r:
        KeyOutcome)
        requires
            opt_wf(d),
        ensures
            match old(self).state {
                None => final(self).state is None && !r.consumed && !r.finish && r.effects@.len()
                    == 0,
                Some(s) => final(self).state is Some && ({
                    let p = pressed(s@, d, key, page as int, answer);
                    &&& final(self).state.unwrap()@ == p.0.vim
                    &&& effects_view(r.effects@) == p.0.out
                    &&& r.consumed == p.1
                    &&& r.finish == p.2
                }),
            },
    {
        let vim: VimState = match self.state.take() {
            Some(v) => v,
            None => {
                return KeyOutcome { consumed: false, finish: false, effects: Vec::new() };
            },
        };
        let mut s: Session = Session { vim, out: no_effects() };
        let mut consumed: bool = true;
        let mut finish: bool = false;
        let mode: Mode = s.vim.mode;
        if s.vim.command.is_some() {
            s.command_key(d, key);
        } else if s.vim.search.is_some() {
            s.search_key(d, key);
        } else {
            let dot: bool = mode == Mode::Normal && key.code == KeyCode::Char('.') && !key.ctrl
                && !key.alt && s.vim.operator.is_none() && s.vim.prefix.is_none()
                && s.vim.find_pending.is_none();
            if !s.vim.replaying {
                if dot {
                    s.vim.recording = None;
                } else {
                    let rev: u64 = match d {
                        Some(d) => d.revision,
                        None => 0,
                    };
                    s.vim.record_key(key, rev);
                }
            }
            finish = true;
            match mode {
                Mode::Insert => {
                    consumed = s.insert_key(d, key);
                },
                Mode::Normal => {
                    consumed = s.normal_key(d, key, page, answer);
                },
                Mode::Visual | Mode::VisualLine => {
                    s.visual_key(d, key, page, answer);
                },
            }
        }
        self.state = Some(s.vim);
        KeyOutcome { consumed, finish, effects: s.out }
    }

    /// Finish the recording, once a key's requests are performed; `rev` is the document's revision
    /// then.
    pub fn finish_key(&mut self, rev: u64)
        ensures
            match old(self).state {
                None => final(self).state is None,
                Some(s) => final(self).state is Some && final(self).state.unwrap()@ == (
                if s.replaying {
                    s@
                } else {
                    s@.finalized(rev)
                }),
            },
    {
        match self.state.take() {
            Some(mut v) => {
                if !v.replaying {
                    v.finalize_recording(rev);
                }
                self.state = Some(v);
            },
            None => {},
        }
    }

    /// The keys that `.` presses again.
    pub fn replay_keys(&self) -> (r: Vec<Key>)
        ensures
            r@ == (match self.state {
                Some(s) => s@.last_change,
                None => Seq::empty(),
            }),
    {
        match &self.state {
            Some(s) => vstd::slice::slice_to_vec(s.last_change.as_slice()),
            None => Vec::new(),
        }
    }

    /// Recorded keys are no longer being pressed.
    pub fn end_replay(&mut self)
        ensures
            match old(self).state {
                None => final(self).state is None,
                Some(s) => final(self).state is Some && final(self).state.unwrap()@ == (Vim {
                    replaying: false,
                    ..s@
                }),
            },
    {
        match self.state.take() {
            Some(mut v) => {
                v.replaying = false;
                self.state = Some(v);
            },
            None => {},
        }
    }

    /// Enable or disable the layer. Enabling it twice keeps its state.
    pub fn set_enabled(&mut self, on: bool) -> (r: Vec<Effect>)
        ensures
            on ==> final(self).state is Some && final(self).state.unwrap()@ == (
            match old(self).state {
                Some(s) => s@,
                None => fresh(),
            }),
            !on ==> final(self).state is None,
            effects_view(r@) == seq![
                EffectView::Notify(
                    if on {
                        "Vim mode enabled"@
                    } else {
                        "Vim mode disabled"@
                    },
                ),
            ],
    {
        let mut out: Vec<Effect> = no_effects();
        if on {
            if self.state.is_none() {
                self.state = Some(VimState::new());
            }
            emit(&mut out, Effect::Notify("Vim mode enabled".to_owned()));
        } else {
            self.state = None;
            emit(&mut out, Effect::Notify("Vim mode disabled".to_owned()));
        }
        assert(effects_view(out@) =~= seq![
            EffectView::Notify(
                if on {
                    "Vim mode enabled"@
                } else {
                    "Vim mode disabled"@
                },
            ),
        ]);
        out
    }

    /// Run a command of the layer; none where it is not one.
    pub fn run_command(&mut self, command: &str) -> (r: Option<Vec<Effect>>)
        ensures
            r is Some == (command@ == "vim.enable"@ || command@ == "vim.disable"@ || command@
                == "vim.toggle"@),
            r is None ==> *final(self) == *old(self),
            r is Some ==> ({
                let on = command@ == "vim.enable"@ || (command@ != "vim.disable"@
                    && old(self).state is None);
                &&& final(self).state is Some == on
                &&& on ==> final(self).state.unwrap()@ == (match old(self).state {
                    Some(s) => s@,
                    None => fresh(),
                })
                &&& effects_view(r.unwrap()@) == seq![
                    EffectView::Notify(
                        if on {
                            "Vim mode enabled"@
                        } else {
                            "Vim mode disabled"@
                        },
                    ),
                ]
            }),
    {
        if same(command, "vim.enable") {
            Some(self.set_enabled(true))
        } else if same(command, "vim.disable") {
            Some(self.set_enabled(false))
        } else if same(command, "vim.toggle") {
            let on: bool = self.state.is_none();
            Some(self.set_enabled(on))
        } else {
            None
        }
    }

    /// The mode and the pending command for the status line, while the layer is enabled.
    pub fn badge(&self) -> (r: Option<VimBadge>)
        ensures
            match self.state {
                Some(s) => r is Some && r.unwrap().mode == s@.mode && opt_line(r.unwrap().pending)
                    == s@.hint(),
                None => r is None,
            },
    {
        match &self.state {
            Some(s) => Some(VimBadge { mode: s.mode, pending: s.pending_hint() }),
            None => None,
        }
    }
}

fn repeat_query(v: &VimState, reverse: bool) -> (r: Query)
    ensures
        r == find_query(v@, reverse),
{
    match v.last_find {
        None => Query::Nothing,
        Some((fp, ch)) => Query::FindChar {
            kind: if reverse {
                turn(fp)
            } else {
                fp
            },
            ch,
        },
    }
}

fn query_behind_prefix(v: &VimState, d: &Doc, prefix: Prefix, code: KeyCode) -> (r: Query)
    requires
        d.wf(),
    ensures
        r == prefix_query(v@, d, prefix, code),
{
    match prefix {
        Prefix::Object { around } => match object_from_key(code) {
            Some(object) => Query::Object { object, around },
            None => Query::Nothing,
        },
        Prefix::G => match code {
            KeyCode::Char(c) => {
                let typed: Option<usize> = v.count_opt();
                if c == 'g' {
                    let l: usize = match typed {
                        Some(n) => min_of(minus_of(n, 1), d.lines.len() - 1),
                        None => 0,
                    };
                    Query::FirstNonBlank(l)
                } else if c == 'e' || c == 'E' {
                    let count: usize = match typed {
                        Some(n) => n,
                        None => 1,
                    };
                    Query::Steps { step: StepKind::WordEndBack { big: c == 'E' }, count }
                } else if c == '_' {
                    Query::LastNonBlank
                } else {
                    Query::Nothing
                }
            },
            _ => Query::Nothing,
        },
        _ => Query::Nothing,
    }
}

fn query_of(v: &VimState, d: &Doc, key: Key, page: usize) -> (r: Query)
    requires
        d.wf(),
    ensures
        r == needed(v@, d, key, page as int),
{
    if v.command.is_some() || v.search.is_some() || v.mode == Mode::Insert || key.code
        == KeyCode::Esc {
        return Query::Nothing;
    }
    if let Some(kind) = v.find_pending {
        return match key.code {
            KeyCode::Char(ch) => Query::FindChar { kind, ch },
            _ => Query::Nothing,
        };
    }
    if let Some(prefix) = v.prefix {
        return query_behind_prefix(v, d, prefix, key.code);
    }
    if v.mode == Mode::Normal && (key.ctrl || key.alt) {
        return Query::Nothing;
    }
    if key.code == KeyCode::Char(';') {
        return repeat_query(v, false);
    }
    if key.code == KeyCode::Char(',') {
        return repeat_query(v, true);
    }
    if v.mode == Mode::Normal && v.operator.is_none() {
        if key.code == KeyCode::Char('*') || key.code == KeyCode::Char('#') {
            return Query::WordAt;
        }
        if key.code == KeyCode::Char('p') || key.code == KeyCode::Char('P') {
            return match v.register {
                Some(c) => if c == '+' || c == '*' {
                    Query::Clipboard
                } else {
                    Query::Nothing
                },
                None => Query::Nothing,
            };
        }
    }
    let typed: Option<usize> = v.count_opt();
    ask_motion(Some(d), key.code, typed, page)
}

/// Escape in normal mode drops whatever was pending, asks for nothing and is always taken.
pub proof fn escape_cancels(v: Vim, d: Option<&Doc>, key: Key, page: int, answer: &Answer)
    requires
        v.mode == Mode::Normal,
        v.command is None,
        v.search is None,
        key.code == KeyCode::Esc,
    ensures
        pressed(v, d, key, page, answer).0.vim.idle(),
        pressed(v, d, key, page, answer).0.out.len() == 0,
        pressed(v, d, key, page, answer).1,
{
    reveal(Step::normal_key);
}

/// A chord that normal mode does not own falls through and asks for nothing.
pub proof fn unowned_chords_fall_through(
    v: Vim,
    d: Option<&Doc>,
    c: char,
    page: int,
    answer: &Answer,
)
    requires
        v.mode == Mode::Normal,
        v.idle(),
        c != 'r' && c != 'd' && c != 'u' && c != 'f' && c != 'b',
    ensures
        ({
            let key = Key { code: KeyCode::Char(c), ctrl: true, alt: false, shift: false };
            &&& !pressed(v, d, key, page, answer).1
            &&& pressed(v, d, key, page, answer).0.out.len() == 0
        }),
{
    reveal(Step::normal_key);
}

/// Typed text in insert mode goes on to the editor, and leaves the mode alone.
pub proof fn typed_text_reaches_the_editor(
    v: Vim,
    d: Option<&Doc>,
    c: char,
    page: int,
    answer: &Answer,
)
    requires
        v.mode == Mode::Insert,
        v.command is None,
        v.search is None,
        !v.replaying,
    ensures
        ({
            let key = Key { code: KeyCode::Char(c), ctrl: false, alt: false, shift: false };
            let p = pressed(v, d, key, page, answer);
            &&& !p.1
            &&& p.0.out.len() == 0
            &&& p.0.vim.mode == Mode::Insert
        }),
{
    reveal(Step::insert_key);
}

/// Repeating the last change keeps it as the last change, whatever count or register was typed in
/// front of the dot.
pub proof fn repeating_keeps_the_last_change(
    v: Vim,
    d: Option<&Doc>,
    key: Key,
    page: int,
    answer: &Answer,
    rev: u64,
)
    requires
        is_dot(v, key),
        v.command is None,
        v.search is None,
        !v.replaying,
    ensures
        ({
            let w = pressed(v, d, key, page, answer).0.vim;
            &&& w.last_change == v.last_change
            &&& w.recording is None
            &&& w.finalized(rev).last_change == v.last_change
        }),
{
    reveal(Step::normal_key);
    reveal(Step::idle_key);
}

} // verus!
