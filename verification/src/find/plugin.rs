//! The find widget: what its commands and keys do to the model and to the editor.

use vstd::prelude::*;

use crate::contribution::{Contributions, Offer};
use crate::doc::{greater, lesser, max_of, min_of, Doc};
use crate::effect::{
    changes_view, effects_view, emit, no_effects, Change, ChangeView, Effect, EffectView,
};
use crate::find::state::{fresh, FindState, FindView, MAX_MATCHES};
use crate::format::{decimal, decimal_of, join3};
use crate::key::{Key, KeyCode};
use crate::pattern::Pattern;
use crate::text::{same, string_of};
use crate::ui::{decorations_view, only_spans, Decoration, DecorationSet};

verus! {

/// The widget; its state is there while it is open.
pub struct FindReplacePlugin {
    pub state: Option<FindState>,
}

/// What a command or a key came to.
pub struct FindOutcome {
    /// Whether it was the widget's.
    pub claimed: bool,
    /// Whether the widget is to be refreshed once the requests are performed.
    pub refresh: bool,
    pub effects: Vec<Effect>,
}

/// The widget after a command or a key, and what it asks for.
pub struct FindStep {
    pub state: Option<FindView>,
    pub refresh: bool,
    pub out: Seq<EffectView>,
}

pub open spec fn state_view(s: Option<FindState>) -> Option<FindView> {
    match s {
        Some(s) => Some(s@),
        None => None,
    }
}

/// The document's characters.
pub open spec fn chars_view(d: Option<&Doc>) -> Option<Seq<char>> {
    match d {
        Some(d) => Some(d.chars@),
        None => None,
    }
}

/// The request that selects the current match.
pub open spec fn focus_of(v: FindView) -> Seq<EffectView> {
    match v.current_match() {
        Some((s, e)) => seq![EffectView::Select { anchor: s as int, head: e as int }],
        None => Seq::empty(),
    }
}

/// The matches as decorations.
pub open spec fn marks(matches: Seq<(usize, usize)>) -> Seq<(int, int, Seq<char>)> {
    matches.map_values(|m: (usize, usize)| (m.0 as int, m.1 as int, "find.match"@))
}

/// The requests that show the matches and the widget, after others.
pub open spec fn published(v: FindView, out: Seq<EffectView>) -> Seq<EffectView> {
    out.push(
        EffectView::SetDecorations { layer: "find.match"@, set: only_spans(marks(v.matches)) },
    ).push(EffectView::SetPrompt(v.prompt()))
}

/// Search again, select the current match and show everything.
pub open spec fn refreshed(v: FindView, text: Option<Seq<char>>) -> FindStep {
    match text {
        None => FindStep { state: Some(v), refresh: false, out: Seq::empty() },
        Some(text) => {
            let w = v.recomputed(text, v.origin as int);
            FindStep { state: Some(w), refresh: false, out: published(w, focus_of(w)) }
        },
    }
}

/// Open the widget on a document: the query is the selected text, and matches are looked for from
/// the selection on.
pub open spec fn opened(d: Option<&Doc>, replace_mode: bool) -> FindStep {
    let v = match d {
        Some(d) => FindView {
            origin: lesser(d.anchor as int, d.head as int) as usize,
            query: if d.anchor == d.head {
                Seq::empty()
            } else {
                d.slice(
                    lesser(d.anchor as int, d.head as int),
                    greater(d.anchor as int, d.head as int),
                )
            },
            ..fresh(replace_mode)
        },
        None => fresh(replace_mode),
    };
    refreshed(v, chars_view(d))
}

/// Go to another match.
pub open spec fn navigated(v: FindView, text: Option<Seq<char>>, forward: bool) -> FindStep {
    let w = if forward {
        v.next()
    } else {
        v.prev()
    };
    if text is None {
        FindStep { state: Some(v), refresh: false, out: Seq::empty() }
    } else {
        FindStep { state: Some(w), refresh: false, out: published(w, focus_of(w)) }
    }
}

/// Whether a match is within a text.
pub open spec fn fits(m: (usize, usize), text: Seq<char>) -> bool {
    m.0 <= m.1 <= text.len()
}

/// The change that replaces a match.
pub open spec fn substitution(v: FindView, text: Seq<char>, m: (usize, usize)) -> ChangeView {
    let matched = text.subrange(m.0 as int, m.1 as int);
    ChangeView {
        at: m.0 as int,
        removed: matched,
        inserted: v.substitute(v.compiled(), matched),
    }
}

/// Replace the current match. A match that is not within the text is left alone.
pub open spec fn replaced_one(v: FindView, text: Option<Seq<char>>) -> FindStep {
    let m = v.current_match();
    if text is Some && m is Some && fits(m.unwrap(), text.unwrap()) {
        FindStep {
            state: Some(v),
            refresh: true,
            out: seq![EffectView::Apply(seq![substitution(v, text.unwrap(), m.unwrap())])],
        }
    } else {
        FindStep { state: Some(v), refresh: false, out: Seq::empty() }
    }
}

/// The changes that replace the first `n` matches, without those that are not within the text.
pub open spec fn substitutions(v: FindView, text: Seq<char>, n: int) -> Seq<ChangeView>
    decreases n,
{
    if n <= 0 {
        Seq::empty()
    } else if fits(v.matches[n - 1], text) {
        substitutions(v, text, n - 1).push(substitution(v, text, v.matches[n - 1]))
    } else {
        substitutions(v, text, n - 1)
    }
}

/// Replace every match, in one transaction.
pub open spec fn replaced_all(v: FindView, text: Option<Seq<char>>) -> FindStep {
    if text is None || v.matches.len() == 0 {
        FindStep { state: Some(v), refresh: false, out: Seq::empty() }
    } else {
        let changes = substitutions(v, text.unwrap(), v.matches.len() as int);
        FindStep {
            state: Some(v),
            refresh: true,
            out: seq![
                EffectView::Apply(changes),
                EffectView::Notify("Replaced "@ + decimal(changes.len()) + " occurrence(s)"@),
            ],
        }
    }
}

/// What a key does while the widget is open.
#[verifier::opaque]
pub open spec fn key_step(v: FindView, text: Option<Seq<char>>, key: Key) -> FindStep {
    match key.code {
        KeyCode::Esc => FindStep {
            state: None,
            refresh: false,
            out: if text is Some {
                seq![EffectView::DismissPrompt, EffectView::ClearDecorations("find.match"@)]
            } else {
                seq![EffectView::DismissPrompt]
            },
        },
        KeyCode::Enter => if key.alt {
            replaced_one(v, text)
        } else {
            navigated(v, text, !key.shift)
        },
        KeyCode::Up => navigated(v, text, false),
        KeyCode::Down => navigated(v, text, true),
        KeyCode::Tab => FindStep {
            state: Some(v.switched()),
            refresh: false,
            out: if text is Some {
                published(v.switched(), Seq::empty())
            } else {
                Seq::empty()
            },
        },
        KeyCode::Backspace => refreshed(v.erased(), text),
        KeyCode::Char(c) => if key.alt && (c == 'a' || c == 'A') {
            replaced_all(v, text)
        } else if key.alt && (c == 'c' || c == 'C') {
            refreshed(FindView { case_sensitive: !v.case_sensitive, ..v }, text)
        } else if key.alt && (c == 'w' || c == 'W') {
            refreshed(FindView { whole_word: !v.whole_word, ..v }, text)
        } else if key.alt && (c == 'r' || c == 'R') {
            refreshed(FindView { regex: !v.regex, ..v }, text)
        } else if !key.ctrl && !key.alt {
            refreshed(v.typed(c), text)
        } else {
            FindStep { state: Some(v), refresh: false, out: Seq::empty() }
        },
        _ => FindStep { state: Some(v), refresh: false, out: Seq::empty() },
    }
}

/// What a command does; nothing where it is not the widget's.
pub open spec fn command_step(
    state: Option<FindView>,
    d: Option<&Doc>,
    command: Seq<char>,
) -> Option<FindStep> {
    let idle = FindStep { state, refresh: false, out: Seq::empty() };
    if command == "search.find"@ {
        Some(opened(d, false))
    } else if command == "search.replace"@ {
        Some(opened(d, true))
    } else if command == "search.findNext"@ || command == "search.findPrev"@ {
        match state {
            Some(v) => Some(navigated(v, chars_view(d), command == "search.findNext"@)),
            None => Some(idle),
        }
    } else if command == "search.replaceAll"@ {
        match state {
            Some(v) => Some(replaced_all(v, chars_view(d))),
            None => Some(idle),
        }
    } else {
        None
    }
}

impl FindState {
    /// Whether the current match and the matches are within what is kept.
    pub open spec fn bounded(&self) -> bool {
        self.current < MAX_MATCHES && self.matches@.len() <= MAX_MATCHES
    }
}

/// What the plugin contributes.
pub open spec fn contributed() -> Offer {
    Offer::none()
        .command("search.find"@, "Find"@)
        .command("search.replace"@, "Replace"@)
        .command("search.findNext"@, "Find: Next Match"@)
        .command("search.findPrev"@, "Find: Previous Match"@)
        .command("search.replaceAll"@, "Replace: All"@)
        .keybinding("ctrl+f"@, "search.find"@)
        .keybinding("ctrl+h"@, "search.replace"@)
        .keybinding("f3"@, "search.findNext"@)
        .keybinding("shift+f3"@, "search.findPrev"@)
}

impl FindReplacePlugin {
    /// What the plugin contributes.
    pub fn contributions() -> (r: Contributions)
        ensures
            r@ == contributed(),
    {
        Contributions::builder()
            .command("search.find", "Find")
            .command("search.replace", "Replace")
            .command("search.findNext", "Find: Next Match")
            .command("search.findPrev", "Find: Previous Match")
            .command("search.replaceAll", "Replace: All")
            .keybinding("ctrl+f", "search.find")
            .keybinding("ctrl+h", "search.replace")
            .keybinding("f3", "search.findNext")
            .keybinding("shift+f3", "search.findPrev")
    }

    pub open spec fn wf(&self) -> bool {
        match self.state {
            Some(s) => s.bounded(),
            None => true,
        }
    }

    /// A closed widget.
    pub fn new() -> (r: FindReplacePlugin)
        ensures
            r.state is None,
    {
        FindReplacePlugin { state: None }
    }

    /// Open the widget on a document.
    pub fn open(&mut self, replace_mode: bool, doc: Option<&Doc>) -> (r: Vec<Effect>)
        ensures
            final(self).wf(),
            state_view(final(self).state) == opened(doc, replace_mode).state,
            effects_view(r@) == opened(doc, replace_mode).out,
    {
        let mut fs: FindState = FindState::new(replace_mode);
        if let Some(d) = doc {
            fs.origin = min_of(d.anchor, d.head);
            if d.anchor != d.head {
                fs.query = d.text_between(min_of(d.anchor, d.head), max_of(d.anchor, d.head));
            }
        }
        self.state = Some(fs);
        self.refresh(doc)
    }

    /// Close the widget and take the matches off the document.
    pub fn close(&mut self, has_doc: bool) -> (r: Vec<Effect>)
        ensures
            final(self).state is None,
            effects_view(r@) == if has_doc {
                seq![EffectView::DismissPrompt, EffectView::ClearDecorations("find.match"@)]
            } else {
                seq![EffectView::DismissPrompt]
            },
    {
        self.state = None;
        let mut out: Vec<Effect> = no_effects();
        emit(&mut out, Effect::DismissPrompt);
        if has_doc {
            emit(&mut out, Effect::ClearDecorations("find.match".to_owned()));
        }
        out
    }

    /// Search the document again, select the current match and show everything.
    pub fn refresh(&mut self, doc: Option<&Doc>) -> (r: Vec<Effect>)
        requires
            old(self).wf(),
        ensures
            final(self).wf(),
            match old(self).state {
                Some(s) => state_view(final(self).state) == refreshed(s@, chars_view(doc)).state
                    && effects_view(r@) == refreshed(s@, chars_view(doc)).out,
                None => final(self).state is None && effects_view(r@) == Seq::<
                    EffectView,
                >::empty(),
            },
    {
        let mut out: Vec<Effect> = no_effects();
        let taken: Option<FindState> = self.state.take();
        if let Some(mut s) = taken {
            if let Some(d) = doc {
                let text: String = string_of(d.chars.as_slice(), 0, d.chars.len());
                assert(text@ =~= d.chars@);
                let origin: usize = s.origin;
                s.recompute(text.as_str(), origin);
                focus(&s, &mut out);
                publish(&s, &mut out);
            }
            self.state = Some(s);
        }
        out
    }

    /// Search the document again and show the matches, without moving the caret.
    pub fn on_change(&mut self, doc: &Doc) -> (r: Vec<Effect>)
        requires
            old(self).wf(),
        ensures
            final(self).wf(),
            match old(self).state {
                Some(s) => {
                    let v = s@.recomputed(doc.chars@, s.origin as int);
                    state_view(final(self).state) == Some(v) && effects_view(r@) == published(
                        v,
                        Seq::empty(),
                    )
                },
                None => final(self).state is None && effects_view(r@) == Seq::<
                    EffectView,
                >::empty(),
            },
    {
        let mut out: Vec<Effect> = no_effects();
        let taken: Option<FindState> = self.state.take();
        if let Some(mut s) = taken {
            let text: String = string_of(doc.chars.as_slice(), 0, doc.chars.len());
            assert(text@ =~= doc.chars@);
            let origin: usize = s.origin;
            s.recompute(text.as_str(), origin);
            publish(&s, &mut out);
            self.state = Some(s);
        }
        out
    }

    /// Run a command of the widget.
    pub fn run_command(&mut self, command_id: &str, doc: Option<&Doc>) -> (r: FindOutcome)
        requires
            old(self).wf(),
        ensures
            final(self).wf(),
            match command_step(state_view(old(self).state), doc, command_id@) {
                Some(step) => r.claimed && state_view(final(self).state) == step.state && r.refresh
                    == step.refresh && effects_view(r.effects@) == step.out,
                None => !r.claimed && !r.refresh && *final(self) == *old(self) && effects_view(
                    r.effects@,
                ) == Seq::<EffectView>::empty(),
            },
    {
        if same(command_id, "search.find") {
            FindOutcome { claimed: true, refresh: false, effects: self.open(false, doc) }
        } else if same(command_id, "search.replace") {
            FindOutcome { claimed: true, refresh: false, effects: self.open(true, doc) }
        } else if same(command_id, "search.findNext") {
            FindOutcome { claimed: true, refresh: false, effects: self.navigate(doc, true) }
        } else if same(command_id, "search.findPrev") {
            FindOutcome { claimed: true, refresh: false, effects: self.navigate(doc, false) }
        } else if same(command_id, "search.replaceAll") {
            self.replace_all(doc)
        } else {
            FindOutcome { claimed: false, refresh: false, effects: no_effects() }
        }
    }

    /// Handle a key while the widget is open.
    pub fn on_prompt_key(&mut self, prompt_id: &str, key: Key, doc: Option<&Doc>) -> (r:
        FindOutcome)
        requires
            old(self).wf(),
        ensures
            final(self).wf(),
            r.claimed == (prompt_id@ == "find"@ && old(self).state is Some),
            !r.claimed ==> !r.refresh && *final(self) == *old(self) && effects_view(r.effects@)
                == Seq::<EffectView>::empty(),
            r.claimed ==> {
                let step = key_step(old(self).state->0@, chars_view(doc), key);
                state_view(final(self).state) == step.state && r.refresh == step.refresh
                    && effects_view(r.effects@) == step.out
            },
    {
        proof {
            reveal(key_step);
        }
        if !same(prompt_id, "find") || self.state.is_none() {
            return FindOutcome { claimed: false, refresh: false, effects: no_effects() };
        }
        let effects: Vec<Effect> = match key.code {
            KeyCode::Esc => self.close(doc.is_some()),
            KeyCode::Enter => {
                if key.alt {
                    return self.replace_current(doc);
                }
                self.navigate(doc, !key.shift)
            },
            KeyCode::Up => self.navigate(doc, false),
            KeyCode::Down => self.navigate(doc, true),
            KeyCode::Tab => self.switch_field(doc.is_some()),
            KeyCode::Backspace => {
                if let Some(mut s) = self.state.take() {
                    s.backspace();
                    self.state = Some(s);
                }
                self.refresh(doc)
            },
            KeyCode::Char(c) => {
                if key.alt && (c == 'a' || c == 'A') {
                    return self.replace_all(doc);
                }
                let known: bool = key.alt && (c == 'c' || c == 'C' || c == 'w' || c == 'W' || c
                    == 'r' || c == 'R');
                if !known && (key.ctrl || key.alt) {
                    no_effects()
                } else {
                    if let Some(mut s) = self.state.take() {
                        if !key.alt {
                            s.input_char(c);
                        } else if c == 'c' || c == 'C' {
                            s.case_sensitive = !s.case_sensitive;
                        } else if c == 'w' || c == 'W' {
                            s.whole_word = !s.whole_word;
                        } else {
                            s.regex = !s.regex;
                        }
                        self.state = Some(s);
                    }
                    self.refresh(doc)
                }
            },
            _ => no_effects(),
        };
        FindOutcome { claimed: true, refresh: false, effects }
    }

    /// Go to the other input line and show the widget again.
    fn switch_field(&mut self, has_doc: bool) -> (r: Vec<Effect>)
        requires
            old(self).wf(),
            old(self).state is Some,
        ensures
            final(self).wf(),
            state_view(final(self).state) == Some(old(self).state->0@.switched()),
            effects_view(r@) == if has_doc {
                published(old(self).state->0@.switched(), Seq::empty())
            } else {
                Seq::empty()
            },
    {
        let mut out: Vec<Effect> = no_effects();
        if let Some(mut s) = self.state.take() {
            s.toggle_field();
            if has_doc {
                publish(&s, &mut out);
            }
            self.state = Some(s);
        }
        out
    }

    /// Go to another match.
    fn navigate(&mut self, doc: Option<&Doc>, forward: bool) -> (r: Vec<Effect>)
        requires
            old(self).wf(),
        ensures
            final(self).wf(),
            match old(self).state {
                Some(s) => {
                    let step = navigated(s@, chars_view(doc), forward);
                    state_view(final(self).state) == step.state && effects_view(r@) == step.out
                },
                None => final(self).state is None && effects_view(r@) == Seq::<
                    EffectView,
                >::empty(),
            },
    {
        let mut out: Vec<Effect> = no_effects();
        if doc.is_none() {
            return out;
        }
        if let Some(mut s) = self.state.take() {
            if forward {
                s.select_next();
            } else {
                s.select_prev();
            }
            focus(&s, &mut out);
            publish(&s, &mut out);
            self.state = Some(s);
        }
        out
    }

    /// Replace the current match.
    fn replace_current(&mut self, doc: Option<&Doc>) -> (r: FindOutcome)
        requires
            old(self).state is Some,
        ensures
            *final(self) == *old(self),
            r.claimed,
            r.refresh == replaced_one(old(self).state->0@, chars_view(doc)).refresh,
            effects_view(r.effects@) == replaced_one(old(self).state->0@, chars_view(doc)).out,
    {
        let mut out: Vec<Effect> = no_effects();
        if let (Some(s), Some(d)) = (&self.state, doc) {
            if let Some((from, to)) = s.current_match() {
                if from <= to && to <= d.chars.len() {
                    let removed: String = string_of(d.chars.as_slice(), from, to);
                    let inserted: String = s.replacement_for(removed.as_str());
                    let mut changes: Vec<Change> = Vec::new();
                    changes.push(Change { at: from, removed, inserted });
                    assert(changes_view(changes@) =~= seq![
                        substitution(s@, d.chars@, (from, to)),
                    ]);
                    emit(&mut out, Effect::Apply(changes));
                    return FindOutcome { claimed: true, refresh: true, effects: out };
                }
            }
        }
        FindOutcome { claimed: true, refresh: false, effects: out }
    }

    /// Replace every match, in one transaction.
    fn replace_all(&mut self, doc: Option<&Doc>) -> (r: FindOutcome)
        ensures
            *final(self) == *old(self),
            r.claimed,
            match old(self).state {
                Some(s) => {
                    let step = replaced_all(s@, chars_view(doc));
                    r.refresh == step.refresh && effects_view(r.effects@) == step.out
                },
                None => !r.refresh && effects_view(r.effects@) == Seq::<EffectView>::empty(),
            },
    {
        let mut out: Vec<Effect> = no_effects();
        if let (Some(s), Some(d)) = (&self.state, doc) {
            if s.matches.len() > 0 {
                let re: Option<Pattern> = s.compiled();
                let changes: Vec<Change> = substitute_all(s, &re, d);
                let n: usize = changes.len();
                proof {
                    assert(changes_view(changes@).len() == n);
                }
                emit(&mut out, Effect::Apply(changes));
                emit(
                    &mut out,
                    Effect::Notify(
                        join3("Replaced ", decimal_of(n as u64).as_str(), " occurrence(s)"),
                    ),
                );
                return FindOutcome { claimed: true, refresh: true, effects: out };
            }
        }
        FindOutcome { claimed: true, refresh: false, effects: out }
    }
}

/// The changes that replace the matches.
fn substitute_all(s: &FindState, re: &Option<Pattern>, d: &Doc) -> (r: Vec<Change>)
    requires
        match re {
            Some(p) => s@.compiled() == Some((p.source(), p.insensitive())),
            None => s@.compiled() is None,
        },
    ensures
        changes_view(r@) == substitutions(s@, d.chars@, s.matches@.len() as int),
{
    let mut changes: Vec<Change> = Vec::new();
    let mut i: usize = 0;
    assert(changes_view(changes@) =~= Seq::empty());
    while i < s.matches.len()
        invariant
            i <= s.matches.len(),
            match re {
                Some(p) => s@.compiled() == Some((p.source(), p.insensitive())),
                None => s@.compiled() is None,
            },
            changes_view(changes@) == substitutions(s@, d.chars@, i as int),
        decreases s.matches.len() - i,
    {
        let (from, to): (usize, usize) = s.matches[i];
        if from <= to && to <= d.chars.len() {
            let removed: String = string_of(d.chars.as_slice(), from, to);
            let inserted: String = match re {
                Some(p) => s.replacement_with(Some(p), removed.as_str()),
                None => s.replacement_with(None, removed.as_str()),
            };
            let ghost before = changes@;
            changes.push(Change { at: from, removed, inserted });
            assert(changes_view(changes@) =~= changes_view(before).push(
                substitution(s@, d.chars@, (from, to)),
            ));
        }
        i += 1;
    }
    changes
}

/// Select the current match.
fn focus(s: &FindState, out: &mut Vec<Effect>)
    ensures
        effects_view(final(out)@) == effects_view(old(out)@) + focus_of(s@),
{
    match s.current_match() {
        Some((from, to)) => emit(out, Effect::Select { anchor: from, head: to }),
        None => {},
    }
    assert(effects_view(out@) =~= effects_view(old(out)@) + focus_of(s@));
}

/// Show the matches and the widget.
fn publish(s: &FindState, out: &mut Vec<Effect>)
    requires
        s.bounded(),
    ensures
        effects_view(final(out)@) == published(s@, effects_view(old(out)@)),
{
    let mut spans: Vec<Decoration> = Vec::new();
    let mut i: usize = 0;
    while i < s.matches.len()
        invariant
            i <= s.matches.len(),
            spans@.len() == i,
            forall|k: int|
                0 <= k < i ==> (#[trigger] spans@[k]).start == s.matches@[k].0 && spans@[k].end
                    == s.matches@[k].1 && spans@[k].style@ == "find.match"@,
        decreases s.matches.len() - i,
    {
        spans.push(
            Decoration {
                start: s.matches[i].0,
                end: s.matches[i].1,
                style: "find.match".to_owned(),
            },
        );
        i += 1;
    }
    assert(decorations_view(spans@) =~= marks(s.matches@));
    emit(
        out,
        Effect::SetDecorations {
            layer: "find.match".to_owned(),
            set: DecorationSet::spans(spans),
        },
    );
    emit(out, Effect::SetPrompt(s.to_prompt()));
}

} // verus!
