//! The model of query, switches and matches.

use regex::Matches;
use vstd::prelude::*;

use crate::doc::{lesser, minus, minus_of};
use crate::format::{decimal, decimal_of, join3, wide_decimal_of};
use crate::pattern::{
    build_error, char_range, char_ranges, compile, escape, escaped, expand, expansion, find_matches,
    lemma_boundaries, matches_in, next_match, placed, still_held, Pattern,
};
use crate::text::{chars_of, shorter};
use crate::ui::{
    blank_prompt, fields_view, opt_text, toggles_view, Placement, Prompt, PromptField, PromptToggle,
    PromptView,
};

verus! {

/// Matches kept at most.
pub const MAX_MATCHES: usize = 5000;

/// The input line that typing goes to.
#[derive(Debug, Clone, Copy, PartialEq, Eq, Structural)]
pub enum Field {
    Query,
    Replace,
}

/// Query, replacement, switches and matches.
pub struct FindState {
    pub query: String,
    pub replace: String,
    /// Whether the replacement line is shown.
    pub replace_mode: bool,
    pub field: Field,
    pub case_sensitive: bool,
    pub whole_word: bool,
    pub regex: bool,
    /// The matches, start and end in characters, in document order.
    pub matches: Vec<(usize, usize)>,
    /// The current one of the matches.
    pub current: usize,
    /// Where the widget was opened; the current match is looked for from here on.
    pub origin: usize,
    /// Why the query is no expression.
    pub error: Option<String>,
}

/// What a find state is.
pub struct FindView {
    pub query: Seq<char>,
    pub replace: Seq<char>,
    pub replace_mode: bool,
    pub field: Field,
    pub case_sensitive: bool,
    pub whole_word: bool,
    pub regex: bool,
    pub matches: Seq<(usize, usize)>,
    pub current: usize,
    pub origin: usize,
    pub error: Option<Seq<char>>,
}

impl View for FindState {
    type V = FindView;

    open spec fn view(&self) -> FindView {
        FindView {
            query: self.query@,
            replace: self.replace@,
            replace_mode: self.replace_mode,
            field: self.field,
            case_sensitive: self.case_sensitive,
            whole_word: self.whole_word,
            regex: self.regex,
            matches: self.matches@,
            current: self.current,
            origin: self.origin,
            error: opt_text(self.error),
        }
    }
}

/// The ranges that are not empty, and no more than are kept.
pub open spec fn kept(raw: Seq<(usize, usize)>) -> Seq<(usize, usize)> {
    let full = raw.filter(|m: (usize, usize)| m.0 != m.1);
    full.take(lesser(full.len() as int, MAX_MATCHES as int))
}

/// The first match from `i` on that starts at or after the cursor; the last one where none does, and
/// 0 where there is no match.
pub open spec fn nearest(matches: Seq<(usize, usize)>, cursor: int, i: int) -> int
    decreases matches.len() - i,
{
    if i >= matches.len() {
        minus(matches.len() as int, 1)
    } else if matches[i].0 >= cursor {
        i
    } else {
        nearest(matches, cursor, i + 1)
    }
}

/// Whether matches are in order, apart from each other, not empty and within a text of `len`
/// characters.
pub open spec fn in_order(matches: Seq<(usize, usize)>, len: int) -> bool {
    &&& forall|i: int|
        0 <= i < matches.len() ==> (#[trigger] matches[i]).0 < matches[i].1 && matches[i].1 <= len
    &&& forall|i: int, j: int|
        #![trigger matches[i], matches[j]]
        0 <= i < j < matches.len() ==> matches[i].1 <= matches[j].0
}

impl FindView {
    /// The expression that is searched for: the query, taken as it is or character by character,
    /// between word boundaries where whole words are asked for.
    pub open spec fn expression(self) -> Seq<char> {
        let base = if self.regex {
            self.query
        } else {
            escaped(self.query)
        };
        if self.whole_word {
            "\\b(?:"@ + base + ")\\b"@
        } else {
            base
        }
    }

    /// What the query is compiled to, where it is an expression.
    pub open spec fn compiled(self) -> Option<(Seq<char>, bool)> {
        if build_error(self.expression(), !self.case_sensitive) is None {
            Some((self.expression(), !self.case_sensitive))
        } else {
            None
        }
    }

    /// The matches in a text, where the query is found at these byte ranges: those that are kept,
    /// counted in characters. The nearest from the cursor on is current.
    pub open spec fn matched(
        self,
        raw: Seq<(usize, usize)>,
        text: Seq<char>,
        cursor: int,
    ) -> FindView {
        self.placed_at(kept(raw), text, cursor)
    }

    /// With the matches at these byte ranges, counted in characters; the nearest from the cursor on is
    /// current.
    pub open spec fn placed_at(
        self,
        ranges: Seq<(usize, usize)>,
        text: Seq<char>,
        cursor: int,
    ) -> FindView {
        let matches = ranges.map_values(|m: (usize, usize)| char_range(text, m));
        FindView {
            matches,
            error: None,
            current: nearest(matches, cursor, 0) as usize,
            ..self
        }
    }

    /// The state after a search. An empty query and one that is no expression match nothing, and
    /// leave the number of the current match alone.
    pub open spec fn recomputed(self, text: Seq<char>, cursor: int) -> FindView {
        let error = build_error(self.expression(), !self.case_sensitive);
        if self.query.len() == 0 {
            FindView { matches: Seq::empty(), error: None, ..self }
        } else if error is Some {
            FindView { matches: Seq::empty(), error, ..self }
        } else {
            self.matched(
                matches_in(self.expression(), !self.case_sensitive, text),
                text,
                cursor,
            )
        }
    }

    pub open spec fn current_match(self) -> Option<(usize, usize)> {
        if self.current < self.matches.len() {
            Some(self.matches[self.current as int])
        } else {
            None
        }
    }

    /// The next match is current, the first after the last.
    pub open spec fn next(self) -> FindView {
        if self.matches.len() == 0 {
            self
        } else {
            FindView { current: ((self.current + 1) % self.matches.len() as int) as usize, ..self }
        }
    }

    /// The match before is current, the last before the first.
    pub open spec fn prev(self) -> FindView {
        if self.matches.len() == 0 {
            self
        } else {
            FindView {
                current: ((self.current + self.matches.len() - 1) % self.matches.len() as int)
                    as usize,
                ..self
            }
        }
    }

    /// What a match is replaced by, where its references are filled in to `expanded`: outside
    /// expressions, and where nothing was filled in, the replacement as it is.
    pub open spec fn inserted(self, expanded: Option<Seq<char>>) -> Seq<char> {
        if self.regex && expanded is Some {
            expanded.unwrap()
        } else {
            self.replace
        }
    }

    /// What a matched text is replaced by: outside expressions the replacement as it is, else the
    /// replacement with its references filled in from the match.
    pub open spec fn substitute(self, re: Option<(Seq<char>, bool)>, matched: Seq<char>) -> Seq<
        char,
    > {
        self.inserted(
            if re is None {
                None
            } else {
                expansion(re.unwrap().0, re.unwrap().1, matched, self.replace)
            },
        )
    }

    pub open spec fn typed(self, ch: char) -> FindView {
        match self.field {
            Field::Query => FindView { query: self.query.push(ch), ..self },
            Field::Replace => FindView { replace: self.replace.push(ch), ..self },
        }
    }

    /// One character less; none from an empty line.
    pub open spec fn erased(self) -> FindView {
        match self.field {
            Field::Query => FindView { query: shorter(self.query), ..self },
            Field::Replace => FindView { replace: shorter(self.replace), ..self },
        }
    }

    pub open spec fn switched(self) -> FindView {
        FindView {
            field: if !self.replace_mode {
                self.field
            } else if self.field == Field::Query {
                Field::Replace
            } else {
                Field::Query
            },
            ..self
        }
    }

    /// The count beside the query.
    pub open spec fn status(self) -> Seq<char> {
        if self.error is Some {
            "err"@
        } else if self.matches.len() == 0 {
            "0/0"@
        } else {
            decimal((self.current + 1) as nat) + "/"@ + decimal(self.matches.len())
        }
    }

    /// The widget.
    pub open spec fn prompt(self) -> PromptView {
        PromptView {
            fields: if self.replace_mode {
                seq![("Find"@, self.query), ("Repl"@, self.replace)]
            } else {
                seq![("Find"@, self.query)]
            },
            focused: if self.field == Field::Query {
                0
            } else {
                1
            },
            toggles: seq![
                ("Aa"@, self.case_sensitive),
                ("W"@, self.whole_word),
                (".*"@, self.regex),
            ],
            status: Some(self.status()),
            error: self.error,
            ..blank_prompt("find"@, "find"@, Placement::TopRight)
        }
    }
}

/// A fresh state.
pub open spec fn fresh(replace_mode: bool) -> FindView {
    FindView {
        query: Seq::empty(),
        replace: Seq::empty(),
        replace_mode,
        field: Field::Query,
        case_sensitive: false,
        whole_word: false,
        regex: false,
        matches: Seq::empty(),
        current: 0,
        origin: 0,
        error: None,
    }
}

/// What a pattern was compiled from.
pub open spec fn pattern_key(p: Option<&Pattern>) -> Option<(Seq<char>, bool)> {
    match p {
        Some(p) => Some((p.source(), p.insensitive())),
        None => None,
    }
}

proof fn lemma_filter_prefix(raw: Seq<(usize, usize)>, i: int)
    requires
        0 <= i <= raw.len(),
    ensures
        ({
            let p = |m: (usize, usize)| m.0 != m.1;
            raw.take(i).filter(p).len() <= raw.filter(p).len() && raw.take(i).filter(p)
                == raw.filter(p).take(raw.take(i).filter(p).len() as int)
        }),
    decreases raw.len() - i,
{
    let p = |m: (usize, usize)| m.0 != m.1;
    if i == raw.len() {
        assert(raw.take(i) =~= raw);
        assert(raw.filter(p) =~= raw.filter(p).take(raw.filter(p).len() as int));
    } else {
        lemma_filter_prefix(raw, i + 1);
        lemma_filter_step(raw, i);
        let a = raw.take(i).filter(p);
        let b = raw.take(i + 1).filter(p);
        assert(a =~= b.take(a.len() as int));
        assert(a =~= raw.filter(p).take(a.len() as int));
    }
}

proof fn lemma_filter_step(raw: Seq<(usize, usize)>, i: int)
    requires
        0 <= i < raw.len(),
    ensures
        ({
            let p = |m: (usize, usize)| m.0 != m.1;
            raw.take(i + 1).filter(p) == if raw[i].0 != raw[i].1 {
                raw.take(i).filter(p).push(raw[i])
            } else {
                raw.take(i).filter(p)
            }
        }),
{
    reveal(Seq::filter);
    assert(raw.take(i + 1).drop_last() =~= raw.take(i));
    assert(raw.take(i + 1).last() == raw[i]);
}

/// The ranges that are not empty, and no more than are kept.
fn keep(raw: &[(usize, usize)], Ghost(s): Ghost<Seq<char>>) -> (r: Vec<(usize, usize)>)
    requires
        placed(raw@, s),
    ensures
        r@ == kept(raw@),
        placed(r@, s),
        forall|i: int| 0 <= i < r@.len() ==> (#[trigger] r@[i]).0 < r@[i].1,
{
    let ghost p = |m: (usize, usize)| m.0 != m.1;
    let mut out: Vec<(usize, usize)> = Vec::new();
    let mut i: usize = 0;
    proof {
        reveal(Seq::filter);
        assert(raw@.take(0).filter(p) =~= Seq::empty());
    }
    while i < raw.len() && out.len() < MAX_MATCHES
        invariant
            i <= raw.len(),
            placed(raw@, s),
            placed(out@, s),
            p == (|m: (usize, usize)| m.0 != m.1),
            out@ == raw@.take(i as int).filter(p),
            out@.len() <= MAX_MATCHES,
            forall|k: int| 0 <= k < out@.len() ==> (#[trigger] out@[k]).0 < out@[k].1,
            forall|k: int, j: int|
                #![trigger out@[k], raw@[j]]
                0 <= k < out@.len() && i <= j < raw@.len() ==> out@[k].1 <= raw@[j].0,
        decreases raw.len() - i,
    {
        let m: (usize, usize) = raw[i];
        proof {
            lemma_filter_step(raw@, i as int);
        }
        if m.0 != m.1 {
            out.push(m);
        }
        i += 1;
    }
    proof {
        lemma_filter_prefix(raw@, i as int);
        assert(raw@.take(raw@.len() as int) =~= raw@);
        assert(out@ =~= kept(raw@));
    }
    out
}

/// The matches of a pattern in a text that are kept. No more are looked for than that.
fn gather(p: &Pattern, text: &str) -> (r: Vec<(usize, usize)>)
    ensures
        r@ == kept(matches_in(p.source(), p.insensitive(), text@)),
        placed(r@, text@),
        forall|i: int| 0 <= i < r@.len() ==> (#[trigger] r@[i]).0 < r@[i].1,
{
    let ghost full = |m: (usize, usize)| m.0 != m.1;
    let mut m: Matches<'_, '_> = find_matches(p, text);
    let ghost raw = still_held(m);
    let ghost mut i: int = 0;
    let mut out: Vec<(usize, usize)> = Vec::new();
    let mut more: bool = true;
    proof {
        reveal(Seq::filter);
        assert(raw.take(0).filter(full) =~= Seq::empty());
        assert(raw.skip(0) =~= raw);
    }
    while more && out.len() < MAX_MATCHES
        invariant
            0 <= i <= raw.len(),
            still_held(m) == raw.skip(i),
            !more ==> i == raw.len(),
            placed(raw, text@),
            placed(out@, text@),
            full == (|m: (usize, usize)| m.0 != m.1),
            out@ == raw.take(i).filter(full),
            out@.len() <= MAX_MATCHES,
            forall|k: int| 0 <= k < out@.len() ==> (#[trigger] out@[k]).0 < out@[k].1,
            forall|k: int, j: int|
                #![trigger out@[k], raw[j]]
                0 <= k < out@.len() && i <= j < raw.len() ==> out@[k].1 <= raw[j].0,
        decreases raw.len() - i, (if more { 1int } else { 0int }),
    {
        match next_match(&mut m) {
            Some(range) => {
                proof {
                    lemma_filter_step(raw, i);
                    assert(raw.skip(i)[0] == raw[i]);
                    assert(raw.skip(i).skip(1) =~= raw.skip(i + 1));
                    i = i + 1;
                }
                if range.0 != range.1 {
                    out.push(range);
                }
            },
            None => {
                more = false;
            },
        }
    }
    proof {
        lemma_filter_prefix(raw, i);
        assert(raw.take(raw.len() as int) =~= raw);
        assert(out@ =~= kept(raw));
    }
    out
}

impl FindState {
    /// A fresh state.
    pub fn new(replace_mode: bool) -> (r: FindState)
        ensures
            r@ == fresh(replace_mode),
    {
        let r = FindState {
            query: String::new(),
            replace: String::new(),
            replace_mode,
            field: Field::Query,
            case_sensitive: false,
            whole_word: false,
            regex: false,
            matches: Vec::new(),
            current: 0,
            origin: 0,
            error: None,
        };
        assert(r.query@ =~= Seq::empty());
        assert(r.replace@ =~= Seq::empty());
        r
    }

    /// The pattern of query and switches.
    fn build(&self) -> (r: Result<Pattern, String>)
        ensures
            match r {
                Ok(p) => self@.compiled() == Some((p.source(), p.insensitive())),
                Err(e) => build_error(self@.expression(), !self.case_sensitive) == Some(e@),
            },
    {
        let base: String = if self.regex {
            self.query.clone()
        } else {
            escape(self.query.as_str())
        };
        let source: String = if self.whole_word {
            join3("\\b(?:", base.as_str(), ")\\b")
        } else {
            base
        };
        compile(source, !self.case_sensitive)
    }

    /// Search a text again; the current match is the nearest from the cursor on, or else the last.
    pub fn recompute(&mut self, text: &str, cursor_char: usize)
        ensures
            final(self)@ == old(self)@.recomputed(text@, cursor_char as int),
            final(self).matches@.len() <= MAX_MATCHES,
            in_order(final(self).matches@, text@.len() as int),
            final(self).current == old(self).current || final(self).current == 0
                || final(self).current < final(self).matches@.len(),
    {
        let ghost before = self@;
        self.matches = Vec::new();
        self.error = None;
        if self.query.as_str().is_empty() {
            assert(self@.matches =~= Seq::empty());
            return;
        }
        let built: Result<Pattern, String> = self.build();
        assert(self@.expression() == before.expression());
        match built {
            Err(e) => {
                self.error = Some(e);
                assert(self@.matches =~= Seq::empty());
            },
            Ok(re) => {
                let ranges: Vec<(usize, usize)> = gather(&re, text);
                self.take_over(&ranges, text, cursor_char);
            },
        }
    }

    /// Take over the byte ranges of a text that the query was found at. Empty ones are left out, and
    /// so are those past the first `MAX_MATCHES`; the current match is the nearest from the cursor
    /// on, or else the last.
    pub fn show(&mut self, raw: &[(usize, usize)], text: &str, cursor_char: usize)
        requires
            placed(raw@, text@),
        ensures
            final(self)@ == old(self)@.matched(raw@, text@, cursor_char as int),
            final(self).matches@.len() <= MAX_MATCHES,
            in_order(final(self).matches@, text@.len() as int),
            final(self).current == 0 || final(self).current < final(self).matches@.len(),
    {
        let ranges: Vec<(usize, usize)> = keep(raw, Ghost(text@));
        self.take_over(&ranges, text, cursor_char);
    }

    fn take_over(&mut self, ranges: &Vec<(usize, usize)>, text: &str, cursor_char: usize)
        requires
            placed(ranges@, text@),
            forall|i: int| 0 <= i < ranges@.len() ==> (#[trigger] ranges@[i]).0 < ranges@[i].1,
        ensures
            final(self)@ == old(self)@.placed_at(ranges@, text@, cursor_char as int),
            final(self).matches@.len() == ranges@.len(),
            in_order(final(self).matches@, text@.len() as int),
            final(self).current == 0 || final(self).current < final(self).matches@.len(),
    {
        let chars: Vec<char> = chars_of(text);
        let found: Vec<(usize, usize)> = char_ranges(&chars, ranges);
        proof {
            assert(found@ =~= ranges@.map_values(|m: (usize, usize)| char_range(text@, m)));
            lemma_in_order(ranges@, found@, text@);
        }
        self.error = None;
        self.matches = found;
        let mut i: usize = 0;
        while i < self.matches.len() && self.matches[i].0 < cursor_char
            invariant
                i <= self.matches.len(),
                nearest(self.matches@, cursor_char as int, 0) == nearest(
                    self.matches@,
                    cursor_char as int,
                    i as int,
                ),
            decreases self.matches.len() - i,
        {
            i += 1;
        }
        self.current = if i < self.matches.len() {
            i
        } else {
            minus_of(self.matches.len(), 1)
        };
    }

    pub fn current_match(&self) -> (r: Option<(usize, usize)>)
        ensures
            r == self@.current_match(),
    {
        if self.current < self.matches.len() {
            Some(self.matches[self.current])
        } else {
            None
        }
    }

    /// Go to the next match, from the last to the first.
    pub fn select_next(&mut self)
        ensures
            final(self)@ == old(self)@.next(),
            old(self).current < old(self).matches@.len() ==> final(self)@.prev() == old(self)@,
    {
        let n: usize = self.matches.len();
        if n > 0 {
            let at: usize = self.current % n;
            proof {
                lemma_step(self.current as int, n as int, 1);
                if self.current < n {
                    next_and_prev_undo_each_other(self@);
                }
            }
            self.current = if at + 1 < n {
                at + 1
            } else {
                0
            };
        }
    }

    /// Go to the match before, from the first to the last.
    pub fn select_prev(&mut self)
        ensures
            final(self)@ == old(self)@.prev(),
            old(self).current < old(self).matches@.len() ==> final(self)@.next() == old(self)@,
    {
        let n: usize = self.matches.len();
        if n > 0 {
            let at: usize = self.current % n;
            proof {
                lemma_step(self.current as int, n as int, n - 1);
                if self.current < n {
                    next_and_prev_undo_each_other(self@);
                }
            }
            self.current = if at > 0 {
                at - 1
            } else {
                n - 1
            };
        }
    }

    /// The pattern of query and switches, where it compiles.
    pub fn compiled(&self) -> (r: Option<Pattern>)
        ensures
            match r {
                Some(p) => self@.compiled() == Some((p.source(), p.insensitive())),
                None => self@.compiled() is None,
            },
    {
        match self.build() {
            Ok(p) => Some(p),
            Err(_) => None,
        }
    }

    /// What a matched text is replaced by.
    pub fn replacement_for(&self, matched: &str) -> (r: String)
        ensures
            r@ == self@.substitute(self@.compiled(), matched@),
    {
        let re: Option<Pattern> = self.compiled();
        match re {
            Some(p) => self.replacement_with(Some(&p), matched),
            None => self.replacement_with(None, matched),
        }
    }

    /// What a matched text is replaced by, with a pattern at hand. Outside expressions the pattern
    /// does not matter.
    pub fn replacement_with(&self, re: Option<&Pattern>, matched: &str) -> (r: String)
        ensures
            r@ == self@.substitute(pattern_key(re), matched@),
    {
        if !self.regex {
            return self.replace.clone();
        }
        let expanded: Option<String> = match re {
            Some(p) => expand(p, matched, self.replace.as_str()),
            None => None,
        };
        self.replacement_from(expanded)
    }

    /// What a match is replaced by, with the replacement's references filled in to `expanded`.
    pub fn replacement_from(&self, expanded: Option<String>) -> (r: String)
        ensures
            r@ == self@.inserted(opt_text(expanded)),
    {
        match expanded {
            Some(text) => if self.regex {
                text
            } else {
                self.replace.clone()
            },
            None => self.replace.clone(),
        }
    }

    /// Type a character.
    pub fn input_char(&mut self, ch: char)
        ensures
            final(self)@ == old(self)@.typed(ch),
    {
        match self.field {
            Field::Query => self.query.push(ch),
            Field::Replace => self.replace.push(ch),
        }
    }

    /// Take the last character back.
    pub fn backspace(&mut self)
        ensures
            final(self)@ == old(self)@.erased(),
    {
        match self.field {
            Field::Query => {
                let _ = self.query.pop();
            },
            Field::Replace => {
                let _ = self.replace.pop();
            },
        }
    }

    /// Go to the other input line, where both are shown.
    pub fn toggle_field(&mut self)
        ensures
            final(self)@ == old(self)@.switched(),
    {
        if self.replace_mode {
            self.field = match self.field {
                Field::Query => Field::Replace,
                Field::Replace => Field::Query,
            };
        }
    }

    /// The widget.
    pub fn to_prompt(&self) -> (r: Prompt)
        ensures
            r@ == self@.prompt(),
    {
        let mut p: Prompt = Prompt::new("find", "find", Placement::TopRight);
        assert(fields_view(p.fields@).len() == 0 && toggles_view(p.toggles@).len() == 0);
        p.fields.push(PromptField { label: "Find".to_owned(), value: self.query.clone() });
        if self.replace_mode {
            p.fields.push(PromptField { label: "Repl".to_owned(), value: self.replace.clone() });
            assert(fields_view(p.fields@) =~= seq![
                ("Find"@, self.query@),
                ("Repl"@, self.replace@),
            ]);
        } else {
            assert(fields_view(p.fields@) =~= seq![("Find"@, self.query@)]);
        }
        p.focused = match self.field {
            Field::Query => 0,
            Field::Replace => 1,
        };
        p.toggles.push(PromptToggle { label: "Aa".to_owned(), on: self.case_sensitive });
        p.toggles.push(PromptToggle { label: "W".to_owned(), on: self.whole_word });
        p.toggles.push(PromptToggle { label: ".*".to_owned(), on: self.regex });
        assert(toggles_view(p.toggles@) =~= seq![
            ("Aa"@, self.case_sensitive),
            ("W"@, self.whole_word),
            (".*"@, self.regex),
        ]);
        let status: String = if self.error.is_some() {
            "err".to_owned()
        } else if self.matches.len() == 0 {
            "0/0".to_owned()
        } else {
            join3(
                wide_decimal_of(self.current as u128 + 1).as_str(),
                "/",
                decimal_of(self.matches.len() as u64).as_str(),
            )
        };
        p.status = Some(status);
        p.error = match &self.error {
            Some(e) => Some(e.clone()),
            None => None,
        };
        p
    }
}

proof fn lemma_in_order(
    ranges: Seq<(usize, usize)>,
    found: Seq<(usize, usize)>,
    s: Seq<char>,
)
    requires
        placed(ranges, s),
        s.len() <= usize::MAX,
        forall|i: int| 0 <= i < ranges.len() ==> (#[trigger] ranges[i]).0 < ranges[i].1,
        found.len() == ranges.len(),
        forall|i: int| 0 <= i < found.len() ==> #[trigger] found[i] == char_range(s, ranges[i]),
    ensures
        in_order(found, s.len() as int),
{
    assert forall|i: int| 0 <= i < found.len() implies (#[trigger] found[i]).0 < found[i].1
        && found[i].1 <= s.len() by {
        lemma_boundaries(s, ranges[i].0 as int, ranges[i].1 as int);
    }
    assert forall|i: int, j: int|
        #![trigger found[i], found[j]]
        0 <= i < j < found.len() implies found[i].1 <= found[j].0 by {
        assert(ranges[i].1 <= ranges[j].0);
        lemma_boundaries(s, ranges[i].1 as int, ranges[j].0 as int);
    }
}

/// A step of `by` out of `n`, from the remainder that it starts at.
proof fn lemma_step(c: int, n: int, by: int)
    requires
        0 <= c,
        0 < n,
        0 <= by,
        by < n || n == 1 && by == 1,
    ensures
        (c + by) % n == if c % n + by < n {
            c % n + by
        } else {
            c % n + by - n
        },
{
    vstd::arithmetic::div_mod::lemma_fundamental_div_mod(c, n);
    let q = c / n;
    let r = c % n;
    if r + by < n {
        assert(c + by == q * n + (r + by)) by (nonlinear_arith)
            requires
                c == n * q + r,
        ;
        vstd::arithmetic::div_mod::lemma_fundamental_div_mod_converse(c + by, n, q, r + by);
    } else {
        assert(c + by == (q + 1) * n + (r + by - n)) by (nonlinear_arith)
            requires
                c == n * q + r,
        ;
        vstd::arithmetic::div_mod::lemma_fundamental_div_mod_converse(c + by, n, q + 1, r + by - n);
    }
}

/// Going on and back again, or back and on again, ends at the match where it began.
pub proof fn next_and_prev_undo_each_other(v: FindView)
    requires
        v.current < v.matches.len() <= usize::MAX,
    ensures
        v.next().prev() == v,
        v.prev().next() == v,
{
    let n = v.matches.len() as int;
    let c = v.current as int;
    let up = (c + 1) % n;
    let down = (c + n - 1) % n;
    if c + 1 == n {
        assert(up == 0) by (nonlinear_arith)
            requires
                up == n % n,
                n > 0,
        ;
        assert((n - 1) % n == n - 1) by (nonlinear_arith)
            requires
                n > 0,
        ;
    } else {
        assert(up == c + 1) by (nonlinear_arith)
            requires
                up == (c + 1) % n,
                0 <= c + 1 < n,
        ;
        assert((c + 1 + n - 1) % n == c) by (nonlinear_arith)
            requires
                0 <= c < n,
        ;
    }
    if c == 0 {
        assert(down == n - 1) by (nonlinear_arith)
            requires
                down == (n - 1) % n,
                n > 0,
        ;
        assert((n - 1 + 1) % n == 0) by (nonlinear_arith)
            requires
                n > 0,
        ;
    } else {
        assert(down == c - 1) by (nonlinear_arith)
            requires
                down == (c + n - 1) % n,
                0 < c < n,
        ;
        assert((c - 1 + 1) % n == c) by (nonlinear_arith)
            requires
                0 <= c < n,
        ;
    }
}

/// Switching the input line twice changes nothing.
pub proof fn switching_twice_changes_nothing(v: FindView)
    ensures
        v.switched().switched() == v,
{
}

/// Taking back what was typed changes nothing.
pub proof fn erasing_undoes_typing(v: FindView, ch: char)
    ensures
        v.typed(ch).erased() == v,
{
    assert(v.query.push(ch).drop_last() =~= v.query);
    assert(v.replace.push(ch).drop_last() =~= v.replace);
}

/// Searching the same text again from the same place changes nothing.
pub proof fn searching_again_changes_nothing(v: FindView, text: Seq<char>, cursor: int)
    ensures
        v.recomputed(text, cursor).recomputed(text, cursor) == v.recomputed(text, cursor),
{
    let w = v.recomputed(text, cursor);
    assert(w.expression() == v.expression());
}

/// The current match after a search is the first at or after the cursor, and the last of all where
/// none follows.
pub proof fn the_nearest_match_is_current(matches: Seq<(usize, usize)>, cursor: int)
    requires
        matches.len() > 0,
    ensures
        ({
            let i = nearest(matches, cursor, 0);
            &&& 0 <= i < matches.len()
            &&& matches[i].0 >= cursor ==> forall|k: int|
                0 <= k < i ==> (#[trigger] matches[k]).0 < cursor
            &&& matches[i].0 < cursor ==> i == matches.len() - 1 && forall|k: int|
                0 <= k < matches.len() ==> (#[trigger] matches[k]).0 < cursor
        }),
{
    lemma_nearest(matches, cursor, 0);
}

proof fn lemma_nearest(matches: Seq<(usize, usize)>, cursor: int, from: int)
    requires
        matches.len() > 0,
        0 <= from <= matches.len(),
        forall|k: int| 0 <= k < from ==> (#[trigger] matches[k]).0 < cursor,
    ensures
        ({
            let i = nearest(matches, cursor, from);
            &&& 0 <= i < matches.len()
            &&& matches[i].0 >= cursor ==> forall|k: int|
                0 <= k < i ==> (#[trigger] matches[k]).0 < cursor
            &&& matches[i].0 < cursor ==> i == matches.len() - 1 && forall|k: int|
                0 <= k < matches.len() ==> (#[trigger] matches[k]).0 < cursor
        }),
    decreases matches.len() - from,
{
    if from < matches.len() && matches[from].0 < cursor {
        lemma_nearest(matches, cursor, from + 1);
    }
}

} // verus!
