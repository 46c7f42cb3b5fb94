//! The `/` and `?` search line, `n`/`N`, and `*`/`#`.

use vstd::prelude::*;

use crate::doc::{lesser, min_of, minus, minus_of, opt_wf, Doc};
use crate::effect::{Effect, EffectView};
use crate::format::{char_count, join2};
use crate::key::{Key, KeyCode};
use crate::text::{chars_of, is_blank, stands, stands_at, trim};
use crate::vim::motion::Answer;
use crate::vim::session::{Session, Step};
use crate::vim::state::Vim;

verus! {

/// The first place from `a` on, before `b`, where the pattern stands.
pub open spec fn first_in(s: Seq<char>, pat: Seq<char>, a: int, b: int) -> Option<int>
    decreases b - a,
{
    if a >= b {
        None
    } else if stands(s, pat, a) {
        Some(a)
    } else {
        first_in(s, pat, a + 1, b)
    }
}

/// The last place from `a` on, before `b`, where the pattern stands.
pub open spec fn last_in(s: Seq<char>, pat: Seq<char>, a: int, b: int) -> Option<int>
    decreases b - a,
{
    if a >= b {
        None
    } else if stands(s, pat, b - 1) {
        Some(b - 1)
    } else {
        last_in(s, pat, a, b - 1)
    }
}

/// Where the pattern stands next, from `start` forward or backward, going round at the ends.
pub open spec fn found(s: Seq<char>, pat: Seq<char>, start: int, forward: bool) -> Option<int> {
    if pat.len() == 0 || s.len() < pat.len() {
        None
    } else {
        let places = s.len() - pat.len() + 1;
        if forward {
            let begin = lesser(start, s.len() as int);
            match first_in(s, pat, begin, places) {
                Some(i) => Some(i),
                None => first_in(s, pat, 0, lesser(begin, places)),
            }
        } else {
            let begin = lesser(start, places - 1);
            match last_in(s, pat, 0, begin + 1) {
                Some(i) => Some(i),
                None => last_in(s, pat, begin + 1, places),
            }
        }
    }
}

pub proof fn lemma_first_in(s: Seq<char>, pat: Seq<char>, a: int, b: int)
    ensures
        match first_in(s, pat, a, b) {
            Some(i) => a <= i < b && stands(s, pat, i) && forall|k: int|
                a <= k < i ==> !stands(s, pat, k),
            None => forall|k: int| a <= k < b ==> !stands(s, pat, k),
        },
    decreases b - a,
{
    if a < b && !stands(s, pat, a) {
        lemma_first_in(s, pat, a + 1, b);
    }
}

pub proof fn lemma_last_in(s: Seq<char>, pat: Seq<char>, a: int, b: int)
    ensures
        match last_in(s, pat, a, b) {
            Some(i) => a <= i < b && stands(s, pat, i) && forall|k: int|
                i < k < b ==> !stands(s, pat, k),
            None => forall|k: int| a <= k < b ==> !stands(s, pat, k),
        },
    decreases b - a,
{
    if a < b && !stands(s, pat, b - 1) {
        lemma_last_in(s, pat, a, b - 1);
    }
}

/// A search finds the pattern exactly where it stands, and finds it whenever it stands anywhere.
pub proof fn search_is_complete(s: Seq<char>, pat: Seq<char>, start: int, forward: bool)
    requires
        pat.len() > 0,
        0 <= start,
    ensures
        match found(s, pat, start, forward) {
            Some(i) => stands(s, pat, i),
            None => forall|k: int| !stands(s, pat, k),
        },
{
    if s.len() >= pat.len() {
        let places = s.len() - pat.len() + 1;
        let begin = lesser(start, s.len() as int);
        lemma_first_in(s, pat, begin, places);
        lemma_first_in(s, pat, 0, lesser(begin, places));
        let back = lesser(start, places - 1);
        lemma_last_in(s, pat, 0, back + 1);
        lemma_last_in(s, pat, back + 1, places);
        assert forall|k: int| found(s, pat, start, forward) is None implies !stands(s, pat, k) by {
            if 0 <= k < places {
            }
        }
    }
}

fn find_first(s: &Vec<char>, pat: &Vec<char>, a: usize, b: usize) -> (r: Option<usize>)
    requires
        b + pat@.len() <= s@.len() + 1,
    ensures
        match r {
            Some(i) => first_in(s@, pat@, a as int, b as int) == Some(i as int),
            None => first_in(s@, pat@, a as int, b as int) is None,
        },
{
    let mut i: usize = a;
    while i < b
        invariant
            b + pat@.len() <= s@.len() + 1,
            first_in(s@, pat@, a as int, b as int) == first_in(s@, pat@, i as int, b as int),
        decreases b - i,
    {
        if stands_at(s.as_slice(), pat.as_slice(), i) {
            return Some(i);
        }
        i += 1;
    }
    None
}

fn find_last(s: &Vec<char>, pat: &Vec<char>, a: usize, b: usize) -> (r: Option<usize>)
    requires
        b + pat@.len() <= s@.len() + 1,
    ensures
        match r {
            Some(i) => last_in(s@, pat@, a as int, b as int) == Some(i as int),
            None => last_in(s@, pat@, a as int, b as int) is None,
        },
{
    let mut i: usize = b;
    while i > a
        invariant
            i <= b,
            b + pat@.len() <= s@.len() + 1,
            last_in(s@, pat@, a as int, b as int) == last_in(s@, pat@, a as int, i as int),
        decreases i,
    {
        if stands_at(s.as_slice(), pat.as_slice(), i - 1) {
            return Some(i - 1);
        }
        i -= 1;
    }
    None
}

/// Literal search over `chars` for `pat`, going round at the ends.
pub fn search_literal(chars: &Vec<char>, pat: &Vec<char>, start: usize, forward: bool) -> (r: Option<
    usize,
>)
    ensures
        match r {
            Some(i) => found(chars@, pat@, start as int, forward) == Some(i as int),
            None => found(chars@, pat@, start as int, forward) is None,
        },
{
    if pat.len() == 0 || chars.len() < pat.len() {
        return None;
    }
    let last: usize = chars.len() - pat.len();
    if forward {
        let begin: usize = min_of(start, chars.len());
        match find_first(chars, pat, begin, last + 1) {
            Some(i) => Some(i),
            None => find_first(chars, pat, 0, min_of(begin, last + 1)),
        }
    } else {
        let begin: usize = min_of(start, last);
        match find_last(chars, pat, 0, begin + 1) {
            Some(i) => Some(i),
            None => find_last(chars, pat, begin + 1, last + 1),
        }
    }
}

impl Step {
    /// The caret moved to where the pattern stands next; a message where it stands nowhere.
    pub open spec fn search(self, d: Option<&Doc>, forward: bool, pat: Seq<char>) -> Step {
        let at = match d {
            None => None,
            Some(d) => found(
                d.chars@,
                pat,
                if forward {
                    d.head + 1
                } else {
                    minus(d.head as int, 1)
                },
                forward,
            ),
        };
        match at {
            Some(p) => self.ask(EffectView::Caret(p)),
            None => self.ask(EffectView::Notify("Pattern not found: "@ + pat)),
        }
    }

    pub open spec fn open_search(self, forward: bool) -> Step {
        Step {
            vim: Vim { search: Some((forward, Seq::empty())), recording: None, ..self.vim },
            out: self.out,
        }
    }

    /// A key in the open search line.
    #[verifier::opaque]
    pub open spec fn search_key(self, d: Option<&Doc>, key: Key) -> Step {
        let closed = Step { vim: Vim { search: None, ..self.vim }, out: self.out };
        match self.vim.search {
            None => self,
            Some((fwd, pat)) => match key.code {
                KeyCode::Esc => closed,
                KeyCode::Enter => if pat.len() == 0 {
                    closed
                } else {
                    Step {
                        vim: Vim { last_search: Some((fwd, pat)), ..closed.vim },
                        out: self.out,
                    }.search(d, fwd, pat)
                },
                KeyCode::Backspace => if pat.len() <= 1 {
                    closed
                } else {
                    Step {
                        vim: Vim { search: Some((fwd, pat.drop_last())), ..self.vim },
                        out: self.out,
                    }
                },
                KeyCode::Char(c) => if key.ctrl {
                    self
                } else {
                    Step {
                        vim: Vim { search: Some((fwd, pat.push(c))), ..self.vim },
                        out: self.out,
                    }
                },
                _ => self,
            },
        }
    }

    /// The last search again.
    pub open spec fn search_next(self, d: Option<&Doc>, reverse: bool) -> Step {
        match self.vim.last_search {
            None => self,
            Some((fwd, pat)) => self.search(d, fwd != reverse, pat),
        }
    }

    /// The word at the caret searched for; `range` is where it stands.
    pub open spec fn search_word(
        self,
        d: Option<&Doc>,
        forward: bool,
        range: Option<(usize, usize)>,
    ) -> Step {
        match (d, range) {
            (Some(doc), Some((a, b))) => {
                let word = doc.slice(a as int, b as int);
                if is_blank(word) {
                    self
                } else {
                    Step {
                        vim: Vim { last_search: Some((forward, word)), ..self.vim },
                        out: self.out,
                    }.search(d, forward, word)
                }
            },
            _ => self,
        }
    }
}

impl Session {
    pub fn open_search(&mut self, forward: bool)
        ensures
            final(self)@ == old(self)@.open_search(forward),
    {
        let line: String = String::new();
        assert(line@ =~= Seq::empty());
        self.vim.search = Some((forward, line));
        self.vim.recording = None;
    }

    fn do_search(&mut self, d: Option<&Doc>, forward: bool, pat: &str)
        requires
            opt_wf(d),
        ensures
            final(self)@ == old(self)@.search(d, forward, pat@),
    {
        let at: Option<usize> = match d {
            None => None,
            Some(d) => {
                let p: Vec<char> = chars_of(pat);
                let start: usize = if forward {
                    d.head + 1
                } else {
                    minus_of(d.head, 1)
                };
                search_literal(&d.chars, &p, start, forward)
            },
        };
        match at {
            Some(p) => {
                self.ask(Effect::Caret(p));
            },
            None => {
                self.ask(Effect::Notify(join2("Pattern not found: ", pat)));
            },
        }
    }

    /// Handle a key in the open search line.
    pub fn search_key(&mut self, d: Option<&Doc>, key: Key)
        requires
            opt_wf(d),
        ensures
            final(self)@ == old(self)@.search_key(d, key),
    {
        proof {
            reveal(Step::search_key);
        }
        let (fwd, mut pat) = match self.vim.search.take() {
            Some(s) => s,
            None => {
                return;
            },
        };
        match key.code {
            KeyCode::Esc => {},
            KeyCode::Enter => {
                if char_count(pat.as_str()) > 0 {
                    self.vim.last_search = Some((fwd, pat.clone()));
                    self.do_search(d, fwd, pat.as_str());
                }
            },
            KeyCode::Backspace => {
                let _last: Option<char> = pat.pop();
                if char_count(pat.as_str()) > 0 {
                    self.vim.search = Some((fwd, pat));
                }
            },
            KeyCode::Char(c) => {
                if !key.ctrl {
                    pat.push(c);
                }
                self.vim.search = Some((fwd, pat));
            },
            _ => {
                self.vim.search = Some((fwd, pat));
            },
        }
    }

    /// Repeat the last search.
    pub fn search_next(&mut self, d: Option<&Doc>, reverse: bool)
        requires
            opt_wf(d),
        ensures
            final(self)@ == old(self)@.search_next(d, reverse),
    {
        let last: Option<(bool, String)> = match &self.vim.last_search {
            Some((fwd, pat)) => Some((*fwd, pat.clone())),
            None => None,
        };
        match last {
            None => {},
            Some((fwd, pat)) => {
                self.do_search(d, fwd != reverse, pat.as_str());
            },
        }
    }

    /// Search for the word at the caret.
    pub fn search_word(&mut self, d: Option<&Doc>, forward: bool, answer: &Answer)
        requires
            opt_wf(d),
        ensures
            final(self)@ == old(self)@.search_word(d, forward, answer.range),
    {
        match (d, answer.range) {
            (Some(doc), Some((a, b))) => {
                let word: String = doc.text_between(a, b);
                let bare: String = trim(word.as_str());
                if char_count(bare.as_str()) > 0 {
                    self.vim.last_search = Some((forward, word.clone()));
                    self.do_search(d, forward, word.as_str());
                }
            },
            _ => {},
        }
    }
}

} // verus!
