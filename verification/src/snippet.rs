//! Completion snippets: `$1`, `${1:placeholder}`, `${1|a,b,c|}`, `$0`, `${VAR}`, `${VAR:default}` and
//! backslash escapes, expanded to plain text and tabstops.

use vstd::prelude::*;

use crate::number::{digit_value, digits_value, is_digit, lemma_digits_grow};
use crate::text::{chars_of, is_alnum, is_letter, string_of};

verus! {

/// A tabstop: its number, and the characters of the text that it covers.
#[derive(Debug, Clone, Copy, PartialEq, Eq)]
pub struct Tabstop {
    pub number: u32,
    pub range: (usize, usize),
}

/// An expanded snippet.
#[derive(Debug, PartialEq, Eq)]
pub struct Snippet {
    pub text: String,
    pub tabstops: Vec<Tabstop>,
}

pub struct StopView {
    pub number: u32,
    pub start: int,
    pub end: int,
}

impl View for Tabstop {
    type V = StopView;

    open spec fn view(&self) -> StopView {
        StopView { number: self.number, start: self.range.0 as int, end: self.range.1 as int }
    }
}

pub open spec fn stops_view(v: Seq<Tabstop>) -> Seq<StopView> {
    v.map_values(|t: Tabstop| t@)
}

/// An expansion on its way: how far the snippet is read, and what came of it.
pub struct Snip {
    pub at: int,
    pub out: Seq<char>,
    pub stops: Seq<StopView>,
}

/// Where the digits from `i` on end.
pub open spec fn digits_end(cs: Seq<char>, i: int) -> int
    decreases cs.len() - i,
{
    if i < cs.len() && is_digit(cs[i]) {
        digits_end(cs, i + 1)
    } else {
        i
    }
}

/// The number that the digits from `i` to `j` spell; 0 where it is too great.
pub open spec fn number_at(cs: Seq<char>, i: int, j: int) -> u32 {
    let v = digits_value(cs.subrange(i, j), j - i);
    if v <= u32::MAX {
        v as u32
    } else {
        0
    }
}

/// Where the name from `i` on ends.
pub open spec fn name_end(cs: Seq<char>, i: int) -> int
    decreases cs.len() - i,
{
    if i < cs.len() && (is_alnum(cs[i]) || cs[i] == '_') {
        name_end(cs, i + 1)
    } else {
        i
    }
}

/// Where a variable's name ends, at a colon or a closing brace.
pub open spec fn variable_end(cs: Seq<char>, i: int) -> int
    decreases cs.len() - i,
{
    if i < cs.len() && cs[i] != '}' && cs[i] != ':' {
        variable_end(cs, i + 1)
    } else {
        i
    }
}

/// The first choice from `s` on.
pub open spec fn first_choice(cs: Seq<char>, s: Snip) -> Snip
    decreases cs.len() - s.at,
{
    let c = cs[s.at];
    if s.at >= cs.len() || c == ',' || c == '|' || c == '}' {
        s
    } else if c == '\\' && s.at + 1 < cs.len() {
        first_choice(cs, Snip { at: s.at + 2, out: s.out.push(cs[s.at + 1]), ..s })
    } else {
        first_choice(cs, Snip { at: s.at + 1, out: s.out.push(c), ..s })
    }
}

/// The closing brace at or after `i`, or the end.
pub open spec fn brace_at(cs: Seq<char>, i: int) -> int
    decreases cs.len() - i,
{
    if i < cs.len() && cs[i] != '}' {
        brace_at(cs, i + 1)
    } else {
        i
    }
}

/// Whether a backslash keeps a character from its meaning.
pub open spec fn is_escapable(c: char) -> bool {
    c == '$' || c == '}' || c == '\\' || c == ','
}

/// Text with tabstops and variables; inside braces, up to the closing one.
pub open spec fn text_from(cs: Seq<char>, s: Snip, nested: bool) -> Snip
    decreases cs.len() - s.at, 1nat,
{
    let c = cs[s.at];
    if s.at < 0 || s.at >= cs.len() || (nested && c == '}') {
        s
    } else if c == '\\' {
        if s.at + 1 < cs.len() && is_escapable(cs[s.at + 1]) {
            text_from(cs, Snip { at: s.at + 2, out: s.out.push(cs[s.at + 1]), ..s }, nested)
        } else {
            text_from(cs, Snip { at: s.at + 1, out: s.out.push('\\'), ..s }, nested)
        }
    } else if c == '$' {
        let t = dollar(cs, Snip { at: s.at + 1, ..s });
        if s.at < t.at <= cs.len() {
            text_from(cs, t, nested)
        } else {
            t
        }
    } else {
        text_from(cs, Snip { at: s.at + 1, out: s.out.push(c), ..s }, nested)
    }
}

/// What follows a dollar sign: a tabstop, a variable, or nothing, and then the sign stands for
/// itself.
pub open spec fn dollar(cs: Seq<char>, s: Snip) -> Snip
    decreases cs.len() - s.at, 1nat,
{
    let c = cs[s.at];
    if s.at < 0 || s.at >= cs.len() {
        Snip { out: s.out.push('$'), ..s }
    } else if c == '{' {
        braced(cs, Snip { at: s.at + 1, ..s })
    } else if is_digit(c) {
        let j = digits_end(cs, s.at);
        Snip {
            at: j,
            stops: s.stops.push(
                StopView {
                    number: number_at(cs, s.at, j),
                    start: s.out.len() as int,
                    end: s.out.len() as int,
                },
            ),
            ..s
        }
    } else if is_letter(c) || c == '_' {
        Snip { at: name_end(cs, s.at), ..s }
    } else {
        Snip { out: s.out.push('$'), ..s }
    }
}

/// What stands in braces, and the closing brace.
pub open spec fn braced(cs: Seq<char>, s: Snip) -> Snip
    decreases cs.len() - s.at, 1nat,
{
    let t = if 0 <= s.at < cs.len() && is_digit(cs[s.at]) {
        tabstop(cs, s)
    } else {
        variable(cs, s)
    };
    if 0 <= t.at < cs.len() && cs[t.at] == '}' {
        Snip { at: t.at + 1, ..t }
    } else {
        t
    }
}

/// A tabstop in braces: a number, and a placeholder or choices.
pub open spec fn tabstop(cs: Seq<char>, s: Snip) -> Snip
    decreases cs.len() - s.at, 0nat,
{
    let j = digits_end(cs, s.at);
    let t = if s.at <= j < cs.len() && cs[j] == ':' {
        text_from(cs, Snip { at: j + 1, ..s }, true)
    } else if s.at <= j < cs.len() && cs[j] == '|' {
        let u = first_choice(cs, Snip { at: j + 1, ..s });
        Snip { at: brace_at(cs, u.at), ..u }
    } else {
        Snip { at: j, ..s }
    };
    Snip {
        stops: t.stops.push(
            StopView {
                number: number_at(cs, s.at, j),
                start: s.out.len() as int,
                end: t.out.len() as int,
            },
        ),
        ..t
    }
}

/// A variable in braces: it is unknown, so its default stands for it.
pub open spec fn variable(cs: Seq<char>, s: Snip) -> Snip
    decreases cs.len() - s.at, 0nat,
{
    let j = variable_end(cs, s.at);
    if s.at <= j < cs.len() && cs[j] == ':' {
        text_from(cs, Snip { at: j + 1, ..s }, true)
    } else {
        Snip { at: j, ..s }
    }
}

/// A snippet's expansion.
pub open spec fn expanded(cs: Seq<char>) -> Snip {
    text_from(cs, Snip { at: 0, out: Seq::empty(), stops: Seq::empty() }, false)
}

pub proof fn lemma_digits_end(cs: Seq<char>, i: int)
    requires
        0 <= i <= cs.len(),
    ensures
        i <= digits_end(cs, i) <= cs.len(),
    decreases cs.len() - i,
{
    if i < cs.len() && is_digit(cs[i]) {
        lemma_digits_end(cs, i + 1);
    }
}

proof fn lemma_name_end(cs: Seq<char>, i: int)
    requires
        0 <= i <= cs.len(),
    ensures
        i <= name_end(cs, i) <= cs.len(),
    decreases cs.len() - i,
{
    if i < cs.len() && (is_alnum(cs[i]) || cs[i] == '_') {
        lemma_name_end(cs, i + 1);
    }
}

proof fn lemma_variable_end(cs: Seq<char>, i: int)
    requires
        0 <= i <= cs.len(),
    ensures
        i <= variable_end(cs, i) <= cs.len(),
    decreases cs.len() - i,
{
    if i < cs.len() && cs[i] != '}' && cs[i] != ':' {
        lemma_variable_end(cs, i + 1);
    }
}

proof fn lemma_brace_at(cs: Seq<char>, i: int)
    requires
        0 <= i <= cs.len(),
    ensures
        i <= brace_at(cs, i) <= cs.len(),
    decreases cs.len() - i,
{
    if i < cs.len() && cs[i] != '}' {
        lemma_brace_at(cs, i + 1);
    }
}

/// Whether an expansion went on from another: further in the snippet, with at least as much text,
/// and all tabstops within the text.
pub open spec fn follows(cs: Seq<char>, s: Snip, t: Snip) -> bool {
    &&& s.at <= t.at <= cs.len()
    &&& s.out.len() <= t.out.len()
    &&& inside(s) ==> inside(t)
}

/// Whether all tabstops are within the text.
pub open spec fn inside(s: Snip) -> bool {
    forall|i: int|
        0 <= i < s.stops.len() ==> 0 <= (#[trigger] s.stops[i]).start <= s.stops[i].end
            <= s.out.len()
}

proof fn lemma_first_choice(cs: Seq<char>, s: Snip)
    requires
        0 <= s.at <= cs.len(),
    ensures
        follows(cs, s, first_choice(cs, s)),
        first_choice(cs, s).stops == s.stops,
    decreases cs.len() - s.at,
{
    let c = cs[s.at];
    if s.at >= cs.len() || c == ',' || c == '|' || c == '}' {
    } else if c == '\\' && s.at + 1 < cs.len() {
        lemma_first_choice(cs, Snip { at: s.at + 2, out: s.out.push(cs[s.at + 1]), ..s });
    } else {
        lemma_first_choice(cs, Snip { at: s.at + 1, out: s.out.push(c), ..s });
    }
}

proof fn lemma_text_from(cs: Seq<char>, s: Snip, nested: bool)
    requires
        0 <= s.at <= cs.len(),
    ensures
        follows(cs, s, text_from(cs, s, nested)),
    decreases cs.len() - s.at, 1nat,
{
    let c = cs[s.at];
    if s.at >= cs.len() || (nested && c == '}') {
    } else if c == '\\' {
        if s.at + 1 < cs.len() && is_escapable(cs[s.at + 1]) {
            lemma_text_from(cs, Snip { at: s.at + 2, out: s.out.push(cs[s.at + 1]), ..s }, nested);
        } else {
            lemma_text_from(cs, Snip { at: s.at + 1, out: s.out.push('\\'), ..s }, nested);
        }
    } else if c == '$' {
        lemma_dollar(cs, Snip { at: s.at + 1, ..s });
        lemma_text_from(cs, dollar(cs, Snip { at: s.at + 1, ..s }), nested);
    } else {
        lemma_text_from(cs, Snip { at: s.at + 1, out: s.out.push(c), ..s }, nested);
    }
}

proof fn lemma_dollar(cs: Seq<char>, s: Snip)
    requires
        0 <= s.at <= cs.len(),
    ensures
        follows(cs, s, dollar(cs, s)),
    decreases cs.len() - s.at, 1nat,
{
    let c = cs[s.at];
    if s.at < cs.len() {
        lemma_digits_end(cs, s.at);
        lemma_name_end(cs, s.at);
        if c == '{' {
            lemma_braced(cs, Snip { at: s.at + 1, ..s });
        }
    }
}

proof fn lemma_braced(cs: Seq<char>, s: Snip)
    requires
        0 <= s.at <= cs.len(),
    ensures
        follows(cs, s, braced(cs, s)),
    decreases cs.len() - s.at, 1nat,
{
    if s.at < cs.len() && is_digit(cs[s.at]) {
        lemma_tabstop(cs, s);
    } else {
        lemma_variable(cs, s);
    }
}

proof fn lemma_tabstop(cs: Seq<char>, s: Snip)
    requires
        0 <= s.at <= cs.len(),
    ensures
        follows(cs, s, tabstop(cs, s)),
    decreases cs.len() - s.at, 0nat,
{
    lemma_digits_end(cs, s.at);
    let j = digits_end(cs, s.at);
    if j < cs.len() && cs[j] == ':' {
        lemma_text_from(cs, Snip { at: j + 1, ..s }, true);
    } else if j < cs.len() && cs[j] == '|' {
        let u = first_choice(cs, Snip { at: j + 1, ..s });
        lemma_first_choice(cs, Snip { at: j + 1, ..s });
        lemma_brace_at(cs, u.at);
    }
}

proof fn lemma_variable(cs: Seq<char>, s: Snip)
    requires
        0 <= s.at <= cs.len(),
    ensures
        follows(cs, s, variable(cs, s)),
    decreases cs.len() - s.at, 0nat,
{
    lemma_variable_end(cs, s.at);
    let j = variable_end(cs, s.at);
    if j < cs.len() && cs[j] == ':' {
        lemma_text_from(cs, Snip { at: j + 1, ..s }, true);
    }
}

/// Every tabstop of an expanded snippet is within its text.
pub proof fn tabstops_are_within_the_text(cs: Seq<char>)
    ensures
        inside(expanded(cs)),
{
    lemma_text_from(cs, Snip { at: 0, out: Seq::empty(), stops: Seq::empty() }, false);
}

/// Text without dollar signs and backslashes is its own expansion.
pub proof fn plain_text_is_kept(cs: Seq<char>)
    requires
        forall|i: int| 0 <= i < cs.len() ==> (#[trigger] cs[i]) != '$' && cs[i] != '\\',
    ensures
        expanded(cs).out == cs,
        expanded(cs).stops == Seq::<StopView>::empty(),
{
    lemma_plain(cs, 0);
    assert(cs.take(0) =~= Seq::empty());
}

proof fn lemma_plain(cs: Seq<char>, i: int)
    requires
        0 <= i <= cs.len(),
        forall|k: int| 0 <= k < cs.len() ==> (#[trigger] cs[k]) != '$' && cs[k] != '\\',
    ensures
        ({
            let t = text_from(
                cs,
                Snip { at: i, out: cs.take(i), stops: Seq::empty() },
                false,
            );
            t.out == cs && t.stops == Seq::<StopView>::empty()
        }),
    decreases cs.len() - i,
{
    if i < cs.len() {
        assert(cs.take(i).push(cs[i]) =~= cs.take(i + 1));
        lemma_plain(cs, i + 1);
    } else {
        assert(cs.take(i) =~= cs);
    }
}

/// The tabstop that the caret goes to, from the first `n` of them: the one with the least number
/// above 0, the first of those.
pub open spec fn lowest(stops: Seq<StopView>, n: int) -> Option<int>
    decreases n,
{
    if n <= 0 {
        None
    } else {
        let t = stops[n - 1];
        match lowest(stops, n - 1) {
            Some(i) => if t.number > 0 && t.number < stops[i].number {
                Some(n - 1)
            } else {
                Some(i)
            },
            None => if t.number > 0 {
                Some(n - 1)
            } else {
                None
            },
        }
    }
}

/// The first tabstop from `i` on with number 0.
pub open spec fn final_stop(stops: Seq<StopView>, i: int) -> Option<int>
    decreases stops.len() - i,
{
    if i >= stops.len() {
        None
    } else if stops[i].number == 0 {
        Some(i)
    } else {
        final_stop(stops, i + 1)
    }
}

/// The tabstop that the caret goes to: the lowest, else the final one; none where there is none.
pub open spec fn first_of(stops: Seq<StopView>) -> Option<StopView> {
    match lowest(stops, stops.len() as int) {
        Some(i) => Some(stops[i]),
        None => match final_stop(stops, 0) {
            Some(i) => Some(stops[i]),
            None => None,
        },
    }
}

proof fn lemma_lowest(stops: Seq<StopView>, n: int)
    requires
        0 <= n <= stops.len(),
    ensures
        match lowest(stops, n) {
            Some(i) => 0 <= i < n && stops[i].number > 0 && forall|k: int|
                0 <= k < n && (#[trigger] stops[k]).number > 0 ==> stops[i].number
                    <= stops[k].number,
            None => forall|k: int| 0 <= k < n ==> (#[trigger] stops[k]).number == 0,
        },
    decreases n,
{
    if n > 0 {
        lemma_lowest(stops, n - 1);
    }
}

/// The caret goes to the tabstop with the least number above 0, where there is one.
pub proof fn the_first_stop_is_the_lowest(stops: Seq<StopView>, k: int)
    requires
        0 <= k < stops.len(),
        stops[k].number > 0,
    ensures
        first_of(stops) is Some,
        0 < first_of(stops).unwrap().number <= stops[k].number,
{
    lemma_lowest(stops, stops.len() as int);
}

impl Snippet {
    /// The tabstop that the caret goes to.
    pub fn first_stop(&self) -> (r: Option<&Tabstop>)
        ensures
            match r {
                Some(t) => first_of(stops_view(self.tabstops@)) == Some(t@),
                None => first_of(stops_view(self.tabstops@)) is None,
            },
    {
        let ghost sv = stops_view(self.tabstops@);
        let mut best: Option<usize> = None;
        let mut zero: Option<usize> = None;
        let mut i: usize = 0;
        while i < self.tabstops.len()
            invariant
                i <= self.tabstops.len(),
                sv == stops_view(self.tabstops@),
                match best {
                    Some(b) => b < i && lowest(sv, i as int) == Some(b as int),
                    None => lowest(sv, i as int) is None,
                },
                match zero {
                    Some(z) => z < i && final_stop(sv, 0) == Some(z as int),
                    None => final_stop(sv, 0) == final_stop(sv, i as int),
                },
            decreases self.tabstops.len() - i,
        {
            let n: u32 = self.tabstops[i].number;
            assert(sv[i as int] == self.tabstops@[i as int]@);
            if n > 0 {
                match best {
                    Some(b) => {
                        assert(sv[b as int] == self.tabstops@[b as int]@);
                        if n < self.tabstops[b].number {
                            best = Some(i);
                        }
                    },
                    None => {
                        best = Some(i);
                    },
                }
            } else if zero.is_none() {
                zero = Some(i);
            }
            i += 1;
        }
        match best {
            Some(b) => {
                assert(sv[b as int] == self.tabstops@[b as int]@);
                Some(&self.tabstops[b])
            },
            None => match zero {
                Some(z) => {
                    assert(sv[z as int] == self.tabstops@[z as int]@);
                    Some(&self.tabstops[z])
                },
                None => None,
            },
        }
    }
}

/// Expand a snippet.
pub fn expand(src: &str) -> (r: Snippet)
    ensures
        r.text@ == expanded(src@).out,
        stops_view(r.tabstops@) == expanded(src@).stops,
        forall|i: int|
            0 <= i < r.tabstops@.len() ==> (#[trigger] r.tabstops@[i]).range.0
                <= r.tabstops@[i].range.1 && r.tabstops@[i].range.1 <= r.text@.len(),
{
    let chars: Vec<char> = chars_of(src);
    let mut out: Vec<char> = Vec::new();
    let mut stops: Vec<Tabstop> = Vec::new();
    assert(out@ =~= Seq::empty());
    assert(stops_view(stops@) =~= Seq::empty());
    let _end: usize = parse(&chars, 0, &mut out, &mut stops, false);
    proof {
        tabstops_are_within_the_text(src@);
        assert forall|i: int| 0 <= i < stops@.len() implies (#[trigger] stops@[i]).range.0
            <= stops@[i].range.1 && stops@[i].range.1 <= out@.len() by {
            assert(expanded(src@).stops[i] == stops@[i]@);
        }
    }
    let text: String = string_of(out.as_slice(), 0, out.len());
    assert(text@ =~= out@);
    Snippet { text, tabstops: stops }
}

/// The state of an expansion.
spec fn snip(at: int, out: Seq<char>, stops: Seq<Tabstop>) -> Snip {
    Snip { at, out, stops: stops_view(stops) }
}

fn parse(
    chars: &Vec<char>,
    at: usize,
    out: &mut Vec<char>,
    stops: &mut Vec<Tabstop>,
    nested: bool,
) -> (r: usize)
    requires
        at <= chars@.len(),
    ensures
        r <= chars@.len(),
        snip(r as int, final(out)@, final(stops)@) == text_from(
            chars@,
            snip(at as int, old(out)@, old(stops)@),
            nested,
        ),
    decreases chars@.len() - at, 1nat,
{
    let ghost whole = text_from(chars@, snip(at as int, out@, stops@), nested);
    let mut i: usize = at;
    while i < chars.len() && !(nested && chars[i] == '}')
        invariant
            at <= i <= chars.len(),
            whole == text_from(chars@, snip(i as int, out@, stops@), nested),
        decreases chars.len() - i,
    {
        let c: char = chars[i];
        let ghost s = snip(i as int, out@, stops@);
        if c == '\\' {
            if i + 1 < chars.len() && (chars[i + 1] == '$' || chars[i + 1] == '}' || chars[i + 1]
                == '\\' || chars[i + 1] == ',') {
                out.push(chars[i + 1]);
                i += 2;
            } else {
                out.push('\\');
                i += 1;
            }
        } else if c == '$' {
            proof {
                lemma_dollar(chars@, Snip { at: i + 1, ..s });
            }
            i = parse_dollar(chars, i + 1, out, stops);
        } else {
            out.push(c);
            i += 1;
        }
    }
    i
}

fn parse_dollar(chars: &Vec<char>, at: usize, out: &mut Vec<char>, stops: &mut Vec<Tabstop>) -> (r:
    usize)
    requires
        0 < at <= chars@.len(),
    ensures
        r <= chars@.len(),
        snip(r as int, final(out)@, final(stops)@) == dollar(
            chars@,
            snip(at as int, old(out)@, old(stops)@),
        ),
    decreases chars@.len() - at, 1nat,
{
    if at >= chars.len() {
        out.push('$');
        return at;
    }
    let c: char = chars[at];
    if c == '{' {
        parse_braced(chars, at + 1, out, stops)
    } else if '0' <= c && c <= '9' {
        let (n, j): (u32, usize) = read_number(chars, at);
        let len: usize = out.len();
        push_stop(stops, n, len, len);
        j
    } else if c.is_alphabetic() || c == '_' {
        let mut j: usize = at;
        while j < chars.len() && (chars[j].is_alphanumeric() || chars[j] == '_')
            invariant
                at <= j <= chars.len(),
                name_end(chars@, at as int) == name_end(chars@, j as int),
            decreases chars.len() - j,
        {
            j += 1;
        }
        j
    } else {
        out.push('$');
        at
    }
}

/// Append a tabstop.
fn push_stop(stops: &mut Vec<Tabstop>, number: u32, start: usize, end: usize)
    ensures
        stops_view(final(stops)@) == stops_view(old(stops)@).push(
            StopView { number, start: start as int, end: end as int },
        ),
{
    stops.push(Tabstop { number, range: (start, end) });
    assert(stops_view(stops@) =~= stops_view(old(stops)@).push(
        StopView { number, start: start as int, end: end as int },
    ));
}

fn parse_braced(chars: &Vec<char>, at: usize, out: &mut Vec<char>, stops: &mut Vec<Tabstop>) -> (r:
    usize)
    requires
        at <= chars@.len(),
    ensures
        r <= chars@.len(),
        snip(r as int, final(out)@, final(stops)@) == braced(
            chars@,
            snip(at as int, old(out)@, old(stops)@),
        ),
    decreases chars@.len() - at, 1nat,
{
    let end: usize = if at < chars.len() && '0' <= chars[at] && chars[at] <= '9' {
        parse_braced_tabstop(chars, at, out, stops)
    } else {
        skip_var_default(chars, at, out, stops)
    };
    if end < chars.len() && chars[end] == '}' {
        end + 1
    } else {
        end
    }
}

fn parse_braced_tabstop(
    chars: &Vec<char>,
    at: usize,
    out: &mut Vec<char>,
    stops: &mut Vec<Tabstop>,
) -> (r: usize)
    requires
        at <= chars@.len(),
    ensures
        r <= chars@.len(),
        snip(r as int, final(out)@, final(stops)@) == tabstop(
            chars@,
            snip(at as int, old(out)@, old(stops)@),
        ),
    decreases chars@.len() - at, 0nat,
{
    let (n, j): (u32, usize) = read_number(chars, at);
    let start: usize = out.len();
    let mut end: usize = j;
    if j < chars.len() && chars[j] == ':' {
        end = parse(chars, j + 1, out, stops, true);
    } else if j < chars.len() && chars[j] == '|' {
        end = read_choice_first(chars, j + 1, out, Ghost(stops@));
    }
    let len: usize = out.len();
    push_stop(stops, n, start, len);
    end
}

fn skip_var_default(
    chars: &Vec<char>,
    at: usize,
    out: &mut Vec<char>,
    stops: &mut Vec<Tabstop>,
) -> (r: usize)
    requires
        at <= chars@.len(),
    ensures
        r <= chars@.len(),
        snip(r as int, final(out)@, final(stops)@) == variable(
            chars@,
            snip(at as int, old(out)@, old(stops)@),
        ),
    decreases chars@.len() - at, 0nat,
{
    let mut j: usize = at;
    while j < chars.len() && chars[j] != '}' && chars[j] != ':'
        invariant
            at <= j <= chars.len(),
            variable_end(chars@, at as int) == variable_end(chars@, j as int),
        decreases chars.len() - j,
    {
        j += 1;
    }
    if j < chars.len() && chars[j] == ':' {
        parse(chars, j + 1, out, stops, true)
    } else {
        j
    }
}

/// The number at `at`, and where it ends.
fn read_number(chars: &Vec<char>, at: usize) -> (r: (u32, usize))
    requires
        at <= chars@.len(),
    ensures
        r.1 == digits_end(chars@, at as int),
        r.0 == number_at(chars@, at as int, r.1 as int),
        at <= r.1 <= chars@.len(),
{
    let mut n: u64 = 0;
    let mut over: bool = false;
    let mut j: usize = at;
    while j < chars.len() && '0' <= chars[j] && chars[j] <= '9'
        invariant
            at <= j <= chars.len(),
            digits_end(chars@, at as int) == digits_end(chars@, j as int),
            forall|k: int| at <= k < j ==> is_digit(#[trigger] chars@[k]),
            over ==> digits_value(chars@.subrange(at as int, j as int), j - at) > u32::MAX,
            !over ==> n == digits_value(chars@.subrange(at as int, j as int), j - at),
            n <= u32::MAX,
        decreases chars.len() - j,
    {
        let v: u64 = digit_value(chars[j]);
        proof {
            lemma_one_more_digit(chars@, at as int, j as int);
        }
        if !over {
            let next: u64 = n * 10 + v;
            if next > u32::MAX as u64 {
                over = true;
            } else {
                n = next;
            }
        }
        j += 1;
    }
    (
        if over {
            0
        } else {
            n as u32
        },
        j,
    )
}

proof fn lemma_one_more_digit(cs: Seq<char>, i: int, j: int)
    requires
        0 <= i <= j < cs.len(),
    ensures
        digits_value(cs.subrange(i, j + 1), j + 1 - i) == digits_value(
            cs.subrange(i, j),
            j - i,
        ) * 10 + (cs[j] as int - '0' as int),
{
    lemma_same_digits(cs.subrange(i, j + 1), cs.subrange(i, j), j - i);
    assert(cs.subrange(i, j + 1)[j - i] == cs[j]);
}

proof fn lemma_same_digits(a: Seq<char>, b: Seq<char>, n: int)
    requires
        0 <= n <= a.len(),
        n <= b.len(),
        forall|k: int| 0 <= k < n ==> a[k] == b[k],
    ensures
        digits_value(a, n) == digits_value(b, n),
    decreases n,
{
    if n > 0 {
        lemma_same_digits(a, b, n - 1);
    }
}

/// Append the first choice and skip the others.
fn read_choice_first(
    chars: &Vec<char>,
    at: usize,
    out: &mut Vec<char>,
    Ghost(stops): Ghost<Seq<Tabstop>>,
) -> (r: usize)
    requires
        at <= chars@.len(),
    ensures
        ({
            let u = first_choice(chars@, snip(at as int, old(out)@, stops));
            snip(r as int, final(out)@, stops) == (Snip { at: brace_at(chars@, u.at), ..u }) && r
                <= chars@.len()
        }),
{
    let ghost whole = first_choice(chars@, snip(at as int, out@, stops));
    let mut i: usize = at;
    while i < chars.len() && chars[i] != ',' && chars[i] != '|' && chars[i] != '}'
        invariant
            at <= i <= chars.len(),
            whole == first_choice(chars@, snip(i as int, out@, stops)),
        decreases chars.len() - i,
    {
        if chars[i] == '\\' && i + 1 < chars.len() {
            i += 1;
        }
        out.push(chars[i]);
        i += 1;
    }
    let ghost first = i;
    while i < chars.len() && chars[i] != '}'
        invariant
            first <= i <= chars.len(),
            brace_at(chars@, first as int) == brace_at(chars@, i as int),
        decreases chars.len() - i,
    {
        i += 1;
    }
    i
}

/// Whether a text holds none of the characters that mean something in a snippet.
pub open spec fn is_plain(s: Seq<char>) -> bool {
    forall|k: int|
        0 <= k < s.len() ==> (#[trigger] s[k]) != '$' && s[k] != '\\' && s[k] != '}'
}

proof fn lemma_run(cs: Seq<char>, s: Snip, e: int, nested: bool)
    requires
        0 <= s.at <= e <= cs.len(),
        is_plain(cs.subrange(s.at, e)),
    ensures
        text_from(cs, s, nested) == text_from(
            cs,
            (Snip { at: e, out: s.out + cs.subrange(s.at, e), ..s }),
            nested,
        ),
    decreases e - s.at,
{
    let part = cs.subrange(s.at, e);
    if s.at < e {
        assert(cs[s.at] == part[0]);
        let t = Snip { at: s.at + 1, out: s.out.push(cs[s.at]), ..s };
        assert forall|k: int| 0 <= k < cs.subrange(t.at, e).len() implies (#[trigger] cs.subrange(
            t.at,
            e,
        )[k]) != '$' && cs.subrange(t.at, e)[k] != '\\' && cs.subrange(t.at, e)[k] != '}' by {
            assert(cs.subrange(t.at, e)[k] == part[k + 1]);
        }
        lemma_run(cs, t, e, nested);
        assert(t.out + cs.subrange(t.at, e) =~= s.out + part);
    } else {
        assert(s.out + part =~= s.out);
    }
}

proof fn lemma_digits_are(cs: Seq<char>, i: int, j: int)
    requires
        0 <= i <= j <= cs.len(),
        forall|k: int| i <= k < j ==> is_digit(#[trigger] cs[k]),
        j == cs.len() || !is_digit(cs[j]),
    ensures
        digits_end(cs, i) == j,
    decreases j - i,
{
    if i < j {
        assert(is_digit(cs[i]));
        lemma_digits_are(cs, i + 1, j);
    }
}

/// The snippet that starts with a plain text: the rest goes on behind it.
proof fn lemma_front(before: Seq<char>, rest: Seq<char>)
    requires
        is_plain(before),
    ensures
        expanded(before + rest) == text_from(
            before + rest,
            (Snip { at: before.len() as int, out: before, stops: Seq::empty() }),
            false,
        ),
{
    let cs = before + rest;
    let s = Snip { at: 0, out: Seq::empty(), stops: Seq::empty() };
    assert(cs.subrange(0, before.len() as int) =~= before);
    lemma_run(cs, s, before.len() as int, false);
    assert(s.out + before =~= before);
}

/// The snippet that ends with a plain text: it is kept.
proof fn lemma_back(cs: Seq<char>, s: Snip, after: Seq<char>)
    requires
        is_plain(after),
        0 <= s.at <= cs.len(),
        cs.skip(s.at) == after,
    ensures
        text_from(cs, s, false).out == s.out + after,
        text_from(cs, s, false).stops == s.stops,
{
    assert(cs.subrange(s.at, cs.len() as int) =~= after);
    lemma_run(cs, s, cs.len() as int, false);
}

proof fn lemma_behind_dollar(cs: Seq<char>, s: Snip, t: Snip, nested: bool)
    requires
        0 <= s.at < cs.len(),
        cs[s.at] == '$',
        t == dollar(cs, (Snip { at: s.at + 1, ..s })),
        s.at < t.at <= cs.len(),
    ensures
        text_from(cs, s, nested) == text_from(cs, t, nested),
{
}

/// A dollar sign with a number is a tabstop: it adds no text, and stands where the text before it
/// ends, under its number.
pub proof fn a_number_is_a_tabstop(before: Seq<char>, digits: Seq<char>, after: Seq<char>)
    requires
        is_plain(before),
        is_plain(after),
        digits.len() > 0,
        forall|k: int| 0 <= k < digits.len() ==> is_digit(#[trigger] digits[k]),
        digits_value(digits, digits.len() as int) <= u32::MAX,
        after.len() > 0 ==> !is_digit(after[0]),
    ensures
        ({
            let r = expanded(before + (seq!['$'] + digits + after));
            &&& r.out == before + after
            &&& r.stops.len() == 1
            &&& r.stops[0].number == digits_value(digits, digits.len() as int)
            &&& r.stops[0].start == before.len()
            &&& r.stops[0].end == before.len()
        }),
{
    let rest = seq!['$'] + digits + after;
    let cs = before + rest;
    let a = before.len() as int;
    let j = a + 1 + digits.len();
    lemma_front(before, rest);
    let s = Snip { at: a, out: before, stops: Seq::empty() };
    assert(cs[a] == '$');
    assert forall|k: int| a + 1 <= k < j implies is_digit(#[trigger] cs[k]) by {
        assert(cs[k] == digits[k - a - 1]);
    }
    assert(j < cs.len() ==> cs[j] == after[0]);
    lemma_digits_are(cs, a + 1, j);
    assert(is_digit(cs[a + 1]));
    assert(cs.subrange(a + 1, j) =~= digits);
    lemma_digits_grow(digits, 0, digits.len() as int);
    let t = dollar(cs, Snip { at: a + 1, ..s });
    assert(t.at == j && t.out == before && t.stops.len() == 1);
    lemma_behind_dollar(cs, s, t, false);
    assert(cs.skip(j) =~= after);
    lemma_back(cs, t, after);
}

proof fn lemma_nested(cs: Seq<char>, s: Snip, e: int)
    requires
        0 <= s.at <= e < cs.len(),
        is_plain(cs.subrange(s.at, e)),
        cs[e] == '}',
    ensures
        text_from(cs, s, true) == (Snip { at: e, out: s.out + cs.subrange(s.at, e), ..s }),
{
    lemma_run(cs, s, e, true);
}

proof fn lemma_braces(cs: Seq<char>, s: Snip, j: int, e: int)
    requires
        0 <= s.at,
        s.at + 2 < j < e < cs.len(),
        cs[s.at + 1] == '{',
        is_digit(cs[s.at + 2]),
        digits_end(cs, s.at + 2) == j,
        cs[j] == ':',
        is_plain(cs.subrange(j + 1, e)),
        cs[e] == '}',
    ensures
        ({
            let out = s.out + cs.subrange(j + 1, e);
            dollar(cs, (Snip { at: s.at + 1, ..s })) == (Snip {
                at: e + 1,
                out,
                stops: s.stops.push(
                    StopView {
                        number: number_at(cs, s.at + 2, j),
                        start: s.out.len() as int,
                        end: out.len() as int,
                    },
                ),
            })
        }),
{
    let b = Snip { at: s.at + 2, ..s };
    let u = Snip { at: j + 1, ..s };
    lemma_nested(cs, u, e);
    let t = tabstop(cs, b);
    assert(text_from(cs, Snip { at: j + 1, ..b }, true) == text_from(cs, u, true));
    assert(t.at == e);
    assert(braced(cs, b) == Snip { at: e + 1, ..t });
    assert(dollar(cs, Snip { at: s.at + 1, ..s }) == braced(cs, b));
}

/// A number in braces with a text behind a colon is a tabstop over that text, which is inserted.
pub proof fn a_placeholder_is_inserted(
    before: Seq<char>,
    digits: Seq<char>,
    text: Seq<char>,
    after: Seq<char>,
)
    requires
        is_plain(before),
        is_plain(text),
        is_plain(after),
        digits.len() > 0,
        forall|k: int| 0 <= k < digits.len() ==> is_digit(#[trigger] digits[k]),
        digits_value(digits, digits.len() as int) <= u32::MAX,
    ensures
        ({
            let r = expanded(before + (seq!['$', '{'] + digits + seq![':'] + text + seq!['}'] + after));
            &&& r.out == before + text + after
            &&& r.stops.len() == 1
            &&& r.stops[0].number == digits_value(digits, digits.len() as int)
            &&& r.stops[0].start == before.len()
            &&& r.stops[0].end == before.len() + text.len()
        }),
{
    let rest = seq!['$', '{'] + digits + seq![':'] + text + seq!['}'] + after;
    let cs = before + rest;
    let a = before.len() as int;
    let j = a + 2 + digits.len();
    let e = j + 1 + text.len();
    lemma_front(before, rest);
    let s = Snip { at: a, out: before, stops: Seq::empty() };
    assert(cs[a] == '$' && cs[a + 1] == '{');
    assert forall|k: int| a + 2 <= k < j implies is_digit(#[trigger] cs[k]) by {
        assert(cs[k] == digits[k - a - 2]);
    }
    assert(cs[j] == ':');
    assert(cs[e] == '}');
    lemma_digits_are(cs, a + 2, j);
    assert(is_digit(cs[a + 2]));
    assert(cs.subrange(a + 2, j) =~= digits);
    lemma_digits_grow(digits, 0, digits.len() as int);
    assert(cs.subrange(j + 1, e) =~= text);
    lemma_braces(cs, s, j, e);
    let t = dollar(cs, Snip { at: a + 1, ..s });
    assert(t.out =~= before + text);
    lemma_behind_dollar(cs, s, t, false);
    assert(cs.skip(e + 1) =~= after);
    lemma_back(cs, t, after);
}

/// A backslash before a dollar sign, a closing brace, a comma or a backslash keeps that character and
/// goes; before another character it stands for itself.
pub proof fn a_backslash_keeps_a_character(before: Seq<char>, c: char, after: Seq<char>)
    requires
        is_plain(before),
        is_plain(after),
    ensures
        ({
            let r = expanded(before + (seq!['\\', c] + after));
            &&& c == '$' || c == '}' || c == ',' || c == '\\' ==> r.out == before.push(c) + after
            &&& c != '$' && c != '}' && c != ',' && c != '\\' ==> r.out == before.push('\\').push(c)
                + after
            &&& r.stops.len() == 0
        }),
{
    let rest = seq!['\\', c] + after;
    let cs = before + rest;
    let a = before.len() as int;
    lemma_front(before, rest);
    let s = Snip { at: a, out: before, stops: Seq::empty() };
    assert(cs[a] == '\\' && cs[a + 1] == c);
    assert(cs.skip(a + 2) =~= after);
    if is_escapable(c) {
        let t = Snip { at: a + 2, out: before.push(c), ..s };
        assert(text_from(cs, s, false) == text_from(cs, t, false));
        lemma_back(cs, t, after);
    } else {
        let u = Snip { at: a + 1, out: before.push('\\'), ..s };
        let t = Snip { at: a + 2, out: before.push('\\').push(c), ..s };
        assert(text_from(cs, s, false) == text_from(cs, u, false));
        assert(text_from(cs, u, false) == text_from(cs, t, false));
        lemma_back(cs, t, after);
    }
}

proof fn lemma_variable_is(cs: Seq<char>, i: int, j: int)
    requires
        0 <= i <= j < cs.len(),
        forall|k: int| i <= k < j ==> (#[trigger] cs[k]) != '}' && cs[k] != ':',
        cs[j] == '}' || cs[j] == ':',
    ensures
        variable_end(cs, i) == j,
    decreases j - i,
{
    if i < j {
        assert(cs[i] != '}');
        lemma_variable_is(cs, i + 1, j);
    }
}

proof fn lemma_default(cs: Seq<char>, s: Snip, j: int, e: int)
    requires
        0 <= s.at,
        s.at + 2 < j < e < cs.len(),
        cs[s.at + 1] == '{',
        !is_digit(cs[s.at + 2]),
        variable_end(cs, s.at + 2) == j,
        cs[j] == ':',
        is_plain(cs.subrange(j + 1, e)),
        cs[e] == '}',
    ensures
        dollar(cs, (Snip { at: s.at + 1, ..s })) == (Snip {
            at: e + 1,
            out: s.out + cs.subrange(j + 1, e),
            ..s
        }),
{
    let b = Snip { at: s.at + 2, ..s };
    let u = Snip { at: j + 1, ..s };
    lemma_nested(cs, u, e);
    let t = variable(cs, b);
    assert(text_from(cs, Snip { at: j + 1, ..b }, true) == text_from(cs, u, true));
    assert(t.at == e);
    assert(braced(cs, b) == Snip { at: e + 1, ..t });
    assert(dollar(cs, Snip { at: s.at + 1, ..s }) == braced(cs, b));
}

/// A variable in braces is replaced by its default, and is no tabstop.
pub proof fn a_default_stands_for_its_variable(
    before: Seq<char>,
    name: Seq<char>,
    text: Seq<char>,
    after: Seq<char>,
)
    requires
        is_plain(before),
        is_plain(name),
        is_plain(text),
        is_plain(after),
        name.len() > 0,
        !is_digit(name[0]),
        !name.contains(':'),
    ensures
        ({
            let r = expanded(before + (seq!['$', '{'] + name + seq![':'] + text + seq!['}'] + after));
            &&& r.out == before + text + after
            &&& r.stops.len() == 0
        }),
{
    let rest = seq!['$', '{'] + name + seq![':'] + text + seq!['}'] + after;
    let cs = before + rest;
    let a = before.len() as int;
    let j = a + 2 + name.len();
    let e = j + 1 + text.len();
    lemma_front(before, rest);
    let s = Snip { at: a, out: before, stops: Seq::empty() };
    assert(cs[a] == '$' && cs[a + 1] == '{');
    assert forall|k: int| a + 2 <= k < j implies (#[trigger] cs[k]) != '}' && cs[k] != ':' by {
        assert(cs[k] == name[k - a - 2]);
        assert(name.contains(name[k - a - 2]));
    }
    assert(cs[a + 2] == name[0]);
    assert(cs[j] == ':');
    assert(cs[e] == '}');
    lemma_variable_is(cs, a + 2, j);
    assert(cs.subrange(j + 1, e) =~= text);
    lemma_default(cs, s, j, e);
    let t = dollar(cs, Snip { at: a + 1, ..s });
    lemma_behind_dollar(cs, s, t, false);
    assert(cs.skip(e + 1) =~= after);
    lemma_back(cs, t, after);
}

} // verus!
