//! Search patterns: compiled regular expressions, and where they match in a text.

use regex::{Matches, Regex, RegexBuilder};
use vstd::prelude::*;

verus! {

/// The `regex` crate's compiled expression.
#[verifier::external_type_specification]
#[verifier::external_body]
pub struct ExRegex(Regex);

/// The `regex` crate's matches of an expression in a text, handed out one by one.
#[verifier::external_type_specification]
#[verifier::external_body]
pub struct ExMatches<'r, 'h>(Matches<'r, 'h>);

/// A compiled expression, with what it was compiled from. Only `compile` makes one.
pub struct Pattern {
    source: String,
    insensitive: bool,
    re: Regex,
}

impl Pattern {
    /// The expression's text.
    pub closed spec fn source(&self) -> Seq<char> {
        self.source@
    }

    /// Whether upper and lower case match each other.
    pub closed spec fn insensitive(&self) -> bool {
        self.insensitive
    }
}

/// Whether a character stands for something else in an expression.
pub open spec fn is_meta(c: char) -> bool {
    ||| c == '\\' || c == '.' || c == '+' || c == '*' || c == '?' || c == '('
    ||| c == ')' || c == '|' || c == '[' || c == ']' || c == '{' || c == '}'
    ||| c == '^' || c == '$' || c == '#' || c == '&' || c == '-' || c == '~'
}

/// A text with a backslash before each character that stands for something else.
pub open spec fn escaped(s: Seq<char>) -> Seq<char>
    decreases s.len(),
{
    if s.len() == 0 {
        Seq::empty()
    } else if is_meta(s.last()) {
        escaped(s.drop_last()).push('\\').push(s.last())
    } else {
        escaped(s.drop_last()).push(s.last())
    }
}

/// `regex::escape` puts a backslash before each meta character and keeps the rest.
#[verifier::external_body]
pub(crate) fn escape(text: &str) -> (r: String)
    ensures
        r@ == escaped(text@),
{
    regex::escape(text)
}

/// Why an expression does not compile, as `regex::Error` puts it; nothing where it does.
pub uninterp spec fn build_error(source: Seq<char>, insensitive: bool) -> Option<Seq<char>>;

/// `RegexBuilder` with its case switch, built. Whether it builds, and the message where it does
/// not, depend on the expression and the switch alone.
#[verifier::external_body]
pub(crate) fn compile(source: String, insensitive: bool) -> (r: Result<Pattern, String>)
    ensures
        match r {
            Ok(p) => build_error(source@, insensitive) is None && p.source() == source@
                && p.insensitive() == insensitive,
            Err(e) => build_error(source@, insensitive) == Some(e@),
        },
{
    match RegexBuilder::new(&source).case_insensitive(insensitive).build() {
        Ok(re) => Ok(Pattern { source, insensitive, re }),
        Err(e) => Err(e.to_string()),
    }
}

/// How many bytes a character is stored in.
pub open spec fn width(c: char) -> int {
    if (c as u32) < 0x80 {
        1
    } else if (c as u32) < 0x800 {
        2
    } else if (c as u32) < 0x10000 {
        3
    } else {
        4
    }
}

/// Where character `k` of a text is stored, counted in bytes.
pub open spec fn byte_at(s: Seq<char>, k: int) -> int
    decreases k,
{
    if k <= 0 {
        0
    } else {
        byte_at(s, k - 1) + width(s[k - 1])
    }
}

/// Whether a character starts at a byte, or the text ends there.
pub open spec fn is_boundary(s: Seq<char>, b: int) -> bool {
    exists|k: int| 0 <= k <= s.len() && #[trigger] byte_at(s, k) == b
}

/// Whether byte ranges of a text are in order, apart from each other, and start and end between
/// characters.
pub open spec fn placed(ranges: Seq<(usize, usize)>, s: Seq<char>) -> bool {
    &&& forall|i: int|
        0 <= i < ranges.len() ==> (#[trigger] ranges[i]).0 <= ranges[i].1 && is_boundary(
            s,
            ranges[i].0 as int,
        ) && is_boundary(s, ranges[i].1 as int)
    &&& forall|i: int, j: int|
        #![trigger ranges[i], ranges[j]]
        0 <= i < j < ranges.len() ==> ranges[i].1 <= ranges[j].0
}

/// The byte ranges that `Regex::find_iter` yields for an expression in a text.
pub uninterp spec fn matches_in(source: Seq<char>, insensitive: bool, text: Seq<char>) -> Seq<
    (usize, usize),
>;

/// The text that `Captures::expand` makes of a template for the first match in a text; nothing
/// where there is no match.
pub uninterp spec fn expansion(
    source: Seq<char>,
    insensitive: bool,
    text: Seq<char>,
    template: Seq<char>,
) -> Option<Seq<char>>;

/// What `Regex::replace_all` makes of a text.
pub uninterp spec fn rewritten(
    source: Seq<char>,
    insensitive: bool,
    text: Seq<char>,
    template: Seq<char>,
) -> Seq<char>;

/// The byte ranges of the matches that are still to be handed out.
pub uninterp spec fn still_held(m: Matches<'_, '_>) -> Seq<(usize, usize)>;

/// `Regex::find_iter`. The byte ranges of the matches depend on the expression, its case switch and
/// the text alone; successive matches do not overlap, and each starts and ends between characters.
#[verifier::external_body]
pub(crate) fn find_matches<'r, 'h>(p: &'r Pattern, text: &'h str) -> (r: Matches<'r, 'h>)
    ensures
        still_held(r) == matches_in(p.source(), p.insensitive(), text@),
        placed(still_held(r), text@),
{
    p.re.find_iter(text)
}

/// `Matches::next`, as a byte range: the first match that is still to be handed out, which is taken
/// off; none where there is no match left.
#[verifier::external_body]
pub(crate) fn next_match(m: &mut Matches<'_, '_>) -> (r: Option<(usize, usize)>)
    ensures
        match r {
            Some(range) => still_held(*old(m)).len() > 0 && range == still_held(*old(m))[0]
                && still_held(*final(m)) == still_held(*old(m)).skip(1),
            None => still_held(*old(m)).len() == 0 && still_held(*final(m)).len() == 0,
        },
{
    m.next().map(|range| (range.start(), range.end()))
}

/// The byte ranges of all matches of an expression in a text.
pub fn find_ranges(p: &Pattern, text: &str) -> (r: Vec<(usize, usize)>)
    ensures
        r@ == matches_in(p.source(), p.insensitive(), text@),
        placed(r@, text@),
{
    let mut m: Matches<'_, '_> = find_matches(p, text);
    let ghost all = still_held(m);
    let mut out: Vec<(usize, usize)> = Vec::new();
    assert(all.skip(0) =~= all);
    assert(all.take(0) =~= Seq::empty());
    loop
        invariant
            out@.len() <= all.len(),
            out@ == all.take(out@.len() as int),
            still_held(m) == all.skip(out@.len() as int),
        ensures
            out@ == all,
        decreases still_held(m).len(),
    {
        match next_match(&mut m) {
            Some(range) => {
                let ghost n = out@.len() as int;
                out.push(range);
                assert(all.take(n + 1) =~= all.take(n).push(all[n]));
                assert(all.skip(n).skip(1) =~= all.skip(n + 1));
            },
            None => {
                assert(out@ =~= all);
                break;
            },
        }
    }
    out
}

/// `Regex::captures` for the first match, and `Captures::expand` on it. The result depends on the
/// expression, its case switch, the text and the template alone.
#[verifier::external_body]
pub(crate) fn expand(p: &Pattern, text: &str, template: &str) -> (r: Option<String>)
    ensures
        match r {
            Some(t) => expansion(p.source(), p.insensitive(), text@, template@) == Some(t@),
            None => expansion(p.source(), p.insensitive(), text@, template@) is None,
        },
{
    let caps = p.re.captures(text)?;
    let mut out = String::new();
    caps.expand(template, &mut out);
    Some(out)
}

/// `Regex::replace_all`. The result depends on the expression, its case switch, the text and the
/// template alone.
#[verifier::external_body]
pub(crate) fn replace_all(p: &Pattern, text: &str, template: &str) -> (r: String)
    ensures
        r@ == rewritten(p.source(), p.insensitive(), text@, template@),
{
    p.re.replace_all(text, template).into_owned()
}

/// The first character at or after `k` that is stored at or after byte `b`; past the last where
/// there is none.
pub open spec fn char_from(s: Seq<char>, b: int, k: int) -> int
    decreases s.len() - k,
{
    if k >= s.len() || byte_at(s, k) >= b {
        k
    } else {
        char_from(s, b, k + 1)
    }
}

/// The character that starts at byte `b`.
pub open spec fn char_at_byte(s: Seq<char>, b: int) -> int {
    char_from(s, b, 0)
}

/// A byte range as a range of characters.
pub open spec fn char_range(s: Seq<char>, m: (usize, usize)) -> (usize, usize) {
    (char_at_byte(s, m.0 as int) as usize, char_at_byte(s, m.1 as int) as usize)
}

pub proof fn lemma_byte_at_grows(s: Seq<char>, j: int, k: int)
    requires
        0 <= j <= k,
    ensures
        byte_at(s, j) + (k - j) <= byte_at(s, k),
        0 <= byte_at(s, j),
    decreases k - j, k,
{
    if j < k {
        lemma_byte_at_grows(s, j, k - 1);
    } else if j > 0 {
        lemma_byte_at_grows(s, j - 1, j - 1);
    }
}

/// The character at a boundary is the one that is stored there.
pub proof fn lemma_char_at_boundary(s: Seq<char>, k: int, j: int)
    requires
        0 <= j <= k <= s.len(),
    ensures
        char_from(s, byte_at(s, k), j) == k,
    decreases k - j,
{
    if j < k {
        lemma_byte_at_grows(s, j, k);
        lemma_char_at_boundary(s, k, j + 1);
    }
}

fn width_of(c: char) -> (r: usize)
    ensures
        r == width(c),
{
    if (c as u32) < 0x80 {
        1
    } else if (c as u32) < 0x800 {
        2
    } else if (c as u32) < 0x10000 {
        3
    } else {
        4
    }
}

/// Byte ranges of a text as ranges of characters, in one pass over the text.
pub fn char_ranges(s: &Vec<char>, ranges: &Vec<(usize, usize)>) -> (r: Vec<(usize, usize)>)
    requires
        placed(ranges@, s@),
    ensures
        r@.len() == ranges@.len(),
        forall|i: int| 0 <= i < r@.len() ==> #[trigger] r@[i] == char_range(s@, ranges@[i]),
{
    let mut out: Vec<(usize, usize)> = Vec::new();
    let mut k: usize = 0;
    let mut at: usize = 0;
    let mut i: usize = 0;
    while i < ranges.len()
        invariant
            placed(ranges@, s@),
            i <= ranges.len(),
            k <= s.len(),
            at == byte_at(s@, k as int),
            i < ranges.len() ==> at <= ranges@[i as int].0,
            out@.len() == i,
            forall|j: int| 0 <= j < i ==> #[trigger] out@[j] == char_range(s@, ranges@[j]),
        decreases ranges.len() - i,
    {
        let (from, to): (usize, usize) = ranges[i];
        let (k1, at1): (usize, usize) = walk(s, k, at, from);
        let (k2, at2): (usize, usize) = walk(s, k1, at1, to);
        out.push((k1, k2));
        k = k2;
        at = at2;
        i += 1;
    }
    out
}

/// Go on from a character to the one that is stored at a byte.
fn walk(s: &Vec<char>, from: usize, at: usize, target: usize) -> (r: (usize, usize))
    requires
        from <= s.len(),
        at == byte_at(s@, from as int),
        at <= target,
        is_boundary(s@, target as int),
    ensures
        r.0 <= s.len(),
        r.1 == target,
        byte_at(s@, r.0 as int) == target,
        r.0 == char_at_byte(s@, target as int),
{
    let ghost last = choose|k: int| 0 <= k <= s@.len() && #[trigger] byte_at(s@, k) == target;
    proof {
        if last < from {
            lemma_byte_at_grows(s@, last, from as int);
        }
        lemma_char_at_boundary(s@, last, 0);
    }
    let mut k: usize = from;
    let mut b: usize = at;
    while b < target
        invariant
            k <= last <= s.len(),
            b == byte_at(s@, k as int),
            byte_at(s@, last) == target,
            b <= target,
        decreases last - k,
    {
        proof {
            if k == last {
                assert(false);
            }
            lemma_byte_at_grows(s@, k + 1, last);
        }
        b = b + width_of(s[k]);
        k += 1;
    }
    proof {
        if k < last {
            lemma_byte_at_grows(s@, k as int, last);
        }
    }
    (k, b)
}

/// Ranges between characters of a text are ranges of its characters.
pub proof fn lemma_char_ranges(s: Seq<char>, ranges: Seq<(usize, usize)>, r: Seq<(usize, usize)>)
    requires
        placed(ranges, s),
        s.len() <= usize::MAX,
        r.len() == ranges.len(),
        forall|i: int| 0 <= i < r.len() ==> #[trigger] r[i] == char_range(s, ranges[i]),
    ensures
        forall|i: int| 0 <= i < r.len() ==> (#[trigger] r[i]).0 <= r[i].1 && r[i].1 <= s.len(),
{
    assert forall|i: int| 0 <= i < r.len() implies (#[trigger] r[i]).0 <= r[i].1 && r[i].1
        <= s.len() by {
        lemma_boundaries(s, ranges[i].0 as int, ranges[i].1 as int);
    }
}

/// Characters are in the order of the bytes that they are stored at.
pub proof fn lemma_boundaries(s: Seq<char>, a: int, b: int)
    requires
        is_boundary(s, a),
        is_boundary(s, b),
        a <= b,
    ensures
        0 <= char_at_byte(s, a) <= char_at_byte(s, b) <= s.len(),
        a < b ==> char_at_byte(s, a) < char_at_byte(s, b),
{
    let j = choose|k: int| 0 <= k <= s.len() && #[trigger] byte_at(s, k) == a;
    let k = choose|k: int| 0 <= k <= s.len() && #[trigger] byte_at(s, k) == b;
    lemma_char_at_boundary(s, j, 0);
    lemma_char_at_boundary(s, k, 0);
    if k < j {
        lemma_byte_at_grows(s, k, j);
    }
}

} // verus!
