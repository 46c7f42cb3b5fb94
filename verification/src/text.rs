//! Text helpers over `String` and `&str`.

use vstd::prelude::*;
use vstd::utf8::{decode_utf8, valid_utf8};

verus! {

/// `String::push` appends one character.
pub assume_specification[ String::push ](s: &mut String, c: char)
    ensures
        final(s)@ == old(s)@.push(c),
;

/// `String::pop` removes the last character and hands it back; an empty string is left alone.
pub assume_specification[ String::pop ](s: &mut String) -> (r: Option<char>)
    ensures
        old(s)@.len() == 0 ==> r is None && final(s)@ == old(s)@,
        old(s)@.len() > 0 ==> r == Some(old(s)@.last()) && final(s)@ == old(s)@.drop_last(),
;

/// `String::push_str` appends the given text.
pub assume_specification[ String::push_str ](s: &mut String, t: &str)
    ensures
        final(s)@ == old(s)@ + t@,
;

/// `str::eq` holds exactly when both sides hold the same characters.
pub assume_specification[ <str as PartialEq<str>>::eq ](a: &str, b: &str) -> (r: bool)
    ensures
        r == (a@ == b@),
;

/// Whether a number is a character code.
pub open spec fn is_code(u: int) -> bool {
    0 <= u < 0xD800 || 0xE000 <= u <= 0x10FFFF
}

/// `char::from_u32` gives the character with the code, where the number is one.
pub assume_specification[ char::from_u32 ](u: u32) -> (r: Option<char>)
    ensures
        is_code(u as int) ==> r == Some(u as char),
        !is_code(u as int) ==> r is None,
;

/// The character with code `u`.
pub fn char_of(u: u32) -> (r: char)
    requires
        is_code(u as int),
    ensures
        r == u as char,
{
    match char::from_u32(u) {
        Some(c) => c,
        None => ' ',
    }
}

/// Whether two pieces of text are the same.
pub fn same(a: &str, b: &str) -> (r: bool)
    ensures
        r == (a@ == b@),
{
    a.eq(b)
}

/// The characters of `s`.
pub fn chars_of(s: &str) -> (r: Vec<char>)
    ensures
        r@ == s@,
{
    let mut v: Vec<char> = Vec::new();
    for c in it: s.chars()
        invariant
            it.seq() == s@,
            v@ == s@.take(it.index()),
    {
        v.push(c);
    }
    assert(s@.take(s@.len() as int) =~= s@);
    v
}

/// The text made of the characters `start..end` of `cs`.
pub fn string_of(cs: &[char], start: usize, end: usize) -> (r: String)
    requires
        start <= end <= cs.len(),
    ensures
        r@ == cs@.subrange(start as int, end as int),
{
    let mut s: String = String::new();
    let mut i: usize = start;
    while i < end
        invariant
            start <= i <= end <= cs.len(),
            s@ == cs@.subrange(start as int, i as int),
        decreases end - i,
    {
        s.push(cs[i]);
        assert(cs@.subrange(start as int, i as int).push(cs@[i as int]) =~= cs@.subrange(
            start as int,
            i + 1,
        ));
        i += 1;
    }
    s
}

/// The characters with the Unicode property `White_Space`.
pub open spec fn is_space(c: char) -> bool {
    let u = c as u32;
    ||| 0x09 <= u <= 0x0d || u == 0x20 || u == 0x85 || u == 0xa0
    ||| u == 0x1680 || 0x2000 <= u <= 0x200a || u == 0x2028 || u == 0x2029
    ||| u == 0x202f || u == 0x205f || u == 0x3000
}

/// `char::is_whitespace` says whether a character has the Unicode property `White_Space`.
pub assume_specification[ char::is_whitespace ](c: char) -> (r: bool)
    ensures
        r == is_space(c),
;

/// The first place at or after `i` that holds no whitespace, or the end.
pub open spec fn space_end(s: Seq<char>, i: int) -> int
    decreases s.len() - i,
{
    if 0 <= i < s.len() && is_space(s[i]) {
        space_end(s, i + 1)
    } else {
        i
    }
}

pub proof fn lemma_space_end(s: Seq<char>, i: int)
    requires
        0 <= i <= s.len(),
    ensures
        i <= space_end(s, i) <= s.len(),
        forall|k: int| i <= k < space_end(s, i) ==> is_space(s[k]),
        space_end(s, i) < s.len() ==> !is_space(s[space_end(s, i)]),
    decreases s.len() - i,
{
    if i < s.len() && is_space(s[i]) {
        lemma_space_end(s, i + 1);
    }
}

/// The start of the whitespace that ends at `j`, no further back than `i`.
pub open spec fn space_start(s: Seq<char>, i: int, j: int) -> int
    decreases j - i,
{
    if i < j <= s.len() && is_space(s[j - 1]) {
        space_start(s, i, j - 1)
    } else {
        j
    }
}

pub proof fn lemma_space_start(s: Seq<char>, i: int, j: int)
    requires
        0 <= i <= j <= s.len(),
    ensures
        i <= space_start(s, i, j) <= j,
        forall|k: int| space_start(s, i, j) <= k < j ==> is_space(s[k]),
        i < space_start(s, i, j) ==> !is_space(s[space_start(s, i, j) - 1]),
    decreases j - i,
{
    if i < j && is_space(s[j - 1]) {
        lemma_space_start(s, i, j - 1);
    }
}

/// Text without the whitespace around it.
pub open spec fn trimmed(s: Seq<char>) -> Seq<char> {
    let i = space_end(s, 0);
    s.subrange(i, space_start(s, i, s.len() as int))
}

/// The text without the whitespace around it.
pub fn trim(s: &str) -> (r: String)
    ensures
        r@ == trimmed(s@),
{
    let cs: Vec<char> = chars_of(s);
    let mut i: usize = 0;
    while i < cs.len() && cs[i].is_whitespace()
        invariant
            i <= cs.len(),
            space_end(cs@, 0) == space_end(cs@, i as int),
        decreases cs.len() - i,
    {
        i += 1;
    }
    let mut j: usize = cs.len();
    while j > i && cs[j - 1].is_whitespace()
        invariant
            i <= j <= cs.len(),
            space_start(cs@, i as int, cs@.len() as int) == space_start(cs@, i as int, j as int),
        decreases j,
    {
        j -= 1;
    }
    string_of(cs.as_slice(), i, j)
}

/// Where the next line break at or after `i` stands, or the end.
pub open spec fn break_at(s: Seq<char>, i: int) -> int
    decreases s.len() - i,
{
    if i < 0 || i >= s.len() || s[i] == '\n' {
        i
    } else {
        break_at(s, i + 1)
    }
}

pub proof fn lemma_break_at(s: Seq<char>, i: int)
    requires
        0 <= i <= s.len(),
    ensures
        i <= break_at(s, i) <= s.len(),
        forall|k: int| i <= k < break_at(s, i) ==> s[k] != '\n',
        break_at(s, i) < s.len() ==> s[break_at(s, i)] == '\n',
    decreases s.len() - i,
{
    if i < s.len() && s[i] != '\n' {
        lemma_break_at(s, i + 1);
    }
}

/// The characters `i..j` without a carriage return at the end.
pub open spec fn line_text(s: Seq<char>, i: int, j: int) -> Seq<char> {
    if j > i && s[j - 1] == '\r' {
        s.subrange(i, j - 1)
    } else {
        s.subrange(i, j)
    }
}

/// The lines from `i` on, after `acc`. A line ends at a line break, and a carriage return before it
/// is no part of the line; nothing after the last line break is no line.
pub open spec fn lines_from(s: Seq<char>, i: int, acc: Seq<Seq<char>>) -> Seq<Seq<char>>
    decreases s.len() - i,
{
    let j = break_at(s, i);
    if i < 0 || i >= s.len() {
        acc
    } else if j >= s.len() {
        acc.push(s.subrange(i, s.len() as int))
    } else if j < i {
        acc
    } else {
        lines_from(s, j + 1, acc.push(line_text(s, i, j)))
    }
}

/// The lines of a text.
pub open spec fn lines(s: Seq<char>) -> Seq<Seq<char>> {
    lines_from(s, 0, Seq::empty())
}

pub open spec fn texts_of(v: Seq<String>) -> Seq<Seq<char>> {
    v.map_values(|s: String| s@)
}

pub proof fn lemma_texts_push(v: Seq<String>, s: String)
    ensures
        texts_of(v.push(s)) == texts_of(v).push(s@),
{
    assert(texts_of(v.push(s)) =~= texts_of(v).push(s@));
}

/// Whether a text is among others.
pub fn has_text(v: &Vec<String>, s: &str) -> (r: bool)
    ensures
        r == texts_of(v@).contains(s@),
{
    let mut i: usize = 0;
    while i < v.len()
        invariant
            i <= v.len(),
            forall|k: int| 0 <= k < i ==> (#[trigger] v@[k])@ != s@,
        decreases v.len() - i,
    {
        if same(v[i].as_str(), s) {
            assert(texts_of(v@)[i as int] == s@);
            return true;
        }
        i += 1;
    }
    assert forall|k: int| 0 <= k < texts_of(v@).len() implies texts_of(v@)[k] != s@ by {
        assert(v@[k]@ != s@);
    }
    false
}

/// The lines of a text.
pub fn lines_of(s: &str) -> (r: Vec<String>)
    ensures
        texts_of(r@) == lines(s@),
{
    let cs: Vec<char> = chars_of(s);
    let mut out: Vec<String> = Vec::new();
    assert(texts_of(out@) =~= Seq::empty());
    let mut i: usize = 0;
    while i < cs.len()
        invariant
            i <= cs.len(),
            cs@ == s@,
            lines(s@) == lines_from(cs@, i as int, texts_of(out@)),
        decreases cs.len() - i,
    {
        let mut j: usize = i;
        while j < cs.len() && cs[j] != '\n'
            invariant
                i <= j <= cs.len(),
                break_at(cs@, i as int) == break_at(cs@, j as int),
            decreases cs.len() - j,
        {
            j += 1;
        }
        if j >= cs.len() {
            let line: String = string_of(cs.as_slice(), i, j);
            proof {
                lemma_texts_push(out@, line);
            }
            out.push(line);
            return out;
        }
        let end: usize = if j > i && cs[j - 1] == '\r' {
            j - 1
        } else {
            j
        };
        let line: String = string_of(cs.as_slice(), i, end);
        proof {
            lemma_texts_push(out@, line);
        }
        out.push(line);
        i = j + 1;
    }
    out
}

/// Text without the whitespace at its end.
pub open spec fn trimmed_end(s: Seq<char>) -> Seq<char> {
    s.take(space_start(s, 0, s.len() as int))
}

/// The text without the whitespace at its end.
pub fn trim_end(s: &str) -> (r: String)
    ensures
        r@ == trimmed_end(s@),
{
    let cs: Vec<char> = chars_of(s);
    let mut j: usize = cs.len();
    while j > 0 && cs[j - 1].is_whitespace()
        invariant
            j <= cs.len(),
            space_start(cs@, 0, cs@.len() as int) == space_start(cs@, 0, j as int),
        decreases j,
    {
        j -= 1;
    }
    let r: String = string_of(cs.as_slice(), 0, j);
    assert(r@ =~= cs@.take(j as int));
    r
}

/// Whether a text holds nothing but whitespace.
pub open spec fn is_blank(s: Seq<char>) -> bool {
    trimmed(s).len() == 0
}

/// What `char::is_uppercase` says of a character.
pub uninterp spec fn is_upper(c: char) -> bool;

/// `char::is_uppercase` depends on the character alone.
pub assume_specification[ char::is_uppercase ](c: char) -> (r: bool)
    ensures
        r == is_upper(c),
;

/// What `char::is_alphabetic` says of a character.
pub uninterp spec fn is_letter(c: char) -> bool;

/// `char::is_alphabetic` depends on the character alone.
pub assume_specification[ char::is_alphabetic ](c: char) -> (r: bool)
    ensures
        r == is_letter(c),
;

/// What `char::is_alphanumeric` says of a character.
pub uninterp spec fn is_alnum(c: char) -> bool;

/// `char::is_alphanumeric` depends on the character alone.
pub assume_specification[ char::is_alphanumeric ](c: char) -> (r: bool)
    ensures
        r == is_alnum(c),
;

/// The characters that `char::to_lowercase` gives for a character.
pub uninterp spec fn lower_of(c: char) -> Seq<char>;

/// The characters that `char::to_uppercase` gives for a character.
pub uninterp spec fn upper_of(c: char) -> Seq<char>;

/// `char::to_lowercase`, collected. The result depends on the character alone.
#[verifier::external_body]
pub(crate) fn lower_text(c: char) -> (r: String)
    ensures
        r@ == lower_of(c),
{
    c.to_lowercase().collect()
}

/// `char::to_uppercase`, collected. The result depends on the character alone.
#[verifier::external_body]
pub(crate) fn upper_text(c: char) -> (r: String)
    ensures
        r@ == upper_of(c),
{
    c.to_uppercase().collect()
}

/// The text that `str::to_lowercase` makes of a text.
pub uninterp spec fn lowered(s: Seq<char>) -> Seq<char>;

/// `str::to_lowercase`. The result depends on the text alone.
#[verifier::external_body]
pub(crate) fn to_lower(s: &str) -> (r: String)
    ensures
        r@ == lowered(s@),
{
    s.to_lowercase()
}

/// `str::from_utf8` gives the text that the bytes are the encoding of, where there is one.
#[verifier::external_body]
pub(crate) fn utf8_text(bytes: &[u8]) -> (r: Option<String>)
    ensures
        match r {
            Some(s) => valid_utf8(bytes@) && s@ == decode_utf8(bytes@),
            None => !valid_utf8(bytes@),
        },
{
    match std::str::from_utf8(bytes) {
        Ok(s) => Some(s.to_owned()),
        Err(_) => None,
    }
}

/// The text that `String::from_utf8_lossy` makes of bytes.
pub uninterp spec fn lossy(bytes: Seq<u8>) -> Seq<char>;

/// `String::from_utf8_lossy` gives the text that the bytes are the encoding of, where there is one;
/// where there is none, the result still depends on the bytes alone.
#[verifier::external_body]
pub(crate) fn lossy_text(bytes: &[u8]) -> (r: String)
    ensures
        r@ == lossy(bytes@),
        valid_utf8(bytes@) ==> r@ == decode_utf8(bytes@),
{
    String::from_utf8_lossy(bytes).into_owned()
}

/// The first `n` characters, or all where there are fewer.
pub open spec fn first_chars(s: Seq<char>, n: int) -> Seq<char> {
    if s.len() <= n {
        s
    } else {
        s.take(n)
    }
}

/// The first `n` characters, or all where there are fewer.
pub fn take_chars(s: &str, n: usize) -> (r: String)
    ensures
        r@ == first_chars(s@, n as int),
{
    let cs: Vec<char> = chars_of(s);
    if cs.len() <= n {
        return s.to_owned();
    }
    let r: String = string_of(cs.as_slice(), 0, n);
    assert(r@ =~= s@.take(n as int));
    r
}

/// The same texts again.
pub fn copy_texts(v: &Vec<String>) -> (r: Vec<String>)
    ensures
        texts_of(r@) == texts_of(v@),
{
    let mut out: Vec<String> = Vec::new();
    let mut i: usize = 0;
    while i < v.len()
        invariant
            i <= v.len(),
            out@.len() == i,
            forall|k: int| 0 <= k < i ==> (#[trigger] out@[k])@ == v@[k]@,
        decreases v.len() - i,
    {
        out.push(v[i].clone());
        i += 1;
    }
    assert(texts_of(out@) =~= texts_of(v@));
    out
}

/// Whether a text starts with another.
pub open spec fn starts_with(s: Seq<char>, p: Seq<char>) -> bool {
    p.len() <= s.len() && s.take(p.len() as int) == p
}

/// What follows a prefix; none where the text does not start with it.
pub open spec fn after_prefix(s: Seq<char>, p: Seq<char>) -> Option<Seq<char>> {
    if starts_with(s, p) {
        Some(s.skip(p.len() as int))
    } else {
        None
    }
}

/// What follows a prefix.
pub fn strip_start(s: &str, p: &str) -> (r: Option<String>)
    ensures
        match r {
            Some(rest) => after_prefix(s@, p@) == Some(rest@),
            None => after_prefix(s@, p@) is None,
        },
{
    let a: Vec<char> = chars_of(s);
    let b: Vec<char> = chars_of(p);
    if b.len() > a.len() {
        return None;
    }
    let mut i: usize = 0;
    while i < b.len()
        invariant
            i <= b.len() <= a.len(),
            a@ == s@,
            b@ == p@,
            forall|k: int| 0 <= k < i ==> a@[k] == b@[k],
        decreases b.len() - i,
    {
        if a[i] != b[i] {
            assert(s@.take(p@.len() as int)[i as int] != p@[i as int]);
            return None;
        }
        i += 1;
    }
    assert(s@.take(p@.len() as int) =~= p@);
    let r: String = string_of(a.as_slice(), b.len(), a.len());
    assert(r@ =~= s@.skip(p@.len() as int));
    Some(r)
}

/// What follows a prefix that was put in front of a text is the text.
pub proof fn lemma_prefix_comes_off(p: Seq<char>, s: Seq<char>)
    ensures
        after_prefix(p + s, p) == Some(s),
{
    assert((p + s).take(p.len() as int) =~= p);
    assert((p + s).skip(p.len() as int) =~= s);
}

/// An empty text.
pub fn no_text() -> (r: String)
    ensures
        r@ == Seq::<char>::empty(),
{
    let r: String = String::new();
    assert(r@ =~= Seq::empty());
    r
}

/// A text without its last character.
pub open spec fn shorter(s: Seq<char>) -> Seq<char> {
    if s.len() == 0 {
        s
    } else {
        s.drop_last()
    }
}

/// Whether a text stands in another at place `i`.
pub open spec fn stands(s: Seq<char>, pat: Seq<char>, i: int) -> bool {
    0 <= i && i + pat.len() <= s.len() && s.subrange(i, i + pat.len()) == pat
}

/// Whether a text stands in another at place `i`.
pub fn stands_at(s: &[char], pat: &[char], i: usize) -> (r: bool)
    ensures
        r == stands(s@, pat@, i as int),
{
    if i > s.len() || pat.len() > s.len() - i {
        return false;
    }
    let ghost part = s@.subrange(i as int, i + pat@.len());
    let mut k: usize = 0;
    while k < pat.len()
        invariant
            k <= pat.len(),
            i + pat@.len() <= s.len(),
            part == s@.subrange(i as int, i + pat@.len()),
            forall|j: int| 0 <= j < k ==> s@[i + j] == pat@[j],
        decreases pat.len() - k,
    {
        if s[i + k] != pat[k] {
            assert(part[k as int] != pat@[k as int]);
            return false;
        }
        k += 1;
    }
    assert(part =~= pat@);
    true
}

/// Trimming takes the whitespace off both ends of a text and nothing else; at the end alone it leaves
/// the front as it is.
pub proof fn trimming_takes_whitespace_off(before: Seq<char>, text: Seq<char>, after: Seq<char>)
    requires
        forall|k: int| 0 <= k < before.len() ==> is_space(#[trigger] before[k]),
        forall|k: int| 0 <= k < after.len() ==> is_space(#[trigger] after[k]),
        text.len() > 0,
        !is_space(text[0]),
        !is_space(text.last()),
    ensures
        trimmed(before + text + after) == text,
        trimmed_end(before + text + after) == before + text,
        trimmed(before) == Seq::<char>::empty(),
{
    let s = before + text + after;
    let n = s.len() as int;
    let a = before.len() as int;
    let b = a + text.len();
    assert(forall|k: int| 0 <= k < a ==> s[k] == before[k]);
    assert(s[a] == text[0]);
    assert(s[b - 1] == text.last());
    assert(forall|k: int| b <= k < n ==> s[k] == after[k - b]);
    lemma_space_end(s, 0);
    assert(space_end(s, 0) == a);
    lemma_space_start(s, a, n);
    assert(space_start(s, a, n) == b);
    lemma_space_start(s, 0, n);
    assert(space_start(s, 0, n) == b);
    assert(s.subrange(a, b) =~= text);
    assert(s.take(b) =~= before + text);
    lemma_space_end(before, 0);
    assert(space_end(before, 0) == a);
    lemma_space_start(before, a, a);
}

proof fn lemma_break_is(s: Seq<char>, i: int, j: int)
    requires
        0 <= i <= j <= s.len(),
        forall|k: int| i <= k < j ==> s[k] != '\n',
        j == s.len() || s[j] == '\n',
    ensures
        break_at(s, i) == j,
{
    lemma_break_at(s, i);
}

proof fn lemma_lines_from(s: Seq<char>, i: int, acc: Seq<Seq<char>>)
    requires
        0 <= i <= s.len(),
    ensures
        lines_from(s, i, acc) == acc + lines(s.skip(i)),
    decreases s.len() - i,
{
    let t = s.skip(i);
    let none = Seq::<Seq<char>>::empty();
    let j = break_at(s, i);
    lemma_break_at(s, i);
    if i < s.len() {
        lemma_break_is(t, 0, j - i);
        if j < s.len() {
            lemma_lines_from(s, j + 1, acc.push(line_text(s, i, j)));
            assert(t.skip(j - i + 1) =~= s.skip(j + 1));
            assert(line_text(t, 0, j - i) =~= line_text(s, i, j));
            let first = none.push(line_text(s, i, j));
            if i > 0 {
                lemma_lines_from(t, j - i + 1, first);
            } else {
                assert(t =~= s);
                lemma_lines_from(s, j + 1, first);
            }
            assert(acc + (first + lines(s.skip(j + 1))) =~= acc.push(line_text(s, i, j)) + lines(
                s.skip(j + 1),
            ));
        } else {
            assert(t.subrange(0, t.len() as int) =~= s.subrange(i, s.len() as int));
            assert(acc + none.push(t) =~= acc.push(t));
            assert(s.subrange(i, s.len() as int) =~= t);
            assert(t.subrange(0, t.len() as int) =~= t);
        }
    } else {
        assert(acc + none =~= acc);
    }
}

/// A line is what stands before a line break, whether or not a carriage return comes between; the
/// lines behind it follow. What stands behind the last line break is a line too, unless it is empty.
pub proof fn lines_are_cut_at_breaks(line: Seq<char>, rest: Seq<char>)
    requires
        !line.contains('\n'),
        line.len() == 0 || line.last() != '\r',
    ensures
        lines(line + seq!['\n'] + rest) == seq![line] + lines(rest),
        lines(line + seq!['\r', '\n'] + rest) == seq![line] + lines(rest),
        line.len() > 0 ==> lines(line) == seq![line],
        lines(Seq::empty()) == Seq::<Seq<char>>::empty(),
{
    let n = line.len() as int;
    assert(forall|k: int| 0 <= k < n ==> line.contains(#[trigger] line[k]));
    let none = Seq::<Seq<char>>::empty();
    let s = line + seq!['\n'] + rest;
    assert(forall|k: int| 0 <= k < n ==> s[k] == line[k]);
    assert(s[n] == '\n');
    lemma_break_is(s, 0, n);
    assert(line_text(s, 0, n) =~= line);
    assert(s.skip(n + 1) =~= rest);
    assert(none.push(line) =~= seq![line]);
    lemma_lines_from(s, n + 1, seq![line]);
    let r = line + seq!['\r', '\n'] + rest;
    assert(forall|k: int| 0 <= k < n ==> r[k] == line[k]);
    assert(r[n] == '\r' && r[n + 1] == '\n');
    lemma_break_is(r, 0, n + 1);
    assert(line_text(r, 0, n + 1) =~= line);
    assert(r.skip(n + 2) =~= rest);
    lemma_lines_from(r, n + 2, seq![line]);
    if n > 0 {
        lemma_break_is(line, 0, n);
        assert(line.subrange(0, n) =~= line);
    }
}

} // verus!
