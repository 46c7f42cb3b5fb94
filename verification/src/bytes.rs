//! Byte-slice helpers.

use vstd::prelude::*;
use vstd::utf8::encode_utf8;

verus! {

/// The bytes that a piece of text is stored as.
pub open spec fn utf8(s: Seq<char>) -> Seq<u8> {
    encode_utf8(s)
}

/// Whether two byte slices hold the same bytes.
pub fn bytes_eq(a: &[u8], b: &[u8]) -> (r: bool)
    ensures
        r == (a@ == b@),
{
    if a.len() != b.len() {
        return false;
    }
    let mut i: usize = 0;
    while i < a.len()
        invariant
            i <= a.len(),
            a.len() == b.len(),
            forall|k: int| 0 <= k < i ==> a@[k] == b@[k],
        decreases a.len() - i,
    {
        if a[i] != b[i] {
            assert(a@[i as int] != b@[i as int]);
            return false;
        }
        i += 1;
    }
    assert(a@ =~= b@);
    true
}

/// Whether a byte slice holds exactly the text `lit`.
pub fn bytes_are(a: &[u8], lit: &str) -> (r: bool)
    ensures
        r == (a@ == utf8(lit@)),
{
    bytes_eq(a, lit.as_bytes())
}

/// The bytes at `start..end`.
pub fn part(a: &[u8], start: usize, end: usize) -> (r: &[u8])
    requires
        start <= end <= a.len(),
    ensures
        r@ == a@.subrange(start as int, end as int),
{
    vstd::slice::slice_subrange(a, start, end)
}

/// Whether `needle` stands in `hay` at position `i`.
pub open spec fn occurs_at(hay: Seq<u8>, needle: Seq<u8>, i: int) -> bool {
    0 <= i && i + needle.len() <= hay.len() && hay.subrange(i, i + needle.len()) == needle
}

/// The first position at or after `from` where `needle` stands in `hay`.
pub open spec fn first_at(hay: Seq<u8>, needle: Seq<u8>, from: int) -> Option<int>
    decreases hay.len() - from + 1,
{
    if from < 0 || from + needle.len() > hay.len() {
        None
    } else if occurs_at(hay, needle, from) {
        Some(from)
    } else {
        first_at(hay, needle, from + 1)
    }
}

/// What `first_at` finds is an occurrence, and the first one.
pub proof fn lemma_first_at(hay: Seq<u8>, needle: Seq<u8>, from: int)
    requires
        0 <= from,
    ensures
        match first_at(hay, needle, from) {
            Some(i) => from <= i && occurs_at(hay, needle, i) && (forall|k: int|
                from <= k < i ==> !occurs_at(hay, needle, k)),
            None => forall|k: int| from <= k ==> !occurs_at(hay, needle, k),
        },
    decreases hay.len() - from + 1,
{
    if from + needle.len() > hay.len() || occurs_at(hay, needle, from) {
    } else {
        lemma_first_at(hay, needle, from + 1);
    }
}

/// Whether `needle` stands in `hay` at position `i`.
pub fn stands_at(hay: &[u8], needle: &[u8], i: usize) -> (r: bool)
    ensures
        r == occurs_at(hay@, needle@, i as int),
{
    if i > hay.len() || needle.len() > hay.len() - i {
        return false;
    }
    bytes_eq(part(hay, i, i + needle.len()), needle)
}

/// First index of `needle` at or after `from`; an empty needle is found nowhere.
pub fn find_from(haystack: &[u8], needle: &[u8], from: usize) -> (r: Option<usize>)
    requires
        from <= haystack.len(),
    ensures
        needle.len() == 0 ==> r is None,
        needle.len() > 0 ==> match r {
            Some(i) => first_at(haystack@, needle@, from as int) == Some(i as int),
            None => first_at(haystack@, needle@, from as int) is None,
        },
{
    if needle.len() == 0 {
        return None;
    }
    let mut i: usize = from;
    while i <= haystack.len() && needle.len() <= haystack.len() - i
        invariant
            from <= i <= haystack.len(),
            needle.len() > 0,
            first_at(haystack@, needle@, from as int) == first_at(haystack@, needle@, i as int),
        decreases haystack.len() - i,
    {
        if stands_at(haystack, needle, i) {
            return Some(i);
        }
        i += 1;
    }
    None
}

/// First index of `needle` in `haystack`; an empty needle is found nowhere.
pub fn find(haystack: &[u8], needle: &[u8]) -> (r: Option<usize>)
    ensures
        needle.len() == 0 ==> r is None,
        needle.len() > 0 ==> match r {
            Some(i) => first_at(haystack@, needle@, 0) == Some(i as int),
            None => first_at(haystack@, needle@, 0) is None,
        },
{
    find_from(haystack, needle, 0)
}

/// A number as four bytes, the least first.
pub open spec fn le32(n: u32) -> Seq<u8> {
    seq![
        (n % 0x100) as u8,
        (n / 0x100 % 0x100) as u8,
        (n / 0x1_0000 % 0x100) as u8,
        (n / 0x100_0000) as u8,
    ]
}

/// The number whose first `n` bytes, the least first, stand at `i`.
pub open spec fn le_value(b: Seq<u8>, i: int, n: int) -> int
    decreases n,
{
    if n <= 0 {
        0
    } else {
        b[i] + 0x100 * le_value(b, i + 1, n - 1)
    }
}

/// The number that stands at `i` in four bytes, the least first.
pub open spec fn word_at(b: Seq<u8>, i: int) -> int {
    le_value(b, i, 4)
}

/// A number reads back from its four bytes.
pub proof fn lemma_word_reads_back(n: u32, b: Seq<u8>, i: int)
    requires
        0 <= i,
        i + 4 <= b.len(),
        b.subrange(i, i + 4) == le32(n),
    ensures
        word_at(b, i) == n,
{
    reveal_with_fuel(le_value, 5);
    let w = b.subrange(i, i + 4);
    assert(w[0] == b[i] && w[1] == b[i + 1] && w[2] == b[i + 2] && w[3] == b[i + 3]);
}

/// Append a number as four bytes, the least first.
pub fn push_word(out: &mut Vec<u8>, n: u32)
    ensures
        final(out)@ == old(out)@ + le32(n),
{
    out.push((n % 0x100) as u8);
    out.push((n / 0x100 % 0x100) as u8);
    out.push((n / 0x1_0000 % 0x100) as u8);
    out.push((n / 0x100_0000) as u8);
    assert(out@ =~= old(out)@ + le32(n));
}

/// Append bytes.
pub fn push_bytes(out: &mut Vec<u8>, b: &[u8])
    ensures
        final(out)@ == old(out)@ + b@,
{
    let mut i: usize = 0;
    assert(out@ =~= old(out)@ + b@.take(0));
    while i < b.len()
        invariant
            i <= b.len(),
            out@ == old(out)@ + b@.take(i as int),
        decreases b.len() - i,
    {
        out.push(b[i]);
        i += 1;
        assert(out@ =~= old(out)@ + b@.take(i as int));
    }
    assert(b@.take(b@.len() as int) =~= b@);
}

/// The number that stands at `i` in four bytes.
pub fn read_word(b: &[u8], i: usize) -> (r: u32)
    requires
        i + 4 <= b.len(),
    ensures
        r == word_at(b@, i as int),
{
    proof {
        reveal_with_fuel(le_value, 5);
    }
    b[i] as u32 + 0x100 * (b[i + 1] as u32) + 0x1_0000 * (b[i + 2] as u32) + 0x100_0000 * (b[i
        + 3] as u32)
}

/// The number that stands in the first eight bytes.
pub fn read_long(b: &[u8]) -> (r: u64)
    requires
        8 <= b.len(),
    ensures
        r == le_value(b@, 0, 8),
{
    proof {
        reveal_with_fuel(le_value, 9);
    }
    let low: u64 = read_word(b, 0) as u64;
    let high: u64 = read_word(b, 4) as u64;
    low + 0x1_0000_0000 * high
}

} // verus!
