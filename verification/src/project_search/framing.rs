//! Hits, and their framing as bytes between the searching job and the panel.
//!
//! Each text is framed by its length in bytes, so a tab or a line break in a path or a line is safe.

use vstd::prelude::*;
use vstd::utf8::{decode_utf8, encode_utf8_decode_utf8, encode_utf8_valid_utf8, valid_utf8};

use crate::bytes::{
    le32, lemma_word_reads_back, part, push_bytes, push_word, read_word, utf8, word_at,
};
use crate::text::{trim_end, trimmed_end, utf8_text};

verus! {

/// A match: a file, a line counted from one, and the line's text.
#[derive(Debug, PartialEq, Eq)]
pub struct SearchHit {
    pub path: String,
    pub line: usize,
    pub text: String,
}

pub struct HitView {
    pub path: Seq<char>,
    pub line: usize,
    pub text: Seq<char>,
}

impl View for SearchHit {
    type V = HitView;

    open spec fn view(&self) -> HitView {
        HitView { path: self.path@, line: self.line, text: self.text@ }
    }
}

pub open spec fn hits_view(v: Seq<SearchHit>) -> Seq<HitView> {
    v.map_values(|h: SearchHit| h@)
}

impl SearchHit {
    /// The hit on a line of a file; blanks at the end of the line are left out.
    pub fn new(path: &str, line: usize, text: &str) -> (r: SearchHit)
        ensures
            r@ == (HitView { path: path@, line, text: trimmed_end(text@) }),
    {
        SearchHit { path: path.to_owned(), line, text: trim_end(text) }
    }
}

/// A text with its length in front.
pub open spec fn framed(s: Seq<char>) -> Seq<u8> {
    le32(utf8(s).len() as u32) + utf8(s)
}

/// A hit as bytes.
pub open spec fn hit_bytes(h: HitView) -> Seq<u8> {
    framed(h.path) + le32(h.line as u32) + framed(h.text)
}

/// The first `n` hits as bytes.
pub open spec fn encoded(hits: Seq<HitView>, n: int) -> Seq<u8>
    decreases n,
{
    if n <= 0 {
        Seq::empty()
    } else {
        encoded(hits, n - 1) + hit_bytes(hits[n - 1])
    }
}

/// The text framed at `i`, and where it ends; none where the bytes end before it does, or are no
/// text.
pub open spec fn text_at(b: Seq<u8>, i: int) -> Option<(Seq<char>, int)> {
    let start = i + 4;
    let end = start + word_at(b, i);
    if start > b.len() || end > b.len() || end < start || !valid_utf8(b.subrange(start, end)) {
        None
    } else {
        Some((decode_utf8(b.subrange(start, end)), end))
    }
}

/// The hits from `i` on, after `acc`, as far as the bytes make sense.
pub open spec fn decoded_from(b: Seq<u8>, i: int, acc: Seq<HitView>) -> Seq<HitView>
    decreases b.len() - i,
{
    if i >= b.len() {
        acc
    } else {
        match text_at(b, i) {
            None => acc,
            Some((path, j)) => if j + 4 > b.len() {
                acc
            } else {
                match text_at(b, j + 4) {
                    None => acc,
                    Some((text, k)) => decoded_from(
                        b,
                        k,
                        acc.push(HitView { path, line: word_at(b, j) as usize, text }),
                    ),
                }
            },
        }
    }
}

/// The hits that bytes frame.
pub open spec fn decoded(b: Seq<u8>) -> Seq<HitView> {
    decoded_from(b, 0, Seq::empty())
}

/// Append a text with its length in front.
pub fn write_str(out: &mut Vec<u8>, s: &str)
    ensures
        final(out)@ == old(out)@ + framed(s@),
{
    let b: &[u8] = s.as_bytes();
    push_word(out, b.len() as u32);
    push_bytes(out, b);
    assert(out@ =~= old(out)@ + framed(s@));
}

/// Hits as bytes.
pub fn encode(hits: &[SearchHit]) -> (r: Vec<u8>)
    ensures
        r@ == encoded(hits_view(hits@), hits@.len() as int),
{
    let mut out: Vec<u8> = Vec::new();
    let mut i: usize = 0;
    assert(out@ =~= Seq::empty());
    while i < hits.len()
        invariant
            i <= hits.len(),
            out@ == encoded(hits_view(hits@), i as int),
        decreases hits.len() - i,
    {
        let ghost before = out@;
        let h: &SearchHit = &hits[i];
        write_str(&mut out, h.path.as_str());
        push_word(&mut out, h.line as u32);
        write_str(&mut out, h.text.as_str());
        assert(hits_view(hits@)[i as int] == h@);
        assert(out@ =~= before + hit_bytes(h@));
        i += 1;
    }
    out
}

/// The text framed at `i`, and where it ends.
pub fn read_str(b: &[u8], i: usize) -> (r: Option<(String, usize)>)
    requires
        i <= b.len(),
    ensures
        match r {
            Some((s, end)) => text_at(b@, i as int) == Some((s@, end as int)),
            None => text_at(b@, i as int) is None,
        },
{
    if b.len() - i < 4 {
        return None;
    }
    let n: usize = read_word(b, i) as usize;
    let start: usize = i + 4;
    if n > b.len() - start {
        return None;
    }
    match utf8_text(part(b, start, start + n)) {
        Some(s) => Some((s, start + n)),
        None => None,
    }
}

/// The hits that bytes frame.
pub fn decode(bytes: &[u8]) -> (r: Vec<SearchHit>)
    ensures
        hits_view(r@) == decoded(bytes@),
{
    let mut hits: Vec<SearchHit> = Vec::new();
    let mut i: usize = 0;
    assert(hits_view(hits@) =~= Seq::empty());
    while i < bytes.len()
        invariant
            i <= bytes.len(),
            decoded(bytes@) == decoded_from(bytes@, i as int, hits_view(hits@)),
        decreases bytes.len() - i,
    {
        let (path, j): (String, usize) = match read_str(bytes, i) {
            Some(x) => x,
            None => return hits,
        };
        if bytes.len() - j < 4 {
            return hits;
        }
        let line: usize = read_word(bytes, j) as usize;
        let (text, k): (String, usize) = match read_str(bytes, j + 4) {
            Some(x) => x,
            None => return hits,
        };
        let ghost before = hits@;
        hits.push(SearchHit { path, line, text });
        assert(hits_view(hits@) =~= hits_view(before).push(
            HitView { path: path@, line, text: text@ },
        ));
        i = k;
    }
    hits
}

/// Whether the numbers in a hit's framing fit.
pub open spec fn frames(h: HitView) -> bool {
    utf8(h.path).len() <= u32::MAX && utf8(h.text).len() <= u32::MAX && h.line <= u32::MAX
}

proof fn lemma_text_at(b: Seq<u8>, i: int, s: Seq<char>)
    requires
        0 <= i,
        i + framed(s).len() <= b.len(),
        b.subrange(i, i + framed(s).len()) == framed(s),
        utf8(s).len() <= u32::MAX,
    ensures
        text_at(b, i) == Some((s, i + framed(s).len())),
{
    let w = b.subrange(i, i + framed(s).len());
    assert(b.subrange(i, i + 4) =~= le32(utf8(s).len() as u32)) by {
        assert forall|k: int| 0 <= k < 4 implies b[i + k] == #[trigger] le32(
            utf8(s).len() as u32,
        )[k] by {
            assert(w[k] == b[i + k]);
            assert(framed(s)[k] == le32(utf8(s).len() as u32)[k]);
        }
    }
    lemma_word_reads_back(utf8(s).len() as u32, b, i);
    assert(b.subrange(i + 4, i + 4 + utf8(s).len()) =~= utf8(s)) by {
        assert forall|k: int| 0 <= k < utf8(s).len() implies b[i + 4 + k] == #[trigger] utf8(
            s,
        )[k] by {
            assert(w[k + 4] == b[i + 4 + k]);
            assert(framed(s)[k + 4] == utf8(s)[k]);
        }
    }
    encode_utf8_valid_utf8(s);
    encode_utf8_decode_utf8(s);
}

proof fn lemma_encoded_prefix(hits: Seq<HitView>, i: int, n: int)
    requires
        0 <= i <= n,
    ensures
        encoded(hits, i).len() <= encoded(hits, n).len(),
        encoded(hits, n).take(encoded(hits, i).len() as int) == encoded(hits, i),
    decreases n - i,
{
    if i == n {
        assert(encoded(hits, n).take(encoded(hits, n).len() as int) =~= encoded(hits, n));
    } else {
        lemma_encoded_prefix(hits, i, n - 1);
        assert(encoded(hits, n).take(encoded(hits, i).len() as int) =~= encoded(hits, n - 1).take(
            encoded(hits, i).len() as int,
        ));
    }
}

/// Whether the bytes at `at` are those of a hit, as far as they go.
spec fn holds_hit(b: Seq<u8>, at: int, h: HitView) -> bool {
    forall|k: int|
        0 <= k < hit_bytes(h).len() && at + k < b.len() ==> b[at + k] == #[trigger] hit_bytes(h)[k]
}

/// A hit whose bytes are all there is read.
proof fn lemma_whole_hit(b: Seq<u8>, at: int, h: HitView, acc: Seq<HitView>)
    requires
        0 <= at,
        at + hit_bytes(h).len() <= b.len(),
        holds_hit(b, at, h),
        frames(h),
    ensures
        decoded_from(b, at, acc) == decoded_from(b, at + hit_bytes(h).len(), acc.push(h)),
{
    let p = framed(h.path).len() as int;
    let t = framed(h.text).len() as int;
    assert forall|k: int| 0 <= k < p implies b[at + k] == #[trigger] framed(h.path)[k] by {
        assert(hit_bytes(h)[k] == framed(h.path)[k]);
    }
    assert(b.subrange(at, at + p) =~= framed(h.path));
    lemma_text_at(b, at, h.path);
    assert forall|k: int| 0 <= k < 4 implies b[at + p + k] == #[trigger] le32(
        h.line as u32,
    )[k] by {
        assert(hit_bytes(h)[p + k] == le32(h.line as u32)[k]);
    }
    assert(b.subrange(at + p, at + p + 4) =~= le32(h.line as u32));
    lemma_word_reads_back(h.line as u32, b, at + p);
    assert forall|k: int| 0 <= k < t implies b[at + p + 4 + k] == #[trigger] framed(h.text)[k] by {
        assert(hit_bytes(h)[p + 4 + k] == framed(h.text)[k]);
    }
    assert(b.subrange(at + p + 4, at + p + 4 + t) =~= framed(h.text));
    lemma_text_at(b, at + p + 4, h.text);
}

/// A hit whose end is cut off is not read, and nothing after it.
proof fn lemma_torn_hit(b: Seq<u8>, at: int, h: HitView, acc: Seq<HitView>)
    requires
        0 <= at,
        at + hit_bytes(h).len() > b.len(),
        holds_hit(b, at, h),
        frames(h),
    ensures
        decoded_from(b, at, acc) == acc,
{
    let p = framed(h.path).len() as int;
    let n = b.len() as int;
    if at < n {
        if at + p <= n {
            assert forall|k: int| 0 <= k < p implies b[at + k] == #[trigger] framed(
                h.path,
            )[k] by {
                assert(hit_bytes(h)[k] == framed(h.path)[k]);
            }
            assert(b.subrange(at, at + p) =~= framed(h.path));
            lemma_text_at(b, at, h.path);
            if at + p + 8 <= n {
                assert forall|k: int| 0 <= k < 4 implies b[at + p + 4 + k] == #[trigger] framed(
                    h.text,
                )[k] by {
                    assert(hit_bytes(h)[p + 4 + k] == framed(h.text)[k]);
                }
                lemma_cut_text(b, at + p + 4, h.text);
            }
        } else if at + 4 <= n {
            assert forall|k: int| 0 <= k < 4 implies b[at + k] == #[trigger] framed(
                h.path,
            )[k] by {
                assert(hit_bytes(h)[k] == framed(h.path)[k]);
            }
            lemma_cut_text(b, at, h.path);
        }
    }
}

/// Hit `i` stands behind those before it.
proof fn lemma_holds_hit(hits: Seq<HitView>, i: int, cut: int)
    requires
        0 <= i < hits.len(),
        0 <= cut <= encoded(hits, hits.len() as int).len(),
    ensures
        holds_hit(
            encoded(hits, hits.len() as int).take(cut),
            encoded(hits, i).len() as int,
            hits[i],
        ),
        encoded(hits, i + 1).len() == encoded(hits, i).len() + hit_bytes(hits[i]).len(),
        encoded(hits, i + 1).len() <= encoded(hits, hits.len() as int).len(),
{
    let full = encoded(hits, hits.len() as int);
    let at = encoded(hits, i).len() as int;
    let next = encoded(hits, i + 1);
    lemma_encoded_prefix(hits, i + 1, hits.len() as int);
    assert(next == encoded(hits, i) + hit_bytes(hits[i]));
    assert forall|k: int| 0 <= k < hit_bytes(hits[i]).len() && at + k < cut implies full.take(
        cut,
    )[at + k] == #[trigger] hit_bytes(hits[i])[k] by {
        assert(full.take(next.len() as int)[at + k] == next[at + k]);
    }
}

proof fn lemma_cut(hits: Seq<HitView>, cut: int, i: int)
    requires
        0 <= i <= hits.len(),
        forall|k: int| 0 <= k < hits.len() ==> frames(#[trigger] hits[k]),
        encoded(hits, i).len() <= cut <= encoded(hits, hits.len() as int).len(),
    ensures
        ({
            let b = encoded(hits, hits.len() as int).take(cut);
            let got = decoded_from(b, encoded(hits, i).len() as int, hits.take(i));
            got.len() <= hits.len() && got == hits.take(got.len() as int) && (cut == encoded(
                hits,
                hits.len() as int,
            ).len() ==> got == hits)
        }),
    decreases hits.len() - i,
{
    let full = encoded(hits, hits.len() as int);
    let b = full.take(cut);
    let at = encoded(hits, i).len() as int;
    if i == hits.len() {
        assert(hits.take(i) =~= hits);
    } else {
        assert(frames(hits[i]));
        lemma_holds_hit(hits, i, cut);
        if encoded(hits, i + 1).len() <= cut {
            lemma_whole_hit(b, at, hits[i], hits.take(i));
            assert(hits.take(i).push(hits[i]) =~= hits.take(i + 1));
            lemma_cut(hits, cut, i + 1);
        } else {
            lemma_torn_hit(b, at, hits[i], hits.take(i));
        }
    }
}

/// Hits read back from their bytes, whatever characters they hold.
pub proof fn hits_read_back(hits: Seq<HitView>)
    requires
        forall|k: int| 0 <= k < hits.len() ==> frames(#[trigger] hits[k]),
    ensures
        decoded(encoded(hits, hits.len() as int)) == hits,
{
    let full = encoded(hits, hits.len() as int);
    lemma_cut(hits, full.len() as int, 0);
    assert(full.take(full.len() as int) =~= full);
    assert(hits.take(0) =~= Seq::empty());
}

/// Bytes that are cut off give hits from the front, and no others.
pub proof fn cut_off_bytes_give_a_prefix(hits: Seq<HitView>, cut: int)
    requires
        forall|k: int| 0 <= k < hits.len() ==> frames(#[trigger] hits[k]),
        0 <= cut <= encoded(hits, hits.len() as int).len(),
    ensures
        ({
            let got = decoded(encoded(hits, hits.len() as int).take(cut));
            got.len() <= hits.len() && got == hits.take(got.len() as int)
        }),
{
    lemma_cut(hits, cut, 0);
    assert(hits.take(0) =~= Seq::empty());
}

/// A framed text whose end is cut off is no text.
proof fn lemma_cut_text(b: Seq<u8>, i: int, s: Seq<char>)
    requires
        0 <= i,
        i + 4 <= b.len() < i + framed(s).len(),
        forall|k: int| 0 <= k < 4 ==> b[i + k] == #[trigger] framed(s)[k],
        utf8(s).len() <= u32::MAX,
    ensures
        text_at(b, i) is None,
{
    let n = utf8(s).len() as u32;
    assert(b.subrange(i, i + 4) =~= le32(n)) by {
        assert forall|k: int| 0 <= k < 4 implies b[i + k] == #[trigger] le32(n)[k] by {
            assert(b[i + k] == framed(s)[k]);
        }
    }
    lemma_word_reads_back(n, b, i);
}

} // verus!
