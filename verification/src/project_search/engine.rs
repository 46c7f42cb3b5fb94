//! A search through the files of a project, one file after another, up to a number of hits.
//!
//! The editor walks the tree and reads the files; what is searched is their bytes.

use grep_regex::{RegexMatcher, RegexMatcherBuilder};
use grep_searcher::sinks::UTF8;
use grep_searcher::Searcher;
use vstd::prelude::*;

use crate::project_search::framing::{hits_view, HitView, SearchHit};
use crate::text::trimmed_end;

verus! {

/// The `grep-regex` crate's compiled expression.
#[verifier::external_type_specification]
#[verifier::external_body]
pub struct ExRegexMatcher(RegexMatcher);

/// A compiled expression that lines are matched with, and what it was compiled from. Only
/// `line_matcher` makes one.
pub struct LineMatcher {
    source: String,
    insensitive: bool,
    inner: RegexMatcher,
}

impl LineMatcher {
    /// The expression's text.
    pub closed spec fn source(&self) -> Seq<char> {
        self.source@
    }

    /// Whether upper and lower case match each other.
    pub closed spec fn insensitive(&self) -> bool {
        self.insensitive
    }
}

/// Whether `RegexMatcherBuilder` builds an expression.
pub uninterp spec fn matcher_builds(source: Seq<char>, insensitive: bool) -> bool;

/// `RegexMatcherBuilder` with its case switch, built. Whether it builds depends on the expression
/// and the switch alone.
#[verifier::external_body]
pub(crate) fn line_matcher(source: String, insensitive: bool) -> (r: Option<LineMatcher>)
    ensures
        match r {
            Some(m) => matcher_builds(source@, insensitive) && m.source() == source@
                && m.insensitive() == insensitive,
            None => !matcher_builds(source@, insensitive),
        },
{
    match RegexMatcherBuilder::new().case_insensitive(insensitive).build(&source) {
        Ok(inner) => Some(LineMatcher { source, insensitive, inner }),
        Err(_) => None,
    }
}

/// The numbers and the texts of the lines that `Searcher::search_slice` hands to a `UTF8` sink that
/// always wants more.
pub uninterp spec fn matching_lines(source: Seq<char>, insensitive: bool, bytes: Seq<u8>) -> Seq<
    (u64, Seq<char>),
>;

/// The hit on a line of a file.
pub open spec fn hit_on(path: Seq<char>, line: (u64, Seq<char>)) -> HitView {
    HitView { path, line: line.0 as usize, text: trimmed_end(line.1) }
}

/// The hits once lines from number `k` on are taken in, until there are `cap`.
pub open spec fn collected(
    hits: Seq<HitView>,
    path: Seq<char>,
    lines: Seq<(u64, Seq<char>)>,
    k: int,
    cap: int,
) -> Seq<HitView>
    decreases lines.len() - k,
{
    if k >= lines.len() {
        hits
    } else {
        let more = hits.push(hit_on(path, lines[k]));
        if more.len() < cap {
            collected(more, path, lines, k + 1, cap)
        } else {
            more
        }
    }
}

/// Take in the hit on a line, and say whether there is room for more.
pub fn keep_hit(hits: &mut Vec<SearchHit>, path: &str, line: u64, text: &str, cap: usize) -> (r:
    bool)
    ensures
        hits_view(final(hits)@) == hits_view(old(hits)@).push(hit_on(path@, (line, text@))),
        r == (final(hits)@.len() < cap),
{
    let h: SearchHit = SearchHit::new(path, line as usize, text);
    hits.push(h);
    assert(hits_view(hits@) =~= hits_view(old(hits)@).push(hit_on(path@, (line, text@))));
    hits.len() < cap
}

/// `Searcher::search_slice` with a `UTF8` sink that takes in each line by `keep_hit`. The searcher
/// hands over the matching lines in order, stops where the sink wants no more, and stops at a
/// matching line that is no UTF-8. The lines depend on the expression, its case switch and the bytes
/// alone.
#[verifier::external_body]
fn search_lines(hits: &mut Vec<SearchHit>, m: &LineMatcher, path: &str, bytes: &[u8], cap: usize)
    ensures
        hits_view(final(hits)@) == collected(
            hits_view(old(hits)@),
            path@,
            matching_lines(m.source(), m.insensitive(), bytes@),
            0,
            cap as int,
        ),
{
    let sink = UTF8(|line, text| Ok(keep_hit(hits, path, line, text, cap)));
    let _ = Searcher::new().search_slice(&m.inner, bytes, sink);
}

/// A search under way.
pub struct SearchRun {
    /// The expression; none where it does not build.
    pub matcher: Option<LineMatcher>,
    pub hits: Vec<SearchHit>,
    /// The number of hits to stop at.
    pub cap: usize,
}

impl SearchRun {
    /// The hits so far.
    pub open spec fn found(&self) -> Seq<HitView> {
        hits_view(self.hits@)
    }

    /// Whether the search is for an expression.
    pub open spec fn is_for(&self, pattern: Seq<char>, case_sensitive: bool) -> bool {
        match self.matcher {
            Some(m) => matcher_builds(pattern, !case_sensitive) && m.source() == pattern
                && m.insensitive() == !case_sensitive,
            None => !matcher_builds(pattern, !case_sensitive),
        }
    }

    /// The hits once a file is searched. One that is full, or whose expression does not build, stays
    /// as it is.
    pub open spec fn with_file(&self, path: Seq<char>, bytes: Seq<u8>) -> Seq<HitView> {
        match self.matcher {
            Some(m) => if self.hits@.len() < self.cap {
                collected(
                    self.found(),
                    path,
                    matching_lines(m.source(), m.insensitive(), bytes),
                    0,
                    self.cap as int,
                )
            } else {
                self.found()
            },
            None => self.found(),
        }
    }

    /// A search that has found nothing yet.
    pub fn new(pattern: &str, case_sensitive: bool, cap: usize) -> (r: SearchRun)
        ensures
            r.is_for(pattern@, case_sensitive),
            r.found() == Seq::<HitView>::empty(),
            r.cap == cap,
    {
        let r = SearchRun {
            matcher: line_matcher(pattern.to_owned(), !case_sensitive),
            hits: Vec::new(),
            cap,
        };
        assert(r.found() =~= Seq::empty());
        r
    }

    /// Whether there is anything left to find.
    pub fn wants_more(&self) -> (r: bool)
        ensures
            r == (self.matcher is Some && self.hits@.len() < self.cap),
    {
        self.matcher.is_some() && self.hits.len() < self.cap
    }

    /// Search a file.
    pub fn search_file(&mut self, path: &str, bytes: &[u8])
        ensures
            final(self).found() == old(self).with_file(path@, bytes@),
            final(self).matcher == old(self).matcher,
            final(self).cap == old(self).cap,
    {
        if let Some(m) = &self.matcher {
            if self.hits.len() < self.cap {
                search_lines(&mut self.hits, m, path, bytes, self.cap);
            }
        }
    }
}

proof fn lemma_collected(
    hits: Seq<HitView>,
    path: Seq<char>,
    lines: Seq<(u64, Seq<char>)>,
    k: int,
    cap: int,
)
    requires
        hits.len() < cap,
        0 <= k,
    ensures
        collected(hits, path, lines, k, cap).len() <= cap,
        hits.is_prefix_of(collected(hits, path, lines, k, cap)),
        forall|i: int|
            hits.len() <= i < collected(hits, path, lines, k, cap).len() ==> (
            #[trigger] collected(hits, path, lines, k, cap)[i]) == hit_on(
                path,
                lines[k + i - hits.len()],
            ),
    decreases lines.len() - k,
{
    if k < lines.len() {
        let more = hits.push(hit_on(path, lines[k]));
        if more.len() < cap {
            lemma_collected(more, path, lines, k + 1, cap);
            let all = collected(hits, path, lines, k, cap);
            assert(all == collected(more, path, lines, k + 1, cap));
            assert(more.is_prefix_of(all));
            assert(all[hits.len() as int] == more[hits.len() as int]);
        }
    }
}

/// Searching a file keeps the hits before it, adds none but the file's matching lines in their
/// order, and never goes past the cap.
pub proof fn hits_stay_within_the_cap(run: &SearchRun, path: Seq<char>, bytes: Seq<u8>)
    requires
        run.hits@.len() <= run.cap,
    ensures
        run.with_file(path, bytes).len() <= run.cap,
        run.found().is_prefix_of(run.with_file(path, bytes)),
        forall|i: int|
            run.found().len() <= i < run.with_file(path, bytes).len() ==> run.matcher is Some && (
            #[trigger] run.with_file(path, bytes)[i]) == hit_on(
                path,
                matching_lines(run.matcher->0.source(), run.matcher->0.insensitive(), bytes)[i
                    - run.found().len()],
            ),
{
    assert(run.found().len() == run.hits@.len());
    match run.matcher {
        Some(m) => if run.hits@.len() < run.cap {
            lemma_collected(
                run.found(),
                path,
                matching_lines(m.source(), m.insensitive(), bytes),
                0,
                run.cap as int,
            );
        },
        None => {},
    }
}

/// Every line that matches becomes a hit, in the order of the lines, with its number and its text up to
/// the last character that is no whitespace; they end where there is room for no more.
pub proof fn matching_lines_become_hits(
    hits: Seq<HitView>,
    path: Seq<char>,
    lines: Seq<(u64, Seq<char>)>,
    k: int,
    cap: int,
    i: int,
)
    requires
        0 <= k <= lines.len(),
        hits.len() < cap,
        0 <= i < lines.len() - k,
        hits.len() + i < cap,
    ensures
        ({
            let r = collected(hits, path, lines, k, cap);
            let h = r[hits.len() + i];
            &&& r.len() == if hits.len() + (lines.len() - k) < cap {
                hits.len() + (lines.len() - k)
            } else {
                cap
            }
            &&& h.path == path
            &&& h.line == lines[k + i].0 as usize
            &&& h.text == trimmed_end(lines[k + i].1)
        }),
    decreases lines.len() - k,
{
    let more = hits.push(hit_on(path, lines[k]));
    if more.len() < cap && k + 1 < lines.len() {
        lemma_hits_kept(more, path, lines, k + 1, cap);
        if i > 0 {
            matching_lines_become_hits(more, path, lines, k + 1, cap, i - 1);
        } else {
            matching_lines_become_hits(more, path, lines, k + 1, cap, 0);
            assert(collected(hits, path, lines, k, cap)[hits.len() as int] == more[hits.len() as int]);
        }
    } else if more.len() < cap {
        assert(collected(more, path, lines, k + 1, cap) == more);
    }
}

proof fn lemma_hits_kept(
    hits: Seq<HitView>,
    path: Seq<char>,
    lines: Seq<(u64, Seq<char>)>,
    k: int,
    cap: int,
)
    ensures
        collected(hits, path, lines, k, cap).len() >= hits.len(),
        collected(hits, path, lines, k, cap).take(hits.len() as int) == hits,
        forall|n: int|
            0 <= n < hits.len() ==> (#[trigger] collected(hits, path, lines, k, cap)[n]) == hits[n],
    decreases lines.len() - k,
{
    let r = collected(hits, path, lines, k, cap);
    if k < lines.len() {
        let more = hits.push(hit_on(path, lines[k]));
        if more.len() < cap {
            lemma_hits_kept(more, path, lines, k + 1, cap);
        }
        assert(forall|n: int| 0 <= n < hits.len() ==> (#[trigger] r[n]) == more[n]);
    }
    assert(r.take(hits.len() as int) =~= hits);
}

} // verus!
