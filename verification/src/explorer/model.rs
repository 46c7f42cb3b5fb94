//! The directory tree as rows, and how rows are drawn.

use vstd::prelude::*;

use crate::doc::minus;
use crate::path::{
    before, extension, extension_of, file_name_or_empty, has_path, is_before, is_same_path, key_of,
    name_or_empty, path_key, path_keys, paths_are_ordered, same_path,
};
use crate::text::{same, texts_of};

verus! {

/// An entry of a directory.
#[derive(Debug, PartialEq)]
pub struct Child {
    pub path: String,
    pub is_dir: bool,
}

pub struct ChildView {
    pub path: Seq<char>,
    pub is_dir: bool,
}

impl View for Child {
    type V = ChildView;

    open spec fn view(&self) -> ChildView {
        ChildView { path: self.path@, is_dir: self.is_dir }
    }
}

pub open spec fn children_view(v: Seq<Child>) -> Seq<ChildView> {
    v.map_values(|c: Child| c@)
}

/// Whether an entry is listed before another: directories first, then by name.
pub open spec fn child_less(a: ChildView, b: ChildView) -> bool {
    if a.is_dir != b.is_dir {
        a.is_dir
    } else {
        before(name_or_empty(a.path), name_or_empty(b.path))
    }
}

/// Where an entry goes among the first `n` of a list: behind all that are not listed after it.
pub open spec fn child_place(s: Seq<ChildView>, c: ChildView, n: int) -> int
    decreases n,
{
    if n <= 0 || !child_less(c, s[n - 1]) {
        n
    } else {
        child_place(s, c, n - 1)
    }
}

/// The first `n` entries, in the order they are listed in.
pub open spec fn listed(v: Seq<ChildView>, n: int) -> Seq<ChildView>
    decreases n,
{
    if n <= 0 {
        Seq::empty()
    } else {
        let s = listed(v, n - 1);
        s.insert(child_place(s, v[n - 1], s.len() as int), v[n - 1])
    }
}

proof fn lemma_child_less(a: ChildView, b: ChildView)
    ensures
        child_less(a, b) ==> !child_less(b, a),
{
    paths_are_ordered(name_or_empty(a.path), name_or_empty(b.path));
}

proof fn lemma_not_less_trans(a: ChildView, b: ChildView, c: ChildView)
    requires
        !child_less(b, a),
        !child_less(c, b),
    ensures
        !child_less(c, a),
{
    let (x, y, z) = (name_or_empty(a.path), name_or_empty(b.path), name_or_empty(c.path));
    paths_are_ordered(x, y);
    paths_are_ordered(y, z);
    paths_are_ordered(x, z);
    if a.is_dir == b.is_dir && b.is_dir == c.is_dir && before(z, x) {
        if same_path(x, y) || same_path(y, z) {
        } else {
            crate::path::lemma_before_trans(x, y, z);
        }
    }
}

proof fn lemma_child_place(s: Seq<ChildView>, c: ChildView, n: int)
    requires
        0 <= n <= s.len(),
        forall|i: int, j: int|
            #![trigger s[i], s[j]]
            0 <= i < j < s.len() ==> !child_less(s[j], s[i]),
    ensures
        0 <= child_place(s, c, n) <= n,
        forall|i: int| 0 <= i < child_place(s, c, n) ==> !child_less(c, #[trigger] s[i]),
        forall|i: int| child_place(s, c, n) <= i < n ==> child_less(c, #[trigger] s[i]),
    decreases n,
{
    if n > 0 {
        if child_less(c, s[n - 1]) {
            lemma_child_place(s, c, n - 1);
        } else {
            assert forall|i: int| 0 <= i < n implies !child_less(c, #[trigger] s[i]) by {
                if i < n - 1 {
                    lemma_not_less_trans(s[i], s[n - 1], c);
                }
            }
        }
    }
}

/// A listing keeps every entry, puts directories before files, and each of the two in the order of
/// their names.
pub proof fn listings_are_sorted(v: Seq<ChildView>, n: int)
    requires
        0 <= n <= v.len(),
    ensures
        listed(v, n).to_multiset() == v.take(n).to_multiset(),
        listed(v, n).len() == n,
        forall|i: int, j: int|
            #![trigger listed(v, n)[i], listed(v, n)[j]]
            0 <= i < j < listed(v, n).len() ==> !child_less(listed(v, n)[j], listed(v, n)[i]),
    decreases n,
{
    if n == 0 {
        assert(v.take(0) =~= Seq::empty());
    } else {
        listings_are_sorted(v, n - 1);
        let s = listed(v, n - 1);
        let c = v[n - 1];
        lemma_child_place(s, c, s.len() as int);
        let p = child_place(s, c, s.len() as int);
        let t = s.insert(p, c);
        assert(v.take(n) =~= v.take(n - 1).push(c));
        v.take(n - 1).to_multiset_ensures();
        s.to_multiset_ensures();
        vstd::seq_lib::to_multiset_insert(s, p, c);
        assert forall|i: int, j: int| #![trigger t[i], t[j]] 0 <= i < j < t.len() implies !child_less(
            t[j],
            t[i],
        ) by {
            let a = if i < p {
                i
            } else {
                i - 1
            };
            let b = if j < p {
                j
            } else {
                j - 1
            };
            if i == p {
                assert(t[j] == s[b]);
                lemma_child_less(c, s[b]);
            } else if j == p {
                assert(t[i] == s[a]);
            } else {
                assert(t[i] == s[a] && t[j] == s[b]);
            }
        }
    }
}

/// A directory with its entries, in the order they are listed in.
pub struct Listing {
    dir: String,
    children: Vec<Child>,
}

impl Listing {
    pub closed spec fn dir(&self) -> Seq<char> {
        self.dir@
    }

    pub closed spec fn children(&self) -> Seq<ChildView> {
        children_view(self.children@)
    }

    /// The listing of a directory whose entries were found in any order.
    pub fn new(dir: String, entries: Vec<Child>) -> (r: Listing)
        ensures
            r.dir() == dir@,
            r.children() == listed(children_view(entries@), entries@.len() as int),
    {
        let ghost all = children_view(entries@);
        let mut rest: Vec<Child> = entries;
        let mut out: Vec<Child> = Vec::new();
        let n: usize = rest.len();
        let mut k: usize = 0;
        assert(children_view(out@) =~= Seq::empty());
        assert(all.skip(0) =~= all);
        while k < n
            invariant
                k <= n,
                n == all.len(),
                rest@.len() == n - k,
                children_view(rest@) == all.skip(k as int),
                children_view(out@) == listed(all, k as int),
                out@.len() == k,
            decreases n - k,
        {
            let ghost left = rest@;
            let c: Child = rest.remove(0);
            proof {
                assert(children_view(left)[0] == c@);
                assert(all.skip(k as int)[0] == all[k as int]);
                assert forall|i: int| 0 <= i < rest@.len() implies #[trigger] children_view(
                    rest@,
                )[i] == all.skip(k + 1)[i] by {
                    assert(children_view(left)[i + 1] == all.skip(k as int)[i + 1]);
                }
                assert(children_view(rest@) =~= all.skip(k + 1));
            }
            let mut m: usize = out.len();
            let ghost s = children_view(out@);
            while m > 0 && comes_before(&c, &out[m - 1])
                invariant
                    m <= out.len(),
                    s == children_view(out@),
                    child_place(s, c@, s.len() as int) == child_place(s, c@, m as int),
                decreases m,
            {
                assert(s[m - 1] == out@[m - 1]@);
                m -= 1;
            }
            if m > 0 {
                assert(s[m - 1] == out@[m - 1]@);
            }
            out.insert(m, c);
            assert(children_view(out@) =~= s.insert(m as int, c@));
            k += 1;
        }
        Listing { dir, children: out }
    }
}

/// Whether an entry is listed before another.
fn comes_before(a: &Child, b: &Child) -> (r: bool)
    ensures
        r == child_less(a@, b@),
{
    if a.is_dir != b.is_dir {
        a.is_dir
    } else {
        is_before(
            file_name_or_empty(a.path.as_str()).as_str(),
            file_name_or_empty(b.path.as_str()).as_str(),
        )
    }
}

/// A visible row of the tree.
#[derive(Debug, PartialEq)]
pub struct Row {
    pub path: String,
    pub is_dir: bool,
    pub depth: usize,
    pub expanded: bool,
}

pub struct RowView {
    pub path: Seq<char>,
    pub is_dir: bool,
    pub depth: int,
    pub expanded: bool,
}

impl View for Row {
    type V = RowView;

    open spec fn view(&self) -> RowView {
        RowView {
            path: self.path@,
            is_dir: self.is_dir,
            depth: self.depth as int,
            expanded: self.expanded,
        }
    }
}

pub open spec fn rows_view(v: Seq<Row>) -> Seq<RowView> {
    v.map_values(|r: Row| r@)
}

/// The first listing of a directory, from `i` on.
pub open spec fn listing_at(l: Seq<Listing>, dir: Seq<char>, i: int) -> Option<int>
    decreases l.len() - i,
{
    if i >= l.len() {
        None
    } else if same_path(l[i].dir(), dir) {
        Some(i)
    } else {
        listing_at(l, dir, i + 1)
    }
}

/// The entries of a directory; none where it is not listed.
pub open spec fn entries_of(l: Seq<Listing>, dir: Seq<char>) -> Seq<ChildView> {
    match listing_at(l, dir, 0) {
        Some(i) => l[i].children(),
        None => Seq::empty(),
    }
}

/// The length of the longest path among the first `n` listed directories.
pub open spec fn longest(l: Seq<Listing>, n: int) -> nat
    decreases n,
{
    if n <= 0 {
        0
    } else if path_key(l[n - 1].dir()).len() > longest(l, n - 1) {
        path_key(l[n - 1].dir()).len()
    } else {
        longest(l, n - 1)
    }
}

pub proof fn lemma_longest(l: Seq<Listing>, n: int, i: int)
    requires
        0 <= i < n <= l.len(),
    ensures
        path_key(l[i].dir()).len() <= longest(l, n),
    decreases n,
{
    if i < n - 1 {
        lemma_longest(l, n - 1, i);
    }
}

pub proof fn lemma_listing_at(l: Seq<Listing>, dir: Seq<char>, i: int)
    requires
        0 <= i,
    ensures
        match listing_at(l, dir, i) {
            Some(k) => i <= k < l.len() && same_path(l[k].dir(), dir) && path_key(dir).len()
                <= longest(l, l.len() as int),
            None => true,
        },
    decreases l.len() - i,
{
    if i < l.len() {
        if same_path(l[i].dir(), dir) {
            lemma_longest(l, l.len() as int, i);
        } else {
            lemma_listing_at(l, dir, i + 1);
        }
    }
}

/// The row of an entry.
pub open spec fn row_of(c: ChildView, depth: int, open: Set<Seq<u64>>) -> RowView {
    RowView {
        path: c.path,
        is_dir: c.is_dir,
        depth,
        expanded: c.is_dir && open.contains(path_key(c.path)),
    }
}

/// Whether the entries of an entry follow it: it is an open directory that is listed, and below the
/// directory it stands in.
pub open spec fn descends(l: Seq<Listing>, open: Set<Seq<u64>>, dir: Seq<char>, c: ChildView) -> bool {
    c.is_dir && open.contains(path_key(c.path)) && listing_at(l, c.path, 0) is Some && path_key(
        c.path,
    ).len() > path_key(dir).len()
}

/// The rows of the first `n` entries of a directory, each open directory followed by its own rows.
pub open spec fn tree(
    l: Seq<Listing>,
    open: Set<Seq<u64>>,
    dir: Seq<char>,
    depth: int,
    n: int,
) -> Seq<RowView>
    decreases longest(l, l.len() as int) - path_key(dir).len(), n,
{
    if n <= 0 {
        Seq::empty()
    } else {
        let c = entries_of(l, dir)[n - 1];
        let rows = tree(l, open, dir, depth, n - 1).push(row_of(c, depth, open));
        proof {
            lemma_listing_at(l, c.path, 0);
        }
        if descends(l, open, dir, c) {
            rows + tree(l, open, c.path, depth + 1, entries_of(l, c.path).len() as int)
        } else {
            rows
        }
    }
}

/// All rows of the tree.
pub open spec fn flattened(l: Seq<Listing>, open: Set<Seq<u64>>, root: Seq<char>) -> Seq<RowView> {
    tree(l, open, root, 0, entries_of(l, root).len() as int)
}

/// The first listing of a directory.
fn find_listing(l: &[Listing], dir: &str) -> (r: Option<usize>)
    ensures
        match r {
            Some(k) => k < l@.len() && listing_at(l@, dir@, 0) == Some(k as int),
            None => listing_at(l@, dir@, 0) is None,
        },
{
    let mut i: usize = 0;
    while i < l.len()
        invariant
            i <= l.len(),
            listing_at(l@, dir@, 0) == listing_at(l@, dir@, i as int),
        decreases l.len() - i,
    {
        if is_same_path(l[i].dir.as_str(), dir) {
            return Some(i);
        }
        i += 1;
    }
    None
}

/// Append the rows of a directory.
pub fn push_dir(l: &[Listing], open: &Vec<String>, dir: &str, depth: usize, out: &mut Vec<Row>)
    requires
        depth + minus(longest(l@, l@.len() as int) as int, path_key(dir@).len() as int)
            <= usize::MAX,
    ensures
        rows_view(final(out)@) == rows_view(old(out)@) + tree(
            l@,
            path_keys(texts_of(open@)).to_set(),
            dir@,
            depth as int,
            entries_of(l@, dir@).len() as int,
        ),
    decreases longest(l@, l@.len() as int) - path_key(dir@).len(),
{
    let ghost set = path_keys(texts_of(open@)).to_set();
    let ghost start = rows_view(out@);
    assert(start + Seq::<RowView>::empty() =~= start);
    let k: usize = match find_listing(l, dir) {
        Some(k) => k,
        None => return,
    };
    let children: &Vec<Child> = &l[k].children;
    let mut i: usize = 0;
    while i < children.len()
        invariant
            i <= children.len(),
            depth + minus(longest(l@, l@.len() as int) as int, path_key(dir@).len() as int)
                <= usize::MAX,
            set == path_keys(texts_of(open@)).to_set(),
            entries_of(l@, dir@) == children_view(children@),
            rows_view(out@) == start + tree(l@, set, dir@, depth as int, i as int),
        decreases children.len() - i,
    {
        let c: &Child = &children[i];
        assert(entries_of(l@, dir@)[i as int] == c@);
        let expanded: bool = c.is_dir && has_path(open, c.path.as_str());
        let ghost before = out@;
        out.push(Row { path: c.path.clone(), is_dir: c.is_dir, depth, expanded });
        proof {
            assert(rows_view(out@) =~= rows_view(before).push(row_of(c@, depth as int, set)));
            assert(rows_view(out@) =~= start + tree(
                l@,
                set,
                dir@,
                depth as int,
                i as int,
            ).push(row_of(c@, depth as int, set)));
            lemma_listing_at(l@, c.path@, 0);
        }
        if expanded && find_listing(l, c.path.as_str()).is_some() && deeper(c.path.as_str(), dir) {
            push_dir(l, open, c.path.as_str(), depth + 1, out);
            assert(rows_view(out@) =~= start + tree(l@, set, dir@, depth as int, i + 1));
        }
        i += 1;
    }
}

/// Whether a path is longer than another.
fn deeper(a: &str, b: &str) -> (r: bool)
    ensures
        r == (path_key(a@).len() > path_key(b@).len()),
{
    let x: Vec<u64> = key_of(a);
    let y: Vec<u64> = key_of(b);
    x.len() > y.len()
}

/// The length of the longest path among listed directories.
pub fn longest_of(l: &[Listing]) -> (r: usize)
    ensures
        r == longest(l@, l@.len() as int),
{
    let mut r: usize = 0;
    let mut i: usize = 0;
    while i < l.len()
        invariant
            i <= l.len(),
            r == longest(l@, i as int),
        decreases l.len() - i,
    {
        let n: usize = key_of(l[i].dir.as_str()).len();
        if n > r {
            r = n;
        }
        i += 1;
    }
    r
}

/// The symbol of a file, by its extension.
pub open spec fn glyph_for(path: Seq<char>) -> Seq<char> {
    match extension_of(name_or_empty(path)) {
        None => "\u{f15b}"@,
        Some(e) => if e == "rs"@ {
            "\u{e7a8}"@
        } else if e == "py"@ {
            "\u{e606}"@
        } else if e == "js"@ || e == "mjs"@ || e == "cjs"@ {
            "\u{e781}"@
        } else if e == "ts"@ || e == "tsx"@ {
            "\u{e628}"@
        } else if e == "json"@ {
            "\u{e60b}"@
        } else if e == "toml"@ || e == "ini"@ || e == "cfg"@ {
            "\u{e615}"@
        } else if e == "md"@ || e == "markdown"@ {
            "\u{e73e}"@
        } else if e == "c"@ || e == "h"@ {
            "\u{e61e}"@
        } else if e == "go"@ {
            "\u{e627}"@
        } else if e == "lock"@ {
            "\u{f023}"@
        } else {
            "\u{f15b}"@
        },
    }
}

/// The symbol of a file, by its extension.
pub fn file_glyph(path: &str) -> (r: &'static str)
    ensures
        r@ == glyph_for(path@),
{
    let name: String = file_name_or_empty(path);
    let e: String = match extension(name.as_str()) {
        Some(e) => e,
        None => return "\u{f15b}",
    };
    let e: &str = e.as_str();
    if same(e, "rs") {
        "\u{e7a8}"
    } else if same(e, "py") {
        "\u{e606}"
    } else if same(e, "js") || same(e, "mjs") || same(e, "cjs") {
        "\u{e781}"
    } else if same(e, "ts") || same(e, "tsx") {
        "\u{e628}"
    } else if same(e, "json") {
        "\u{e60b}"
    } else if same(e, "toml") || same(e, "ini") || same(e, "cfg") {
        "\u{e615}"
    } else if same(e, "md") || same(e, "markdown") {
        "\u{e73e}"
    } else if same(e, "c") || same(e, "h") {
        "\u{e61e}"
    } else if same(e, "go") {
        "\u{e627}"
    } else if same(e, "lock") {
        "\u{f023}"
    } else {
        "\u{f15b}"
    }
}

/// What stands before a directory's name: whether it is open, and with symbols a folder.
pub open spec fn marker_for(expanded: bool, icons: bool) -> Seq<char> {
    if icons {
        if expanded {
            "▾ \u{f07c} "@
        } else {
            "▸ \u{f07b} "@
        }
    } else if expanded {
        "▾ "@
    } else {
        "▸ "@
    }
}

/// What stands before a directory's name.
pub fn dir_marker(expanded: bool, icons: bool) -> (r: &'static str)
    ensures
        r@ == marker_for(expanded, icons),
{
    if icons {
        if expanded {
            "▾ \u{f07c} "
        } else {
            "▸ \u{f07b} "
        }
    } else if expanded {
        "▾ "
    } else {
        "▸ "
    }
}

/// Whether a character is the symbol of a folder.
pub open spec fn is_folder(c: char) -> bool {
    c == '\u{f07b}' || c == '\u{f07c}'
}

/// A directory is marked by whether it is open and, with symbols, by exactly one folder.
pub proof fn directories_show_one_folder(expanded: bool, icons: bool)
    ensures
        marker_for(expanded, icons)[0] == if expanded {
            '▾'
        } else {
            '▸'
        },
        icons ==> exists|i: int|
            0 <= i < marker_for(expanded, icons).len() && is_folder(
                #[trigger] marker_for(expanded, icons)[i],
            ) && forall|j: int|
                0 <= j < marker_for(expanded, icons).len() && is_folder(
                    #[trigger] marker_for(expanded, icons)[j],
                ) ==> j == i,
        !icons ==> forall|j: int|
            0 <= j < marker_for(expanded, icons).len() ==> !is_folder(
                #[trigger] marker_for(expanded, icons)[j],
            ),
{
    reveal_strlit("▾ \u{f07c} ");
    reveal_strlit("▸ \u{f07b} ");
    reveal_strlit("▾ ");
    reveal_strlit("▸ ");
    let m = marker_for(expanded, icons);
    if icons {
        assert(m.len() == 4);
        assert(is_folder(m[2]));
    }
}

proof fn lemma_tree_grows(
    l: Seq<Listing>,
    open: Set<Seq<u64>>,
    dir: Seq<char>,
    depth: int,
    k: int,
    n: int,
)
    requires
        0 <= k <= n,
    ensures
        tree(l, open, dir, depth, k).len() <= tree(l, open, dir, depth, n).len(),
        forall|i: int|
            0 <= i < tree(l, open, dir, depth, k).len() ==> (#[trigger] tree(
                l,
                open,
                dir,
                depth,
                n,
            )[i]) == tree(l, open, dir, depth, k)[i],
    decreases n - k,
{
    if k < n {
        lemma_tree_grows(l, open, dir, depth, k, n - 1);
        let less = tree(l, open, dir, depth, n - 1);
        let more = tree(l, open, dir, depth, n);
        assert(forall|i: int| 0 <= i < less.len() ==> (#[trigger] more[i]) == less[i]);
    }
}

/// Every entry has a row with its path, behind the rows of the entries before it. Where it is an open
/// directory that is listed, its own rows follow one step deeper; where it is not, the next entry's row
/// does.
pub proof fn open_directories_are_followed_by_their_entries(
    l: Seq<Listing>,
    open: Set<Seq<u64>>,
    dir: Seq<char>,
    depth: int,
    k: int,
    n: int,
)
    requires
        0 <= k < n <= entries_of(l, dir).len(),
    ensures
        ({
            let c = entries_of(l, dir)[k];
            let r = tree(l, open, dir, depth, n);
            let at = tree(l, open, dir, depth, k).len() as int;
            let own = tree(l, open, c.path, depth + 1, entries_of(l, c.path).len() as int);
            &&& at < r.len()
            &&& r[at].path == c.path
            &&& r[at].depth == depth
            &&& r[at].is_dir == c.is_dir
            &&& r[at].expanded == (c.is_dir && open.contains(path_key(c.path)))
            &&& descends(l, open, dir, c) ==> at + 1 + own.len() <= r.len() && r.subrange(
                at + 1,
                at + 1 + own.len(),
            ) == own
            &&& descends(l, open, dir, c) ==> tree(l, open, dir, depth, k + 1).len() == at + 1
                + own.len()
            &&& !descends(l, open, dir, c) ==> tree(l, open, dir, depth, k + 1).len() == at + 1
        }),
{
    let c = entries_of(l, dir)[k];
    let r = tree(l, open, dir, depth, n);
    let one = tree(l, open, dir, depth, k + 1);
    let at = tree(l, open, dir, depth, k).len() as int;
    let own = tree(l, open, c.path, depth + 1, entries_of(l, c.path).len() as int);
    lemma_tree_grows(l, open, dir, depth, k + 1, n);
    assert(one[at] == row_of(c, depth, open));
    if descends(l, open, dir, c) {
        assert forall|i: int| 0 <= i < own.len() implies r.subrange(at + 1, at + 1 + own.len())[i]
            == own[i] by {
            assert(r[at + 1 + i] == one[at + 1 + i]);
        }
        assert(r.subrange(at + 1, at + 1 + own.len()) =~= own);
    }
}

} // verus!
