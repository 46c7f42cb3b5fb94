//! Which pages a document has, and how they are shown.

use vstd::prelude::*;

use crate::pdf::cmap::CMapView;
use crate::pdf::document::{
    first_entry, font_at, info_pairs_of, info_text, may_add, may_be_part, may_contain, may_define,
    may_fill, may_have, may_inherit, may_map, node_fonts, page_dicts, part_of, tree_root, walk,
    walk_kids, with_info, with_part, FontsView, MAX_PAGE_CONTENT, MAX_TREE_VISITS,
};
use crate::pdf::filters::{finished, may_chain, may_decode, may_give, MAX_DECODED};
use crate::pdf::object::{lookup, DictView, ObjView};
use crate::pdf::objects::{dict_type, entry, resolved};
use crate::pdf::render::{size_refusal_text, text_rows, MAX_LINES};
use crate::text::{is_blank, trimmed_end};
use crate::ui::{row, unstyled, LineView};

verus! {

/// Whether an object is, or refers to, a page's dictionary.
pub open spec fn is_leaf(m: Map<u32, ObjView>, o: ObjView, page: DictView) -> bool {
    &&& resolved(m, o) is Some
    &&& resolved(m, o).unwrap().dict() == Some(page)
    &&& dict_type(page, "Page"@)
    &&& !dict_type(page, "Pages"@)
}

proof fn lemma_leaves(
    m: Map<u32, ObjView>,
    kids: Seq<ObjView>,
    pages: Seq<DictView>,
    k: int,
    depth: int,
    out: Seq<DictView>,
    budget: int,
)
    requires
        0 <= k <= kids.len() == pages.len(),
        0 <= depth <= crate::pdf::document::MAX_TREE_DEPTH,
        forall|i: int| 0 <= i < kids.len() ==> is_leaf(m, #[trigger] kids[i], pages[i]),
    ensures
        walk_kids(m, kids, k, depth, out, budget) == (out + pages.skip(k), budget),
    decreases kids.len() - k,
{
    if k < kids.len() {
        assert(is_leaf(m, kids[k], pages[k]));
        lemma_leaves(m, kids, pages, k + 1, depth, out.push(pages[k]), budget);
        assert(out.push(pages[k]) + pages.skip(k + 1) =~= out + pages.skip(k));
    } else {
        assert(out + pages.skip(k) =~= out);
    }
}

/// The pages of a document are those that its page tree names, in the order in which it names them,
/// whatever their object numbers.
pub proof fn pages_are_in_the_order_of_the_tree(
    m: Map<u32, ObjView>,
    root: DictView,
    kids: Seq<ObjView>,
    pages: Seq<DictView>,
)
    requires
        tree_root(m) == Some(root),
        entry(m, root, "Kids"@) == Some(ObjView::Array(kids)),
        kids.len() == pages.len(),
        pages.len() > 0,
        forall|i: int| 0 <= i < kids.len() ==> is_leaf(m, #[trigger] kids[i], pages[i]),
    ensures
        page_dicts(m) == pages,
{
    let none = Seq::<DictView>::empty();
    lemma_leaves(m, kids, pages, 0, 0, none, MAX_TREE_VISITS - 1);
    assert(none + pages.skip(0) =~= pages);
}

/// A branch of the page tree stands for the pages below it, in its place.
pub proof fn branches_stand_for_their_pages(
    m: Map<u32, ObjView>,
    first: ObjView,
    branch: ObjView,
    last: ObjView,
    a: DictView,
    node: DictView,
    below: Seq<ObjView>,
    pages: Seq<DictView>,
    b: DictView,
    budget: int,
)
    requires
        is_leaf(m, first, a),
        is_leaf(m, last, b),
        resolved(m, branch) is Some,
        resolved(m, branch).unwrap().dict() == Some(node),
        dict_type(node, "Pages"@),
        entry(m, node, "Kids"@) == Some(ObjView::Array(below)),
        below.len() == pages.len(),
        forall|i: int| 0 <= i < below.len() ==> is_leaf(m, #[trigger] below[i], pages[i]),
        budget > 0,
    ensures
        walk_kids(m, seq![first, branch, last], 0, 0, Seq::empty(), budget).0 == seq![a] + pages
            + seq![b],
{
    let none = Seq::<DictView>::empty();
    let kids = seq![first, branch, last];
    let one = none.push(a);
    lemma_leaves(m, below, pages, 0, 1, one, budget - 1);
    let two = one + pages.skip(0);
    let more = walk(m, node, 1, one, budget);
    assert(more == (two, budget - 1));
    reveal_with_fuel(walk_kids, 5);
    assert(walk_kids(m, kids, 3, 0, two.push(b), budget - 1).0 == two.push(b));
    assert(walk_kids(m, kids, 2, 0, two, budget - 1).0 == two.push(b));
    assert(walk_kids(m, kids, 1, 0, one, budget).0 == two.push(b));
    assert(two.push(b) =~= seq![a] + pages + seq![b]);
}

/// The lines of a page are shown one by one, in their order, without the whitespace at their ends, as
/// long as there is room.
pub proof fn lines_are_shown_in_order(rows: Seq<Seq<char>>, k: int, blank: bool, acc: Seq<LineView>)
    requires
        0 <= k <= rows.len(),
        acc.len() + rows.len() - k <= MAX_LINES,
        forall|i: int| k <= i < rows.len() ==> !is_blank(trimmed_end(#[trigger] rows[i])),
    ensures
        text_rows(rows, k, blank, acc) == acc + rows.skip(k).map_values(
            |t: Seq<char>| row(seq![unstyled(trimmed_end(t))]),
        ),
    decreases rows.len() - k,
{
    let f = |t: Seq<char>| row(seq![unstyled(trimmed_end(t))]);
    if k < rows.len() {
        assert(!is_blank(trimmed_end(rows[k])));
        let next = acc.push(f(rows[k]));
        lines_are_shown_in_order(rows, k + 1, false, next);
        assert(next + rows.skip(k + 1).map_values(f) =~= acc + rows.skip(k).map_values(f));
    } else {
        assert(acc + rows.skip(k).map_values(f) =~= acc);
    }
}

/// Blank lines behind a blank line are dropped, and a first one is kept.
pub proof fn runs_of_blank_lines_are_one(rows: Seq<Seq<char>>, k: int, n: int, acc: Seq<LineView>)
    requires
        0 <= k <= n <= rows.len(),
        forall|i: int| k <= i < n ==> is_blank(trimmed_end(#[trigger] rows[i])),
        acc.len() < MAX_LINES,
    ensures
        text_rows(rows, k, true, acc) == text_rows(rows, n, true, acc),
        k < n ==> text_rows(rows, k, false, acc) == text_rows(
            rows,
            n,
            true,
            acc.push(row(seq![unstyled(trimmed_end(rows[k]))])),
        ) || acc.len() + 1 >= MAX_LINES,
    decreases n - k,
{
    if k < n {
        assert(is_blank(trimmed_end(rows[k])));
        runs_of_blank_lines_are_one(rows, k + 1, n, acc);
        if acc.len() + 1 < MAX_LINES {
            runs_of_blank_lines_are_one(
                rows,
                k + 1,
                n,
                acc.push(row(seq![unstyled(trimmed_end(rows[k]))])),
            );
        }
    }
}

proof fn lemma_with_info(
    m: Map<u32, ObjView>,
    info: DictView,
    key: Seq<char>,
    acc: Seq<(Seq<char>, Seq<char>)>,
)
    ensures
        acc.is_prefix_of(with_info(m, info, key, acc)),
        info_text(m, info, key) matches Some(t) ==> t.len() > 0 ==> with_info(m, info, key, acc)
            == acc.push((key, t)),
        with_info(m, info, key, acc).len() <= acc.len() + 1,
{
}

/// Every information entry that holds text is listed under its own name, the title first and the date
/// of the last change last.
pub proof fn information_is_listed(m: Map<u32, ObjView>, info: DictView, t: Seq<char>)
    requires
        t.len() > 0,
    ensures
        ({
            let all = info_pairs_of(m, info);
            &&& all.len() <= 8
            &&& info_text(m, info, "Title"@) == Some(t) ==> all.len() > 0 && all[0] == ("Title"@, t)
            &&& info_text(m, info, "Author"@) == Some(t) ==> all.contains(("Author"@, t))
            &&& info_text(m, info, "Subject"@) == Some(t) ==> all.contains(("Subject"@, t))
            &&& info_text(m, info, "Keywords"@) == Some(t) ==> all.contains(("Keywords"@, t))
            &&& info_text(m, info, "Creator"@) == Some(t) ==> all.contains(("Creator"@, t))
            &&& info_text(m, info, "Producer"@) == Some(t) ==> all.contains(("Producer"@, t))
            &&& info_text(m, info, "CreationDate"@) == Some(t) ==> all.contains(
                ("CreationDate"@, t),
            )
            &&& info_text(m, info, "ModDate"@) == Some(t) ==> all.len() > 0 && all.last() == (
                "ModDate"@,
                t,
            )
        }),
{
    let none = Seq::<(Seq<char>, Seq<char>)>::empty();
    let a = with_info(m, info, "Title"@, none);
    let b = with_info(m, info, "Author"@, a);
    let c = with_info(m, info, "Subject"@, b);
    let d = with_info(m, info, "Keywords"@, c);
    let e = with_info(m, info, "Creator"@, d);
    let f = with_info(m, info, "Producer"@, e);
    let g = with_info(m, info, "CreationDate"@, f);
    let all = info_pairs_of(m, info);
    lemma_with_info(m, info, "Title"@, none);
    lemma_with_info(m, info, "Author"@, a);
    lemma_with_info(m, info, "Subject"@, b);
    lemma_with_info(m, info, "Keywords"@, c);
    lemma_with_info(m, info, "Creator"@, d);
    lemma_with_info(m, info, "Producer"@, e);
    lemma_with_info(m, info, "CreationDate"@, f);
    lemma_with_info(m, info, "ModDate"@, g);
    if info_text(m, info, "Title"@) == Some(t) {
        assert(a[0] == ("Title"@, t));
        assert(b[0] == a[0] && c[0] == b[0] && d[0] == c[0] && e[0] == d[0] && f[0] == e[0] && g[0]
            == f[0] && all[0] == g[0]);
    }
    if info_text(m, info, "Author"@) == Some(t) {
        let i = a.len() as int;
        assert(b[i] == ("Author"@, t));
        assert(c[i] == b[i] && d[i] == c[i] && e[i] == d[i] && f[i] == e[i] && g[i] == f[i]
            && all[i] == g[i]);
    }
    if info_text(m, info, "Subject"@) == Some(t) {
        let i = b.len() as int;
        assert(c[i] == ("Subject"@, t));
        assert(d[i] == c[i] && e[i] == d[i] && f[i] == e[i] && g[i] == f[i] && all[i] == g[i]);
    }
    if info_text(m, info, "Keywords"@) == Some(t) {
        let i = c.len() as int;
        assert(d[i] == ("Keywords"@, t));
        assert(e[i] == d[i] && f[i] == e[i] && g[i] == f[i] && all[i] == g[i]);
    }
    if info_text(m, info, "Creator"@) == Some(t) {
        let i = d.len() as int;
        assert(e[i] == ("Creator"@, t));
        assert(f[i] == e[i] && g[i] == f[i] && all[i] == g[i]);
    }
    if info_text(m, info, "Producer"@) == Some(t) {
        let i = e.len() as int;
        assert(f[i] == ("Producer"@, t));
        assert(g[i] == f[i] && all[i] == g[i]);
    }
    if info_text(m, info, "CreationDate"@) == Some(t) {
        let i = f.len() as int;
        assert(g[i] == ("CreationDate"@, t));
        assert(all[i] == g[i]);
    }
}

/// A file is refused exactly where it is larger than sixty-four megabytes.
pub proof fn large_files_are_refused(len: u64)
    ensures
        size_refusal_text(len) is Some <==> len > 64 * 1024 * 1024,
{
}

/// Whether an object is a stream that is stored as it is.
pub open spec fn is_stored_plainly(o: Option<ObjView>) -> bool {
    match o {
        Some(ObjView::Stream { dict, data }) => lookup(dict, "Filter"@) is None && lookup(
            dict,
            "DecodeParms"@,
        ) is None && data.len() <= MAX_DECODED,
        _ => false,
    }
}

/// The bytes of the streams from the `k`th on, each with a line break behind it.
pub open spec fn stored_from(m: Map<u32, ObjView>, items: Seq<ObjView>, k: int) -> Seq<u8>
    decreases items.len() - k,
{
    if k < 0 || k >= items.len() {
        Seq::empty()
    } else {
        match resolved(m, items[k]) {
            Some(ObjView::Stream { data, .. }) => data.push(0x0a) + stored_from(m, items, k + 1),
            _ => Seq::empty(),
        }
    }
}

proof fn lemma_plain_part(dict: DictView, data: Seq<u8>, part: Seq<u8>)
    requires
        lookup(dict, "Filter"@) is None,
        lookup(dict, "DecodeParms"@) is None,
        data.len() <= MAX_DECODED,
        may_be_part(dict, data, part),
    ensures
        part == data.push(0x0a),
{
    let d = choose|d: Option<Seq<u8>>| #[trigger] may_decode(dict, data, d) && part == part_of(d);
    let none = Seq::<Seq<char>>::empty();
    assert(may_give(dict, none, data, d));
    let x = choose|x: Option<Seq<u8>>| #[trigger]
        may_chain(none, 0, data, x) && d == finished(dict, x);
    assert(x == Some(data));
    assert(d == Some(data));
}

proof fn lemma_filled(
    m: Map<u32, ObjView>,
    items: Seq<ObjView>,
    k: int,
    out: Seq<u8>,
    end: Seq<u8>,
)
    requires
        0 <= k <= items.len(),
        may_fill(m, items, k, out, end),
        forall|i: int| 0 <= i < items.len() ==> is_stored_plainly(resolved(m, #[trigger] items[i])),
        out.len() + stored_from(m, items, k).len() <= MAX_PAGE_CONTENT,
    ensures
        end == out + stored_from(m, items, k),
    decreases items.len() - k,
{
    if k < items.len() {
        assert(is_stored_plainly(resolved(m, items[k])));
        let o = resolved(m, items[k]).unwrap();
        let part = choose|part: Seq<u8>| #[trigger]
            may_add(o, part) && may_fill(m, items, k + 1, with_part(out, part), end);
        assert(may_add(o, part));
        let dict = o->Stream_dict;
        let data = o->Stream_data;
        lemma_plain_part(dict, data, part);
        assert(with_part(out, part) == out + part);
        lemma_filled(m, items, k + 1, out + part, end);
        assert(out + part + stored_from(m, items, k + 1) =~= out + stored_from(m, items, k));
    } else {
        assert(out + stored_from(m, items, k) =~= out);
    }
}

/// A page's content is that of its streams, one after the other, with a line break behind each.
pub proof fn contents_follow_each_other(
    m: Map<u32, ObjView>,
    page: DictView,
    items: Seq<ObjView>,
    content: Seq<u8>,
)
    requires
        entry(m, page, "Contents"@) == Some(ObjView::Array(items)),
        forall|i: int| 0 <= i < items.len() ==> is_stored_plainly(resolved(m, #[trigger] items[i])),
        stored_from(m, items, 0).len() <= MAX_PAGE_CONTENT,
        may_contain(m, page, content),
    ensures
        content == stored_from(m, items, 0),
{
    lemma_filled(m, items, 0, Seq::empty(), content);
    assert(Seq::<u8>::empty() + stored_from(m, items, 0) =~= stored_from(m, items, 0));
}

/// Whether fonts were added behind others, none under a name that was there.
pub open spec fn adds_to(fonts: FontsView, end: FontsView) -> bool {
    &&& fonts.names.len() <= end.names.len()
    &&& fonts.maps.len() <= end.maps.len()
    &&& forall|i: int| 0 <= i < fonts.names.len() ==> (#[trigger] end.names[i]) == fonts.names[i]
    &&& forall|i: int| 0 <= i < fonts.maps.len() ==> (#[trigger] end.maps[i]) == fonts.maps[i]
    &&& forall|i: int|
        fonts.maps.len() <= i < end.maps.len() ==> !fonts.names.contains((#[trigger] end.maps[i]).0)
}

proof fn lemma_adds(a: FontsView, b: FontsView, c: FontsView)
    requires
        adds_to(a, b),
        adds_to(b, c),
    ensures
        adds_to(a, c),
{
    assert forall|i: int| a.maps.len() <= i < c.maps.len() implies !a.names.contains(
        (#[trigger] c.maps[i]).0,
    ) by {
        if i < b.maps.len() {
            assert(c.maps[i] == b.maps[i]);
        } else if a.names.contains(c.maps[i].0) {
            let j = choose|j: int| 0 <= j < a.names.len() && a.names[j] == c.maps[i].0;
            assert(b.names[j] == a.names[j]);
            assert(b.names.contains(c.maps[i].0));
        }
    }
    assert forall|i: int| 0 <= i < a.names.len() implies (#[trigger] c.names[i]) == a.names[i] by {
        assert(b.names[i] == a.names[i]);
    }
    assert forall|i: int| 0 <= i < a.maps.len() implies (#[trigger] c.maps[i]) == a.maps[i] by {
        assert(b.maps[i] == a.maps[i]);
    }
}

proof fn lemma_defined(m: Map<u32, ObjView>, d: DictView, k: int, fonts: FontsView, end: FontsView)
    requires
        may_define(m, d, k, fonts, end),
    ensures
        adds_to(fonts, end),
    decreases d.len() - k,
{
    if 0 <= k < d.len() {
        match font_at(m, d, k) {
            Some(f) => if fonts.names.contains(d[k].0) {
                lemma_defined(m, d, k + 1, fonts, end);
            } else {
                let map = choose|map: Option<CMapView>| #[trigger]
                    may_map(m, f, map) && may_define(m, d, k + 1, fonts.defined(d[k].0, map), end);
                let next = fonts.defined(d[k].0, map);
                lemma_defined(m, d, k + 1, next, end);
                assert(adds_to(fonts, next));
                lemma_adds(fonts, next, end);
            },
            None => lemma_defined(m, d, k + 1, fonts, end),
        }
    }
}

/// A font that is nearer to the page wins: what a parent adds comes behind it, and under no name that
/// was given nearer.
pub proof fn the_nearest_font_wins(
    m: Map<u32, ObjView>,
    node: DictView,
    left: int,
    fonts: FontsView,
    end: FontsView,
)
    requires
        may_inherit(m, node, left, fonts, end),
    ensures
        adds_to(fonts, end),
    decreases left,
{
    if left > 0 {
        let here = choose|here: FontsView| #[trigger]
            may_have(m, node, fonts, here) && match entry(m, node, "Parent"@) {
                None => end == here,
                Some(o) => match o.dict() {
                    None => end == here,
                    Some(p) => may_inherit(m, p, left - 1, here, end),
                },
            };
        match node_fonts(m, node) {
            Some(d) => lemma_defined(m, d, 0, fonts, here),
            None => {},
        }
        match entry(m, node, "Parent"@) {
            Some(o) => match o.dict() {
                Some(p) => {
                    the_nearest_font_wins(m, p, left - 1, here, end);
                    lemma_adds(fonts, here, end);
                },
                None => {},
            },
            None => {},
        }
    }
}

/// What a document says of itself is read from the first trailer that says it.
pub proof fn the_first_trailer_counts(ts: Seq<DictView>, key: Seq<char>, i: int, k: int)
    requires
        0 <= i <= k < ts.len(),
        lookup(ts[k], key) is Some,
        forall|j: int| i <= j < k ==> lookup(#[trigger] ts[j], key) is None,
    ensures
        first_entry(ts, key, i) == lookup(ts[k], key),
    decreases k - i,
{
    if i < k {
        assert(lookup(ts[i], key) is None);
        the_first_trailer_counts(ts, key, i + 1, k);
    }
}

} // verus!
