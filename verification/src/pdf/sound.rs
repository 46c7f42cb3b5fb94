//! What sound files hold: where all that is compressed in them is sound, pages read one way.

use vstd::prelude::*;

use crate::pdf::cmap::CMapView;
use crate::pdf::content::content_text;
use crate::pdf::document::{
    font_at, map_of, may_add, may_be_map, may_be_part, may_contain, may_define, may_fill, may_have,
    may_inherit, may_map, may_open, may_read, may_see, no_fonts, node_fonts, part_of, with_part,
    FontsView, MAX_PAGE_CONTENT, MAX_TREE_DEPTH,
};
use crate::pdf::filters::{
    compressed_streams_decode_as_plain_ones, decoded, holds_plainly, may_decode,
    sound_streams_decode_one_way,
};
use crate::pdf::object::{DictView, ObjView};
use crate::pdf::objects::{
    entry, expanded, resolved, scan_from, sound_containers, sound_containers_expand_one_way,
    sound_object,
};

verus! {

/// Whether a page's content streams are sound.
pub open spec fn sound_contents(m: Map<u32, ObjView>, page: DictView) -> bool {
    match entry(m, page, "Contents"@) {
        None => true,
        Some(ObjView::Array(items)) => forall|k: int|
            0 <= k < items.len() ==> (resolved(m, #[trigger] items[k]) matches Some(o)
                ==> sound_object(o)),
        Some(o) => sound_object(o),
    }
}

/// What an object adds to a page's content, where it is sound.
pub open spec fn part_content(o: ObjView) -> Seq<u8> {
    match o {
        ObjView::Stream { dict, data } => part_of(decoded(dict, data)),
        _ => Seq::empty(),
    }
}

/// The contents of the streams from the `k`th on, after `out`, where they are sound; none once there
/// is enough.
pub open spec fn contents_from(
    m: Map<u32, ObjView>,
    items: Seq<ObjView>,
    k: int,
    out: Seq<u8>,
) -> Seq<u8>
    decreases items.len() - k,
{
    if k < 0 || k >= items.len() || out.len() >= MAX_PAGE_CONTENT {
        out
    } else {
        contents_from(
            m,
            items,
            k + 1,
            match resolved(m, items[k]) {
                Some(o) => with_part(out, part_content(o)),
                None => out,
            },
        )
    }
}

/// The decoded bytes of a page's content streams, one after the other, where they are sound.
pub open spec fn page_bytes(m: Map<u32, ObjView>, page: DictView) -> Seq<u8> {
    match entry(m, page, "Contents"@) {
        None => Seq::empty(),
        Some(ObjView::Array(items)) => contents_from(m, items, 0, Seq::empty()),
        Some(o) => with_part(Seq::empty(), part_content(o)),
    }
}

proof fn lemma_sound_part(o: ObjView, part: Seq<u8>)
    requires
        sound_object(o),
    ensures
        may_add(o, part) == (part == part_content(o)),
{
    if let ObjView::Stream { dict, data } = o {
        let y = decoded(dict, data);
        sound_streams_decode_one_way(dict, data, y);
        assert forall|d: Option<Seq<u8>>| #[trigger] may_decode(dict, data, d) implies d == y by {
            sound_streams_decode_one_way(dict, data, d);
        }
        assert(may_add(o, part) == may_be_part(dict, data, part));
    }
}

proof fn lemma_sound_fill(
    m: Map<u32, ObjView>,
    items: Seq<ObjView>,
    k: int,
    out: Seq<u8>,
    end: Seq<u8>,
)
    requires
        forall|i: int|
            0 <= i < items.len() ==> (resolved(m, #[trigger] items[i]) matches Some(o)
                ==> sound_object(o)),
    ensures
        may_fill(m, items, k, out, end) == (end == contents_from(m, items, k, out)),
    decreases items.len() - k,
{
    if 0 <= k < items.len() && out.len() < MAX_PAGE_CONTENT {
        match resolved(m, items[k]) {
            Some(o) => {
                let y = part_content(o);
                lemma_sound_part(o, y);
                assert forall|part: Seq<u8>| #[trigger] may_add(o, part) implies part == y by {
                    lemma_sound_part(o, part);
                }
                lemma_sound_fill(m, items, k + 1, with_part(out, y), end);
            },
            None => {
                lemma_sound_fill(m, items, k + 1, out, end);
            },
        }
    }
}

/// Where its content streams are sound, there is one thing that a page can contain.
pub proof fn sound_contents_decode_one_way(m: Map<u32, ObjView>, page: DictView, content: Seq<u8>)
    requires
        sound_contents(m, page),
    ensures
        may_contain(m, page, content) == (content == page_bytes(m, page)),
{
    match entry(m, page, "Contents"@) {
        None => {},
        Some(ObjView::Array(items)) => {
            lemma_sound_fill(m, items, 0, Seq::empty(), content);
        },
        Some(o) => {
            let y = part_content(o);
            lemma_sound_part(o, y);
            assert forall|part: Seq<u8>| #[trigger] may_add(o, part) implies part == y by {
                lemma_sound_part(o, part);
            }
        },
    }
}

/// Whether a font's character map is sound.
pub open spec fn sound_map(m: Map<u32, ObjView>, font: DictView) -> bool {
    entry(m, font, "ToUnicode"@) matches Some(o) ==> sound_object(o)
}

/// Whether the character maps of the fonts of a resource dictionary are sound.
pub open spec fn sound_maps(m: Map<u32, ObjView>, d: DictView) -> bool {
    forall|k: int|
        0 <= k < d.len() ==> (#[trigger] font_at(m, d, k) matches Some(f) ==> sound_map(m, f))
}

/// Whether the character maps of the fonts of a node and its parents, `left` levels of them, are
/// sound.
pub open spec fn sound_levels(m: Map<u32, ObjView>, node: DictView, left: int) -> bool
    decreases left,
{
    if left <= 0 {
        true
    } else {
        &&& node_fonts(m, node) matches Some(d) ==> sound_maps(m, d)
        &&& entry(m, node, "Parent"@) matches Some(o) ==> (o.dict() matches Some(p)
            ==> sound_levels(m, p, left - 1))
    }
}

/// A font's character map, where it is sound.
pub open spec fn font_map(m: Map<u32, ObjView>, font: DictView) -> Option<CMapView> {
    match entry(m, font, "ToUnicode"@) {
        Some(ObjView::Stream { dict, data }) => map_of(decoded(dict, data)),
        _ => None,
    }
}

/// The fonts so far, with those of a resource dictionary from the `k`th on that have no namesake, where
/// their maps are sound.
pub open spec fn with_fonts(m: Map<u32, ObjView>, d: DictView, k: int, fonts: FontsView) -> FontsView
    decreases d.len() - k,
{
    if k < 0 || k >= d.len() {
        fonts
    } else {
        with_fonts(
            m,
            d,
            k + 1,
            match font_at(m, d, k) {
                Some(f) => if fonts.names.contains(d[k].0) {
                    fonts
                } else {
                    fonts.defined(d[k].0, font_map(m, f))
                },
                None => fonts,
            },
        )
    }
}

/// The fonts so far, with those of a node's own resources, where their maps are sound.
pub open spec fn with_node(m: Map<u32, ObjView>, node: DictView, fonts: FontsView) -> FontsView {
    match node_fonts(m, node) {
        Some(d) => with_fonts(m, d, 0, fonts),
        None => fonts,
    }
}

/// The fonts of a node and its parents, `left` levels of them, where their maps are sound.
pub open spec fn fonts_from(
    m: Map<u32, ObjView>,
    node: DictView,
    left: int,
    fonts: FontsView,
) -> FontsView
    decreases left,
{
    if left <= 0 {
        fonts
    } else {
        let here = with_node(m, node, fonts);
        match entry(m, node, "Parent"@) {
            None => here,
            Some(o) => match o.dict() {
                None => here,
                Some(p) => fonts_from(m, p, left - 1, here),
            },
        }
    }
}

/// The character maps of the fonts visible to a page, where they are sound.
pub open spec fn fonts_of_page(m: Map<u32, ObjView>, page: DictView) -> Seq<(Seq<char>, CMapView)> {
    fonts_from(m, page, MAX_TREE_DEPTH as int, no_fonts()).maps
}

proof fn lemma_sound_map(m: Map<u32, ObjView>, font: DictView, map: Option<CMapView>)
    requires
        sound_map(m, font),
    ensures
        may_map(m, font, map) == (map == font_map(m, font)),
{
    if let Some(ObjView::Stream { dict, data }) = entry(m, font, "ToUnicode"@) {
        let y = decoded(dict, data);
        sound_streams_decode_one_way(dict, data, y);
        assert forall|d: Option<Seq<u8>>| #[trigger] may_decode(dict, data, d) implies d == y by {
            sound_streams_decode_one_way(dict, data, d);
        }
        assert(may_map(m, font, map) == may_be_map(dict, data, map));
    }
}

proof fn lemma_sound_define(
    m: Map<u32, ObjView>,
    d: DictView,
    k: int,
    fonts: FontsView,
    end: FontsView,
)
    requires
        sound_maps(m, d),
    ensures
        may_define(m, d, k, fonts, end) == (end == with_fonts(m, d, k, fonts)),
    decreases d.len() - k,
{
    if 0 <= k < d.len() {
        match font_at(m, d, k) {
            Some(f) => if fonts.names.contains(d[k].0) {
                lemma_sound_define(m, d, k + 1, fonts, end);
            } else {
                let y = font_map(m, f);
                lemma_sound_map(m, f, y);
                assert forall|map: Option<CMapView>| #[trigger] may_map(m, f, map) implies map
                    == y by {
                    lemma_sound_map(m, f, map);
                }
                lemma_sound_define(m, d, k + 1, fonts.defined(d[k].0, y), end);
            },
            None => {
                lemma_sound_define(m, d, k + 1, fonts, end);
            },
        }
    }
}

proof fn lemma_sound_have(m: Map<u32, ObjView>, node: DictView, fonts: FontsView, here: FontsView)
    requires
        node_fonts(m, node) matches Some(d) ==> sound_maps(m, d),
    ensures
        may_have(m, node, fonts, here) == (here == with_node(m, node, fonts)),
{
    if let Some(d) = node_fonts(m, node) {
        lemma_sound_define(m, d, 0, fonts, here);
    }
}

proof fn lemma_sound_inherit(
    m: Map<u32, ObjView>,
    node: DictView,
    left: int,
    fonts: FontsView,
    end: FontsView,
)
    requires
        sound_levels(m, node, left),
    ensures
        may_inherit(m, node, left, fonts, end) == (end == fonts_from(m, node, left, fonts)),
    decreases left,
{
    if left > 0 {
        let y = with_node(m, node, fonts);
        lemma_sound_have(m, node, fonts, y);
        assert forall|here: FontsView| #[trigger] may_have(m, node, fonts, here) implies here
            == y by {
            lemma_sound_have(m, node, fonts, here);
        }
        if let Some(o) = entry(m, node, "Parent"@) {
            if let Some(p) = o.dict() {
                lemma_sound_inherit(m, p, left - 1, y, end);
            }
        }
    }
}

/// Where their maps are sound, there is one thing that a page can see of its fonts.
pub proof fn sound_fonts_decode_one_way(
    m: Map<u32, ObjView>,
    page: DictView,
    maps: Seq<(Seq<char>, CMapView)>,
)
    requires
        sound_levels(m, page, MAX_TREE_DEPTH as int),
    ensures
        may_see(m, page, maps) == (maps == fonts_of_page(m, page)),
{
    let left = MAX_TREE_DEPTH as int;
    let y = fonts_from(m, page, left, no_fonts());
    lemma_sound_inherit(m, page, left, no_fonts(), y);
    assert forall|end: FontsView| #[trigger] may_inherit(m, page, left, no_fonts(), end) implies end
        == y by {
        lemma_sound_inherit(m, page, left, no_fonts(), end);
    }
}

/// Whether all that a page's text is made from is sound: its content streams and its fonts.
pub open spec fn sound_page(m: Map<u32, ObjView>, page: DictView) -> bool {
    sound_contents(m, page) && sound_levels(m, page, MAX_TREE_DEPTH as int)
}

/// The text of a page, where all that it is made from is sound.
pub open spec fn text_of_page(m: Map<u32, ObjView>, page: DictView) -> Seq<char> {
    content_text(page_bytes(m, page), fonts_of_page(m, page))
}

/// A sound page reads one way.
pub proof fn sound_pages_read_one_way(m: Map<u32, ObjView>, page: DictView, text: Seq<char>)
    requires
        sound_page(m, page),
    ensures
        may_read(m, page, text) == (text == text_of_page(m, page)),
{
    let content = page_bytes(m, page);
    let maps = fonts_of_page(m, page);
    sound_contents_decode_one_way(m, page, content);
    sound_fonts_decode_one_way(m, page, maps);
    assert(may_contain(m, page, content) && may_see(m, page, maps));
    assert forall|c: Seq<u8>| #[trigger] may_contain(m, page, c) implies c == content by {
        sound_contents_decode_one_way(m, page, c);
    }
    assert forall|s: Seq<(Seq<char>, CMapView)>| #[trigger] may_see(m, page, s) implies s == maps by {
        sound_fonts_decode_one_way(m, page, s);
    }
}

/// Whether `plain` is the object `o`, or holds uncompressed what `o` holds in compressed form, soundly.
pub open spec fn same_or_plain(o: ObjView, plain: ObjView) -> bool {
    o == plain || match (o, plain) {
        (
            ObjView::Stream { dict, data },
            ObjView::Stream { dict: plain_dict, data: bytes },
        ) => holds_plainly(dict, data, plain_dict, bytes),
        _ => false,
    }
}

/// Whether objects that may be missing are missing alike, and else as `same_or_plain` has it.
pub open spec fn both_or_plain(o: Option<ObjView>, plain: Option<ObjView>) -> bool {
    match (o, plain) {
        (Some(a), Some(b)) => same_or_plain(a, b),
        (None, None) => true,
        _ => false,
    }
}

/// Whether a page of one document has the content streams of a page of another, with any of them
/// uncompressed.
pub open spec fn uncompressed(
    m: Map<u32, ObjView>,
    page: DictView,
    plain: Map<u32, ObjView>,
    plain_page: DictView,
) -> bool {
    match (entry(m, page, "Contents"@), entry(plain, plain_page, "Contents"@)) {
        (Some(ObjView::Array(a)), Some(ObjView::Array(b))) => a.len() == b.len() && forall|k: int|
            #![trigger a[k]]
            #![trigger b[k]]
            0 <= k < a.len() ==> both_or_plain(resolved(m, a[k]), resolved(plain, b[k])),
        (Some(ObjView::Array(_)), _) => false,
        (_, Some(ObjView::Array(_))) => false,
        (a, b) => both_or_plain(a, b),
    }
}

proof fn lemma_plain_part(o: ObjView, plain: ObjView, part: Seq<u8>)
    requires
        same_or_plain(o, plain),
    ensures
        may_add(o, part) == may_add(plain, part),
{
    if o != plain {
        match (o, plain) {
            (
                ObjView::Stream { dict, data },
                ObjView::Stream { dict: plain_dict, data: bytes },
            ) => {
                let y = decoded(dict, data);
                compressed_streams_decode_as_plain_ones(dict, data, plain_dict, bytes, y);
                sound_streams_decode_one_way(dict, data, y);
                sound_streams_decode_one_way(plain_dict, bytes, y);
                lemma_sound_part(o, part);
                lemma_sound_part(plain, part);
            },
            _ => {},
        }
    }
}

proof fn lemma_plain_fill(
    m: Map<u32, ObjView>,
    items: Seq<ObjView>,
    plain: Map<u32, ObjView>,
    plain_items: Seq<ObjView>,
    k: int,
    out: Seq<u8>,
    end: Seq<u8>,
)
    requires
        items.len() == plain_items.len(),
        forall|i: int|
            #![trigger items[i]]
            #![trigger plain_items[i]]
            0 <= i < items.len() ==> both_or_plain(
                resolved(m, items[i]),
                resolved(plain, plain_items[i]),
            ),
    ensures
        may_fill(m, items, k, out, end) == may_fill(plain, plain_items, k, out, end),
    decreases items.len() - k,
{
    if 0 <= k < items.len() && out.len() < MAX_PAGE_CONTENT {
        assert(both_or_plain(resolved(m, items[k]), resolved(plain, plain_items[k])));
        match (resolved(m, items[k]), resolved(plain, plain_items[k])) {
            (Some(a), Some(b)) => {
                assert forall|part: Seq<u8>| #[trigger] may_add(a, part) == may_add(b, part) by {
                    lemma_plain_part(a, b, part);
                }
                assert forall|part: Seq<u8>|
                    #[trigger] may_fill(m, items, k + 1, with_part(out, part), end) == may_fill(
                        plain,
                        plain_items,
                        k + 1,
                        with_part(out, part),
                        end,
                    ) by {
                    lemma_plain_fill(m, items, plain, plain_items, k + 1, with_part(out, part), end);
                }
                if may_fill(m, items, k, out, end) {
                    let part = choose|part: Seq<u8>| #[trigger]
                        may_add(a, part) && may_fill(m, items, k + 1, with_part(out, part), end);
                    assert(may_add(b, part));
                }
                if may_fill(plain, plain_items, k, out, end) {
                    let part = choose|part: Seq<u8>| #[trigger]
                        may_add(b, part) && may_fill(
                            plain,
                            plain_items,
                            k + 1,
                            with_part(out, part),
                            end,
                        );
                    assert(may_add(a, part));
                    assert(may_fill(m, items, k + 1, with_part(out, part), end));
                }
            },
            _ => {
                lemma_plain_fill(m, items, plain, plain_items, k + 1, out, end);
            },
        }
    }
}

/// A page whose content streams are soundly compressed contains what it does with them uncompressed,
/// and, where both see the same of their fonts, reads the same.
pub proof fn compressed_pages_read_as_plain_ones(
    m: Map<u32, ObjView>,
    page: DictView,
    plain: Map<u32, ObjView>,
    plain_page: DictView,
    content: Seq<u8>,
    text: Seq<char>,
)
    requires
        uncompressed(m, page, plain, plain_page),
    ensures
        may_contain(m, page, content) == may_contain(plain, plain_page, content),
        (forall|maps: Seq<(Seq<char>, CMapView)>| #[trigger]
            may_see(m, page, maps) == may_see(plain, plain_page, maps)) ==> may_read(m, page, text)
            == may_read(plain, plain_page, text),
{
    assert forall|c: Seq<u8>| #[trigger] may_contain(m, page, c) == may_contain(
        plain,
        plain_page,
        c,
    ) by {
        match (entry(m, page, "Contents"@), entry(plain, plain_page, "Contents"@)) {
            (Some(ObjView::Array(a)), Some(ObjView::Array(b))) => {
                lemma_plain_fill(m, a, plain, b, 0, Seq::empty(), c);
            },
            (Some(a), Some(b)) => {
                assert forall|part: Seq<u8>| #[trigger] may_add(a, part) == may_add(b, part) by {
                    lemma_plain_part(a, b, part);
                }
            },
            _ => {},
        }
    }
    if forall|maps: Seq<(Seq<char>, CMapView)>| #[trigger]
        may_see(m, page, maps) == may_see(plain, plain_page, maps) {
        if may_read(m, page, text) {
            let (c, s) = choose|c: Seq<u8>, s: Seq<(Seq<char>, CMapView)>|
                #![trigger may_contain(m, page, c), may_see(m, page, s)]
                may_contain(m, page, c) && may_see(m, page, s) && text == content_text(c, s);
            assert(may_contain(plain, plain_page, c) && may_see(plain, plain_page, s));
        }
        if may_read(plain, plain_page, text) {
            let (c, s) = choose|c: Seq<u8>, s: Seq<(Seq<char>, CMapView)>|
                #![trigger may_contain(plain, plain_page, c), may_see(plain, plain_page, s)]
                may_contain(plain, plain_page, c) && may_see(plain, plain_page, s) && text
                    == content_text(c, s);
            assert(may_contain(m, page, c) && may_see(m, page, s));
        }
    }
}

/// The objects of a file whose object streams are sound.
pub open spec fn file_objects(s: Seq<u8>) -> Map<u32, ObjView> {
    expanded(scan_from(s, 0, Map::empty()))
}

/// A file whose object streams are sound holds one thing.
pub proof fn sound_files_open_one_way(s: Seq<u8>, m: Map<u32, ObjView>)
    requires
        sound_containers(scan_from(s, 0, Map::empty())),
    ensures
        may_open(s, m) == (m == file_objects(s)),
{
    sound_containers_expand_one_way(scan_from(s, 0, Map::empty()), m);
}

} // verus!
