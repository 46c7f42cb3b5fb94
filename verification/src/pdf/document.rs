//! A parsed document: its pages, their contents and their fonts.

use vstd::prelude::*;

use crate::pdf::cmap::{cmap_of, CMap, CMapView};
use crate::pdf::content::{content_text, extract_text, fonts_view, Fonts};
use crate::pdf::encoding::{decode_text_string, string_text};
use crate::pdf::filters::{decode_stream, may_decode, opt_bytes};
use crate::pdf::object::{
    dict_view, get, items_view, lemma_dict_view, lemma_items_view, lookup, Dict, DictView, Obj,
    ObjView,
};
use crate::pdf::objects::{
    dict_is_type, dict_type, dicts_view, entry, expand_object_streams, has_type, is_type,
    lookup_resolved, may_hold, object_numbers, object_of, objects_are_capped, objs, resolve, resolved,
    scan_from, scan_objects, scan_trailers, sound_containers, sorted_keys, trailers, Objects, MAX_OBJECTS,
};
use crate::pdf::sound::{
    file_objects, fonts_of_page, page_bytes, sound_contents, sound_contents_decode_one_way,
    sound_files_open_one_way, sound_fonts_decode_one_way, sound_levels, sound_page, text_of_page,
};
use crate::text::{has_text, lemma_texts_push, texts_of, trim, trimmed};

verus! {

/// Decoded content bytes of a page at most.
pub const MAX_PAGE_CONTENT: usize = 67_108_864;

/// Nodes that the page tree walk may visit in all.
pub const MAX_TREE_VISITS: usize = 100_000;

/// Depth cap for the page tree walk.
pub const MAX_TREE_DEPTH: usize = 32;

/// A parsed document: every object that was found, and what the trailers said.
pub struct Pdf {
    pub objects: Objects,
    /// Strings and streams are ciphertext.
    pub encrypted: bool,
    /// The information entries that are shown, when present.
    pub info: Vec<(String, String)>,
}

/// What a parsed document is.
pub struct PdfView {
    /// By number.
    pub objects: Map<u32, ObjView>,
    pub encrypted: bool,
    pub info: Seq<(Seq<char>, Seq<char>)>,
}

pub open spec fn pairs_view(v: Seq<(String, String)>) -> Seq<(Seq<char>, Seq<char>)> {
    v.map_values(|e: (String, String)| (e.0@, e.1@))
}

/// The information entry under `key` as text, if it is a string or a name.
pub open spec fn info_text(m: Map<u32, ObjView>, info: DictView, key: Seq<char>) -> Option<
    Seq<char>,
> {
    match entry(m, info, key) {
        Some(ObjView::Str(s)) => Some(trimmed(string_text(s))),
        Some(ObjView::Name(n)) => Some(trimmed(n)),
        _ => None,
    }
}

/// The entries so far, with the one under `key` where it holds any text.
pub open spec fn with_info(
    m: Map<u32, ObjView>,
    info: DictView,
    key: Seq<char>,
    acc: Seq<(Seq<char>, Seq<char>)>,
) -> Seq<(Seq<char>, Seq<char>)> {
    match info_text(m, info, key) {
        Some(t) => if t.len() > 0 {
            acc.push((key, t))
        } else {
            acc
        },
        None => acc,
    }
}

/// The information entries that are shown, in their order.
pub open spec fn info_pairs_of(m: Map<u32, ObjView>, info: DictView) -> Seq<
    (Seq<char>, Seq<char>),
> {
    let a = with_info(m, info, "Title"@, Seq::empty());
    let b = with_info(m, info, "Author"@, a);
    let c = with_info(m, info, "Subject"@, b);
    let d = with_info(m, info, "Keywords"@, c);
    let e = with_info(m, info, "Creator"@, d);
    let f = with_info(m, info, "Producer"@, e);
    let g = with_info(m, info, "CreationDate"@, f);
    with_info(m, info, "ModDate"@, g)
}

fn push_info(objects: &Objects, info: &Dict, key: &str, out: &mut Vec<(String, String)>)
    ensures
        pairs_view(final(out)@) == with_info(
            objs(objects@),
            dict_view(info@),
            key@,
            pairs_view(old(out)@),
        ),
{
    let text: String = match lookup_resolved(objects, info, key) {
        Some(Obj::Str(s)) => {
            let t: String = decode_text_string(s.as_slice());
            trim(t.as_str())
        },
        Some(Obj::Name(n)) => trim(n.as_str()),
        _ => {
            return;
        },
    };
    if text.as_str().unicode_len() > 0 {
        let pair: (String, String) = (key.to_owned(), text);
        out.push(pair);
        assert(pairs_view(out@) =~= pairs_view(old(out)@).push((key@, text@)));
    }
}

/// Flatten an information dictionary into displayable pairs.
pub fn info_pairs(objects: &Objects, info: &Dict) -> (r: Vec<(String, String)>)
    ensures
        pairs_view(r@) == info_pairs_of(objs(objects@), dict_view(info@)),
{
    let mut out: Vec<(String, String)> = Vec::new();
    assert(pairs_view(out@) =~= Seq::empty());
    push_info(objects, info, "Title", &mut out);
    push_info(objects, info, "Author", &mut out);
    push_info(objects, info, "Subject", &mut out);
    push_info(objects, info, "Keywords", &mut out);
    push_info(objects, info, "Creator", &mut out);
    push_info(objects, info, "Producer", &mut out);
    push_info(objects, info, "CreationDate", &mut out);
    push_info(objects, info, "ModDate", &mut out);
    out
}

/// Whether one of the trailers has an entry under `key`.
pub open spec fn any_has(ts: Seq<DictView>, key: Seq<char>) -> bool {
    exists|k: int| 0 <= k < ts.len() && lookup(#[trigger] ts[k], key) is Some
}

/// The entry under `key` of the first trailer, from the `k`th on, that has one.
pub open spec fn first_entry(ts: Seq<DictView>, key: Seq<char>, k: int) -> Option<ObjView>
    decreases ts.len() - k,
{
    if k < 0 || k >= ts.len() {
        None
    } else if lookup(ts[k], key) is Some {
        lookup(ts[k], key)
    } else {
        first_entry(ts, key, k + 1)
    }
}

/// The shown information entries of a document with the given trailers.
pub open spec fn document_info(m: Map<u32, ObjView>, ts: Seq<DictView>) -> Seq<
    (Seq<char>, Seq<char>),
> {
    match first_entry(ts, "Info"@, 0) {
        None => Seq::empty(),
        Some(r) => match resolved(m, r) {
            None => Seq::empty(),
            Some(o) => match o.dict() {
                None => Seq::empty(),
                Some(d) => info_pairs_of(m, d),
            },
        },
    }
}

/// Whether a file with the bytes `s` may hold the objects `m`.
pub open spec fn may_open(s: Seq<u8>, m: Map<u32, ObjView>) -> bool {
    may_hold(scan_from(s, 0, Map::empty()), m)
}

/// The first of the objects, in the order of `keys` from the `k`th on, whose type is `ty`.
pub open spec fn first_of_type(m: Map<u32, ObjView>, keys: Seq<u32>, k: int, ty: Seq<char>) -> Option<
    ObjView,
>
    decreases keys.len() - k,
{
    if k < 0 || k >= keys.len() {
        None
    } else if has_type(m[keys[k]], ty) {
        Some(m[keys[k]])
    } else {
        first_of_type(m, keys, k + 1, ty)
    }
}

/// The dictionaries of the objects, in the order of `keys` from the `k`th on, whose type is `ty`,
/// after `acc`.
pub open spec fn all_of_type(
    m: Map<u32, ObjView>,
    keys: Seq<u32>,
    k: int,
    ty: Seq<char>,
    acc: Seq<DictView>,
) -> Seq<DictView>
    decreases keys.len() - k,
{
    if k < 0 || k >= keys.len() {
        acc
    } else {
        let o = m[keys[k]];
        all_of_type(
            m,
            keys,
            k + 1,
            ty,
            if has_type(o, ty) && o.dict() is Some {
                acc.push(o.dict().unwrap())
            } else {
                acc
            },
        )
    }
}

/// The pages below a page tree node, after `out`, and the visits that are left.
pub open spec fn walk(
    m: Map<u32, ObjView>,
    node: DictView,
    depth: int,
    out: Seq<DictView>,
    budget: int,
) -> (Seq<DictView>, int)
    decreases MAX_TREE_DEPTH + 1 - depth, 1int, 0int,
{
    if depth > MAX_TREE_DEPTH || out.len() >= MAX_OBJECTS || budget <= 0 {
        (out, budget)
    } else {
        match entry(m, node, "Kids"@) {
            Some(ObjView::Array(kids)) => walk_kids(m, kids, 0, depth, out, budget - 1),
            _ => (
                if dict_type(node, "Page"@) {
                    out.push(node)
                } else {
                    out
                },
                budget - 1,
            ),
        }
    }
}

/// The pages of and below the kids from the `k`th on, after `out`, and the visits that are left. A
/// kid that is marked as a branch, or has kids and no page mark, is walked; any other is a page.
pub open spec fn walk_kids(
    m: Map<u32, ObjView>,
    kids: Seq<ObjView>,
    k: int,
    depth: int,
    out: Seq<DictView>,
    budget: int,
) -> (Seq<DictView>, int)
    decreases MAX_TREE_DEPTH + 1 - depth, 0int, kids.len() - k,
{
    if k < 0 || k >= kids.len() || depth > MAX_TREE_DEPTH {
        (out, budget)
    } else {
        let kid = match resolved(m, kids[k]) {
            Some(o) => o.dict(),
            None => None,
        };
        let next = match kid {
            None => (out, budget),
            Some(d) => if dict_type(d, "Pages"@) || (!dict_type(d, "Page"@) && lookup(
                d,
                "Kids"@,
            ) is Some) {
                walk(m, d, depth + 1, out, budget)
            } else {
                (out.push(d), budget)
            },
        };
        walk_kids(m, kids, k + 1, depth, next.0, next.1)
    }
}

/// The root of the page tree: the `/Pages` entry of the catalog.
pub open spec fn tree_root(m: Map<u32, ObjView>) -> Option<DictView> {
    match first_of_type(m, sorted_keys(m), 0, "Catalog"@) {
        None => None,
        Some(cat) => match cat.dict() {
            None => None,
            Some(d) => match entry(m, d, "Pages"@) {
                None => None,
                Some(p) => p.dict(),
            },
        },
    }
}

/// Every page's dictionary, in document order: as the page tree has them, or else by object
/// number.
pub open spec fn page_dicts(m: Map<u32, ObjView>) -> Seq<DictView> {
    let by_number = all_of_type(m, sorted_keys(m), 0, "Page"@, Seq::empty());
    match tree_root(m) {
        None => by_number,
        Some(root) => {
            let walked = walk(m, root, 0, Seq::empty(), MAX_TREE_VISITS as int).0;
            if walked.len() > 0 {
                walked
            } else {
                by_number
            }
        },
    }
}

/// What a content stream adds to a page's content: what it was decoded to and a line break, or nothing
/// where it was not.
pub open spec fn part_of(decoded: Option<Seq<u8>>) -> Seq<u8> {
    match decoded {
        Some(v) => v.push(0x0a),
        None => Seq::empty(),
    }
}

pub open spec fn may_be_part(dict: DictView, data: Seq<u8>, part: Seq<u8>) -> bool {
    exists|d: Option<Seq<u8>>| #[trigger] may_decode(dict, data, d) && part == part_of(d)
}

/// Whether an object may add `part` to a page's content; what is no stream adds nothing.
pub open spec fn may_add(o: ObjView, part: Seq<u8>) -> bool {
    match o {
        ObjView::Stream { dict, data } => may_be_part(dict, data, part),
        _ => part == Seq::<u8>::empty(),
    }
}

/// The content so far with one more part, no longer than a page's content may be.
pub open spec fn with_part(out: Seq<u8>, part: Seq<u8>) -> Seq<u8> {
    let all = out + part;
    if all.len() > MAX_PAGE_CONTENT {
        all.take(MAX_PAGE_CONTENT as int)
    } else {
        all
    }
}

/// Whether `end` may come of the contents of the streams from the `k`th on, after `out`; none is added
/// once there is enough.
pub open spec fn may_fill(
    m: Map<u32, ObjView>,
    items: Seq<ObjView>,
    k: int,
    out: Seq<u8>,
    end: Seq<u8>,
) -> bool
    decreases items.len() - k,
{
    if k < 0 || k >= items.len() || out.len() >= MAX_PAGE_CONTENT {
        end == out
    } else {
        match resolved(m, items[k]) {
            Some(o) => exists|part: Seq<u8>| #[trigger]
                may_add(o, part) && may_fill(m, items, k + 1, with_part(out, part), end),
            None => may_fill(m, items, k + 1, out, end),
        }
    }
}

/// Whether a page's content streams, one after the other, may decode to `content`.
pub open spec fn may_contain(m: Map<u32, ObjView>, page: DictView, content: Seq<u8>) -> bool {
    match entry(m, page, "Contents"@) {
        None => content == Seq::<u8>::empty(),
        Some(ObjView::Array(items)) => may_fill(m, items, 0, Seq::empty(), content),
        Some(o) => exists|part: Seq<u8>| #[trigger]
            may_add(o, part) && content == with_part(Seq::empty(), part),
    }
}

/// The character map of a stream that was decoded to `decoded`; none where it was not.
pub open spec fn map_of(decoded: Option<Seq<u8>>) -> Option<CMapView> {
    match decoded {
        Some(v) => Some(cmap_of(v)),
        None => None,
    }
}

pub open spec fn may_be_map(dict: DictView, data: Seq<u8>, map: Option<CMapView>) -> bool {
    exists|d: Option<Seq<u8>>| #[trigger] may_decode(dict, data, d) && map == map_of(d)
}

/// Whether a font may have the character map: one where its stream can be decoded.
pub open spec fn may_map(m: Map<u32, ObjView>, font: DictView, map: Option<CMapView>) -> bool {
    match entry(m, font, "ToUnicode"@) {
        Some(ObjView::Stream { dict, data }) => may_be_map(dict, data, map),
        _ => map is None,
    }
}

/// The dictionary of a font that a resource dictionary names.
pub open spec fn font_at(m: Map<u32, ObjView>, d: DictView, k: int) -> Option<DictView> {
    match resolved(m, d[k].1) {
        Some(o) => o.dict(),
        None => None,
    }
}

/// The fonts that a page has so far: the names that are defined, and the character maps of those that
/// have one.
pub struct FontsView {
    pub names: Seq<Seq<char>>,
    pub maps: Seq<(Seq<char>, CMapView)>,
}

/// No fonts.
pub open spec fn no_fonts() -> FontsView {
    FontsView { names: Seq::empty(), maps: Seq::empty() }
}

impl FontsView {
    /// With a font under a name.
    pub open spec fn defined(self, name: Seq<char>, map: Option<CMapView>) -> FontsView {
        FontsView {
            names: self.names.push(name),
            maps: match map {
                Some(c) => self.maps.push((name, c)),
                None => self.maps,
            },
        }
    }
}

/// Whether `end` may be the fonts so far with those of a resource dictionary from the `k`th on that
/// have no namesake.
pub open spec fn may_define(
    m: Map<u32, ObjView>,
    d: DictView,
    k: int,
    fonts: FontsView,
    end: FontsView,
) -> bool
    decreases d.len() - k,
{
    if k < 0 || k >= d.len() {
        end == fonts
    } else {
        match font_at(m, d, k) {
            Some(f) => if fonts.names.contains(d[k].0) {
                may_define(m, d, k + 1, fonts, end)
            } else {
                exists|map: Option<CMapView>| #[trigger]
                    may_map(m, f, map) && may_define(
                        m,
                        d,
                        k + 1,
                        fonts.defined(d[k].0, map),
                        end,
                    )
            },
            None => may_define(m, d, k + 1, fonts, end),
        }
    }
}

/// The font dictionary of a page tree node's resources.
pub open spec fn node_fonts(m: Map<u32, ObjView>, node: DictView) -> Option<DictView> {
    match entry(m, node, "Resources"@) {
        None => None,
        Some(o) => match o.dict() {
            None => None,
            Some(r) => match entry(m, r, "Font"@) {
                None => None,
                Some(f) => f.dict(),
            },
        },
    }
}

/// Whether `end` may be the fonts of a node and its parents, `left` levels of them, after those of the
/// levels below; the nearest definition wins.
pub open spec fn may_inherit(
    m: Map<u32, ObjView>,
    node: DictView,
    left: int,
    fonts: FontsView,
    end: FontsView,
) -> bool
    decreases left,
{
    if left <= 0 {
        end == fonts
    } else {
        exists|here: FontsView| #[trigger]
            may_have(m, node, fonts, here) && match entry(m, node, "Parent"@) {
                None => end == here,
                Some(o) => match o.dict() {
                    None => end == here,
                    Some(p) => may_inherit(m, p, left - 1, here, end),
                },
            }
    }
}

/// Whether `here` may be the fonts so far with those of a node's own resources.
pub open spec fn may_have(
    m: Map<u32, ObjView>,
    node: DictView,
    fonts: FontsView,
    here: FontsView,
) -> bool {
    match node_fonts(m, node) {
        Some(d) => may_define(m, d, 0, fonts, here),
        None => here == fonts,
    }
}

/// Whether `maps` may be the character maps of the fonts visible to a page.
pub open spec fn may_see(
    m: Map<u32, ObjView>,
    page: DictView,
    maps: Seq<(Seq<char>, CMapView)>,
) -> bool {
    exists|end: FontsView| #[trigger]
        may_inherit(m, page, MAX_TREE_DEPTH as int, no_fonts(), end) && maps == end.maps
}

/// Whether a page may read as `text`: the text of its content, with the maps of its fonts.
pub open spec fn may_read(m: Map<u32, ObjView>, page: DictView, text: Seq<char>) -> bool {
    exists|content: Seq<u8>, maps: Seq<(Seq<char>, CMapView)>|
        #![trigger may_contain(m, page, content), may_see(m, page, maps)]
        may_contain(m, page, content) && may_see(m, page, maps) && text == content_text(
            content,
            maps,
        )
}

pub open spec fn refs_view<'a>(v: Seq<&'a Dict>) -> Seq<DictView> {
    v.map_values(|d: &'a Dict| dict_view(d@))
}

pub open spec fn opt_map(map: Option<CMap>) -> Option<CMapView> {
    match map {
        Some(c) => Some(c@),
        None => None,
    }
}

/// The fonts that a page has so far.
struct FontsSoFar {
    names: Vec<String>,
    maps: Fonts,
}

impl FontsSoFar {
    spec fn view(&self) -> FontsView {
        FontsView { names: texts_of(self.names@), maps: fonts_view(self.maps@) }
    }

    fn define(&mut self, name: &str, map: Option<CMap>)
        ensures
            final(self)@ == old(self)@.defined(name@, opt_map(map)),
    {
        let ghost maps = self.maps@;
        let one: String = name.to_owned();
        proof {
            lemma_texts_push(self.names@, one);
        }
        self.names.push(one);
        if let Some(c) = map {
            self.maps.push((name.to_owned(), c));
            assert(fonts_view(self.maps@) =~= fonts_view(maps).push((name@, c@)));
        }
    }
}

fn push_ref<'a>(out: &mut Vec<&'a Dict>, d: &'a Dict)
    ensures
        refs_view(final(out)@) == refs_view(old(out)@).push(dict_view(d@)),
        final(out)@.len() == old(out)@.len() + 1,
{
    out.push(d);
    assert(refs_view(out@) =~= refs_view(old(out)@).push(dict_view(d@)));
}

/// What is known of a file with the bytes `s` that holds the objects `m`.
pub open spec fn pdf_of(s: Seq<u8>, m: Map<u32, ObjView>) -> PdfView {
    PdfView {
        objects: m,
        encrypted: any_has(trailers(s, m), "Encrypt"@),
        info: document_info(m, trailers(s, m)),
    }
}

impl Pdf {
    /// What is known of the file.
    pub open spec fn view(&self) -> PdfView {
        PdfView {
            objects: objs(self.objects@),
            encrypted: self.encrypted,
            info: pairs_view(self.info@),
        }
    }

    /// Find everything in a file's bytes.
    pub fn parse(bytes: &[u8]) -> (r: Pdf)
        ensures
            may_open(bytes@, r@.objects),
            sound_containers(scan_from(bytes@, 0, Map::empty())) ==> r@.objects == file_objects(
                bytes@,
            ),
            r@ == pdf_of(bytes@, r@.objects),
            r@.objects.len() <= MAX_OBJECTS,
    {
        let mut objects: Objects = scan_objects(bytes);
        expand_object_streams(&mut objects);
        proof {
            objects_are_capped(bytes@, objs(objects@));
            if sound_containers(scan_from(bytes@, 0, Map::empty())) {
                sound_files_open_one_way(bytes@, objs(objects@));
            }
        }
        let found: Vec<Dict> = scan_trailers(bytes, &objects);
        let ghost ts = dicts_view(found@);
        let mut encrypted: bool = false;
        let mut info: Vec<(String, String)> = Vec::new();
        assert(pairs_view(info@) =~= Seq::empty());
        let mut k: usize = 0;
        let mut seen: bool = false;
        while k < found.len()
            invariant
                k <= found.len(),
                ts == dicts_view(found@),
                encrypted == (exists|i: int|
                    0 <= i < k && lookup(#[trigger] ts[i], "Encrypt"@) is Some),
                !seen ==> pairs_view(info@) == Seq::<(Seq<char>, Seq<char>)>::empty()
                    && first_entry(ts, "Info"@, 0) == first_entry(ts, "Info"@, k as int),
                seen ==> pairs_view(info@) == document_info(objs(objects@), ts),
            decreases found.len() - k,
        {
            let d: &Dict = &found[k];
            assert(ts[k as int] == dict_view(d@));
            if get(d, "Encrypt").is_some() {
                encrypted = true;
            }
            if !seen {
                match get(d, "Info") {
                    Some(o) => {
                        seen = true;
                        match resolve(&objects, o) {
                            Some(target) => {
                                match target.dict() {
                                    Some(i) => {
                                        info = info_pairs(&objects, i);
                                    },
                                    None => {},
                                }
                            },
                            None => {},
                        }
                    },
                    None => {},
                }
            }
            k += 1;
        }
        Pdf { objects, encrypted, info }
    }

    /// The number of objects.
    pub fn object_count(&self) -> (r: usize)
        ensures
            r == self@.objects.len(),
    {
        assert(self@.objects.dom() =~= self.objects@.dom());
        self.objects.len()
    }

    /// The root of the page tree.
    fn page_root(&self) -> (r: Option<&Dict>)
        ensures
            match r {
                Some(d) => tree_root(self@.objects) == Some(dict_view(d@)),
                None => tree_root(self@.objects) is None,
            },
    {
        let keys: Vec<u32> = object_numbers(&self.objects);
        let mut k: usize = 0;
        while k < keys.len()
            invariant
                k <= keys.len(),
                keys@ == sorted_keys(self@.objects),
                forall|a: int|
                    0 <= a < keys@.len() ==> self.objects@.contains_key(#[trigger] keys@[a]),
                first_of_type(self@.objects, keys@, 0, "Catalog"@) == first_of_type(
                    self@.objects,
                    keys@,
                    k as int,
                    "Catalog"@,
                ),
            decreases keys.len() - k,
        {
            assert(self.objects@.contains_key(keys@[k as int]));
            match object_of(&self.objects, keys[k]) {
                Some(o) => {
                    if is_type(o, "Catalog") {
                        return match o.dict() {
                            Some(d) => match lookup_resolved(&self.objects, d, "Pages") {
                                Some(p) => p.dict(),
                                None => None,
                            },
                            None => None,
                        };
                    }
                },
                None => {},
            }
            k += 1;
        }
        None
    }

    fn pages_by_number(&self) -> (r: Vec<&Dict>)
        ensures
            refs_view(r@) == all_of_type(self@.objects, sorted_keys(self@.objects), 0, "Page"@, Seq::empty()),
    {
        let keys: Vec<u32> = object_numbers(&self.objects);
        let mut out: Vec<&Dict> = Vec::new();
        assert(refs_view(out@) =~= Seq::empty());
        let mut k: usize = 0;
        while k < keys.len()
            invariant
                k <= keys.len(),
                keys@ == sorted_keys(self@.objects),
                forall|a: int|
                    0 <= a < keys@.len() ==> self.objects@.contains_key(#[trigger] keys@[a]),
                all_of_type(self@.objects, keys@, 0, "Page"@, Seq::empty()) == all_of_type(
                    self@.objects,
                    keys@,
                    k as int,
                    "Page"@,
                    refs_view(out@),
                ),
            decreases keys.len() - k,
        {
            assert(self.objects@.contains_key(keys@[k as int]));
            match object_of(&self.objects, keys[k]) {
                Some(o) => {
                    if is_type(o, "Page") {
                        match o.dict() {
                            Some(d) => {
                                push_ref(&mut out, d);
                            },
                            None => {},
                        }
                    }
                },
                None => {},
            }
            k += 1;
        }
        out
    }

    /// Every page's dictionary, in document order: catalog, `/Pages`, `/Kids`; or else every
    /// `/Type /Page` object by number.
    pub fn pages(&self) -> (r: Vec<&Dict>)
        ensures
            refs_view(r@) == page_dicts(self@.objects),
    {
        match self.page_root() {
            Some(root) => {
                let mut out: Vec<&Dict> = Vec::new();
                assert(refs_view(out@) =~= Seq::empty());
                let _left: usize = self.walk_pages(root, 0, &mut out, MAX_TREE_VISITS);
                if out.len() > 0 {
                    return out;
                }
            },
            None => {},
        }
        self.pages_by_number()
    }

    /// Collect the pages below a node. The budget bounds the nodes visited in all, which the depth
    /// cap alone does not.
    fn walk_pages<'a>(
        &'a self,
        node: &'a Dict,
        depth: usize,
        out: &mut Vec<&'a Dict>,
        budget: usize,
    ) -> (r: usize)
        requires
            depth <= MAX_TREE_DEPTH + 1,
        ensures
            (refs_view(final(out)@), r as int) == walk(
                self@.objects,
                dict_view(node@),
                depth as int,
                refs_view(old(out)@),
                budget as int,
            ),
            r <= budget,
        decreases MAX_TREE_DEPTH + 1 - depth,
    {
        if depth > MAX_TREE_DEPTH || out.len() >= MAX_OBJECTS || budget == 0 {
            return budget;
        }
        let mut left: usize = budget - 1;
        match lookup_resolved(&self.objects, node, "Kids") {
            Some(Obj::Array(kids)) => {
                proof {
                    lemma_items_view(kids@);
                }
                let ghost v = items_view(kids@);
                let mut k: usize = 0;
                while k < kids.len()
                    invariant
                        k <= kids.len(),
                        depth <= MAX_TREE_DEPTH,
                        v == items_view(kids@),
                        v.len() == kids@.len(),
                        forall|i: int| 0 <= i < kids@.len() ==> (#[trigger] v[i]) == kids@[i]@,
                        left < budget,
                        walk_kids(
                            self@.objects,
                            v,
                            0,
                            depth as int,
                            refs_view(old(out)@),
                            budget - 1,
                        ) == walk_kids(
                            self@.objects,
                            v,
                            k as int,
                            depth as int,
                            refs_view(out@),
                            left as int,
                        ),
                    decreases kids.len() - k,
                {
                    assert(v[k as int] == kids@[k as int]@);
                    let kid: Option<&'a Dict> = match resolve(&self.objects, &kids[k]) {
                        Some(o) => o.dict(),
                        None => None,
                    };
                    match kid {
                        Some(d) => {
                            // Without a type, a node with kids is a branch and any other a page.
                            if dict_is_type(d, "Pages") || (!dict_is_type(d, "Page") && get(
                                d,
                                "Kids",
                            ).is_some()) {
                                left = self.walk_pages(d, depth + 1, out, left);
                            } else {
                                push_ref(out, d);
                            }
                        },
                        None => {},
                    }
                    k += 1;
                }
            },
            _ => {
                // A leaf reached directly.
                if dict_is_type(node, "Page") {
                    push_ref(out, node);
                }
            },
        }
        left
    }

    fn push_part(&self, o: &Obj, out: &mut Vec<u8>)
        ensures
            exists|part: Seq<u8>| #[trigger]
                may_add(o@, part) && final(out)@ == with_part(old(out)@, part),
    {
        let mut part: Vec<u8> = Vec::new();
        assert(part@ =~= Seq::empty());
        match o {
            Obj::Stream { dict, data } => {
                let decoded: Option<Vec<u8>> = decode_stream(dict, data.as_slice());
                let ghost drawn = opt_bytes(decoded);
                match decoded {
                    Some(mut d) => {
                        d.push(0x0a);
                        part = d;
                    },
                    None => {},
                }
                proof {
                    lemma_adds(dict_view(dict@), data@, drawn, part@);
                }
            },
            _ => {},
        }
        assert(may_add(o@, part@));
        let ghost added = part@;
        out.append(&mut part);
        assert(out@ =~= old(out)@ + added);
        if out.len() > MAX_PAGE_CONTENT {
            out.truncate(MAX_PAGE_CONTENT);
        }
        assert(out@ == with_part(old(out)@, added));
    }

    /// The decoded bytes of a page's content streams, one after the other.
    pub fn page_content(&self, page: &Dict) -> (r: Vec<u8>)
        ensures
            may_contain(self@.objects, dict_view(page@), r@),
            sound_contents(self@.objects, dict_view(page@)) ==> r@ == page_bytes(
                self@.objects,
                dict_view(page@),
            ),
            r@.len() <= MAX_PAGE_CONTENT,
    {
        let mut out: Vec<u8> = Vec::new();
        match lookup_resolved(&self.objects, page, "Contents") {
            None => {},
            Some(Obj::Array(items)) => {
                proof {
                    lemma_items_view(items@);
                }
                let ghost v = items_view(items@);
                let mut k: usize = 0;
                while k < items.len() && out.len() < MAX_PAGE_CONTENT
                    invariant
                        k <= items.len(),
                        v == items_view(items@),
                        v.len() == items@.len(),
                        forall|i: int| 0 <= i < items@.len() ==> (#[trigger] v[i]) == items@[i]@,
                        forall|end: Seq<u8>| #[trigger]
                            may_fill(self@.objects, v, k as int, out@, end) ==> may_fill(
                                self@.objects,
                                v,
                                0,
                                Seq::empty(),
                                end,
                            ),
                    decreases items.len() - k,
                {
                    assert(v[k as int] == items@[k as int]@);
                    let ghost had = out@;
                    match resolve(&self.objects, &items[k]) {
                        Some(o) => {
                            self.push_part(o, &mut out);
                        },
                        None => {},
                    }
                    assert forall|end: Seq<u8>| #[trigger]
                        may_fill(self@.objects, v, k + 1, out@, end) implies may_fill(
                        self@.objects,
                        v,
                        0,
                        Seq::empty(),
                        end,
                    ) by {
                        assert(may_fill(self@.objects, v, k as int, had, end));
                    }
                    k += 1;
                }
                assert(may_fill(self@.objects, v, k as int, out@, out@));
            },
            Some(o) => {
                assert(out@ =~= Seq::empty());
                self.push_part(o, &mut out);
            },
        }
        proof {
            page_content_is_capped(self@.objects, dict_view(page@), out@);
            if sound_contents(self@.objects, dict_view(page@)) {
                sound_contents_decode_one_way(self@.objects, dict_view(page@), out@);
            }
        }
        out
    }

    /// A font's `/ToUnicode` character map.
    fn to_unicode(&self, font: &Dict) -> (r: Option<CMap>)
        ensures
            may_map(self@.objects, dict_view(font@), opt_map(r)),
    {
        match lookup_resolved(&self.objects, font, "ToUnicode") {
            Some(Obj::Stream { dict, data }) => {
                let decoded: Option<Vec<u8>> = decode_stream(dict, data.as_slice());
                let ghost drawn = opt_bytes(decoded);
                let map: Option<CMap> = match decoded {
                    Some(d) => Some(CMap::parse(d.as_slice())),
                    None => None,
                };
                proof {
                    lemma_maps(self@.objects, dict_view(font@), dict_view(dict@), data@, drawn);
                }
                map
            },
            _ => None,
        }
    }

    fn add_fonts(&self, d: &Dict, fonts: &mut FontsSoFar)
        ensures
            may_define(self@.objects, dict_view(d@), 0, old(fonts)@, final(fonts)@),
    {
        proof {
            lemma_dict_view(d@);
        }
        let ghost v = dict_view(d@);
        let mut k: usize = 0;
        while k < d.len()
            invariant
                k <= d.len(),
                v == dict_view(d@),
                v.len() == d@.len(),
                forall|i: int| 0 <= i < d@.len() ==> (#[trigger] v[i]) == (d@[i].0@, d@[i].1@),
                forall|end: FontsView| #[trigger]
                    may_define(self@.objects, v, k as int, fonts@, end) ==> may_define(
                        self@.objects,
                        v,
                        0,
                        old(fonts)@,
                        end,
                    ),
            decreases d.len() - k,
        {
            assert(v[k as int] == (d@[k as int].0@, d@[k as int].1@));
            let ghost had = fonts@;
            let ghost mut drawn: Option<CMapView> = None;
            match resolve(&self.objects, &d[k].1) {
                Some(o) => {
                    match o.dict() {
                        Some(f) => {
                            // The nearest definition wins.
                            if !has_text(&fonts.names, d[k].0.as_str()) {
                                let map: Option<CMap> = self.to_unicode(f);
                                proof {
                                    drawn = opt_map(map);
                                }
                                fonts.define(d[k].0.as_str(), map);
                            }
                        },
                        None => {},
                    }
                },
                None => {},
            }
            assert forall|end: FontsView| #[trigger]
                may_define(self@.objects, v, k + 1, fonts@, end) implies may_define(
                self@.objects,
                v,
                0,
                old(fonts)@,
                end,
            ) by {
                lemma_defines(self@.objects, v, k as int, had, drawn, end);
            }
            k += 1;
        }
        assert(may_define(self@.objects, v, k as int, fonts@, fonts@));
    }

    /// The fonts visible to a page, with those inherited from its parents.
    pub fn page_fonts(&self, page: &Dict) -> (r: Fonts)
        ensures
            may_see(self@.objects, dict_view(page@), fonts_view(r@)),
            sound_levels(self@.objects, dict_view(page@), MAX_TREE_DEPTH as int) ==> fonts_view(r@)
                == fonts_of_page(self@.objects, dict_view(page@)),
    {
        let mut fonts: FontsSoFar = FontsSoFar { names: Vec::new(), maps: Vec::new() };
        assert(fonts@.names =~= Seq::empty());
        assert(fonts@.maps =~= Seq::empty());
        let mut node: &Dict = page;
        let mut left: usize = MAX_TREE_DEPTH;
        while left > 0
            invariant
                left <= MAX_TREE_DEPTH,
                forall|end: FontsView| #[trigger]
                    may_inherit(self@.objects, dict_view(node@), left as int, fonts@, end) ==> may_inherit(
                        self@.objects,
                        dict_view(page@),
                        MAX_TREE_DEPTH as int,
                        no_fonts(),
                        end,
                    ),
            decreases left,
        {
            let ghost had = fonts@;
            let ghost at = dict_view(node@);
            match lookup_resolved(&self.objects, node, "Resources") {
                Some(o) => {
                    match o.dict() {
                        Some(r) => {
                            match lookup_resolved(&self.objects, r, "Font") {
                                Some(f) => {
                                    match f.dict() {
                                        Some(d) => {
                                            self.add_fonts(d, &mut fonts);
                                        },
                                        None => {},
                                    }
                                },
                                None => {},
                            }
                        },
                        None => {},
                    }
                },
                None => {},
            }
            let parent: Option<&Dict> = match lookup_resolved(&self.objects, node, "Parent") {
                Some(o) => o.dict(),
                None => None,
            };
            assert(may_have(self@.objects, at, had, fonts@));
            match parent {
                Some(p) => {
                    node = p;
                },
                None => {
                    assert(may_inherit(self@.objects, at, left as int, had, fonts@));
                    proof {
                        if sound_levels(self@.objects, dict_view(page@), MAX_TREE_DEPTH as int) {
                            sound_fonts_decode_one_way(
                                self@.objects,
                                dict_view(page@),
                                fonts@.maps,
                            );
                        }
                    }
                    return fonts.maps;
                },
            }
            assert forall|end: FontsView| #[trigger]
                may_inherit(self@.objects, dict_view(node@), left - 1, fonts@, end) implies may_inherit(
                self@.objects,
                dict_view(page@),
                MAX_TREE_DEPTH as int,
                no_fonts(),
                end,
            ) by {
                assert(may_inherit(self@.objects, at, left as int, had, end));
            }
            left -= 1;
        }
        assert(may_inherit(self@.objects, dict_view(node@), left as int, fonts@, fonts@));
        proof {
            if sound_levels(self@.objects, dict_view(page@), MAX_TREE_DEPTH as int) {
                sound_fonts_decode_one_way(self@.objects, dict_view(page@), fonts@.maps);
            }
        }
        fonts.maps
    }

    /// Extract a page's text.
    pub fn page_text(&self, page: &Dict) -> (r: String)
        ensures
            may_read(self@.objects, dict_view(page@), r@),
            sound_page(self@.objects, dict_view(page@)) ==> r@ == text_of_page(
                self@.objects,
                dict_view(page@),
            ),
    {
        let content: Vec<u8> = self.page_content(page);
        let fonts: Fonts = self.page_fonts(page);
        extract_text(content.as_slice(), &fonts)
    }
}

proof fn lemma_adds(dict: DictView, data: Seq<u8>, d: Option<Seq<u8>>, part: Seq<u8>)
    requires
        may_decode(dict, data, d),
        part == part_of(d),
    ensures
        may_add(ObjView::Stream { dict, data }, part),
{
}

proof fn lemma_maps(
    m: Map<u32, ObjView>,
    font: DictView,
    dict: DictView,
    data: Seq<u8>,
    d: Option<Seq<u8>>,
)
    requires
        entry(m, font, "ToUnicode"@) == Some(ObjView::Stream { dict, data }),
        may_decode(dict, data, d),
    ensures
        may_map(m, font, map_of(d)),
{
}

/// The fonts from one entry on, where the entry has the map `map` if it is defined here.
proof fn lemma_defines(
    m: Map<u32, ObjView>,
    d: DictView,
    k: int,
    fonts: FontsView,
    map: Option<CMapView>,
    end: FontsView,
)
    requires
        0 <= k < d.len(),
        ({
            match font_at(m, d, k) {
                Some(f) => if fonts.names.contains(d[k].0) {
                    may_define(m, d, k + 1, fonts, end)
                } else {
                    may_map(m, f, map) && may_define(
                        m,
                        d,
                        k + 1,
                        fonts.defined(d[k].0, map),
                        end,
                    )
                },
                None => may_define(m, d, k + 1, fonts, end),
            }
        }),
    ensures
        may_define(m, d, k, fonts, end),
{
}

proof fn lemma_fill(
    m: Map<u32, ObjView>,
    items: Seq<ObjView>,
    k: int,
    out: Seq<u8>,
    end: Seq<u8>,
)
    requires
        out.len() <= MAX_PAGE_CONTENT,
        may_fill(m, items, k, out, end),
    ensures
        end.len() <= MAX_PAGE_CONTENT,
    decreases items.len() - k,
{
    if 0 <= k < items.len() && out.len() < MAX_PAGE_CONTENT {
        match resolved(m, items[k]) {
            Some(o) => {
                let part = choose|part: Seq<u8>| #[trigger]
                    may_add(o, part) && may_fill(m, items, k + 1, with_part(out, part), end);
                lemma_fill(m, items, k + 1, with_part(out, part), end);
            },
            None => {
                lemma_fill(m, items, k + 1, out, end);
            },
        }
    }
}

/// The content of a page is capped, however many streams the page names.
pub proof fn page_content_is_capped(m: Map<u32, ObjView>, page: DictView, content: Seq<u8>)
    requires
        may_contain(m, page, content),
    ensures
        content.len() <= MAX_PAGE_CONTENT,
{
    if let Some(ObjView::Array(items)) = entry(m, page, "Contents"@) {
        lemma_fill(m, items, 0, Seq::empty(), content);
    }
}

proof fn lemma_walk(
    m: Map<u32, ObjView>,
    node: DictView,
    depth: int,
    out: Seq<DictView>,
    budget: int,
)
    requires
        budget >= 0,
    ensures
        0 <= walk(m, node, depth, out, budget).1 <= budget,
        out.is_prefix_of(walk(m, node, depth, out, budget).0),
    decreases MAX_TREE_DEPTH + 1 - depth, 1int, 0int,
{
    if depth <= MAX_TREE_DEPTH && out.len() < MAX_OBJECTS && budget > 0 {
        if let Some(ObjView::Array(kids)) = entry(m, node, "Kids"@) {
            lemma_walk_kids(m, kids, 0, depth, out, budget - 1);
        }
    }
}

proof fn lemma_walk_kids(
    m: Map<u32, ObjView>,
    kids: Seq<ObjView>,
    k: int,
    depth: int,
    out: Seq<DictView>,
    budget: int,
)
    requires
        budget >= 0,
    ensures
        0 <= walk_kids(m, kids, k, depth, out, budget).1 <= budget,
        out.is_prefix_of(walk_kids(m, kids, k, depth, out, budget).0),
    decreases MAX_TREE_DEPTH + 1 - depth, 0int, kids.len() - k,
{
    if 0 <= k < kids.len() && depth <= MAX_TREE_DEPTH {
        let kid = match resolved(m, kids[k]) {
            Some(o) => o.dict(),
            None => None,
        };
        let next = match kid {
            None => (out, budget),
            Some(d) => if dict_type(d, "Pages"@) || (!dict_type(d, "Page"@) && lookup(
                d,
                "Kids"@,
            ) is Some) {
                walk(m, d, depth + 1, out, budget)
            } else {
                (out.push(d), budget)
            },
        };
        if let Some(d) = kid {
            lemma_walk(m, d, depth + 1, out, budget);
        }
        lemma_walk_kids(m, kids, k + 1, depth, next.0, next.1);
    }
}

/// A walk of a page tree, even of one that contains itself, spends no more visits than it is given,
/// and keeps the pages found before it.
pub proof fn walks_stay_within_their_budget(
    m: Map<u32, ObjView>,
    node: DictView,
    depth: int,
    out: Seq<DictView>,
    budget: int,
)
    requires
        budget >= 0,
    ensures
        0 <= walk(m, node, depth, out, budget).1 <= budget,
        out.is_prefix_of(walk(m, node, depth, out, budget).0),
{
    lemma_walk(m, node, depth, out, budget);
}

} // verus!
