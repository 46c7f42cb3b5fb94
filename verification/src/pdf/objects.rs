//! Finding the objects of a file.
//!
//! Objects are found by scanning, not by the cross-reference table: the table of a damaged,
//! hand-edited or incrementally updated file is what has gone stale. Object streams are expanded
//! afterwards.

use std::collections::BTreeMap;

use vstd::prelude::*;
use vstd::std_specs::cmp::OrdSpec;
use vstd::std_specs::iter::IteratorSpec;

use crate::bytes::{find_from, first_at, lemma_first_at, occurs_at, part, stands_at, utf8};
use crate::pdf::filters::{
    decode_stream, decoded, may_decode, opt_bytes, size_entry, size_of_entry, sound_stream,
    sound_streams_decode_one_way,
};
use crate::pdf::lexer::{regular_byte, ws_byte, Lexer};
use crate::pdf::num::{are_digits, is_digit, leading, leading_value, lemma_tens, spelled, tens};
use crate::pdf::object::{
    copy_dict, dict_view, get, lookup, opt_ref_view, Dict, DictView, Obj, ObjView,
};
use crate::pdf::syntax::{is_regular, is_ws, lemma_object_at, object_at, ref_number};
use crate::text::same;

verus! {

/// Objects that are held at once.
pub const MAX_OBJECTS: usize = 500_000;

/// The objects of a file, by number.
pub type Objects = BTreeMap<u32, Obj>;

pub open spec fn objs(m: Map<u32, Obj>) -> Map<u32, ObjView> {
    m.map_values(|o: Obj| o@)
}

proof fn lemma_objs_insert(m: Map<u32, Obj>, k: u32, o: Obj)
    ensures
        objs(m.insert(k, o)) == objs(m).insert(k, o@),
{
    assert(objs(m.insert(k, o)) =~= objs(m).insert(k, o@));
}

proof fn lemma_objs_len(m: Map<u32, Obj>)
    ensures
        objs(m).len() == m.len(),
        objs(m).dom() == m.dom(),
{
    assert(objs(m).dom() =~= m.dom());
}

/// The keys from `k` on, in ascending order.
pub open spec fn keys_from(m: Map<u32, ObjView>, k: int) -> Seq<u32>
    decreases u32::MAX + 1 - k,
{
    if k < 0 || k > u32::MAX {
        Seq::empty()
    } else if m.contains_key(k as u32) {
        seq![k as u32] + keys_from(m, k + 1)
    } else {
        keys_from(m, k + 1)
    }
}

/// All keys, in ascending order.
pub open spec fn sorted_keys(m: Map<u32, ObjView>) -> Seq<u32> {
    keys_from(m, 0)
}

proof fn lemma_keys_are_there(m: Map<u32, ObjView>, k: int)
    requires
        0 <= k,
    ensures
        forall|i: int|
            0 <= i < keys_from(m, k).len() ==> m.contains_key(#[trigger] keys_from(m, k)[i]),
    decreases u32::MAX + 1 - k,
{
    if k <= u32::MAX {
        lemma_keys_are_there(m, k + 1);
        let rest = keys_from(m, k + 1);
        let all = keys_from(m, k);
        assert forall|i: int| 0 <= i < all.len() implies m.contains_key(#[trigger] all[i]) by {
            if m.contains_key(k as u32) && i > 0 {
                assert(all[i] == rest[i - 1]);
            }
        }
    }
}

proof fn lemma_keys_from(m: Map<u32, ObjView>, s: Seq<u32>, k: int, j: int)
    requires
        0 <= k <= u32::MAX + 1,
        0 <= j <= s.len(),
        forall|a: int, b: int| 0 <= a < b < s.len() ==> s[a] < s[b],
        forall|a: int| 0 <= a < s.len() ==> m.contains_key(#[trigger] s[a]),
        forall|x: u32| #[trigger] m.contains_key(x) ==> s.contains(x),
        forall|a: int| 0 <= a < j ==> s[a] < k,
        forall|a: int| j <= a < s.len() ==> s[a] >= k,
    ensures
        keys_from(m, k) == s.skip(j),
    decreases u32::MAX + 1 - k,
{
    if k > u32::MAX {
        if j < s.len() {
            assert(s[j] >= k);
        }
        assert(s.skip(j) =~= Seq::empty());
    } else if m.contains_key(k as u32) {
        let i = s.index_of(k as u32);
        assert(s.contains(k as u32));
        assert(s[i] == k as u32);
        assert(s[j] == k as u32);
        lemma_keys_from(m, s, k + 1, j + 1);
        assert(s.skip(j) =~= seq![k as u32] + s.skip(j + 1));
    } else {
        assert forall|a: int| j <= a < s.len() implies s[a] >= k + 1 by {
            if s[a] == k {
                assert(m.contains_key(s[a]));
            }
        }
        lemma_keys_from(m, s, k + 1, j);
    }
}

/// Every listed key is in the map.
pub proof fn lemma_keys_in(m: Map<u32, ObjView>, k: int)
    requires
        0 <= k,
    ensures
        forall|a: int|
            0 <= a < keys_from(m, k).len() ==> m.contains_key(#[trigger] keys_from(m, k)[a]),
    decreases u32::MAX + 1 - k,
{
    if k <= u32::MAX {
        lemma_keys_in(m, k + 1);
        let rest = keys_from(m, k + 1);
        assert forall|a: int| 0 <= a < keys_from(m, k).len() implies m.contains_key(
            #[trigger] keys_from(m, k)[a],
        ) by {
            if m.contains_key(k as u32) {
                if a > 0 {
                    assert(keys_from(m, k)[a] == rest[a - 1]);
                }
            }
        }
    }
}

/// The numbers of all objects, in ascending order.
pub fn object_numbers(m: &Objects) -> (r: Vec<u32>)
    ensures
        r@ == sorted_keys(objs(m@)),
        forall|a: int| 0 <= a < r@.len() ==> m@.contains_key(#[trigger] r@[a]),
{
    broadcast use vstd::laws_cmp::group_laws_cmp;

    let mut r: Vec<u32> = Vec::new();
    for kv in it: m.iter()
        invariant
            it.seq() == vstd::std_specs::btree::spec_btree_map_iter(m).remaining(),
            r@.len() == it.index(),
            forall|a: int| 0 <= a < r@.len() ==> #[trigger] r@[a] == *it.seq()[a].0,
    {
        r.push(*kv.0);
    }
    proof {
        let seq = vstd::std_specs::btree::spec_btree_map_iter(m).remaining();
        let ks = seq.map_values(|kv: (&u32, &Obj)| *kv.0);
        assert(r@ =~= ks);
        assert(vstd::std_specs::btree::increasing_seq(ks));
        assert forall|a: int, b: int| 0 <= a < b < r@.len() implies r@[a] < r@[b] by {
            assert(ks[a].cmp_spec(&ks[b]) is Less);
        }
        lemma_objs_len(m@);
        assert forall|a: int| 0 <= a < r@.len() implies m@.contains_key(#[trigger] r@[a]) by {
            assert(m@.contains_key(*seq[a].0));
        }
        assert forall|x: u32| #[trigger] objs(m@).contains_key(x) implies r@.contains(x) by {
            assert(m@.contains_key(x));
            let i = seq.index_of((&x, &m@[x]));
            assert(seq.contains((&x, &m@[x])));
            assert(r@[i] == x);
        }
        lemma_keys_from(objs(m@), r@, 0, 0);
        assert(r@.skip(0) =~= r@);
    }
    r
}

/// The object with a number, if there is one.
pub fn object_of(m: &Objects, n: u32) -> (r: Option<&Obj>)
    ensures
        match r {
            Some(o) => m@.contains_key(n) && *o == m@[n],
            None => !m@.contains_key(n),
        },
{
    broadcast use vstd::laws_cmp::group_laws_cmp;

    m.get(&n)
}

fn has_object(m: &Objects, n: u32) -> (r: bool)
    ensures
        r == m@.contains_key(n),
{
    broadcast use vstd::laws_cmp::group_laws_cmp;

    m.contains_key(&n)
}

fn put_object(m: &mut Objects, n: u32, o: Obj)
    ensures
        final(m)@ == old(m)@.insert(n, o),
        objs(final(m)@) == objs(old(m)@).insert(n, o@),
{
    broadcast use vstd::laws_cmp::group_laws_cmp;

    proof {
        lemma_objs_insert(m@, n, o);
    }
    m.insert(n, o);
}

/// The object that `o` is or refers to.
pub open spec fn resolved(m: Map<u32, ObjView>, o: ObjView) -> Option<ObjView> {
    match o {
        ObjView::Ref(n) => if m.contains_key(n) {
            Some(m[n])
        } else {
            None
        },
        _ => Some(o),
    }
}

/// The object under `key`, a reference followed.
pub open spec fn entry(m: Map<u32, ObjView>, d: DictView, key: Seq<char>) -> Option<ObjView> {
    match lookup(d, key) {
        Some(o) => resolved(m, o),
        None => None,
    }
}

/// Follow an indirect reference to the object it names.
pub fn resolve<'a>(objects: &'a Objects, obj: &'a Obj) -> (r: Option<&'a Obj>)
    ensures
        opt_ref_view(r) == resolved(objs(objects@), obj@),
{
    match obj {
        Obj::Ref(n) => object_of(objects, *n),
        _ => Some(obj),
    }
}

/// Look up `key` in `dict`, following a reference.
pub fn lookup_resolved<'a>(objects: &'a Objects, dict: &'a Dict, key: &str) -> (r: Option<&'a Obj>)
    ensures
        opt_ref_view(r) == entry(objs(objects@), dict_view(dict@), key@),
{
    match get(dict, key) {
        Some(o) => resolve(objects, o),
        None => None,
    }
}

/// Whether an object's `/Type` is the name `ty`.
pub open spec fn has_type(o: ObjView, ty: Seq<char>) -> bool {
    o.get("Type"@) == Some(ObjView::Name(ty))
}

/// Whether a dictionary's `/Type` is the name `ty`.
pub open spec fn dict_type(d: DictView, ty: Seq<char>) -> bool {
    lookup(d, "Type"@) == Some(ObjView::Name(ty))
}

pub fn is_type(o: &Obj, ty: &str) -> (r: bool)
    ensures
        r == has_type(o@, ty@),
{
    match o.get("Type") {
        Some(Obj::Name(n)) => same(n.as_str(), ty),
        _ => false,
    }
}

pub fn dict_is_type(d: &Dict, ty: &str) -> (r: bool)
    ensures
        r == dict_type(dict_view(d@), ty@),
{
    match get(d, "Type") {
        Some(Obj::Name(n)) => same(n.as_str(), ty),
        _ => false,
    }
}

/// The start of the whitespace that ends at `e`.
pub open spec fn ws_back(s: Seq<u8>, e: int) -> int
    decreases e,
{
    if 0 < e <= s.len() && is_ws(s[e - 1]) {
        ws_back(s, e - 1)
    } else {
        e
    }
}

/// The start of the digits that end at `e`.
pub open spec fn digits_back(s: Seq<u8>, e: int) -> int
    decreases e,
{
    if 0 < e <= s.len() && is_digit(s[e - 1]) {
        digits_back(s, e - 1)
    } else {
        e
    }
}

/// The 32-bit number that the digits `a..b` make.
pub open spec fn number_between(s: Seq<u8>, a: int, b: int) -> Option<u32> {
    let v = leading(s.subrange(a, b), b - a, u32::MAX + 1);
    if a == b || v > u32::MAX {
        None
    } else {
        Some(v as u32)
    }
}

/// Whether a token starts at `i`: nothing, whitespace or a delimiter stands before it.
pub open spec fn starts_token(s: Seq<u8>, i: int) -> bool {
    i == 0 || (0 < i <= s.len() && !is_regular(s[i - 1]))
}

/// The object number before an `obj` keyword at `i`: digits, whitespace, digits, whitespace. The
/// number starts a token.
pub open spec fn number_before(s: Seq<u8>, i: int) -> Option<u32> {
    let g_end = ws_back(s, i);
    let g = digits_back(s, g_end);
    let n_end = ws_back(s, g);
    let n = digits_back(s, n_end);
    if g_end == i || number_between(s, g, g_end) is None || n_end == g || !starts_token(s, n) {
        None
    } else {
        number_between(s, n, n_end)
    }
}

fn back_over_ws(s: &[u8], end: usize) -> (r: usize)
    requires
        end <= s.len(),
    ensures
        r == ws_back(s@, end as int),
        r <= end,
{
    let mut e: usize = end;
    while e > 0 && ws_byte(s[e - 1])
        invariant
            e <= end <= s.len(),
            ws_back(s@, end as int) == ws_back(s@, e as int),
        decreases e,
    {
        e -= 1;
    }
    e
}

fn back_over_digits(s: &[u8], end: usize) -> (r: usize)
    requires
        end <= s.len(),
    ensures
        r == digits_back(s@, end as int),
        r <= end,
        forall|k: int| r <= k < end ==> is_digit(s@[k]),
{
    let mut e: usize = end;
    while e > 0 && s[e - 1] >= 0x30 && s[e - 1] <= 0x39
        invariant
            e <= end <= s.len(),
            digits_back(s@, end as int) == digits_back(s@, e as int),
            forall|k: int| e <= k < end ==> is_digit(s@[k]),
        decreases e,
    {
        e -= 1;
    }
    e
}

fn parse_between(s: &[u8], a: usize, b: usize) -> (r: Option<u32>)
    requires
        a <= b <= s.len(),
        forall|k: int| a <= k < b ==> is_digit(s@[k]),
    ensures
        r == number_between(s@, a as int, b as int),
{
    if a == b {
        return None;
    }
    let ds: Vec<u8> = vstd::slice::slice_to_vec(part(s, a, b));
    let v: i128 = leading_value(&ds, (b - a) as i128, u32::MAX as i128 + 1);
    if v > u32::MAX as i128 {
        None
    } else {
        Some(v as u32)
    }
}

/// Read the `N G` that must precede an `obj` keyword at `at`, giving `N`.
pub fn object_number_before(buf: &[u8], at: usize) -> (r: Option<u32>)
    requires
        at <= buf.len(),
    ensures
        r == number_before(buf@, at as int),
{
    let g_end: usize = back_over_ws(buf, at);
    if g_end == at {
        return None;
    }
    let g: usize = back_over_digits(buf, g_end);
    if parse_between(buf, g, g_end).is_none() {
        return None;
    }
    let n_end: usize = back_over_ws(buf, g);
    if n_end == g {
        return None;
    }
    let n: usize = back_over_digits(buf, n_end);
    if n > 0 && regular_byte(buf[n - 1]) {
        return None;
    }
    parse_between(buf, n, n_end)
}

/// The objects that stand in a file from `i` on, added to `m`. A later definition replaces an
/// earlier one, and nothing inside an object's extent starts another.
pub open spec fn scan_from(s: Seq<u8>, i: int, m: Map<u32, ObjView>) -> Map<u32, ObjView>
    decreases s.len() - i,
{
    if i < 0 || i + 3 > s.len() || m.len() >= MAX_OBJECTS {
        m
    } else if !occurs_at(s, utf8("obj"@), i) {
        scan_from(s, i + 1, m)
    } else {
        match number_before(s, i) {
            None => scan_from(s, i + 3, m),
            Some(n) => {
                let o = object_at(s, i + 3, 0);
                if o.1 < i + 3 || o.1 > s.len() {
                    m
                } else {
                    scan_from(
                        s,
                        o.1,
                        match o.0 {
                            Some(v) => m.insert(n, v),
                            None => m,
                        },
                    )
                }
            },
        }
    }
}

/// Find every `N G obj .. endobj` in the file.
pub fn scan_objects(buf: &[u8]) -> (r: Objects)
    ensures
        objs(r@) == scan_from(buf@, 0, Map::empty()),
{
    let mut objects: Objects = BTreeMap::new();
    assert(objs(objects@) =~= Map::empty());
    let mut i: usize = 0;
    proof {
        reveal_strlit("obj");
        vstd::utf8::is_ascii_chars_encode_utf8("obj"@);
    }
    while buf.len() - i >= 3 && objects.len() < MAX_OBJECTS
        invariant
            i <= buf.len(),
            utf8("obj"@).len() == 3,
            scan_from(buf@, 0, Map::empty()) == scan_from(buf@, i as int, objs(objects@)),
            objs(objects@).len() == objects@.len(),
        decreases buf.len() - i,
    {
        if !stands_at(buf, "obj".as_bytes(), i) {
            i = i + 1;
        } else {
            // `endobj` ends in the keyword too; a header's keyword is preceded by whitespace.
            match object_number_before(buf, i) {
                None => {
                    i = i + 3;
                },
                Some(n) => {
                    let mut lex: Lexer<'_> = Lexer::at(buf, i + 3);
                    proof {
                        lemma_object_at(buf@, i + 3, 0);
                    }
                    match lex.object() {
                        Some(o) => {
                            put_object(&mut objects, n, o);
                        },
                        None => {},
                    }
                    i = lex.pos;
                },
            }
        }
        proof {
            lemma_objs_len(objects@);
        }
    }
    proof {
        lemma_objs_len(objects@);
    }
    objects
}

/// The objects of an object stream, added to `m` where no object has the number: pairs of a
/// number and an offset stand in the first `first` bytes of `d`, read from `i` on, `left` of them.
pub open spec fn members_from(
    d: Seq<u8>,
    first: int,
    i: int,
    left: int,
    m: Map<u32, ObjView>,
) -> Map<u32, ObjView>
    decreases left,
{
    if left <= 0 {
        m
    } else {
        let head = d.take(first);
        let a = object_at(head, i, 0);
        let b = object_at(head, a.1, 0);
        match (a.0, b.0) {
            (Some(ObjView::Number(n)), Some(ObjView::Number(off))) => if n.units < 0 || off.units
                < 0 {
                m
            } else {
                let at = first + off.floor();
                let o = object_at(d, at, 0);
                members_from(
                    d,
                    first,
                    b.1,
                    left - 1,
                    if at < d.len() && o.0 is Some && !m.contains_key(ref_number(n)) && m.len()
                        < MAX_OBJECTS {
                        m.insert(ref_number(n), o.0.unwrap())
                    } else {
                        m
                    },
                )
            },
            _ => m,
        }
    }
}

/// The objects of a stream that was decoded to `decoded`, added to `m`; none where it was not.
pub open spec fn with_members(
    dict: DictView,
    decoded: Option<Seq<u8>>,
    m: Map<u32, ObjView>,
) -> Map<u32, ObjView> {
    match decoded {
        None => m,
        Some(d) => {
            let count = size_entry(dict, "N"@, 0);
            let first = size_entry(dict, "First"@, 0);
            if first > d.len() {
                m
            } else {
                members_from(
                    d,
                    first,
                    0,
                    if count < MAX_OBJECTS {
                        count
                    } else {
                        MAX_OBJECTS as int
                    },
                    m,
                )
            }
        },
    }
}

/// Whether `out` may come of adding the objects of the object streams among `m0`, in the order of
/// `keys` from the `k`th on, to `m`.
pub open spec fn may_expand(
    m0: Map<u32, ObjView>,
    keys: Seq<u32>,
    k: int,
    m: Map<u32, ObjView>,
    out: Map<u32, ObjView>,
) -> bool
    decreases keys.len() - k,
{
    if k < 0 || k >= keys.len() {
        out == m
    } else {
        match m0[keys[k]] {
            ObjView::Stream { dict, data } => if dict_type(dict, "ObjStm"@) {
                exists|d: Option<Seq<u8>>| #[trigger]
                    may_decode(dict, data, d) && may_expand(
                        m0,
                        keys,
                        k + 1,
                        with_members(dict, d, m),
                        out,
                    )
            } else {
                may_expand(m0, keys, k + 1, m, out)
            },
            _ => may_expand(m0, keys, k + 1, m, out),
        }
    }
}

/// Whether `out` may be all objects: those of the file itself, and those inside its object streams.
pub open spec fn may_hold(m: Map<u32, ObjView>, out: Map<u32, ObjView>) -> bool {
    may_expand(m, sorted_keys(m), 0, m, out)
}

/// The pairs before `first` in a decoded object stream read, `count` of them, and the objects they name
/// added.
pub fn add_members(objects: &mut Objects, d: &[u8], first: usize, count: usize)
    requires
        first <= d.len(),
    ensures
        objs(final(objects)@) == members_from(d@, first as int, 0, count as int, objs(old(objects)@)),
        forall|k: u32| #[trigger]
            old(objects)@.contains_key(k) ==> final(objects)@.contains_key(k) && final(objects)@[k] == old(objects)@[k],
{
    let head: &[u8] = part(d, 0, first);
    assert(head@ =~= d@.take(first as int));
    let mut header: Lexer<'_> = Lexer::new(head);
    let mut left: usize = count;
    while left > 0
        invariant
            first <= d.len(),
            header.wf(),
            header.buf@ == d@.take(first as int),
            members_from(d@, first as int, 0, count as int, objs(old(objects)@)) == members_from(
                d@,
                first as int,
                header.pos as int,
                left as int,
                objs(objects@),
            ),
            forall|k: u32| #[trigger]
                old(objects)@.contains_key(k) ==> objects@.contains_key(k) && objects@[k] == old(objects)@[k],
        decreases left,
    {
        let a: Option<Obj> = header.object();
        let b: Option<Obj> = header.object();
        match (a, b) {
            (Some(Obj::Number(n)), Some(Obj::Number(off))) => {
                if n.units < 0 || off.units < 0 {
                    return;
                }
                let skip: usize = off.as_usize();
                // The offset comes from the file, and may be past any position.
                if skip < d.len() - first {
                    let mut lex: Lexer<'_> = Lexer::at(d, first + skip);
                    match lex.object() {
                        Some(o) => {
                            let num: u32 = n.as_u32();
                            proof {
                                lemma_objs_len(objects@);
                            }
                            // A container never replaces a top-level definition.
                            if !has_object(objects, num) && objects.len() < MAX_OBJECTS {
                                put_object(objects, num, o);
                            }
                        },
                        None => {},
                    }
                }
            },
            _ => {
                return;
            },
        }
        left -= 1;
    }
}

/// Expand `/Type /ObjStm` containers, whose payload is objects behind a header of
/// `number offset` pairs.
pub fn expand_object_streams(objects: &mut Objects)
    ensures
        may_hold(objs(old(objects)@), objs(final(objects)@)),
        sound_containers(objs(old(objects)@)) ==> objs(final(objects)@) == expanded(
            objs(old(objects)@),
        ),
        forall|k: u32| #[trigger]
            old(objects)@.contains_key(k) ==> final(objects)@.contains_key(k) && final(objects)@[k] == old(objects)@[k],
{
    let keys: Vec<u32> = object_numbers(&*objects);
    let ghost m0 = objs(objects@);
    let mut k: usize = 0;
    while k < keys.len()
        invariant
            k <= keys.len(),
            m0 == objs(old(objects)@),
            keys@ == sorted_keys(m0),
            forall|a: int| 0 <= a < keys@.len() ==> old(objects)@.contains_key(#[trigger] keys@[a]),
            forall|out: Map<u32, ObjView>| #[trigger]
                may_expand(m0, keys@, k as int, objs(objects@), out) ==> may_hold(m0, out),
            forall|k: u32| #[trigger]
                old(objects)@.contains_key(k) ==> objects@.contains_key(k) && objects@[k] == old(objects)@[k],
        decreases keys.len() - k,
    {
        let key: u32 = keys[k];
        assert(old(objects)@.contains_key(keys@[k as int]));
        assert(m0[key] == objects@[key]@);
        let ghost had = objs(objects@);
        let ghost mut drawn: Option<Seq<u8>> = None;
        let mut job: Option<(Vec<u8>, usize, usize)> = None;
        match object_of(objects, key) {
            Some(Obj::Stream { dict, data }) => {
                if dict_is_type(dict, "ObjStm") {
                    let decoded: Option<Vec<u8>> = decode_stream(dict, data.as_slice());
                    proof {
                        drawn = opt_bytes(decoded);
                    }
                    match decoded {
                        Some(d) => {
                            let count: usize = size_of_entry(dict, "N", 0);
                            let first: usize = size_of_entry(dict, "First", 0);
                            if first <= d.len() {
                                job = Some(
                                    (
                                        d,
                                        first,
                                        if count < MAX_OBJECTS {
                                            count
                                        } else {
                                            MAX_OBJECTS
                                        },
                                    ),
                                );
                            }
                        },
                        None => {},
                    }
                }
            },
            _ => {},
        }
        match job {
            Some((d, first, count)) => {
                add_members(objects, d.as_slice(), first, count);
            },
            None => {},
        }
        proof {
            assert forall|out: Map<u32, ObjView>| #[trigger]
                may_expand(m0, keys@, k + 1, objs(objects@), out) implies may_hold(m0, out) by {
                if let ObjView::Stream { dict, data } = m0[key] {
                    if dict_type(dict, "ObjStm"@) {
                        assert(may_decode(dict, data, drawn));
                        assert(objs(objects@) == with_members(dict, drawn, had));
                    }
                }
                assert(may_expand(m0, keys@, k as int, had, out));
            }
        }
        k += 1;
    }
    assert(may_expand(m0, keys@, k as int, objs(objects@), objs(objects@)));
    proof {
        if sound_containers(m0) {
            sound_containers_expand_one_way(m0, objs(objects@));
        }
    }
}

/// The dictionaries of the cross-reference streams among `m`, in the order of `keys` from the
/// `k`th on, after `acc`.
pub open spec fn xref_dicts(
    m: Map<u32, ObjView>,
    keys: Seq<u32>,
    k: int,
    acc: Seq<DictView>,
) -> Seq<DictView>
    decreases keys.len() - k,
{
    if k < 0 || k >= keys.len() {
        acc
    } else {
        let o = m[keys[k]];
        xref_dicts(
            m,
            keys,
            k + 1,
            if has_type(o, "XRef"@) && o.dict() is Some {
                acc.push(o.dict().unwrap())
            } else {
                acc
            },
        )
    }
}

/// The dictionaries behind the `trailer` keywords from `i` on, after `acc`.
pub open spec fn trailer_dicts(s: Seq<u8>, i: int, acc: Seq<DictView>) -> Seq<DictView>
    decreases s.len() - i,
{
    match first_at(s, utf8("trailer"@), i) {
        None => acc,
        Some(at) => {
            let p = at + utf8("trailer"@).len();
            if p <= i || p > s.len() {
                acc
            } else {
                trailer_dicts(
                    s,
                    p,
                    match object_at(s, p, 0).0 {
                        Some(ObjView::Dict(d)) => acc.push(d),
                        _ => acc,
                    },
                )
            }
        },
    }
}

/// The trailer dictionaries of a file: those of cross-reference streams, then the classic ones.
pub open spec fn trailers(s: Seq<u8>, m: Map<u32, ObjView>) -> Seq<DictView> {
    trailer_dicts(s, 0, xref_dicts(m, sorted_keys(m), 0, Seq::empty()))
}

pub open spec fn dicts_view(v: Seq<Dict>) -> Seq<DictView> {
    v.map_values(|d: Dict| dict_view(d@))
}

/// Trailer-shaped dictionaries: the `/Type /XRef` stream dictionary and the classic
/// `trailer << .. >>`.
pub fn scan_trailers(buf: &[u8], objects: &Objects) -> (r: Vec<Dict>)
    ensures
        dicts_view(r@) == trailers(buf@, objs(objects@)),
{
    let mut out: Vec<Dict> = Vec::new();
    let keys: Vec<u32> = object_numbers(objects);
    let ghost m = objs(objects@);
    assert(dicts_view(out@) =~= Seq::empty());
    let mut k: usize = 0;
    while k < keys.len()
        invariant
            k <= keys.len(),
            m == objs(objects@),
            keys@ == sorted_keys(m),
            forall|a: int| 0 <= a < keys@.len() ==> objects@.contains_key(#[trigger] keys@[a]),
            xref_dicts(m, keys@, 0, Seq::empty()) == xref_dicts(
                m,
                keys@,
                k as int,
                dicts_view(out@),
            ),
        decreases keys.len() - k,
    {
        let ghost before = out@;
        assert(objects@.contains_key(keys@[k as int]));
        assert(m[keys@[k as int]] == objects@[keys@[k as int]]@);
        match object_of(objects, keys[k]) {
            Some(o) => {
                if is_type(o, "XRef") {
                    match o.dict() {
                        Some(d) => {
                            let c: Dict = copy_dict(d);
                            out.push(c);
                            assert(dicts_view(out@) =~= dicts_view(before).push(dict_view(c@)));
                        },
                        None => {},
                    }
                }
            },
            None => {},
        }
        k += 1;
    }
    proof {
        reveal_strlit("trailer");
        vstd::utf8::is_ascii_chars_encode_utf8("trailer"@);
    }
    let mut at: usize = 0;
    while at <= buf.len()
        invariant
            at <= buf.len(),
            m == objs(objects@),
            utf8("trailer"@).len() == 7,
            trailers(buf@, m) == trailer_dicts(buf@, at as int, dicts_view(out@)),
        decreases buf.len() - at,
    {
        proof {
            lemma_first_at(buf@, utf8("trailer"@), at as int);
        }
        match find_from(buf, "trailer".as_bytes(), at) {
            None => {
                return out;
            },
            Some(i) => {
                let pos: usize = i + 7;
                let mut lex: Lexer<'_> = Lexer::at(buf, pos);
                let ghost before = out@;
                match lex.object() {
                    Some(Obj::Dict(d)) => {
                        out.push(d);
                        assert(dicts_view(out@) =~= dicts_view(before).push(dict_view(d@)));
                    },
                    _ => {},
                }
                at = pos;
            },
        }
    }
    out
}

/// No more objects are held than may be.
pub open spec fn within_limit(m: Map<u32, ObjView>) -> bool {
    m.dom().finite() && m.len() <= MAX_OBJECTS
}

proof fn lemma_scan_limit(s: Seq<u8>, i: int, m: Map<u32, ObjView>)
    requires
        within_limit(m),
    ensures
        within_limit(scan_from(s, i, m)),
    decreases s.len() - i,
{
    if 0 <= i && i + 3 <= s.len() && m.len() < MAX_OBJECTS {
        if !occurs_at(s, utf8("obj"@), i) {
            lemma_scan_limit(s, i + 1, m);
        } else {
            match number_before(s, i) {
                None => lemma_scan_limit(s, i + 3, m),
                Some(n) => {
                    let o = object_at(s, i + 3, 0);
                    if i + 3 <= o.1 <= s.len() {
                        lemma_scan_limit(
                            s,
                            o.1,
                            match o.0 {
                                Some(v) => m.insert(n, v),
                                None => m,
                            },
                        );
                    }
                },
            }
        }
    }
}

proof fn lemma_members_limit(d: Seq<u8>, first: int, i: int, left: int, m: Map<u32, ObjView>)
    requires
        within_limit(m),
    ensures
        within_limit(members_from(d, first, i, left, m)),
    decreases left,
{
    if left > 0 {
        let head = d.take(first);
        let a = object_at(head, i, 0);
        let b = object_at(head, a.1, 0);
        match (a.0, b.0) {
            (Some(ObjView::Number(n)), Some(ObjView::Number(off))) => if n.units >= 0 && off.units
                >= 0 {
                let o = object_at(d, first + off.floor(), 0);
                lemma_members_limit(d, first, b.1, left - 1, m);
                if o.0 is Some && m.len() < MAX_OBJECTS {
                    lemma_members_limit(
                        d,
                        first,
                        b.1,
                        left - 1,
                        m.insert(ref_number(n), o.0.unwrap()),
                    );
                }
            },
            _ => {},
        }
    }
}

proof fn lemma_with_members_limit(dict: DictView, decoded: Option<Seq<u8>>, m: Map<u32, ObjView>)
    requires
        within_limit(m),
    ensures
        within_limit(with_members(dict, decoded, m)),
{
    if let Some(d) = decoded {
        let count = size_entry(dict, "N"@, 0);
        lemma_members_limit(
            d,
            size_entry(dict, "First"@, 0),
            0,
            if count < MAX_OBJECTS {
                count
            } else {
                MAX_OBJECTS as int
            },
            m,
        );
    }
}

proof fn lemma_expand_limit(
    m0: Map<u32, ObjView>,
    keys: Seq<u32>,
    k: int,
    m: Map<u32, ObjView>,
    out: Map<u32, ObjView>,
)
    requires
        within_limit(m),
        may_expand(m0, keys, k, m, out),
    ensures
        within_limit(out),
    decreases keys.len() - k,
{
    if 0 <= k < keys.len() {
        match m0[keys[k]] {
            ObjView::Stream { dict, data } => if dict_type(dict, "ObjStm"@) {
                let d = choose|d: Option<Seq<u8>>| #[trigger]
                    may_decode(dict, data, d) && may_expand(
                        m0,
                        keys,
                        k + 1,
                        with_members(dict, d, m),
                        out,
                    );
                lemma_with_members_limit(dict, d, m);
                lemma_expand_limit(m0, keys, k + 1, with_members(dict, d, m), out);
            } else {
                lemma_expand_limit(m0, keys, k + 1, m, out);
            },
            _ => {
                lemma_expand_limit(m0, keys, k + 1, m, out);
            },
        }
    }
}

/// Whether an object is an object stream.
pub open spec fn is_container(o: ObjView) -> bool {
    o matches ObjView::Stream { dict, data: _ } && dict_type(dict, "ObjStm"@)
}

/// Whether an object is sound: all that is compressed in it, where it is a stream.
pub open spec fn sound_object(o: ObjView) -> bool {
    o matches ObjView::Stream { dict, data } ==> sound_stream(dict, data)
}

/// Whether every object stream is sound.
pub open spec fn sound_containers(m: Map<u32, ObjView>) -> bool {
    forall|n: u32| #[trigger] m.contains_key(n) && is_container(m[n]) ==> sound_object(m[n])
}

/// The objects of the object streams among `m0`, in the order of `keys` from the `k`th on, added to
/// `m`, where they are sound.
pub open spec fn expand_from(
    m0: Map<u32, ObjView>,
    keys: Seq<u32>,
    k: int,
    m: Map<u32, ObjView>,
) -> Map<u32, ObjView>
    decreases keys.len() - k,
{
    if k < 0 || k >= keys.len() {
        m
    } else {
        expand_from(
            m0,
            keys,
            k + 1,
            match m0[keys[k]] {
                ObjView::Stream { dict, data } => if dict_type(dict, "ObjStm"@) {
                    with_members(dict, decoded(dict, data), m)
                } else {
                    m
                },
                _ => m,
            },
        )
    }
}

/// All objects, where the object streams are sound: those of the file itself, and those inside.
pub open spec fn expanded(m: Map<u32, ObjView>) -> Map<u32, ObjView> {
    expand_from(m, sorted_keys(m), 0, m)
}

proof fn lemma_expand_one_way(
    m0: Map<u32, ObjView>,
    keys: Seq<u32>,
    k: int,
    m: Map<u32, ObjView>,
    out: Map<u32, ObjView>,
)
    requires
        forall|i: int|
            0 <= i < keys.len() && is_container(m0[#[trigger] keys[i]]) ==> sound_object(
                m0[keys[i]],
            ),
    ensures
        may_expand(m0, keys, k, m, out) == (out == expand_from(m0, keys, k, m)),
    decreases keys.len() - k,
{
    if 0 <= k < keys.len() {
        match m0[keys[k]] {
            ObjView::Stream { dict, data } => if dict_type(dict, "ObjStm"@) {
                assert(is_container(m0[keys[k]]));
                let y = decoded(dict, data);
                sound_streams_decode_one_way(dict, data, y);
                assert forall|d: Option<Seq<u8>>| #[trigger] may_decode(dict, data, d) implies d
                    == y by {
                    sound_streams_decode_one_way(dict, data, d);
                }
                lemma_expand_one_way(m0, keys, k + 1, with_members(dict, y, m), out);
            } else {
                lemma_expand_one_way(m0, keys, k + 1, m, out);
            },
            _ => {
                lemma_expand_one_way(m0, keys, k + 1, m, out);
            },
        }
    }
}

/// Where the object streams are sound, there is one thing that a file can hold.
pub proof fn sound_containers_expand_one_way(m: Map<u32, ObjView>, out: Map<u32, ObjView>)
    requires
        sound_containers(m),
    ensures
        may_hold(m, out) == (out == expanded(m)),
{
    lemma_keys_are_there(m, 0);
    lemma_expand_one_way(m, sorted_keys(m), 0, m, out);
}

/// However many objects a file declares, in itself and in its object streams, no more are held than
/// may be.
pub proof fn objects_are_capped(s: Seq<u8>, out: Map<u32, ObjView>)
    requires
        may_hold(scan_from(s, 0, Map::empty()), out),
    ensures
        within_limit(out),
{
    let m = scan_from(s, 0, Map::empty());
    lemma_scan_limit(s, 0, Map::empty());
    lemma_expand_limit(m, sorted_keys(m), 0, m, out);
}

proof fn lemma_members_keep(
    d: Seq<u8>,
    first: int,
    i: int,
    left: int,
    m: Map<u32, ObjView>,
    n: u32,
)
    requires
        m.contains_key(n),
    ensures
        members_from(d, first, i, left, m).contains_key(n),
        members_from(d, first, i, left, m)[n] == m[n],
    decreases left,
{
    if left > 0 {
        let head = d.take(first);
        let a = object_at(head, i, 0);
        let b = object_at(head, a.1, 0);
        match (a.0, b.0) {
            (Some(ObjView::Number(x)), Some(ObjView::Number(off))) => if x.units >= 0 && off.units
                >= 0 {
                let at = first + off.floor();
                let o = object_at(d, at, 0);
                let next = if at < d.len() && o.0 is Some && !m.contains_key(ref_number(x))
                    && m.len() < MAX_OBJECTS {
                    m.insert(ref_number(x), o.0.unwrap())
                } else {
                    m
                };
                lemma_members_keep(d, first, b.1, left - 1, next, n);
            },
            _ => {},
        }
    }
}

/// An object that stands in the file itself counts, whatever the object streams hold under its number;
/// and one from an earlier stream counts before those of later ones.
pub proof fn objects_of_the_file_count_first(
    m0: Map<u32, ObjView>,
    keys: Seq<u32>,
    k: int,
    m: Map<u32, ObjView>,
    out: Map<u32, ObjView>,
    n: u32,
)
    requires
        may_expand(m0, keys, k, m, out),
        m.contains_key(n),
    ensures
        out.contains_key(n),
        out[n] == m[n],
    decreases keys.len() - k,
{
    if 0 <= k < keys.len() {
        match m0[keys[k]] {
            ObjView::Stream { dict, data } => if dict_type(dict, "ObjStm"@) {
                let d = choose|d: Option<Seq<u8>>| #[trigger]
                    may_decode(dict, data, d) && may_expand(
                        m0,
                        keys,
                        k + 1,
                        with_members(dict, d, m),
                        out,
                    );
                match d {
                    Some(bytes) => {
                        let count = size_entry(dict, "N"@, 0);
                        let first = size_entry(dict, "First"@, 0);
                        lemma_members_keep(
                            bytes,
                            first,
                            0,
                            if count < MAX_OBJECTS {
                                count
                            } else {
                                MAX_OBJECTS as int
                            },
                            m,
                            n,
                        );
                    },
                    None => {},
                }
                objects_of_the_file_count_first(m0, keys, k + 1, with_members(dict, d, m), out, n);
            } else {
                objects_of_the_file_count_first(m0, keys, k + 1, m, out, n);
            },
            _ => objects_of_the_file_count_first(m0, keys, k + 1, m, out, n),
        }
    }
}

proof fn lemma_scan_ends(s: Seq<u8>, i: int, m: Map<u32, ObjView>)
    requires
        0 <= i,
        forall|j: int| i <= j ==> !#[trigger] occurs_at(s, utf8("obj"@), j),
    ensures
        scan_from(s, i, m) == m,
    decreases s.len() - i,
{
    if i + 3 <= s.len() && m.len() < MAX_OBJECTS {
        assert(!occurs_at(s, utf8("obj"@), i));
        lemma_scan_ends(s, i + 1, m);
    }
}

/// The last definition of an object in a file is the one that counts: what was read before under its
/// number is replaced, and the other objects stay.
pub proof fn the_last_definition_counts(
    s: Seq<u8>,
    i: int,
    m: Map<u32, ObjView>,
    n: u32,
    v: ObjView,
    e: int,
)
    requires
        0 <= i,
        i + 3 <= e <= s.len(),
        m.len() < MAX_OBJECTS,
        occurs_at(s, utf8("obj"@), i),
        number_before(s, i) == Some(n),
        object_at(s, i + 3, 0) == (Some(v), e),
        forall|j: int| e <= j ==> !#[trigger] occurs_at(s, utf8("obj"@), j),
    ensures
        ({
            let r = scan_from(s, i, m);
            &&& r.contains_key(n) && r[n] == v
            &&& forall|k: u32|
                k != n ==> #[trigger] r.contains_key(k) == m.contains_key(k) && (m.contains_key(k)
                    ==> r[k] == m[k])
        }),
{
    lemma_scan_ends(s, e, m.insert(n, v));
}

proof fn lemma_leading_spells(ds: Seq<u8>, m: int, cap: int)
    requires
        are_digits(ds),
        0 <= m,
        tens(m) <= cap,
    ensures
        leading(ds, m, cap) == spelled(ds, m),
        0 <= spelled(ds, m) < tens(m),
    decreases m,
{
    if m > 0 {
        lemma_tens(m - 1, m);
        lemma_leading_spells(ds, m - 1, cap);
    }
}

proof fn lemma_digits_back(s: Seq<u8>, a: int, e: int)
    requires
        0 <= a <= e <= s.len(),
        forall|k: int| a <= k < e ==> is_digit(#[trigger] s[k]),
        a == 0 || !is_digit(s[a - 1]),
    ensures
        digits_back(s, e) == a,
    decreases e - a,
{
    if a < e {
        assert(is_digit(s[e - 1]));
        lemma_digits_back(s, a, e - 1);
    }
}

/// Of the two numbers before the keyword of an object the first is the object's, where nothing stands
/// before it that belongs to it.
pub proof fn an_object_goes_by_its_first_number(
    before: Seq<u8>,
    number: Seq<u8>,
    b1: u8,
    generation: Seq<u8>,
    b2: u8,
    after: Seq<u8>,
)
    requires
        before.len() == 0 || !is_regular(before.last()),
        are_digits(number),
        are_digits(generation),
        1 <= number.len() <= 9,
        1 <= generation.len() <= 9,
        is_ws(b1),
        is_ws(b2),
    ensures
        ({
            let head = before + number + seq![b1] + generation + seq![b2];
            let r = number_before(head + after, head.len() as int);
            r is Some && r->0 == spelled(number, number.len() as int)
        }),
{
    let head = before + number + seq![b1] + generation + seq![b2];
    let s = head + after;
    let i = head.len() as int;
    let n = before.len() as int;
    let n_end = n + number.len();
    let g = n_end + 1;
    let g_end = g + generation.len();
    assert(s[g_end] == b2 && s[n_end] == b1);
    assert forall|k: int| n <= k < n_end implies is_digit(#[trigger] s[k]) by {
        assert(s[k] == number[k - n]);
    }
    assert forall|k: int| g <= k < g_end implies is_digit(#[trigger] s[k]) by {
        assert(s[k] == generation[k - g]);
    }
    assert(is_digit(s[g_end - 1]));
    assert(is_digit(s[n_end - 1]));
    assert(n > 0 ==> s[n - 1] == before.last());
    reveal_with_fuel(ws_back, 3);
    assert(ws_back(s, i) == g_end);
    lemma_digits_back(s, g, g_end);
    assert(ws_back(s, g) == n_end);
    lemma_digits_back(s, n, n_end);
    assert(s.subrange(g, g_end) =~= generation);
    assert(s.subrange(n, n_end) =~= number);
    let cap = u32::MAX + 1;
    reveal_with_fuel(tens, 11);
    lemma_tens(number.len() as int, 9);
    lemma_tens(generation.len() as int, 9);
    lemma_leading_spells(number, number.len() as int, cap);
    lemma_leading_spells(generation, generation.len() as int, cap);
}

} // verus!
