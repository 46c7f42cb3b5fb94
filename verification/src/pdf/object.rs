//! The PDF object model.

use vstd::prelude::*;

use crate::pdf::num::Num;
use crate::text::same;

verus! {

/// A PDF object. Dictionaries keep insertion order.
#[derive(Debug, PartialEq)]
pub enum Obj {
    Null,
    Bool(bool),
    Number(Num),
    /// A literal `(..)` or hex `<..>` string, as raw bytes.
    Str(Vec<u8>),
    Name(String),
    Array(Vec<Obj>),
    Dict(Dict),
    /// A stream: its dictionary and the still-encoded bytes.
    Stream { dict: Dict, data: Vec<u8> },
    /// An indirect reference `N G R`.
    Ref(u32),
}

/// A PDF dictionary: ordered key/value pairs.
pub type Dict = Vec<(String, Obj)>;

/// What a PDF object is.
pub enum ObjView {
    Null,
    Bool(bool),
    Number(Num),
    Str(Seq<u8>),
    Name(Seq<char>),
    Array(Seq<ObjView>),
    Dict(Seq<(Seq<char>, ObjView)>),
    Stream { dict: Seq<(Seq<char>, ObjView)>, data: Seq<u8> },
    Ref(u32),
}

/// What a PDF dictionary is.
pub type DictView = Seq<(Seq<char>, ObjView)>;

impl Obj {
    pub open spec fn view(&self) -> ObjView
        decreases self,
    {
        match *self {
            Obj::Null => ObjView::Null,
            Obj::Bool(b) => ObjView::Bool(b),
            Obj::Number(n) => ObjView::Number(n),
            Obj::Str(s) => ObjView::Str(s@),
            Obj::Name(n) => ObjView::Name(n@),
            Obj::Array(a) => ObjView::Array(items_view(a@)),
            Obj::Dict(d) => ObjView::Dict(dict_view(d@)),
            Obj::Stream { dict, data } => ObjView::Stream { dict: dict_view(dict@), data: data@ },
            Obj::Ref(n) => ObjView::Ref(n),
        }
    }
}

/// What a list of objects is.
pub open spec fn items_view(a: Seq<Obj>) -> Seq<ObjView>
    decreases a,
{
    if a.len() == 0 {
        Seq::empty()
    } else {
        items_view(a.drop_last()).push(a.last().view())
    }
}

/// What a list of dictionary entries is.
pub open spec fn dict_view(d: Seq<(String, Obj)>) -> DictView
    decreases d,
{
    if d.len() == 0 {
        Seq::empty()
    } else {
        dict_view(d.drop_last()).push((d.last().0@, d.last().1.view()))
    }
}

pub proof fn lemma_items_view(a: Seq<Obj>)
    ensures
        items_view(a).len() == a.len(),
        forall|i: int| 0 <= i < a.len() ==> (#[trigger] items_view(a)[i]) == a[i]@,
    decreases a.len(),
{
    if a.len() > 0 {
        lemma_items_view(a.drop_last());
    }
}

pub proof fn lemma_dict_view(d: Seq<(String, Obj)>)
    ensures
        dict_view(d).len() == d.len(),
        forall|i: int| 0 <= i < d.len() ==> (#[trigger] dict_view(d)[i]) == (d[i].0@, d[i].1@),
    decreases d.len(),
{
    if d.len() > 0 {
        lemma_dict_view(d.drop_last());
    }
}

pub proof fn lemma_items_push(a: Seq<Obj>, o: Obj)
    ensures
        items_view(a.push(o)) == items_view(a).push(o@),
{
    assert(a.push(o).drop_last() =~= a);
}

pub proof fn lemma_dict_push(d: Seq<(String, Obj)>, e: (String, Obj))
    ensures
        dict_view(d.push(e)) == dict_view(d).push((e.0@, e.1@)),
{
    assert(d.push(e).drop_last() =~= d);
}

pub open spec fn opt_view(o: Option<Obj>) -> Option<ObjView> {
    match o {
        Some(o) => Some(o@),
        None => None,
    }
}

pub open spec fn opt_ref_view(o: Option<&Obj>) -> Option<ObjView> {
    match o {
        Some(o) => Some(o@),
        None => None,
    }
}

/// The value of the first entry under `key`, looking from entry `i` on.
pub open spec fn lookup_from(d: DictView, key: Seq<char>, i: int) -> Option<ObjView>
    decreases d.len() - i,
{
    if i < 0 || i >= d.len() {
        None
    } else if d[i].0 == key {
        Some(d[i].1)
    } else {
        lookup_from(d, key, i + 1)
    }
}

/// The value of the first entry under `key`.
pub open spec fn lookup(d: DictView, key: Seq<char>) -> Option<ObjView> {
    lookup_from(d, key, 0)
}

impl ObjView {
    /// The dictionary of a dictionary or a stream.
    pub open spec fn dict(self) -> Option<DictView> {
        match self {
            ObjView::Dict(d) => Some(d),
            ObjView::Stream { dict, data } => Some(dict),
            _ => None,
        }
    }

    /// The entry under `key`, of a dictionary or a stream.
    pub open spec fn get(self, key: Seq<char>) -> Option<ObjView> {
        match self.dict() {
            Some(d) => lookup(d, key),
            None => None,
        }
    }
}

/// Look up `key` in a dictionary: the first entry under it.
pub fn get<'a>(dict: &'a Dict, key: &str) -> (r: Option<&'a Obj>)
    ensures
        opt_ref_view(r) == lookup(dict_view(dict@), key@),
{
    proof {
        lemma_dict_view(dict@);
    }
    let mut i: usize = 0;
    while i < dict.len()
        invariant
            i <= dict.len(),
            dict_view(dict@).len() == dict@.len(),
            forall|k: int|
                0 <= k < dict@.len() ==> (#[trigger] dict_view(dict@)[k]) == (
                    dict@[k].0@,
                    dict@[k].1@,
                ),
            lookup(dict_view(dict@), key@) == lookup_from(dict_view(dict@), key@, i as int),
        decreases dict.len() - i,
    {
        if same(dict[i].0.as_str(), key) {
            return Some(&dict[i].1);
        }
        i += 1;
    }
    None
}

impl Obj {
    pub fn as_num(&self) -> (r: Option<Num>)
        ensures
            r == (match self@ {
                ObjView::Number(n) => Some(n),
                _ => None,
            }),
    {
        match self {
            Obj::Number(n) => Some(*n),
            _ => None,
        }
    }

    pub fn as_name(&self) -> (r: Option<&str>)
        ensures
            match r {
                Some(n) => self@ == ObjView::Name(n@),
                None => !(self@ is Name),
            },
    {
        match self {
            Obj::Name(n) => Some(n.as_str()),
            _ => None,
        }
    }

    /// The object's dictionary, whether it is a bare dictionary or a stream.
    pub fn dict(&self) -> (r: Option<&Dict>)
        ensures
            match r {
                Some(d) => self@.dict() == Some(dict_view(d@)),
                None => self@.dict() is None,
            },
    {
        match self {
            Obj::Dict(d) => Some(d),
            Obj::Stream { dict, .. } => Some(dict),
            _ => None,
        }
    }

    /// The entry under `key`, of a dictionary or a stream.
    pub fn get(&self, key: &str) -> (r: Option<&Obj>)
        ensures
            opt_ref_view(r) == self@.get(key@),
    {
        match self.dict() {
            Some(d) => get(d, key),
            None => None,
        }
    }
}

/// A copy of a list of objects.
pub fn copy_items(a: &Vec<Obj>) -> (r: Vec<Obj>)
    ensures
        items_view(r@) == items_view(a@),
    decreases a,
{
    proof {
        lemma_items_view(a@);
    }
    let ghost v = items_view(a@);
    let mut r: Vec<Obj> = Vec::new();
    let mut i: usize = 0;
    while i < a.len()
        invariant
            i <= a.len(),
            v == items_view(a@),
            v.len() == a@.len(),
            forall|k: int| 0 <= k < a@.len() ==> (#[trigger] v[k]) == a@[k]@,
            items_view(r@) == v.take(i as int),
        decreases a.len() - i,
    {
        let o: Obj = a[i].copy();
        proof {
            lemma_items_push(r@, o);
        }
        assert(v[i as int] == a@[i as int]@);
        r.push(o);
        i += 1;
        assert(v.take(i as int) =~= v.take(i - 1).push(v[i - 1]));
    }
    assert(v.take(i as int) =~= v);
    r
}

/// A copy of a dictionary.
pub fn copy_dict(d: &Dict) -> (r: Dict)
    ensures
        dict_view(r@) == dict_view(d@),
    decreases d,
{
    proof {
        lemma_dict_view(d@);
    }
    let ghost v = dict_view(d@);
    let mut r: Dict = Vec::new();
    let mut i: usize = 0;
    while i < d.len()
        invariant
            i <= d.len(),
            v == dict_view(d@),
            v.len() == d@.len(),
            forall|k: int| 0 <= k < d@.len() ==> (#[trigger] v[k]) == (d@[k].0@, d@[k].1@),
            dict_view(r@) == v.take(i as int),
        decreases d.len() - i,
    {
        let key: String = d[i].0.clone();
        let o: Obj = d[i].1.copy();
        proof {
            lemma_dict_push(r@, (key, o));
        }
        assert(v[i as int] == (d@[i as int].0@, d@[i as int].1@));
        r.push((key, o));
        i += 1;
        assert(v.take(i as int) =~= v.take(i - 1).push(v[i - 1]));
    }
    assert(v.take(i as int) =~= v);
    r
}

impl Obj {
    /// A copy of the object.
    pub fn copy(&self) -> (r: Obj)
        ensures
            r@ == self@,
        decreases self,
    {
        match self {
            Obj::Null => Obj::Null,
            Obj::Bool(b) => Obj::Bool(*b),
            Obj::Number(n) => Obj::Number(*n),
            Obj::Str(s) => Obj::Str(vstd::slice::slice_to_vec(s.as_slice())),
            Obj::Name(n) => Obj::Name(n.clone()),
            Obj::Array(a) => Obj::Array(copy_items(a)),
            Obj::Dict(d) => Obj::Dict(copy_dict(d)),
            Obj::Stream { dict, data } => Obj::Stream {
                dict: copy_dict(dict),
                data: vstd::slice::slice_to_vec(data.as_slice()),
            },
            Obj::Ref(n) => Obj::Ref(*n),
        }
    }
}

} // verus!
