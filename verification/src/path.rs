//! File paths as text: components with a `/` between them, and a `/` in front where the path is
//! absolute. Two texts are the same path where their components are the same: an empty component and
//! a `.` do not count, but for a `.` that a path starts with.

use vstd::prelude::*;

use crate::text::{chars_of, string_of, texts_of};

verus! {

/// The last place below `n` that holds the character, or -1.
pub open spec fn last_before(s: Seq<char>, c: char, n: int) -> int
    decreases n,
{
    if n <= 0 {
        -1
    } else if s[n - 1] == c {
        n - 1
    } else {
        last_before(s, c, n - 1)
    }
}

/// The last place that holds the character, or -1.
pub open spec fn last_of(s: Seq<char>, c: char) -> int {
    last_before(s, c, s.len() as int)
}

pub proof fn lemma_last_before(s: Seq<char>, c: char, n: int)
    requires
        0 <= n <= s.len(),
    ensures
        -1 <= last_before(s, c, n) < n,
        last_before(s, c, n) >= 0 ==> s[last_before(s, c, n)] == c,
        forall|k: int| last_before(s, c, n) < k < n ==> s[k] != c,
    decreases n,
{
    if n > 0 && s[n - 1] != c {
        lemma_last_before(s, c, n - 1);
    }
}

/// Where the character stands last, one more than the place; 0 where it stands nowhere.
pub fn after_last(s: &Vec<char>, c: char) -> (r: usize)
    ensures
        r == last_of(s@, c) + 1,
        r <= s@.len(),
{
    proof {
        lemma_last_before(s@, c, s@.len() as int);
    }
    let mut n: usize = s.len();
    while n > 0 && s[n - 1] != c
        invariant
            n <= s.len(),
            last_of(s@, c) == last_before(s@, c, n as int),
        decreases n,
    {
        n -= 1;
    }
    n
}

/// Where the first `n` characters of a path end without the `/` and `/.` behind their last component.
pub open spec fn tail_end(s: Seq<char>, n: int) -> int
    decreases n,
{
    if n > 1 && (s[n - 1] == '/' || (s[n - 1] == '.' && s[n - 2] == '/')) {
        tail_end(s, n - 1)
    } else {
        n
    }
}

/// The last component; none of a path that has no component, and none where it leads nowhere or
/// upwards.
pub open spec fn name_of(path: Seq<char>) -> Option<Seq<char>> {
    let e = tail_end(path, path.len() as int);
    let name = path.subrange(last_before(path, '/', e) + 1, e);
    if name.len() == 0 || name == seq!['.'] || name == seq!['.', '.'] {
        None
    } else {
        Some(name)
    }
}

/// The path without its last component; none where there is no component.
pub open spec fn parent_of(path: Seq<char>) -> Option<Seq<char>> {
    let e = tail_end(path, path.len() as int);
    let i = last_before(path, '/', e);
    if i + 1 >= e {
        None
    } else if i < 0 {
        Some(Seq::empty())
    } else {
        Some(path.take(tail_end(path, i + 1)))
    }
}

/// The path of `name` in `dir`.
pub open spec fn joined(dir: Seq<char>, name: Seq<char>) -> Seq<char> {
    if name.len() > 0 && name[0] == '/' {
        name
    } else if dir.len() == 0 || dir.last() == '/' {
        dir + name
    } else {
        dir.push('/') + name
    }
}

/// Where the component that is read at `i` ends.
pub open spec fn piece_end(s: Seq<char>, i: int) -> int
    decreases s.len() - i,
{
    if i >= s.len() || s[i] == '/' {
        i
    } else {
        piece_end(s, i + 1)
    }
}

/// Where the next component that counts starts.
pub open spec fn next_piece(s: Seq<char>, i: int) -> int
    decreases s.len() - i,
{
    if i < s.len() && (s[i] == '/' || (s[i] == '.' && (i + 1 == s.len() || s[i + 1] == '/'))) {
        next_piece(s, i + 1)
    } else {
        i
    }
}

/// How a path starts.
pub enum Head {
    /// With the `/` of an absolute path.
    Root,
    /// With a `.`, which counts here.
    Here,
    /// With a component of another kind, or not at all.
    Plain,
}

pub open spec fn head(s: Seq<char>) -> Head {
    if s.len() > 0 && s[0] == '/' {
        Head::Root
    } else if s.len() > 0 && s[0] == '.' && (s.len() == 1 || s[1] == '/') {
        Head::Here
    } else {
        Head::Plain
    }
}

pub proof fn lemma_piece(s: Seq<char>, i: int)
    requires
        0 <= i <= s.len(),
    ensures
        i <= piece_end(s, i) <= s.len(),
        i <= next_piece(s, i) <= s.len(),
        next_piece(s, i) < s.len() ==> piece_end(s, next_piece(s, i)) > next_piece(s, i),
        next_piece(s, i) < s.len() ==> piece_end(s, next_piece(s, i)) <= s.len(),
        piece_end(s, i) < s.len() ==> s[piece_end(s, i)] == '/',
    decreases s.len() - i,
{
    if i < s.len() {
        lemma_piece(s, i + 1);
    }
}

/// What is left of a path from `j` on behind the components of `root` from `i` on; none where they
/// differ.
pub open spec fn stripped(root: Seq<char>, i: int, path: Seq<char>, j: int) -> Option<Seq<char>>
    decreases root.len() - i,
{
    let a = next_piece(root, i);
    let b = next_piece(path, j);
    if i < 0 || a >= root.len() {
        Some(
            if b < path.len() {
                path.subrange(b, tail_end(path, path.len() as int))
            } else {
                Seq::empty()
            },
        )
    } else if b >= path.len() || root.subrange(a, piece_end(root, a)) != path.subrange(
        b,
        piece_end(path, b),
    ) {
        None
    } else {
        proof {
            lemma_piece(root, i);
        }
        stripped(root, piece_end(root, a), path, piece_end(path, b))
    }
}

/// The rest of a path below `root`; none where it does not start with the root's components.
pub open spec fn below(root: Seq<char>, path: Seq<char>) -> Option<Seq<char>> {
    if root.len() == 0 {
        Some(path.take(tail_end(path, path.len() as int)))
    } else if head(root) != head(path) {
        None
    } else {
        stripped(root, 0, path, 0)
    }
}

/// A path as it is shown: its rest below the root, or all of it.
pub open spec fn shown(root: Seq<char>, path: Seq<char>) -> Seq<char> {
    match below(root, path) {
        Some(rest) => rest,
        None => path,
    }
}

/// What follows the last dot of a name; none where there is no dot but the first character.
pub open spec fn extension_of(name: Seq<char>) -> Option<Seq<char>> {
    let i = last_of(name, '.');
    if i <= 0 {
        None
    } else {
        Some(name.skip(i + 1))
    }
}

/// A component in the order of paths: `..` comes before every name, and the end of a component
/// before every character.
pub open spec fn piece_key(piece: Seq<char>) -> Seq<u64> {
    if piece == seq!['.', '.'] {
        seq![3u64, 1u64]
    } else {
        seq![4u64] + piece.map_values(|c: char| (c as u32 as u64 + 5) as u64) + seq![1u64]
    }
}

/// The components from `i` on.
pub open spec fn keys_from(s: Seq<char>, i: int) -> Seq<u64>
    decreases s.len() - i,
{
    let a = next_piece(s, i);
    if i < 0 || a >= s.len() {
        Seq::empty()
    } else {
        proof {
            lemma_piece(s, i);
        }
        piece_key(s.subrange(a, piece_end(s, a))) + keys_from(s, piece_end(s, a))
    }
}

/// What a path starts with, in the order of paths.
pub open spec fn head_key(s: Seq<char>) -> Seq<u64> {
    match head(s) {
        Head::Root => seq![0u64],
        Head::Here => seq![2u64, 1u64],
        Head::Plain => Seq::empty(),
    }
}

/// A path's components, one behind the other. Two texts with the same key are the same path.
pub open spec fn path_key(s: Seq<char>) -> Seq<u64> {
    head_key(s) + keys_from(s, 0)
}

/// Whether two texts are the same path.
pub open spec fn same_path(a: Seq<char>, b: Seq<char>) -> bool {
    path_key(a) == path_key(b)
}

/// The keys of paths.
pub open spec fn path_keys(v: Seq<Seq<char>>) -> Seq<Seq<u64>> {
    v.map_values(|s: Seq<char>| path_key(s))
}

/// Whether a key comes before another, place by place, and what is shorter first.
pub open spec fn key_before(a: Seq<u64>, b: Seq<u64>) -> bool
    decreases a.len(),
{
    if b.len() == 0 {
        false
    } else if a.len() == 0 {
        true
    } else if a[0] != b[0] {
        a[0] < b[0]
    } else {
        key_before(a.skip(1), b.skip(1))
    }
}

/// Whether a path comes before another, component by component.
pub open spec fn before(a: Seq<char>, b: Seq<char>) -> bool {
    key_before(path_key(a), path_key(b))
}

proof fn lemma_keys_are_ordered(a: Seq<u64>, b: Seq<u64>)
    ensures
        !key_before(a, a),
        key_before(a, b) ==> !key_before(b, a),
        a != b ==> key_before(a, b) || key_before(b, a),
    decreases a.len(),
{
    if a.len() > 0 {
        lemma_keys_are_ordered(a.skip(1), a.skip(1));
    }
    if a.len() > 0 && b.len() > 0 {
        lemma_keys_are_ordered(a.skip(1), b.skip(1));
        if a != b && a[0] == b[0] {
            assert(a =~= seq![a[0]] + a.skip(1));
            assert(b =~= seq![b[0]] + b.skip(1));
        }
    } else if a.len() == 0 && b.len() == 0 {
        assert(a =~= b);
    }
}

/// Of two different paths one comes before the other, and not both.
pub proof fn paths_are_ordered(a: Seq<char>, b: Seq<char>)
    ensures
        same_path(a, b) ==> !before(a, b),
        before(a, b) ==> !before(b, a),
        !same_path(a, b) ==> before(a, b) || before(b, a),
{
    lemma_keys_are_ordered(path_key(a), path_key(b));
}

proof fn lemma_keys_trans(a: Seq<u64>, b: Seq<u64>, c: Seq<u64>)
    requires
        key_before(a, b),
        key_before(b, c),
    ensures
        key_before(a, c),
    decreases a.len(),
{
    if a.len() > 0 && a[0] == b[0] && b[0] == c[0] {
        lemma_keys_trans(a.skip(1), b.skip(1), c.skip(1));
    }
}

/// The order of paths is transitive.
pub proof fn lemma_before_trans(a: Seq<char>, b: Seq<char>, c: Seq<char>)
    requires
        before(a, b),
        before(b, c),
    ensures
        before(a, c),
{
    lemma_keys_trans(path_key(a), path_key(b), path_key(c));
}

/// Where the component that is read at `i` ends.
fn end_of_piece(cs: &Vec<char>, i: usize) -> (r: usize)
    requires
        i <= cs@.len(),
    ensures
        r == piece_end(cs@, i as int),
        i <= r <= cs@.len(),
{
    let mut k: usize = i;
    while k < cs.len() && cs[k] != '/'
        invariant
            i <= k <= cs.len(),
            piece_end(cs@, i as int) == piece_end(cs@, k as int),
        decreases cs.len() - k,
    {
        k += 1;
    }
    k
}

/// Where the next component that counts starts.
fn start_of_piece(cs: &Vec<char>, i: usize) -> (r: usize)
    requires
        i <= cs@.len(),
    ensures
        r == next_piece(cs@, i as int),
        i <= r <= cs@.len(),
        r < cs@.len() ==> piece_end(cs@, r as int) > r,
{
    let mut k: usize = i;
    proof {
        lemma_piece(cs@, i as int);
    }
    while k < cs.len() && (cs[k] == '/' || (cs[k] == '.' && (k + 1 == cs.len() || cs[k + 1]
        == '/')))
        invariant
            i <= k <= cs.len(),
            next_piece(cs@, i as int) == next_piece(cs@, k as int),
        decreases cs.len() - k,
    {
        k += 1;
    }
    k
}

/// How a path starts.
fn head_of(cs: &Vec<char>) -> (r: Head)
    ensures
        r == head(cs@),
{
    if cs.len() > 0 && cs[0] == '/' {
        Head::Root
    } else if cs.len() > 0 && cs[0] == '.' && (cs.len() == 1 || cs[1] == '/') {
        Head::Here
    } else {
        Head::Plain
    }
}

/// A component in the order of paths, behind others.
fn push_piece(out: &mut Vec<u64>, cs: &Vec<char>, a: usize, e: usize)
    requires
        a <= e <= cs@.len(),
    ensures
        final(out)@ == old(out)@ + piece_key(cs@.subrange(a as int, e as int)),
{
    let ghost piece = cs@.subrange(a as int, e as int);
    if e - a == 2 && cs[a] == '.' && cs[a + 1] == '.' {
        assert(piece =~= seq!['.', '.']);
        out.push(3);
        out.push(1);
        assert(out@ =~= old(out)@ + piece_key(piece));
        return;
    }
    assert(piece == seq!['.', '.'] ==> piece.len() == 2 && piece[0] == '.' && piece[1] == '.');
    let ghost start = out@.push(4);
    out.push(4);
    let mut k: usize = a;
    while k < e
        invariant
            a <= k <= e <= cs@.len(),
            piece == cs@.subrange(a as int, e as int),
            out@.len() == start.len() + k - a,
            forall|m: int| 0 <= m < start.len() ==> out@[m] == start[m],
            forall|m: int|
                0 <= m < k - a ==> #[trigger] out@[start.len() + m] == (piece[m] as u32 as u64 + 5)
                    as u64,
        decreases e - k,
    {
        let c: char = cs[k];
        assert(piece[k - a] == c);
        out.push(c as u32 as u64 + 5);
        k += 1;
    }
    out.push(1);
    proof {
        let want = old(out)@ + piece_key(piece);
        let mid = piece.map_values(|c: char| (c as u32 as u64 + 5) as u64);
        assert forall|m: int| 0 <= m < want.len() implies out@[m] == want[m] by {
            let at = m - start.len();
            if 0 <= at < piece.len() {
                assert(out@[start.len() + at] == (piece[at] as u32 as u64 + 5) as u64);
                assert(mid[at] == (piece[at] as u32 as u64 + 5) as u64);
                assert(want[m] == mid[at]);
            } else if at < 0 {
                assert(out@[m] == start[m]);
            }
        }
        assert(out@ =~= want);
    }
}

/// A path's components, one behind the other.
pub fn key_of(path: &str) -> (r: Vec<u64>)
    ensures
        r@ == path_key(path@),
{
    let cs: Vec<char> = chars_of(path);
    let mut out: Vec<u64> = Vec::new();
    match head_of(&cs) {
        Head::Root => {
            out.push(0);
        },
        Head::Here => {
            out.push(2);
            out.push(1);
        },
        Head::Plain => {},
    }
    assert(out@ =~= head_key(path@));
    let mut i: usize = 0;
    let mut a: usize = start_of_piece(&cs, 0);
    while a < cs.len()
        invariant
            i <= cs.len(),
            cs@ == path@,
            a == next_piece(cs@, i as int),
            a < cs@.len() ==> piece_end(cs@, a as int) > a,
            out@ + keys_from(path@, i as int) == path_key(path@),
        decreases cs.len() - a,
    {
        let e: usize = end_of_piece(&cs, a);
        let ghost had = out@;
        push_piece(&mut out, &cs, a, e);
        let ghost piece = piece_key(path@.subrange(a as int, e as int));
        i = e;
        a = start_of_piece(&cs, e);
        assert(out@ + keys_from(path@, e as int) =~= had + (piece + keys_from(path@, e as int)));
    }
    assert(out@ + keys_from(path@, i as int) =~= out@);
    out
}

/// Whether two texts are the same path.
pub fn is_same_path(a: &str, b: &str) -> (r: bool)
    ensures
        r == same_path(a@, b@),
{
    let x: Vec<u64> = key_of(a);
    let y: Vec<u64> = key_of(b);
    if x.len() != y.len() {
        return false;
    }
    let mut i: usize = 0;
    while i < x.len()
        invariant
            i <= x.len() == y.len(),
            x@ == path_key(a@),
            y@ == path_key(b@),
            forall|k: int| 0 <= k < i ==> x@[k] == y@[k],
        decreases x.len() - i,
    {
        if x[i] != y[i] {
            assert(x@[i as int] != y@[i as int]);
            return false;
        }
        i += 1;
    }
    assert(x@ =~= y@);
    true
}

/// Whether a path is among others.
pub fn has_path(v: &Vec<String>, s: &str) -> (r: bool)
    ensures
        r == path_keys(texts_of(v@)).to_set().contains(path_key(s@)),
{
    let ghost keys = path_keys(texts_of(v@));
    let mut i: usize = 0;
    while i < v.len()
        invariant
            i <= v.len(),
            keys == path_keys(texts_of(v@)),
            forall|k: int| 0 <= k < i ==> (#[trigger] keys[k]) != path_key(s@),
        decreases v.len() - i,
    {
        assert(keys[i as int] == path_key(v@[i as int]@));
        if is_same_path(v[i].as_str(), s) {
            assert(keys.contains(path_key(s@)));
            return true;
        }
        i += 1;
    }
    assert(!keys.contains(path_key(s@)));
    false
}

/// Whether a path comes before another.
pub fn is_before(a: &str, b: &str) -> (r: bool)
    ensures
        r == before(a@, b@),
{
    let x: Vec<u64> = key_of(a);
    let y: Vec<u64> = key_of(b);
    let mut i: usize = 0;
    assert(x@.skip(0) =~= x@);
    assert(y@.skip(0) =~= y@);
    while i < x.len() && i < y.len() && x[i] == y[i]
        invariant
            i <= x.len(),
            i <= y.len(),
            x@ == path_key(a@),
            y@ == path_key(b@),
            before(a@, b@) == key_before(x@.skip(i as int), y@.skip(i as int)),
        decreases x.len() - i,
    {
        assert(x@.skip(i as int).skip(1) =~= x@.skip(i + 1));
        assert(y@.skip(i as int).skip(1) =~= y@.skip(i + 1));
        i += 1;
    }
    proof {
        if i < x.len() && i < y.len() {
            assert(x@.skip(i as int)[0] == x@[i as int]);
            assert(y@.skip(i as int)[0] == y@[i as int]);
        }
    }
    if i >= y.len() {
        false
    } else if i >= x.len() {
        true
    } else {
        x[i] < y[i]
    }
}

/// Where the first `n` characters of a path end without what stands behind their last component.
fn end_of_tail(cs: &Vec<char>, n: usize) -> (r: usize)
    requires
        n <= cs@.len(),
    ensures
        r == tail_end(cs@, n as int),
        r <= n,
{
    let mut k: usize = n;
    while k > 1 && (cs[k - 1] == '/' || (cs[k - 1] == '.' && cs[k - 2] == '/'))
        invariant
            k <= n <= cs@.len(),
            tail_end(cs@, n as int) == tail_end(cs@, k as int),
        decreases k,
    {
        k -= 1;
    }
    k
}

/// One more than the last place below `n` that holds a `/`; 0 where none does.
fn after_separator(cs: &Vec<char>, n: usize) -> (r: usize)
    requires
        n <= cs@.len(),
    ensures
        r == last_before(cs@, '/', n as int) + 1,
        r <= n,
{
    let mut k: usize = n;
    while k > 0 && cs[k - 1] != '/'
        invariant
            k <= n <= cs@.len(),
            last_before(cs@, '/', n as int) == last_before(cs@, '/', k as int),
        decreases k,
    {
        k -= 1;
    }
    k
}

/// The last component.
pub fn file_name(path: &str) -> (r: Option<String>)
    ensures
        match r {
            Some(name) => name_of(path@) == Some(name@),
            None => name_of(path@) is None,
        },
{
    let cs: Vec<char> = chars_of(path);
    let e: usize = end_of_tail(&cs, cs.len());
    let i: usize = after_separator(&cs, e);
    let ghost name = path@.subrange(i as int, e as int);
    if i == e {
        return None;
    }
    if e - i == 1 && cs[i] == '.' {
        assert(name =~= seq!['.']);
        return None;
    }
    if e - i == 2 && cs[i] == '.' && cs[i + 1] == '.' {
        assert(name =~= seq!['.', '.']);
        return None;
    }
    let r: String = string_of(cs.as_slice(), i, e);
    assert(r@ =~= name);
    assert(name == seq!['.'] ==> name.len() == 1 && name[0] == '.');
    assert(name == seq!['.', '.'] ==> name.len() == 2 && name[0] == '.' && name[1] == '.');
    Some(r)
}

/// The last component, or nothing.
pub open spec fn name_or_empty(path: Seq<char>) -> Seq<char> {
    match name_of(path) {
        Some(name) => name,
        None => Seq::empty(),
    }
}

/// The last component, or nothing.
pub fn file_name_or_empty(path: &str) -> (r: String)
    ensures
        r@ == name_or_empty(path@),
{
    match file_name(path) {
        Some(name) => name,
        None => {
            let r: String = String::new();
            assert(r@ =~= Seq::empty());
            r
        },
    }
}

/// The path without its last component.
pub fn parent(path: &str) -> (r: Option<String>)
    ensures
        match r {
            Some(p) => parent_of(path@) == Some(p@),
            None => parent_of(path@) is None,
        },
{
    let cs: Vec<char> = chars_of(path);
    let e: usize = end_of_tail(&cs, cs.len());
    let i: usize = after_separator(&cs, e);
    if i >= e {
        return None;
    }
    let end: usize = end_of_tail(&cs, i);
    let r: String = string_of(cs.as_slice(), 0, end);
    assert(r@ =~= path@.take(end as int));
    assert(i == 0 ==> r@ =~= Seq::empty());
    Some(r)
}

/// The path of `name` in `dir`.
pub fn join(dir: &str, name: &str) -> (r: String)
    ensures
        r@ == joined(dir@, name@),
{
    let d: Vec<char> = chars_of(dir);
    let n: Vec<char> = chars_of(name);
    if n.len() > 0 && n[0] == '/' {
        return name.to_owned();
    }
    let mut r: String = dir.to_owned();
    if d.len() > 0 && d[d.len() - 1] != '/' {
        r.push('/');
    }
    r.push_str(name);
    r
}

/// The rest of a path below `root`.
pub fn strip_prefix(root: &str, path: &str) -> (r: Option<String>)
    ensures
        match r {
            Some(rest) => below(root@, path@) == Some(rest@),
            None => below(root@, path@) is None,
        },
{
    let a: Vec<char> = chars_of(root);
    let b: Vec<char> = chars_of(path);
    let end: usize = end_of_tail(&b, b.len());
    if a.len() == 0 {
        let r: String = string_of(b.as_slice(), 0, end);
        assert(r@ =~= path@.take(end as int));
        return Some(r);
    }
    let same_head: bool = match (head_of(&a), head_of(&b)) {
        (Head::Root, Head::Root) => true,
        (Head::Here, Head::Here) => true,
        (Head::Plain, Head::Plain) => true,
        _ => false,
    };
    if !same_head {
        return None;
    }
    let mut at: usize = 0;
    let mut to: usize = 0;
    loop
        invariant
            at <= a@.len(),
            to <= b@.len(),
            a@ == root@,
            b@ == path@,
            end == tail_end(b@, b@.len() as int),
            end <= b@.len(),
            below(root@, path@) == stripped(a@, at as int, b@, to as int),
        decreases a.len() - at,
    {
        let i: usize = start_of_piece(&a, at);
        let j: usize = start_of_piece(&b, to);
        if i >= a.len() {
            if j >= b.len() {
                let r: String = String::new();
                assert(r@ =~= Seq::empty());
                return Some(r);
            }
            proof {
                lemma_piece(b@, to as int);
                lemma_tail_end(b@, to as int, b@.len() as int);
            }
            let r: String = string_of(b.as_slice(), j, end);
            assert(r@ =~= path@.subrange(j as int, end as int));
            return Some(r);
        }
        if j >= b.len() {
            return None;
        }
        let ei: usize = end_of_piece(&a, i);
        let ej: usize = end_of_piece(&b, j);
        if !same_piece(&a, i, ei, &b, j, ej) {
            return None;
        }
        at = ei;
        to = ej;
    }
}

/// Whether two stretches hold the same characters.
fn same_piece(a: &Vec<char>, i: usize, ei: usize, b: &Vec<char>, j: usize, ej: usize) -> (r: bool)
    requires
        i <= ei <= a@.len(),
        j <= ej <= b@.len(),
    ensures
        r == (a@.subrange(i as int, ei as int) == b@.subrange(j as int, ej as int)),
{
    let ghost x = a@.subrange(i as int, ei as int);
    let ghost y = b@.subrange(j as int, ej as int);
    if ei - i != ej - j {
        assert(x.len() != y.len());
        return false;
    }
    let mut k: usize = 0;
    while k < ei - i
        invariant
            i <= ei <= a@.len(),
            j <= ej <= b@.len(),
            ei - i == ej - j,
            k <= ei - i,
            x == a@.subrange(i as int, ei as int),
            y == b@.subrange(j as int, ej as int),
            forall|m: int| 0 <= m < k ==> x[m] == y[m],
        decreases ei - i - k,
    {
        if a[i + k] != b[j + k] {
            assert(x[k as int] != y[k as int]);
            return false;
        }
        k += 1;
    }
    assert(x =~= y);
    true
}

/// A component that counts is neither empty nor a `.`, and holds no `/`.
proof fn lemma_next_piece(s: Seq<char>, i: int)
    requires
        0 <= i <= s.len(),
    ensures
        ({
            let a = next_piece(s, i);
            a < s.len() ==> s[a] != '/' && !(s[a] == '.' && (a + 1 == s.len() || s[a + 1] == '/'))
        }),
    decreases s.len() - i,
{
    if i < s.len() {
        lemma_next_piece(s, i + 1);
    }
}

proof fn lemma_piece_end(s: Seq<char>, i: int)
    requires
        0 <= i <= s.len(),
    ensures
        i <= piece_end(s, i) <= s.len(),
        forall|k: int| i <= k < piece_end(s, i) ==> s[k] != '/',
    decreases s.len() - i,
{
    if i < s.len() && s[i] != '/' {
        lemma_piece_end(s, i + 1);
    }
}

/// A component that counts ends before the tail of the path does.
proof fn lemma_tail_end(s: Seq<char>, i: int, n: int)
    requires
        0 <= i <= s.len(),
        next_piece(s, i) < s.len(),
        piece_end(s, next_piece(s, i)) <= n <= s.len(),
    ensures
        next_piece(s, i) < piece_end(s, next_piece(s, i)) <= tail_end(s, n) <= n,
    decreases n,
{
    let a = next_piece(s, i);
    let e = piece_end(s, a);
    lemma_piece(s, i);
    lemma_next_piece(s, i);
    lemma_piece_end(s, a);
    lemma_piece(s, a);
    if n > e {
        if n > 1 && (s[n - 1] == '/' || (s[n - 1] == '.' && s[n - 2] == '/')) {
            lemma_tail_end(s, i, n - 1);
        }
    } else {
        assert(s[n - 1] != '/');
        if n > 1 && s[n - 1] == '.' && s[n - 2] == '/' {
            assert(n - 1 == a);
        }
    }
}

/// A path as it is shown.
pub fn show(root: &str, path: &str) -> (r: String)
    ensures
        r@ == shown(root@, path@),
{
    match strip_prefix(root, path) {
        Some(rest) => rest,
        None => path.to_owned(),
    }
}

/// What follows the last dot of a name.
pub fn extension(name: &str) -> (r: Option<String>)
    ensures
        match r {
            Some(e) => extension_of(name@) == Some(e@),
            None => extension_of(name@) is None,
        },
{
    let cs: Vec<char> = chars_of(name);
    let i: usize = after_last(&cs, '.');
    if i <= 1 {
        return None;
    }
    let r: String = string_of(cs.as_slice(), i, cs.len());
    assert(r@ =~= name@.skip(i as int));
    Some(r)
}

/// A path in `dir` and what it starts with go the same way.
proof fn lemma_in_dir(dir: Seq<char>, name: Seq<char>, i: int)
    requires
        0 <= i <= dir.len(),
        name.len() > 0,
        name != seq!['.'],
        !name.contains('/'),
    ensures
        stripped(dir, i, joined(dir, name), i) == Some(name) || dir.len() == 0,
    decreases dir.len() - i,
{
    let p = joined(dir, name);
    let n = dir.len() as int;
    if n > 0 {
        assert(name[0] != '/') by {
            assert(name.contains(name[0]));
        }
        let at = p.len() - name.len();
        assert(p.skip(at) =~= name);
        lemma_same_start(dir, name, i);
        lemma_piece(dir, i);
        let a = next_piece(dir, i);
        if a < n {
            lemma_piece_end(dir, a);
            lemma_same_end(dir, name, a);
            let e = piece_end(dir, a);
            assert(dir.subrange(a, e) =~= p.subrange(a, e));
            lemma_in_dir(dir, name, e);
        } else {
            lemma_whole_name(p, at);
            assert(p.subrange(at, p.len() as int) =~= name);
        }
    }
}

/// The last component of a path ends where the path does, and starts where it is read.
proof fn lemma_whole_name(p: Seq<char>, at: int)
    requires
        0 <= at < p.len(),
        at == 0 || p[at - 1] == '/',
        forall|k: int| at <= k < p.len() ==> p[k] != '/',
        p.skip(at) != seq!['.'],
    ensures
        tail_end(p, p.len() as int) == p.len(),
        next_piece(p, at) == at,
{
    let n = p.len() as int;
    if at + 1 == n && p[at] == '.' {
        assert(p.skip(at) =~= seq!['.']);
    }
    assert(p[n - 1] != '/');
}

proof fn lemma_same_start(dir: Seq<char>, name: Seq<char>, i: int)
    requires
        0 <= i <= dir.len(),
        0 < dir.len(),
        name.len() > 0,
        name != seq!['.'],
        !name.contains('/'),
    ensures
        next_piece(dir, i) < dir.len() ==> next_piece(joined(dir, name), i) == next_piece(dir, i),
        next_piece(dir, i) >= dir.len() ==> next_piece(joined(dir, name), i) == joined(
            dir,
            name,
        ).len() - name.len(),
    decreases dir.len() - i,
{
    let p = joined(dir, name);
    let n = dir.len() as int;
    let at = p.len() - name.len();
    assert(name[0] != '/') by {
        assert(name.contains(name[0]));
    }
    assert forall|k: int| at <= k < p.len() implies p[k] != '/' by {
        assert(name.contains(name[k - at]));
    }
    assert(p.skip(at) =~= name);
    if i < n {
        assert(p[i] == dir[i]);
        assert(i + 1 < n ==> p[i + 1] == dir[i + 1]);
        lemma_same_start(dir, name, i + 1);
    } else {
        lemma_whole_name(p, at);
    }
}

proof fn lemma_same_end(dir: Seq<char>, name: Seq<char>, i: int)
    requires
        0 <= i < dir.len(),
        dir[i] != '/',
        name.len() > 0,
        name[0] != '/',
    ensures
        piece_end(joined(dir, name), i) == piece_end(dir, i),
    decreases dir.len() - i,
{
    let p = joined(dir, name);
    let n = dir.len() as int;
    assert(p[i] == dir[i]);
    if i + 1 < n {
        assert(p[i + 1] == dir[i + 1]);
        if dir[i + 1] != '/' {
            lemma_same_end(dir, name, i + 1);
        } else {
            assert(piece_end(dir, i + 1) == i + 1);
            assert(piece_end(p, i + 1) == i + 1);
        }
    } else {
        assert(p[n] == '/');
        assert(piece_end(dir, n) == n);
        assert(piece_end(p, n) == n);
    }
}

proof fn lemma_same_tail(s: Seq<char>, p: Seq<char>, n: int)
    requires
        0 <= n <= s.len() <= p.len(),
        forall|k: int| 0 <= k < n ==> s[k] == p[k],
    ensures
        tail_end(s, n) == tail_end(p, n),
        0 <= tail_end(s, n) <= n,
    decreases n,
{
    if n > 1 {
        lemma_same_tail(s, p, n - 1);
    }
}

/// What a path is without its tail has no tail.
pub proof fn lemma_tail_once(s: Seq<char>, n: int)
    requires
        0 <= n <= s.len(),
    ensures
        0 <= tail_end(s, n) <= n,
        tail_end(s.take(tail_end(s, n)), tail_end(s, n)) == tail_end(s, n),
    decreases n,
{
    lemma_same_tail(s, s, n);
    if tail_end(s, n) < n {
        lemma_tail_once(s, n - 1);
    } else {
        lemma_same_tail(s.take(n), s, n);
    }
}

/// A path is below the directory that it is in: its rest there is its name, and without its name it
/// is the directory, as it is read without what stands behind its last component.
pub proof fn joined_names_read_back(dir: Seq<char>, name: Seq<char>)
    requires
        name.len() > 0,
        name != seq!['.'],
        name != seq!['.', '.'],
        !name.contains('/'),
    ensures
        name_of(joined(dir, name)) == Some(name),
        parent_of(joined(dir, name)) == Some(dir.take(tail_end(dir, dir.len() as int))),
        below(dir, joined(dir, name)) == Some(name),
{
    let p = joined(dir, name);
    let n = dir.len() as int;
    assert(name[0] != '/') by {
        assert(name.contains(name[0]));
    }
    let at = p.len() - name.len();
    assert forall|k: int| at <= k < p.len() implies p[k] != '/' by {
        assert(name.contains(name[k - at]));
    }
    assert(p.skip(at) =~= name);
    lemma_whole_name(p, at);
    if at > 0 {
        lemma_last_is(p, '/', at - 1, p.len() as int);
    } else {
        lemma_last_before(p, '/', p.len() as int);
    }
    assert(p.subrange(at, p.len() as int) =~= name);
    lemma_same_tail(dir, p, n);
    assert(p.take(tail_end(p, n)) =~= dir.take(tail_end(dir, n)));
    if n == 0 {
        assert(p.take(p.len() as int) =~= name);
        assert(dir.take(0) =~= Seq::empty());
    } else {
        assert(p[0] == dir[0]);
        assert(n > 1 ==> p[1] == dir[1]);
        lemma_in_dir(dir, name, 0);
    }
}

/// The last place that holds a character is the one that no such place follows.
pub proof fn lemma_last_is(s: Seq<char>, c: char, i: int, n: int)
    requires
        0 <= i < n <= s.len(),
        s[i] == c,
        forall|k: int| i < k < n ==> s[k] != c,
    ensures
        last_before(s, c, n) == i,
    decreases n,
{
    if n - 1 > i {
        lemma_last_is(s, c, i, n - 1);
    }
}

/// A name's extension is what follows its last dot; a name without a dot, or with none but in front,
/// has no extension.
pub proof fn an_extension_follows_the_last_dot(stem: Seq<char>, extension: Seq<char>)
    requires
        !extension.contains('.'),
    ensures
        stem.len() > 0 ==> extension_of(stem + seq!['.'] + extension) == Some(extension),
        extension_of(extension) is None,
        extension_of(seq!['.'] + extension) is None,
{
    assert(forall|k: int| 0 <= k < extension.len() ==> extension.contains(#[trigger] extension[k]));
    let name = stem + seq!['.'] + extension;
    let at = stem.len() as int;
    assert(name[at] == '.');
    assert(forall|k: int| at < k < name.len() ==> name[k] == extension[k - at - 1]);
    lemma_last_is(name, '.', at, name.len() as int);
    assert(name.skip(at + 1) =~= extension);
    lemma_last_before(extension, '.', extension.len() as int);
    let hidden = seq!['.'] + extension;
    assert(hidden[0] == '.');
    assert(forall|k: int| 0 < k < hidden.len() ==> hidden[k] == extension[k - 1]);
    lemma_last_is(hidden, '.', 0, hidden.len() as int);
}

} // verus!
