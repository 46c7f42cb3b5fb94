//! Stable sorting by keys, and the nearest of several numbers.

use vstd::prelude::*;

verus! {

/// Whether a key comes before another.
pub open spec fn key_less(a: (u64, u64), b: (u64, u64)) -> bool {
    a.0 < b.0 || (a.0 == b.0 && a.1 < b.1)
}

/// Where item `k` goes among the first `n` places of an order: behind all whose keys are no greater.
pub open spec fn place_for(keys: Seq<(u64, u64)>, s: Seq<usize>, k: int, n: int) -> int
    decreases n,
{
    if n <= 0 || !key_less(keys[k], keys[s[n - 1] as int]) {
        n
    } else {
        place_for(keys, s, k, n - 1)
    }
}

/// The first `n` items, by their keys; items with the same key keep their order.
pub open spec fn ordered(keys: Seq<(u64, u64)>, n: int) -> Seq<usize>
    decreases n,
{
    if n <= 0 {
        Seq::empty()
    } else {
        let s = ordered(keys, n - 1);
        s.insert(place_for(keys, s, n - 1, s.len() as int), (n - 1) as usize)
    }
}

/// Whether item `a` comes before item `b`: by its key, or by its place where the keys are the same.
pub open spec fn precedes(keys: Seq<(u64, u64)>, a: int, b: int) -> bool {
    key_less(keys[a], keys[b]) || (keys[a] == keys[b] && a < b)
}

/// Whether an order of the first `n` items is by key and place, with each item in it.
pub open spec fn is_order(keys: Seq<(u64, u64)>, s: Seq<usize>, n: int) -> bool {
    &&& s.len() == n
    &&& forall|i: int| 0 <= i < s.len() ==> (#[trigger] s[i]) < n
    &&& forall|i: int, j: int|
        #![trigger s[i], s[j]]
        0 <= i < j < s.len() ==> precedes(keys, s[i] as int, s[j] as int)
    &&& forall|k: int| 0 <= k < n ==> s.contains(#[trigger] (k as usize))
}

proof fn lemma_place_for(keys: Seq<(u64, u64)>, s: Seq<usize>, k: int, n: int)
    requires
        0 <= n <= s.len(),
        forall|i: int| 0 <= i < s.len() ==> (#[trigger] s[i]) < k,
        0 <= k < keys.len(),
        forall|i: int, j: int|
            #![trigger s[i], s[j]]
            0 <= i < j < s.len() ==> precedes(keys, s[i] as int, s[j] as int),
    ensures
        0 <= place_for(keys, s, k, n) <= n,
        forall|i: int|
            0 <= i < place_for(keys, s, k, n) ==> precedes(keys, (#[trigger] s[i]) as int, k),
        forall|i: int|
            place_for(keys, s, k, n) <= i < n ==> precedes(keys, k, (#[trigger] s[i]) as int),
    decreases n,
{
    if n > 0 {
        let last = s[n - 1] as int;
        if key_less(keys[k], keys[last]) {
            lemma_place_for(keys, s, k, n - 1);
        } else {
            assert(precedes(keys, last, k));
            assert forall|i: int| 0 <= i < n implies precedes(
                keys,
                (#[trigger] s[i]) as int,
                k,
            ) by {
                if i < n - 1 {
                    assert(precedes(keys, s[i] as int, s[n - 1] as int));
                }
            }
        }
    }
}

/// Sorting keeps every item, puts them in the order of their keys, and keeps the order of items with
/// the same key.
pub proof fn sorting_is_stable(keys: Seq<(u64, u64)>, n: int)
    requires
        0 <= n <= keys.len(),
        keys.len() <= usize::MAX,
    ensures
        is_order(keys, ordered(keys, n), n),
    decreases n,
{
    if n > 0 {
        sorting_is_stable(keys, n - 1);
        let s = ordered(keys, n - 1);
        let k = n - 1;
        lemma_place_for(keys, s, k, s.len() as int);
        let p = place_for(keys, s, k, s.len() as int);
        let t = s.insert(p, k as usize);
        assert forall|i: int, j: int|
            #![trigger t[i], t[j]]
            0 <= i < j < t.len() implies precedes(keys, t[i] as int, t[j] as int) by {
            let a = if i < p {
                i
            } else {
                i - 1
            };
            let b = if j < p {
                j
            } else {
                j - 1
            };
            if i == p {
                assert(t[j] == s[b]);
            } else if j == p {
                assert(t[i] == s[a]);
            } else {
                assert(t[i] == s[a] && t[j] == s[b]);
            }
        }
        assert forall|m: int| 0 <= m < n implies t.contains(#[trigger] (m as usize)) by {
            if m == k {
                assert(t[p] == k as usize);
            } else {
                assert(s.contains(m as usize));
                let i = choose|i: int| 0 <= i < s.len() && s[i] == m as usize;
                if i < p {
                    assert(t[i] == m as usize);
                } else {
                    assert(t[i + 1] == m as usize);
                }
            }
        }
    }
}

/// The items by their keys; items with the same key keep their order.
pub fn stable_order(keys: &Vec<(u64, u64)>) -> (r: Vec<usize>)
    ensures
        r@ == ordered(keys@, keys@.len() as int),
        is_order(keys@, r@, keys@.len() as int),
{
    let mut out: Vec<usize> = Vec::new();
    let mut k: usize = 0;
    assert(out@ =~= Seq::empty());
    while k < keys.len()
        invariant
            k <= keys.len(),
            out@ == ordered(keys@, k as int),
            out@.len() == k,
        decreases keys.len() - k,
    {
        proof {
            sorting_is_stable(keys@, k as int);
        }
        let (a, b): (u64, u64) = keys[k];
        let mut n: usize = out.len();
        while n > 0 && (a < keys[out[n - 1]].0 || (a == keys[out[n - 1]].0 && b < keys[out[n
            - 1]].1))
            invariant
                n <= out.len(),
                k < keys.len(),
                (a, b) == keys@[k as int],
                out@ == ordered(keys@, k as int),
                is_order(keys@, out@, k as int),
                place_for(keys@, out@, k as int, out@.len() as int) == place_for(
                    keys@,
                    out@,
                    k as int,
                    n as int,
                ),
            decreases n,
        {
            n -= 1;
        }
        out.insert(n, k);
        k += 1;
    }
    proof {
        sorting_is_stable(keys@, keys@.len() as int);
    }
    out
}

/// The least of the first `n` numbers that is greater than `at`.
pub open spec fn least_above(v: Seq<usize>, at: int, n: int) -> Option<int>
    decreases n,
{
    if n <= 0 {
        None
    } else {
        let x = v[n - 1] as int;
        match least_above(v, at, n - 1) {
            Some(y) => Some(
                if at < x < y {
                    x
                } else {
                    y
                },
            ),
            None => if x > at {
                Some(x)
            } else {
                None
            },
        }
    }
}

/// The greatest of the first `n` numbers that is less than `at`.
pub open spec fn greatest_below(v: Seq<usize>, at: int, n: int) -> Option<int>
    decreases n,
{
    if n <= 0 {
        None
    } else {
        let x = v[n - 1] as int;
        match greatest_below(v, at, n - 1) {
            Some(y) => Some(
                if y < x < at {
                    x
                } else {
                    y
                },
            ),
            None => if x < at {
                Some(x)
            } else {
                None
            },
        }
    }
}

/// The nearest number after `at`; the least of all where there is none.
pub open spec fn next_round(v: Seq<usize>, at: int) -> int {
    match least_above(v, at, v.len() as int) {
        Some(x) => x,
        None => least_above(v, -1, v.len() as int).unwrap(),
    }
}

/// The nearest number before `at`; the greatest of all where there is none.
pub open spec fn prev_round(v: Seq<usize>, at: int) -> int {
    match greatest_below(v, at, v.len() as int) {
        Some(x) => x,
        None => greatest_below(v, usize::MAX + 1, v.len() as int).unwrap(),
    }
}

proof fn lemma_least_above(v: Seq<usize>, at: int, n: int)
    requires
        0 <= n <= v.len(),
    ensures
        match least_above(v, at, n) {
            Some(x) => x > at && (exists|i: int| 0 <= i < n && #[trigger] v[i] == x) && (forall|
                i: int,
            |
                0 <= i < n && (#[trigger] v[i]) > at ==> x <= v[i]),
            None => forall|i: int| 0 <= i < n ==> (#[trigger] v[i]) <= at,
        },
    decreases n,
{
    if n > 0 {
        lemma_least_above(v, at, n - 1);
        assert(v[n - 1] == v[n - 1]);
    }
}

proof fn lemma_greatest_below(v: Seq<usize>, at: int, n: int)
    requires
        0 <= n <= v.len(),
    ensures
        match greatest_below(v, at, n) {
            Some(x) => x < at && (exists|i: int| 0 <= i < n && #[trigger] v[i] == x) && (forall|
                i: int,
            |
                0 <= i < n && (#[trigger] v[i]) < at ==> x >= v[i]),
            None => forall|i: int| 0 <= i < n ==> (#[trigger] v[i]) >= at,
        },
    decreases n,
{
    if n > 0 {
        lemma_greatest_below(v, at, n - 1);
        assert(v[n - 1] == v[n - 1]);
    }
}

/// The next number is one of them; it is the nearest after `at`, or the first of all where none is
/// after `at`.
pub proof fn next_is_the_nearest(v: Seq<usize>, at: int)
    requires
        v.len() > 0,
    ensures
        exists|i: int| 0 <= i < v.len() && #[trigger] v[i] == next_round(v, at),
        (exists|i: int| 0 <= i < v.len() && (#[trigger] v[i]) > at) ==> next_round(v, at) > at
            && forall|i: int|
            0 <= i < v.len() && (#[trigger] v[i]) > at ==> next_round(v, at) <= v[i],
        (forall|i: int| 0 <= i < v.len() ==> (#[trigger] v[i]) <= at) ==> forall|i: int|
            0 <= i < v.len() ==> next_round(v, at) <= (#[trigger] v[i]),
{
    lemma_least_above(v, at, v.len() as int);
    lemma_least_above(v, -1, v.len() as int);
    assert(v[0] > -1);
}

/// The number before is one of them; it is the nearest before `at`, or the last of all where none is
/// before `at`.
pub proof fn prev_is_the_nearest(v: Seq<usize>, at: int)
    requires
        v.len() > 0,
    ensures
        exists|i: int| 0 <= i < v.len() && #[trigger] v[i] == prev_round(v, at),
        (exists|i: int| 0 <= i < v.len() && (#[trigger] v[i]) < at) ==> prev_round(v, at) < at
            && forall|i: int|
            0 <= i < v.len() && (#[trigger] v[i]) < at ==> prev_round(v, at) >= v[i],
        (forall|i: int| 0 <= i < v.len() ==> (#[trigger] v[i]) >= at) ==> forall|i: int|
            0 <= i < v.len() ==> prev_round(v, at) >= (#[trigger] v[i]),
{
    lemma_greatest_below(v, at, v.len() as int);
    lemma_greatest_below(v, usize::MAX + 1, v.len() as int);
    assert(v[0] < usize::MAX + 1);
}

/// The nearest number after or before `at`, going round at the ends.
pub fn nearest_round(v: &Vec<usize>, at: usize, forward: bool) -> (r: usize)
    requires
        v@.len() > 0,
    ensures
        r == if forward {
            next_round(v@, at as int)
        } else {
            prev_round(v@, at as int)
        },
{
    let mut best: Option<usize> = None;
    let mut end: usize = v[0];
    let mut i: usize = 0;
    proof {
        reveal_with_fuel(least_above, 2);
        reveal_with_fuel(greatest_below, 2);
    }
    while i < v.len()
        invariant
            i <= v.len(),
            v@.len() > 0,
            forward ==> match best {
                Some(x) => least_above(v@, at as int, i as int) == Some(x as int),
                None => least_above(v@, at as int, i as int) is None,
            },
            !forward ==> match best {
                Some(x) => greatest_below(v@, at as int, i as int) == Some(x as int),
                None => greatest_below(v@, at as int, i as int) is None,
            },
            i == 0 ==> end == v@[0],
            i > 0 && forward ==> least_above(v@, -1, i as int) == Some(end as int),
            i > 0 && !forward ==> greatest_below(v@, usize::MAX + 1, i as int) == Some(end as int),
            i == 0 ==> least_above(v@, -1, 0) is None && greatest_below(v@, usize::MAX + 1, 0)
                is None,
        decreases v.len() - i,
    {
        let x: usize = v[i];
        if forward {
            if x < end {
                end = x;
            }
            if x > at && (match best {
                Some(y) => x < y,
                None => true,
            }) {
                best = Some(x);
            }
        } else {
            if x > end {
                end = x;
            }
            if x < at && (match best {
                Some(y) => x > y,
                None => true,
            }) {
                best = Some(x);
            }
        }
        i += 1;
    }
    match best {
        Some(x) => x,
        None => end,
    }
}

} // verus!
