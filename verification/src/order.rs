//! Stable ordering of items by a key, as `sort_by` with a key comparison
//! orders them: ascending by text, or descending by number.
use vstd::prelude::*;
use crate::text::{compare_text, lemma_text_lt_asym, lemma_text_lt_total, lemma_text_lt_trans, text_lt};

verus! {

/// `perm` lists each index below `n` exactly once.
pub open spec fn is_permutation(perm: Seq<usize>, n: nat) -> bool {
    &&& perm.len() == n
    &&& forall|k: int| 0 <= k < perm.len() ==> (#[trigger] perm[k]) < n
    &&& forall|a: int, b: int| 0 <= a < perm.len() && 0 <= b < perm.len() && a != b ==> perm[a] != perm[b]
}

/// `perm` orders `keys` ascending, and equal keys keep their order.
pub open spec fn stable_ascending(keys: Seq<Seq<char>>, perm: Seq<usize>) -> bool {
    &&& forall|a: int, b: int| 0 <= a < b < perm.len() ==> !text_lt(keys[perm[b] as int], keys[perm[a] as int])
    &&& forall|a: int, b: int| 0 <= a < b < perm.len() && keys[perm[a] as int] == keys[perm[b] as int] ==> perm[a] < perm[b]
}

/// The order in which to take items so that their keys ascend, ties keeping
/// their original order.
pub fn text_sort_order(keys: &Vec<Vec<char>>) -> (perm: Vec<usize>)
    ensures
        is_permutation(perm@, keys@.len()),
        stable_ascending(keys.deep_view(), perm@),
{
    let ghost ks = keys.deep_view();
    let n = keys.len();
    let mut out: Vec<usize> = Vec::new();
    let mut i: usize = 0;
    while i < n
        invariant
            n == keys@.len(),
            ks == keys.deep_view(),
            i <= n,
            out@.len() == i,
            forall|k: int| 0 <= k < out@.len() ==> (#[trigger] out@[k]) < i,
            forall|a: int, b: int| 0 <= a < out@.len() && 0 <= b < out@.len() && a != b ==> out@[a] != out@[b],
            stable_ascending(ks, out@),
        decreases n - i,
    {
        assert(ks[i as int] == keys@[i as int]@);
        let mut p: usize = 0;
        while p < out.len() && compare_text(keys[i].as_slice(), keys[out[p]].as_slice()) != -1
            invariant
                n == keys@.len(),
                ks == keys.deep_view(),
                i < n,
                ks[i as int] == keys@[i as int]@,
                p <= out@.len(),
                forall|k: int| 0 <= k < out@.len() ==> (#[trigger] out@[k]) < i,
                forall|q: int| 0 <= q < p ==> !text_lt(ks[i as int], ks[out@[q] as int]),
            decreases out@.len() - p,
        {
            assert(ks[out@[p as int] as int] == keys@[out@[p as int] as int]@);
            p = p + 1;
        }
        if p < out.len() {
            assert(ks[out@[p as int] as int] == keys@[out@[p as int] as int]@);
        }
        let ghost before = out@;
        out.insert(p, i);
        proof {
            let after = out@;
            assert(after == before.insert(p as int, i));
            assert forall|k: int| 0 <= k < after.len() implies (#[trigger] after[k]) < i + 1 by {
                if k < p { assert(after[k] == before[k]); } else if k > p { assert(after[k] == before[k - 1]); }
            }
            assert forall|a: int, b: int| 0 <= a < after.len() && 0 <= b < after.len() && a != b implies after[a] != after[b] by {
                if a < p { assert(after[a] == before[a]); } else if a > p { assert(after[a] == before[a - 1]); }
                if b < p { assert(after[b] == before[b]); } else if b > p { assert(after[b] == before[b - 1]); }
            }
            let x = ks[i as int];
            assert forall|a: int, b: int| 0 <= a < b < after.len() implies !text_lt(ks[after[b] as int], ks[after[a] as int]) by {
                if b < p {
                    assert(after[a] == before[a]); assert(after[b] == before[b]);
                } else if b == p {
                    assert(after[a] == before[a]);
                    lemma_text_lt_total(x, ks[before[a] as int]);
                    if text_lt(x, ks[before[a] as int]) { }
                } else if a < p {
                    assert(after[a] == before[a]); assert(after[b] == before[b - 1]);
                } else if a == p {
                    assert(after[b] == before[b - 1]);
                    let y = ks[before[p as int] as int];
                    assert(text_lt(x, y));
                    let z = ks[before[b - 1] as int];
                    if b - 1 > p {
                        assert(!text_lt(z, y));
                        lemma_text_lt_total(y, z);
                        if y == z { } else { lemma_text_lt_trans(x, y, z); }
                    }
                    lemma_text_lt_asym(x, z);
                } else {
                    assert(after[a] == before[a - 1]); assert(after[b] == before[b - 1]);
                }
            }
            assert forall|a: int, b: int| 0 <= a < b < after.len() && ks[after[a] as int] == ks[after[b] as int] implies after[a] < after[b] by {
                if b < p {
                    assert(after[a] == before[a]); assert(after[b] == before[b]);
                } else if b == p {
                    assert(after[a] == before[a]);
                } else if a < p {
                    assert(after[a] == before[a]); assert(after[b] == before[b - 1]);
                } else if a == p {
                    assert(after[b] == before[b - 1]);
                    let y = ks[before[p as int] as int];
                    let z = ks[before[b - 1] as int];
                    assert(text_lt(x, y));
                    if b - 1 > p {
                        assert(!text_lt(z, y));
                        lemma_text_lt_total(y, z);
                        if y == z { } else { lemma_text_lt_trans(x, y, z); }
                    }
                    lemma_text_lt_asym(x, z);
                } else {
                    assert(after[a] == before[a - 1]); assert(after[b] == before[b - 1]);
                }
            }
        }
        i = i + 1;
    }
    out
}

/// `perm` orders `keys` descending, and equal keys keep their order.
pub open spec fn stable_descending(keys: Seq<i128>, perm: Seq<usize>) -> bool {
    &&& forall|a: int, b: int| 0 <= a < b < perm.len() ==> keys[perm[a] as int] >= keys[perm[b] as int]
    &&& forall|a: int, b: int| 0 <= a < b < perm.len() && keys[perm[a] as int] == keys[perm[b] as int] ==> perm[a] < perm[b]
}

/// The order in which to take items so that their keys descend, ties keeping
/// their original order.
pub fn desc_order(keys: &Vec<i128>) -> (perm: Vec<usize>)
    ensures
        is_permutation(perm@, keys@.len()),
        stable_descending(keys@, perm@),
{
    let ghost ks = keys@;
    let n = keys.len();
    let mut out: Vec<usize> = Vec::new();
    let mut i: usize = 0;
    while i < n
        invariant
            n == keys@.len(),
            ks == keys@,
            i <= n,
            out@.len() == i,
            forall|k: int| 0 <= k < out@.len() ==> (#[trigger] out@[k]) < i,
            forall|a: int, b: int| 0 <= a < out@.len() && 0 <= b < out@.len() && a != b ==> out@[a] != out@[b],
            stable_descending(ks, out@),
        decreases n - i,
    {
        let x = keys[i];
        let mut p: usize = 0;
        while p < out.len() && keys[out[p]] >= x
            invariant
                n == keys@.len(),
                ks == keys@,
                i < n,
                x == ks[i as int],
                p <= out@.len(),
                forall|k: int| 0 <= k < out@.len() ==> (#[trigger] out@[k]) < i,
                forall|q: int| 0 <= q < p ==> ks[out@[q] as int] >= x,
            decreases out@.len() - p,
        {
            p = p + 1;
        }
        let ghost before = out@;
        out.insert(p, i);
        proof {
            let after = out@;
            assert(after == before.insert(p as int, i));
            assert forall|k: int| 0 <= k < after.len() implies (#[trigger] after[k]) < i + 1 by {
                if k < p { assert(after[k] == before[k]); } else if k > p { assert(after[k] == before[k - 1]); }
            }
            assert forall|a: int, b: int| 0 <= a < after.len() && 0 <= b < after.len() && a != b implies after[a] != after[b] by {
                if a < p { assert(after[a] == before[a]); } else if a > p { assert(after[a] == before[a - 1]); }
                if b < p { assert(after[b] == before[b]); } else if b > p { assert(after[b] == before[b - 1]); }
            }
            assert forall|a: int, b: int| 0 <= a < b < after.len() implies ks[after[a] as int] >= ks[after[b] as int] by {
                if b < p {
                    assert(after[a] == before[a]); assert(after[b] == before[b]);
                } else if b == p {
                    assert(after[a] == before[a]);
                } else if a < p {
                    assert(after[a] == before[a]); assert(after[b] == before[b - 1]);
                } else if a == p {
                    assert(after[b] == before[b - 1]);
                    assert(ks[before[p as int] as int] < x);
                    if b - 1 > p {
                        assert(ks[before[p as int] as int] >= ks[before[b - 1] as int]);
                    }
                } else {
                    assert(after[a] == before[a - 1]); assert(after[b] == before[b - 1]);
                }
            }
            assert forall|a: int, b: int| 0 <= a < b < after.len() && ks[after[a] as int] == ks[after[b] as int] implies after[a] < after[b] by {
                if b < p {
                    assert(after[a] == before[a]); assert(after[b] == before[b]);
                } else if b == p {
                    assert(after[a] == before[a]);
                } else if a < p {
                    assert(after[a] == before[a]); assert(after[b] == before[b - 1]);
                } else if a == p {
                    assert(after[b] == before[b - 1]);
                    assert(ks[before[p as int] as int] < x);
                    if b - 1 > p {
                        assert(ks[before[p as int] as int] >= ks[before[b - 1] as int]);
                    }
                } else {
                    assert(after[a] == before[a - 1]); assert(after[b] == before[b - 1]);
                }
            }
        }
        i = i + 1;
    }
    out
}

/// The items of `v` taken in the order `perm` gives.
pub fn permute<T>(v: Vec<T>, perm: &Vec<usize>) -> (r: Vec<T>)
    requires
        is_permutation(perm@, v@.len()),
    ensures
        r@.len() == v@.len(),
        forall|k: int| 0 <= k < r@.len() ==> #[trigger] r@[k] == v@[perm@[k] as int],
{
    let mut slots: Vec<Option<T>> = Vec::new();
    let mut v = v;
    let ghost orig = v@;
    let n = v.len();
    let mut j: usize = 0;
    while j < n
        invariant
            n == orig.len(),
            j <= n,
            v@ == orig.subrange(j as int, n as int),
            slots@.len() == j,
            forall|k: int| 0 <= k < j ==> (#[trigger] slots@[k]) == Some(orig[k]),
        decreases n - j,
    {
        let f = v.remove(0);
        slots.push(Some(f));
        j = j + 1;
    }
    let mut out: Vec<T> = Vec::new();
    let mut k: usize = 0;
    while k < n
        invariant
            n == orig.len(),
            is_permutation(perm@, n as nat),
            slots@.len() == n,
            k <= n,
            out@.len() == k,
            forall|q: int| 0 <= q < k ==> #[trigger] out@[q] == orig[perm@[q] as int],
            forall|q: int| k <= q < n ==> slots@[perm@[q] as int] == Some(orig[perm@[q] as int]),
        decreases n - k,
    {
        let idx = perm[k];
        let mut taken: Option<T> = None;
        std::mem::swap(&mut taken, &mut slots[idx]);
        proof {
            assert forall|q: int| k < q < n implies slots@[perm@[q] as int] == Some(orig[perm@[q] as int]) by {
                assert(perm@[q] != perm@[k as int]);
            }
        }
        match taken {
            Some(f) => { out.push(f); },
            None => { assert(false); },
        }
        k = k + 1;
    }
    out
}

} // verus!
