//! Stable ranking of items by a key, largest key first.
//!
//! Items are ranked through integer keys that order them: the ranking lists
//! item indices from the largest key to the smallest, and items with equal
//! keys keep the order in which they were given.

use vstd::prelude::*;

verus! {

/// `order` lists every index of `keys` exactly once.
pub open spec fn is_index_permutation(keys: Seq<u64>, order: Seq<usize>) -> bool {
    &&& order.len() == keys.len()
    &&& forall|i: int| 0 <= i < order.len() ==> #[trigger] order[i] < keys.len()
    &&& forall|i: int, j: int| 0 <= i < j < order.len() ==> order[i] != order[j]
    &&& forall|x: int| 0 <= x < keys.len() ==> #[trigger] order.contains(x as usize)
}

/// The keys along `order` never increase.
pub open spec fn is_descending(keys: Seq<u64>, order: Seq<usize>) -> bool {
    forall|i: int, j: int|
        0 <= i < j < order.len() ==> keys[order[i] as int] >= keys[order[j] as int]
}

/// Indices with equal keys appear along `order` in increasing index order.
pub open spec fn is_stable(keys: Seq<u64>, order: Seq<usize>) -> bool {
    forall|i: int, j: int|
        0 <= i < j < order.len() && keys[order[i] as int] == keys[order[j] as int] ==> order[i]
            < order[j]
}

/// `order` is the stable ranking of the indices of `keys`, largest key first.
pub open spec fn is_stable_ranking(keys: Seq<u64>, order: Seq<usize>) -> bool {
    &&& is_index_permutation(keys, order)
    &&& is_descending(keys, order)
    &&& is_stable(keys, order)
}

/// Two duplicate-free, descending and stable orders of the same indices are
/// equal.
proof fn lemma_orders_agree(keys: Seq<u64>, o1: Seq<usize>, o2: Seq<usize>)
    requires
        o1.len() == o2.len(),
        forall|i: int| 0 <= i < o1.len() ==> #[trigger] o1[i] < keys.len(),
        forall|i: int| 0 <= i < o2.len() ==> #[trigger] o2[i] < keys.len(),
        forall|i: int, j: int| 0 <= i < j < o1.len() ==> o1[i] != o1[j],
        forall|i: int, j: int| 0 <= i < j < o2.len() ==> o2[i] != o2[j],
        forall|x: usize| o1.contains(x) <==> o2.contains(x),
        is_descending(keys, o1),
        is_descending(keys, o2),
        is_stable(keys, o1),
        is_stable(keys, o2),
    ensures
        o1 == o2,
    decreases o1.len(),
{
    if o1.len() > 0 {
        let h1 = o1[0];
        let h2 = o2[0];
        assert(o1.contains(h1));
        assert(o2.contains(h2));
        let i = choose|i: int| 0 <= i < o1.len() && o1[i] == h2;
        let j = choose|j: int| 0 <= j < o2.len() && o2[j] == h1;
        if h1 != h2 {
            assert(keys[h1 as int] >= keys[h2 as int]);
            assert(keys[h2 as int] >= keys[h1 as int]);
            assert(h1 < h2);
            assert(h2 < h1);
        }
        let t1 = o1.drop_first();
        let t2 = o2.drop_first();
        assert forall|x: usize| t1.contains(x) implies t2.contains(x) by {
            let a = choose|a: int| 0 <= a < t1.len() && t1[a] == x;
            assert(o1[a + 1] == x);
            assert(o2.contains(x));
            let b = choose|b: int| 0 <= b < o2.len() && o2[b] == x;
            if b == 0 {
                assert(o1[0] == o1[a + 1]);
            }
            assert(t2[b - 1] == x);
        }
        assert forall|x: usize| t2.contains(x) implies t1.contains(x) by {
            let b = choose|b: int| 0 <= b < t2.len() && t2[b] == x;
            assert(o2[b + 1] == x);
            assert(o1.contains(x));
            let a = choose|a: int| 0 <= a < o1.len() && o1[a] == x;
            if a == 0 {
                assert(o2[0] == o2[b + 1]);
            }
            assert(t1[a - 1] == x);
        }
        assert forall|a: int, b: int| 0 <= a < b < t1.len() implies keys[t1[a] as int]
            >= keys[t1[b] as int] by {
            assert(t1[a] == o1[a + 1] && t1[b] == o1[b + 1]);
        }
        assert forall|a: int, b: int| 0 <= a < b < t2.len() implies keys[t2[a] as int]
            >= keys[t2[b] as int] by {
            assert(t2[a] == o2[a + 1] && t2[b] == o2[b + 1]);
        }
        assert forall|a: int, b: int|
            0 <= a < b < t1.len() && keys[t1[a] as int] == keys[t1[b] as int] implies t1[a]
            < t1[b] by {
            assert(t1[a] == o1[a + 1] && t1[b] == o1[b + 1]);
        }
        assert forall|a: int, b: int|
            0 <= a < b < t2.len() && keys[t2[a] as int] == keys[t2[b] as int] implies t2[a]
            < t2[b] by {
            assert(t2[a] == o2[a + 1] && t2[b] == o2[b + 1]);
        }
        assert forall|a: int, b: int| 0 <= a < b < t1.len() implies t1[a] != t1[b] by {
            assert(t1[a] == o1[a + 1] && t1[b] == o1[b + 1]);
        }
        assert forall|a: int, b: int| 0 <= a < b < t2.len() implies t2[a] != t2[b] by {
            assert(t2[a] == o2[a + 1] && t2[b] == o2[b + 1]);
        }
        assert forall|a: int| 0 <= a < t1.len() implies #[trigger] t1[a] < keys.len() by {
            assert(t1[a] == o1[a + 1]);
        }
        assert forall|a: int| 0 <= a < t2.len() implies #[trigger] t2[a] < keys.len() by {
            assert(t2[a] == o2[a + 1]);
        }
        lemma_orders_agree(keys, t1, t2);
        assert(o1 == seq![h1] + t1);
        assert(o2 == seq![h2] + t2);
    }
}

/// The stable ranking of a sequence of keys is unique: any two orders that
/// both rank the keys stably, largest first, are the same order.
pub proof fn lemma_stable_ranking_unique(keys: Seq<u64>, o1: Seq<usize>, o2: Seq<usize>)
    requires
        is_stable_ranking(keys, o1),
        is_stable_ranking(keys, o2),
    ensures
        o1 == o2,
{
    assert forall|x: usize| o1.contains(x) <==> o2.contains(x) by {
        if o1.contains(x) {
            let a = choose|a: int| 0 <= a < o1.len() && o1[a] == x;
            assert(o2.contains((x as int) as usize));
        }
        if o2.contains(x) {
            let b = choose|b: int| 0 <= b < o2.len() && o2[b] == x;
            assert(o1.contains((x as int) as usize));
        }
    }
    lemma_orders_agree(keys, o1, o2);
}

/// `order` is the stable ranking, largest key first, of the indices in
/// `[lo, hi)`.
pub open spec fn is_range_ranking(keys: Seq<u64>, lo: int, hi: int, order: Seq<usize>) -> bool {
    &&& order.len() == hi - lo
    &&& forall|k: int| 0 <= k < order.len() ==> lo <= #[trigger] order[k] < hi
    &&& forall|k: int, l: int| 0 <= k < l < order.len() ==> order[k] != order[l]
    &&& forall|x: int| lo <= x < hi ==> #[trigger] order.contains(x as usize)
    &&& is_descending(keys, order)
    &&& is_stable(keys, order)
}

/// Merge the stable rankings of `[lo, mid)` and `[mid, hi)` into the stable
/// ranking of `[lo, hi)`.
fn merge_rankings(
    keys: &Vec<u64>,
    lo: usize,
    mid: usize,
    hi: usize,
    left: Vec<usize>,
    right: Vec<usize>,
) -> (merged: Vec<usize>)
    requires
        lo <= mid <= hi <= keys@.len(),
        is_range_ranking(keys@, lo as int, mid as int, left@),
        is_range_ranking(keys@, mid as int, hi as int, right@),
    ensures
        is_range_ranking(keys@, lo as int, hi as int, merged@),
{
    let ghost a = left@;
    let ghost b = right@;
    let na = left.len();
    let nb = right.len();
    let mut m: Vec<usize> = Vec::with_capacity(na + nb);
    let mut i: usize = 0;
    let mut j: usize = 0;
    while i < na || j < nb
        invariant
            lo <= mid <= hi <= keys@.len(),
            a == left@,
            b == right@,
            na == a.len(),
            nb == b.len(),
            is_range_ranking(keys@, lo as int, mid as int, a),
            is_range_ranking(keys@, mid as int, hi as int, b),
            i <= na,
            j <= nb,
            m@.len() == i + j,
            forall|p: int|
                0 <= p < m@.len() && #[trigger] m@[p] < mid ==> a.take(i as int).contains(m@[p]),
            forall|p: int|
                0 <= p < m@.len() && #[trigger] m@[p] >= mid ==> b.take(j as int).contains(m@[p]),
            forall|k: int| 0 <= k < i ==> #[trigger] m@.contains(a[k]),
            forall|k: int| 0 <= k < j ==> #[trigger] m@.contains(b[k]),
            forall|p: int, q: int| 0 <= p < q < m@.len() ==> m@[p] != m@[q],
            is_descending(keys@, m@),
            is_stable(keys@, m@),
            i < na ==> forall|p: int|
                0 <= p < m@.len() && #[trigger] m@[p] >= mid ==> keys@[m@[p] as int]
                    > keys@[a[i as int] as int],
            j < nb ==> forall|p: int|
                0 <= p < m@.len() && #[trigger] m@[p] < mid ==> keys@[m@[p] as int]
                    >= keys@[b[j as int] as int],
        decreases na + nb - i - j,
    {
        let ghost old_m = m@;
        let take_left = j == nb || (i < na && keys[left[i]] >= keys[right[j]]);
        if take_left {
            let x = left[i];
            assert(lo <= x < mid);
            assert(!old_m.contains(x)) by {
                if old_m.contains(x) {
                    let p = choose|p: int| 0 <= p < old_m.len() && old_m[p] == x;
                    assert(a.take(i as int).contains(x));
                    let k = choose|k: int| 0 <= k < i && a.take(i as int)[k] == x;
                    assert(a[k] == a[i as int]);
                }
            }
            m.push(x);
            assert(m@ == old_m.push(x));
            assert forall|p: int| 0 <= p < m@.len() && #[trigger] m@[p] < mid implies a.take(
                i + 1,
            ).contains(m@[p]) by {
                if p < old_m.len() {
                    assert(old_m[p] == m@[p]);
                    let k = choose|k: int| 0 <= k < i && a.take(i as int)[k] == m@[p];
                    assert(a.take(i + 1)[k] == m@[p]);
                } else {
                    assert(a.take(i + 1)[i as int] == x);
                }
            }
            assert forall|p: int| 0 <= p < m@.len() && #[trigger] m@[p] >= mid implies b.take(
                j as int,
            ).contains(m@[p]) by {
                assert(old_m[p] == m@[p]);
            }
            assert forall|k: int| 0 <= k < i + 1 implies #[trigger] m@.contains(a[k]) by {
                if k < i {
                    assert(old_m.contains(a[k]));
                    let p = choose|p: int| 0 <= p < old_m.len() && old_m[p] == a[k];
                    assert(m@[p] == a[k]);
                } else {
                    assert(m@[old_m.len() as int] == a[k]);
                }
            }
            assert forall|k: int| 0 <= k < j implies #[trigger] m@.contains(b[k]) by {
                assert(old_m.contains(b[k]));
                let p = choose|p: int| 0 <= p < old_m.len() && old_m[p] == b[k];
                assert(m@[p] == b[k]);
            }
            assert forall|p: int, q: int| 0 <= p < q < m@.len() implies keys@[m@[p] as int]
                >= keys@[m@[q] as int] by {
                if q == old_m.len() {
                    assert(old_m[p] == m@[p]);
                    if old_m[p] < mid {
                        let k = choose|k: int| 0 <= k < i && a.take(i as int)[k] == old_m[p];
                        assert(a[k] == old_m[p]);
                    }
                }
            }
            assert forall|p: int, q: int|
                0 <= p < q < m@.len() && keys@[m@[p] as int] == keys@[m@[q] as int] implies m@[p]
                < m@[q] by {
                if q == old_m.len() {
                    assert(old_m[p] == m@[p]);
                    if old_m[p] < mid {
                        let k = choose|k: int| 0 <= k < i && a.take(i as int)[k] == old_m[p];
                        assert(a[k] == old_m[p]);
                    }
                }
            }
            if i + 1 < na {
                assert forall|p: int| 0 <= p < m@.len() && #[trigger] m@[p] >= mid implies keys@[m@[p]
                    as int] > keys@[a[i + 1] as int] by {
                    assert(keys@[a[i as int] as int] >= keys@[a[i + 1] as int]);
                }
            }
            i = i + 1;
        } else {
            let x = right[j];
            assert(mid <= x < hi);
            assert(!old_m.contains(x)) by {
                if old_m.contains(x) {
                    let p = choose|p: int| 0 <= p < old_m.len() && old_m[p] == x;
                    assert(b.take(j as int).contains(x));
                    let k = choose|k: int| 0 <= k < j && b.take(j as int)[k] == x;
                    assert(b[k] == b[j as int]);
                }
            }
            m.push(x);
            assert(m@ == old_m.push(x));
            assert forall|p: int| 0 <= p < m@.len() && #[trigger] m@[p] >= mid implies b.take(
                j + 1,
            ).contains(m@[p]) by {
                if p < old_m.len() {
                    assert(old_m[p] == m@[p]);
                    let k = choose|k: int| 0 <= k < j && b.take(j as int)[k] == m@[p];
                    assert(b.take(j + 1)[k] == m@[p]);
                } else {
                    assert(b.take(j + 1)[j as int] == x);
                }
            }
            assert forall|p: int| 0 <= p < m@.len() && #[trigger] m@[p] < mid implies a.take(
                i as int,
            ).contains(m@[p]) by {
                assert(old_m[p] == m@[p]);
            }
            assert forall|k: int| 0 <= k < j + 1 implies #[trigger] m@.contains(b[k]) by {
                if k < j {
                    assert(old_m.contains(b[k]));
                    let p = choose|p: int| 0 <= p < old_m.len() && old_m[p] == b[k];
                    assert(m@[p] == b[k]);
                } else {
                    assert(m@[old_m.len() as int] == b[k]);
                }
            }
            assert forall|k: int| 0 <= k < i implies #[trigger] m@.contains(a[k]) by {
                assert(old_m.contains(a[k]));
                let p = choose|p: int| 0 <= p < old_m.len() && old_m[p] == a[k];
                assert(m@[p] == a[k]);
            }
            assert forall|p: int, q: int| 0 <= p < q < m@.len() implies keys@[m@[p] as int]
                >= keys@[m@[q] as int] by {
                if q == old_m.len() {
                    assert(old_m[p] == m@[p]);
                    if old_m[p] >= mid {
                        let k = choose|k: int| 0 <= k < j && b.take(j as int)[k] == old_m[p];
                        assert(b[k] == old_m[p]);
                    }
                }
            }
            assert forall|p: int, q: int|
                0 <= p < q < m@.len() && keys@[m@[p] as int] == keys@[m@[q] as int] implies m@[p]
                < m@[q] by {
                if q == old_m.len() {
                    assert(old_m[p] == m@[p]);
                    if old_m[p] >= mid {
                        let k = choose|k: int| 0 <= k < j && b.take(j as int)[k] == old_m[p];
                        assert(b[k] == old_m[p]);
                    }
                }
            }
            if j + 1 < nb {
                assert forall|p: int| 0 <= p < m@.len() && #[trigger] m@[p] < mid implies keys@[m@[p]
                    as int] >= keys@[b[j + 1] as int] by {
                    assert(keys@[b[j as int] as int] >= keys@[b[j + 1] as int]);
                }
            }
            j = j + 1;
        }
    }
    assert forall|k: int| 0 <= k < m@.len() implies lo <= #[trigger] m@[k] < hi by {
        if m@[k] < mid {
            let t = choose|t: int| 0 <= t < i && a.take(i as int)[t] == m@[k];
            assert(a[t] == m@[k]);
        } else {
            let t = choose|t: int| 0 <= t < j && b.take(j as int)[t] == m@[k];
            assert(b[t] == m@[k]);
        }
    }
    assert forall|x: int| lo <= x < hi implies #[trigger] m@.contains(x as usize) by {
        if x < mid {
            assert(a.contains(x as usize));
            let k = choose|k: int| 0 <= k < a.len() && a[k] == x as usize;
            assert(m@.contains(a[k]));
        } else {
            assert(b.contains(x as usize));
            let k = choose|k: int| 0 <= k < b.len() && b[k] == x as usize;
            assert(m@.contains(b[k]));
        }
    }
    m
}

/// The stable ranking, largest key first, of the indices in `[lo, hi)`.
fn rank_range(keys: &Vec<u64>, lo: usize, hi: usize) -> (order: Vec<usize>)
    requires
        lo <= hi <= keys@.len(),
    ensures
        is_range_ranking(keys@, lo as int, hi as int, order@),
    decreases hi - lo,
{
    if hi - lo <= 1 {
        let mut order: Vec<usize> = Vec::new();
        if hi - lo == 1 {
            order.push(lo);
            assert(order@[0] == lo);
        }
        proof {
            assert forall|x: int| lo <= x < hi implies #[trigger] order@.contains(x as usize) by {
                assert(order@[0] == x as usize);
            }
        }
        order
    } else {
        let mid = lo + (hi - lo) / 2;
        let left = rank_range(keys, lo, mid);
        let right = rank_range(keys, mid, hi);
        merge_rankings(keys, lo, mid, hi, left, right)
    }
}

/// Rank the indices of `keys` from the largest key to the smallest; indices
/// with equal keys stay in their original order.
pub fn rank_by_key_desc(keys: &Vec<u64>) -> (order: Vec<usize>)
    ensures
        is_stable_ranking(keys@, order@),
{
    rank_range(keys, 0, keys.len())
}

} // verus!
