//! Stable ordering of a list by an integer key.

use vstd::prelude::*;
use vstd::set_lib::{lemma_int_range, lemma_subset_equality, set_int_range};

verus! {

/// Position `a` comes before position `b` when its key is smaller, or the keys
/// are equal and `a` comes first: the order a stable sort produces.
pub open spec fn key_before(keys: Seq<u128>, a: int, b: int) -> bool {
    keys[a] < keys[b] || (keys[a] == keys[b] && a < b)
}

/// `p` lists the positions `0..keys.len()` in the order of a stable sort by key.
pub open spec fn is_stable_order(keys: Seq<u128>, p: Seq<usize>) -> bool {
    &&& p.len() == keys.len()
    &&& forall|i: int| 0 <= i < p.len() ==> p[i] < keys.len()
    &&& forall|i: int, j: int| 0 <= i < j < p.len() ==> key_before(keys, #[trigger] p[i] as int, #[trigger] p[j] as int)
}

/// The positions of `keys` in the order of a stable sort by key.
pub fn stable_order(keys: &Vec<u128>) -> (p: Vec<usize>)
    ensures
        is_stable_order(keys@, p@),
{
    let mut p: Vec<usize> = Vec::new();
    let mut i: usize = 0;
    while i < keys.len()
        invariant
            i <= keys@.len(),
            p@.len() == i,
            forall|a: int| 0 <= a < p@.len() ==> p@[a] < i,
            forall|a: int, b: int| 0 <= a < b < p@.len() ==> key_before(keys@, #[trigger] p@[a] as int, #[trigger] p@[b] as int),
        decreases keys@.len() - i,
    {
        let ki = keys[i];
        let mut j: usize = 0;
        while j < p.len() && keys[p[j]] <= ki
            invariant
                j <= p@.len(),
                i < keys@.len(),
                ki == keys@[i as int],
                forall|a: int| 0 <= a < p@.len() ==> p@[a] < i,
                forall|a: int| 0 <= a < j ==> keys@[#[trigger] p@[a] as int] <= ki,
            decreases p@.len() - j,
        {
            j = j + 1;
        }
        let ghost old_p = p@;
        p.insert(j, i);
        proof {
            assert forall|a: int, b: int| 0 <= a < b < p@.len() implies key_before(keys@, #[trigger] p@[a] as int, #[trigger] p@[b] as int) by {
                if a < j as int && b < j as int {
                    assert(p@[a] == old_p[a] && p@[b] == old_p[b]);
                } else if a < j as int && b == j as int {
                    assert(p@[a] == old_p[a]);
                    assert(keys@[old_p[a] as int] <= ki);
                } else if a < j as int {
                    assert(p@[a] == old_p[a] && p@[b] == old_p[b - 1]);
                    assert(key_before(keys@, old_p[a] as int, old_p[b - 1] as int));
                } else if a == j as int {
                    assert(p@[b] == old_p[b - 1]);
                    assert(j < old_p.len());
                    assert(keys@[old_p[j as int] as int] > ki);
                    if b - 1 > j as int {
                        assert(key_before(keys@, old_p[j as int] as int, old_p[b - 1] as int));
                    }
                } else {
                    assert(p@[a] == old_p[a - 1] && p@[b] == old_p[b - 1]);
                    assert(key_before(keys@, old_p[a - 1] as int, old_p[b - 1] as int));
                }
            }
        }
        i = i + 1;
    }
    p
}

/// A stable order lists every position.
pub proof fn lemma_stable_order_onto(keys: Seq<u128>, p: Seq<usize>, v: int)
    requires
        is_stable_order(keys, p),
        0 <= v < keys.len(),
    ensures
        exists|i: int| 0 <= i < p.len() && p[i] as int == v,
{
    let n = keys.len() as int;
    let m = p.map_values(|x: usize| x as int);
    assert(m.no_duplicates()) by {
        assert forall|i: int, j: int| 0 <= i < m.len() && 0 <= j < m.len() && i != j implies m[i]
            != m[j] by {
            if i < j {
                assert(key_before(keys, p[i] as int, p[j] as int));
            } else {
                assert(key_before(keys, p[j] as int, p[i] as int));
            }
        }
    }
    m.unique_seq_to_set();
    lemma_int_range(0, n);
    assert(m.to_set().subset_of(set_int_range(0, n))) by {
        assert forall|x: int| m.to_set().contains(x) implies set_int_range(0, n).contains(x) by {
            let i = choose|i: int| 0 <= i < m.len() && m[i] == x;
            assert(p[i] < keys.len());
        }
    }
    vstd::seq_lib::seq_to_set_is_finite(m);
    lemma_subset_equality(m.to_set(), set_int_range(0, n));
    assert(set_int_range(0, n).contains(v));
    assert(m.to_set().contains(v));
    let i = choose|i: int| 0 <= i < m.len() && m[i] == v;
    assert(p[i] as int == v);
}

proof fn lemma_prefix_equal(keys: Seq<u128>, p: Seq<usize>, q: Seq<usize>, k: int)
    requires
        is_stable_order(keys, p),
        is_stable_order(keys, q),
        0 <= k <= p.len(),
    ensures
        forall|i: int| 0 <= i < k ==> p[i] == q[i],
    decreases k,
{
    if k > 0 {
        let m = k - 1;
        lemma_prefix_equal(keys, p, q, m);
        let v = p[m] as int;
        let w = q[m] as int;
        lemma_stable_order_onto(keys, q, v);
        lemma_stable_order_onto(keys, p, w);
        let j = choose|j: int| 0 <= j < q.len() && q[j] as int == v;
        let l = choose|l: int| 0 <= l < p.len() && p[l] as int == w;
        if j < m {
            assert(q[j] == p[j]);
            assert(key_before(keys, p[j] as int, p[m] as int));
        }
        if l < m {
            assert(p[l] == q[l]);
            assert(key_before(keys, q[l] as int, q[m] as int));
        }
        if j > m && l > m {
            assert(key_before(keys, q[m] as int, q[j] as int));
            assert(key_before(keys, p[m] as int, p[l] as int));
        }
        if j == m {
        } else if l == m {
        }
    }
}

/// A list of keys has exactly one stable order.
pub proof fn lemma_stable_order_unique(keys: Seq<u128>, p: Seq<usize>, q: Seq<usize>)
    requires
        is_stable_order(keys, p),
        is_stable_order(keys, q),
    ensures
        p == q,
{
    lemma_prefix_equal(keys, p, q, p.len() as int);
    assert(p =~= q);
}


/// The first place from `j` on in `p` whose key is above `x`, or the end.
pub open spec fn first_above(keys: Seq<u128>, p: Seq<usize>, x: u128, j: int) -> int
    decreases p.len() - j,
    when 0 <= j
{
    if j >= p.len() || keys[p[j] as int] > x {
        j
    } else {
        first_above(keys, p, x, j + 1)
    }
}

proof fn lemma_first_above(keys: Seq<u128>, p: Seq<usize>, x: u128, j: int)
    requires
        0 <= j <= p.len(),
    ensures
        j <= first_above(keys, p, x, j) <= p.len(),
        forall|a: int| j <= a < first_above(keys, p, x, j) ==> keys[#[trigger] p[a] as int] <= x,
        first_above(keys, p, x, j) < p.len() ==> keys[p[first_above(keys, p, x, j)] as int] > x,
    decreases p.len() - j,
{
    if j < p.len() && keys[p[j] as int] <= x {
        lemma_first_above(keys, p, x, j + 1);
    }
}

/// The positions `0..k` of `keys` in stable sorted order.
pub open spec fn sorted_prefix(keys: Seq<u128>, k: int) -> Seq<usize>
    decreases k,
{
    if k <= 0 {
        Seq::empty()
    } else {
        let p = sorted_prefix(keys, k - 1);
        p.insert(first_above(keys, p, keys[k - 1], 0), (k - 1) as usize)
    }
}

proof fn lemma_sorted_prefix(keys: Seq<u128>, k: int)
    requires
        0 <= k <= keys.len(),
        keys.len() <= usize::MAX,
    ensures
        sorted_prefix(keys, k).len() == k,
        forall|a: int| 0 <= a < k ==> #[trigger] sorted_prefix(keys, k)[a] < k,
        forall|a: int, b: int|
            0 <= a < b < k ==> key_before(keys, #[trigger] sorted_prefix(keys, k)[a] as int, #[trigger] sorted_prefix(keys, k)[b] as int),
    decreases k,
{
    if k > 0 {
        lemma_sorted_prefix(keys, k - 1);
        let old_p = sorted_prefix(keys, k - 1);
        let ki = keys[k - 1];
        let j = first_above(keys, old_p, ki, 0);
        lemma_first_above(keys, old_p, ki, 0);
        let p = old_p.insert(j, (k - 1) as usize);
        assert(p == sorted_prefix(keys, k));
        assert forall|a: int| 0 <= a < k implies #[trigger] p[a] < k by {
            if a < j {
                assert(p[a] == old_p[a]);
            } else if a > j {
                assert(p[a] == old_p[a - 1]);
            }
        }
        assert forall|a: int, b: int| 0 <= a < b < k implies key_before(keys, #[trigger] p[a] as int, #[trigger] p[b] as int) by {
            if a < j && b < j {
                assert(p[a] == old_p[a] && p[b] == old_p[b]);
            } else if a < j && b == j {
                assert(p[a] == old_p[a]);
                assert(keys[old_p[a] as int] <= ki);
            } else if a < j {
                assert(p[a] == old_p[a] && p[b] == old_p[b - 1]);
            } else if a == j {
                assert(p[b] == old_p[b - 1]);
                assert(keys[old_p[j] as int] > ki);
                if b - 1 > j {
                    assert(key_before(keys, old_p[j] as int, old_p[b - 1] as int));
                }
            } else {
                assert(p[a] == old_p[a - 1] && p[b] == old_p[b - 1]);
            }
        }
    }
}

/// Every list of keys short enough to index has a stable order.
pub proof fn lemma_stable_order_exists(keys: Seq<u128>)
    requires
        keys.len() <= usize::MAX,
    ensures
        exists|p: Seq<usize>| is_stable_order(keys, p),
{
    lemma_sorted_prefix(keys, keys.len() as int);
    assert(is_stable_order(keys, sorted_prefix(keys, keys.len() as int)));
}

} // verus!
