//! Stable ordering of items by a (rank, day) key.

use vstd::prelude::*;

verus! {

/// Whether the key `a` sorts strictly after the key `b`.
pub open spec fn key_after(a: (u8, i32), b: (u8, i32)) -> bool {
    a.0 > b.0 || (a.0 == b.0 && a.1 > b.1)
}

/// Item `a` comes before item `b` in a stable sort by key: a smaller key, or
/// the same key and an earlier position.
pub open spec fn sorts_before(keys: Seq<(u8, i32)>, a: int, b: int) -> bool {
    key_after(keys[b], keys[a]) || (keys[a] == keys[b] && a < b)
}

/// `order` lists every position of `keys` once, in the order of a stable sort
/// by key. Only one sequence meets this for given keys.
pub open spec fn is_stable_order(keys: Seq<(u8, i32)>, order: Seq<usize>) -> bool {
    &&& order.len() == keys.len()
    &&& forall|i: int| 0 <= i < order.len() ==> order[i] < keys.len()
    &&& forall|i: int, j: int|
        0 <= i < j < order.len() ==> sorts_before(keys, #[trigger] order[i] as int, #[trigger] order[j] as int)
}

/// A stable order lists every position exactly once.
pub proof fn law_stable_order_is_permutation(keys: Seq<(u8, i32)>, order: Seq<usize>)
    requires
        is_stable_order(keys, order),
    ensures
        order.no_duplicates(),
        forall|k: int| 0 <= k < keys.len() ==> #[trigger] order.contains(k as usize),
{
    let n = keys.len();
    assert(order.no_duplicates()) by {
        assert forall|i: int, j: int| 0 <= i < order.len() && 0 <= j < order.len() && i != j implies order[i] != order[j] by {
            if i < j {
                assert(sorts_before(keys, order[i] as int, order[j] as int));
            } else {
                assert(sorts_before(keys, order[j] as int, order[i] as int));
            }
        }
    }
    let ints = order.map_values(|x: usize| x as int);
    assert(ints.no_duplicates()) by {
        assert forall|i: int, j: int| 0 <= i < ints.len() && 0 <= j < ints.len() && i != j implies ints[i] != ints[j] by {
            assert(order[i] != order[j]);
        }
    }
    ints.unique_seq_to_set();
    vstd::set_lib::lemma_int_range(0, n as int);
    let range = vstd::set_lib::set_int_range(0, n as int);
    assert(ints.to_set().subset_of(range)) by {
        assert forall|v: int| ints.to_set().contains(v) implies range.contains(v) by {
            let i = choose|i: int| 0 <= i < ints.len() && ints[i] == v;
            assert(order[i] < n);
        }
    }
    vstd::set_lib::lemma_subset_equality(ints.to_set(), range);
    assert forall|k: int| 0 <= k < n implies #[trigger] order.contains(k as usize) by {
        assert(range.contains(k));
        assert(ints.to_set().contains(k));
        let i = choose|i: int| 0 <= i < ints.len() && ints[i] == k;
        assert(order[i] == k as usize);
    }
}

fn key_is_after(a: (u8, i32), b: (u8, i32)) -> (r: bool)
    ensures
        r == key_after(a, b),
{
    a.0 > b.0 || (a.0 == b.0 && a.1 > b.1)
}

/// The positions of `keys` in the order of a stable sort by key (what
/// `sort_by_key` does to the items themselves).
pub fn stable_order(keys: &Vec<(u8, i32)>) -> (order: Vec<usize>)
    ensures
        is_stable_order(keys@, order@),
{
    let n = keys.len();
    let mut order: Vec<usize> = Vec::new();
    let mut j: usize = 0;
    while j < n
        invariant
            j <= n,
            n == keys.len(),
            order.len() == j,
            forall|i: int| 0 <= i < j ==> order[i] < j,
            forall|a: int, b: int|
                0 <= a < b < j ==> sorts_before(keys@, #[trigger] order[a] as int, #[trigger] order[b] as int),
        decreases n - j,
    {
        let kj = keys[j];
        let mut p: usize = j;
        while p > 0 && key_is_after(keys[order[p - 1]], kj)
            invariant
                p <= j,
                j < n,
                n == keys.len(),
                kj == keys@[j as int],
                order.len() == j,
                forall|i: int| 0 <= i < j ==> order[i] < j,
                forall|x: int| p <= x < j ==> key_after(keys@[#[trigger] order[x] as int], kj),
            decreases p,
        {
            p = p - 1;
        }
        proof {
            assert forall|x: int| 0 <= x < p implies sorts_before(keys@, #[trigger] order[x] as int, j as int) by {
                if x < p - 1 {
                    assert(sorts_before(keys@, order[x] as int, order[p - 1] as int));
                }
            }
        }
        let ghost old_order = order@;
        order.insert(p, j);
        proof {
            assert forall|a: int, b: int|
                0 <= a < b < j + 1 implies sorts_before(keys@, #[trigger] order[a] as int, #[trigger] order[b] as int) by {
                if b < p {
                    assert(order[a] == old_order[a] && order[b] == old_order[b]);
                } else if b == p {
                    assert(order[a] == old_order[a]);
                } else if a < p {
                    assert(order[a] == old_order[a] && order[b] == old_order[b - 1]);
                    assert(sorts_before(keys@, old_order[a] as int, old_order[b - 1] as int) || a == b - 1);
                } else if a == p {
                    assert(order[b] == old_order[b - 1]);
                } else {
                    assert(order[a] == old_order[a - 1] && order[b] == old_order[b - 1]);
                }
            }
        }
        j = j + 1;
    }
    order
}

} // verus!
