//! Stable ordering of rule indices by a numeric key.
//!
//! Rules are tried in ascending key order, ties broken by configuration
//! order, so the reported index is always the rule's configured one.

use vstd::prelude::*;

verus! {

/// Whether index `a` comes before index `b`: a smaller key, or an equal key
/// and an earlier index.
pub open spec fn key_before(keys: Seq<u64>, a: int, b: int) -> bool {
    keys[a] < keys[b] || (keys[a] == keys[b] && a < b)
}

/// Whether `order` holds index `i` at some position.
pub open spec fn lists(order: Seq<usize>, i: int) -> bool {
    exists|p: int| 0 <= p < order.len() && #[trigger] order[p] == i
}

/// Whether `order` lists every index of `keys` exactly once, in ascending
/// (key, index) order.
pub open spec fn is_key_order(order: Seq<usize>, keys: Seq<u64>) -> bool {
    &&& order.len() == keys.len()
    &&& forall|p: int| 0 <= p < order.len() ==> #[trigger] order[p] < keys.len()
    &&& forall|i: int| 0 <= i < keys.len() ==> #[trigger] lists(order, i)
    &&& forall|p: int, q: int| 0 <= p < q < order.len() ==> key_before(keys, #[trigger] order[p] as int, #[trigger] order[q] as int)
}

/// The indices of `keys` in ascending (key, index) order: a stable sort by
/// key.
pub fn order_by_key(keys: &Vec<u64>) -> (order: Vec<usize>)
    ensures
        is_key_order(order@, keys@),
{
    let mut order: Vec<usize> = Vec::new();
    let mut i: usize = 0;
    while i < keys.len()
        invariant
            i <= keys.len(),
            order.len() == i,
            forall|p: int| 0 <= p < order.len() ==> #[trigger] order@[p] < i,
            forall|j: int| 0 <= j < i ==> #[trigger] lists(order@, j),
            forall|p: int, q: int| 0 <= p < q < order.len() ==> key_before(keys@, #[trigger] order@[p] as int, #[trigger] order@[q] as int),
        decreases keys.len() - i,
    {
        let mut pos: usize = 0;
        while pos < order.len() && keys[order[pos]] <= keys[i]
            invariant
                pos <= order.len(),
                order.len() == i,
                i < keys.len(),
                forall|p: int| 0 <= p < order.len() ==> #[trigger] order@[p] < i,
                forall|p: int| 0 <= p < pos ==> keys@[#[trigger] order@[p] as int] <= keys@[i as int],
            decreases order.len() - pos,
        {
            pos = pos + 1;
        }
        let ghost old_order = order@;
        order.insert(pos, i);
        proof {
            assert(order@ == old_order.insert(pos as int, i));
            assert forall|p: int| 0 <= p < order.len() implies #[trigger] order@[p] < i + 1 by {
                if p < pos {
                    assert(order@[p] == old_order[p]);
                } else if p > pos {
                    assert(order@[p] == old_order[p - 1]);
                }
            }
            assert forall|j: int| 0 <= j < i + 1 implies #[trigger] lists(order@, j) by {
                if j == i {
                    assert(order@[pos as int] == i);
                } else {
                    assert(lists(old_order, j));
                    let p = choose|p: int| 0 <= p < old_order.len() && old_order[p] == j;
                    if p < pos {
                        assert(order@[p] == j);
                    } else {
                        assert(order@[p + 1] == j);
                    }
                }
            }
            assert forall|p: int, q: int| 0 <= p < q < order.len() implies key_before(keys@, #[trigger] order@[p] as int, #[trigger] order@[q] as int) by {
                if q < pos {
                    assert(order@[p] == old_order[p] && order@[q] == old_order[q]);
                } else if q == pos {
                    assert(order@[p] == old_order[p]);
                    assert(keys@[old_order[p] as int] <= keys@[i as int]);
                } else if p > pos {
                    assert(order@[p] == old_order[p - 1] && order@[q] == old_order[q - 1]);
                } else if p == pos {
                    assert(order@[q] == old_order[q - 1]);
                    assert(keys@[old_order[pos as int] as int] > keys@[i as int]);
                    if q - 1 > pos {
                        assert(key_before(keys@, old_order[pos as int] as int, old_order[q - 1] as int));
                    }
                } else {
                    assert(order@[p] == old_order[p] && order@[q] == old_order[q - 1]);
                }
            }
        }
        i = i + 1;
    }
    order
}

/// The first position whose index satisfies a property is the one with the
/// least (key, index) among all indices that satisfy it.
pub proof fn lemma_first_in_order_is_least(order: Seq<usize>, keys: Seq<u64>, p: int, j: int, holds: spec_fn(int) -> bool)
    requires
        is_key_order(order, keys),
        0 <= p < order.len(),
        holds(order[p] as int),
        forall|q: int| 0 <= q < p ==> !holds(#[trigger] order[q] as int),
        0 <= j < keys.len(),
        holds(j),
        j != order[p] as int,
    ensures
        key_before(keys, order[p] as int, j),
{
    assert(lists(order, j));
    let q = choose|q: int| 0 <= q < order.len() && #[trigger] order[q] == j;
    if q < p {
        assert(!holds(order[q] as int));
    }
    assert(q != p);
}

} // verus!
