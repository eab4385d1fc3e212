//! The synapses a child keeps: one per pair of ends, ordered by the pair.

use vstd::prelude::*;

verus! {

/// The order of synapse ends: by the sending neuron, then the receiving one.
pub open spec fn key_lt(a: (u32, u32), b: (u32, u32)) -> bool {
    a.0 < b.0 || (a.0 == b.0 && a.1 < b.1)
}

/// Whether `a` comes before `b`.
fn key_less(a: (u32, u32), b: (u32, u32)) -> (r: bool)
    ensures
        r == key_lt(a, b),
{
    a.0 < b.0 || (a.0 == b.0 && a.1 < b.1)
}

/// Whether `i` is the first position that holds its pair.
pub open spec fn first_of_key(keys: Seq<(u32, u32)>, i: int) -> bool {
    forall|m: int| 0 <= m < i ==> keys[m] != keys[i]
}

/// Whether `order` lists positions of `keys` whose pairs strictly increase.
pub open spec fn strictly_sorted(keys: Seq<(u32, u32)>, order: Seq<usize>) -> bool {
    forall|a: int, b: int|
        0 <= a < b < order.len() ==> key_lt(keys[#[trigger] order[a] as int], keys[#[trigger] order[b] as int])
}

/// Whether `order` is what sorting by pair, stably, and then dropping every
/// element whose pair equals the one before gives: for each pair that occurs,
/// its first position, in increasing order of pairs.
pub open spec fn is_crossover_order(keys: Seq<(u32, u32)>, order: Seq<usize>) -> bool {
    &&& forall|j: int| 0 <= j < order.len() ==> #[trigger] order[j] < keys.len()
    &&& strictly_sorted(keys, order)
    &&& forall|j: int| 0 <= j < order.len() ==> first_of_key(keys, #[trigger] order[j] as int)
    &&& forall|m: int| 0 <= m < keys.len() ==> key_listed(keys, order, #[trigger] keys[m])
}

/// Whether some entry of `order` holds the pair `k`.
pub open spec fn key_listed(keys: Seq<(u32, u32)>, order: Seq<usize>, k: (u32, u32)) -> bool {
    exists|j: int| 0 <= j < order.len() && keys[#[trigger] order[j] as int] == k
}

proof fn lemma_key_lt_trans(a: (u32, u32), b: (u32, u32), c: (u32, u32))
    requires
        key_lt(a, b),
        key_lt(b, c),
    ensures
        key_lt(a, c),
{
}

/// The first place in `order` whose pair is not before `k`.
fn lower_bound(keys: &Vec<(u32, u32)>, order: &Vec<usize>, k: (u32, u32)) -> (pos: usize)
    requires
        forall|j: int| 0 <= j < order@.len() ==> #[trigger] order@[j] < keys@.len(),
        strictly_sorted(keys@, order@),
    ensures
        pos <= order@.len(),
        forall|j: int| 0 <= j < pos ==> key_lt(keys@[#[trigger] order@[j] as int], k),
        forall|j: int| pos <= j < order@.len() ==> !key_lt(keys@[#[trigger] order@[j] as int], k),
{
    let mut lo: usize = 0;
    let mut hi: usize = order.len();
    while lo < hi
        invariant
            lo <= hi <= order@.len(),
            forall|j: int| 0 <= j < order@.len() ==> #[trigger] order@[j] < keys@.len(),
            strictly_sorted(keys@, order@),
            forall|j: int| 0 <= j < lo ==> key_lt(keys@[#[trigger] order@[j] as int], k),
            forall|j: int| hi <= j < order@.len() ==> !key_lt(keys@[#[trigger] order@[j] as int], k),
        decreases hi - lo,
    {
        let mid = lo + (hi - lo) / 2;
        if key_less(keys[order[mid]], k) {
            proof {
                assert forall|j: int| 0 <= j < mid + 1 implies key_lt(
                    keys@[#[trigger] order@[j] as int],
                    k,
                ) by {
                    if j < mid {
                        assert(key_lt(keys@[order@[j] as int], keys@[order@[mid as int] as int]));
                        lemma_key_lt_trans(keys@[order@[j] as int], keys@[order@[mid as int] as int], k);
                    }
                }
            }
            lo = mid + 1;
        } else {
            proof {
                assert forall|j: int| mid <= j < order@.len() implies !key_lt(
                    keys@[#[trigger] order@[j] as int],
                    k,
                ) by {
                    if j > mid {
                        assert(key_lt(keys@[order@[mid as int] as int], keys@[order@[j] as int]));
                    }
                }
            }
            hi = mid;
        }
    }
    lo
}

/// What holds of `order` after the first `i` positions are taken in.
pub open spec fn order_inv(keys: Seq<(u32, u32)>, order: Seq<usize>, i: int) -> bool {
    &&& forall|j: int| 0 <= j < order.len() ==> #[trigger] order[j] < i
    &&& strictly_sorted(keys, order)
    &&& forall|j: int| 0 <= j < order.len() ==> first_of_key(keys, #[trigger] order[j] as int)
    &&& forall|m: int| 0 <= m < i ==> key_listed(keys, order, #[trigger] keys[m])
}

/// A pair not yet in `order` is new: no earlier position holds it.
proof fn lemma_absent_is_first(keys: Seq<(u32, u32)>, order: Seq<usize>, i: int, pos: int)
    requires
        0 <= i < keys.len(),
        order_inv(keys, order, i),
        0 <= pos <= order.len(),
        forall|j: int| 0 <= j < pos ==> key_lt(keys[#[trigger] order[j] as int], keys[i]),
        forall|j: int| pos <= j < order.len() ==> !key_lt(keys[#[trigger] order[j] as int], keys[i]),
        pos < order.len() ==> keys[order[pos] as int] != keys[i],
    ensures
        first_of_key(keys, i),
{
    let k = keys[i];
    assert forall|m: int| 0 <= m < i implies keys[m] != k by {
        assert(keys[m] == keys[m]);
        let j = choose|j: int| 0 <= j < order.len() && keys[order[j] as int] == keys[m];
        if j < pos {
            assert(key_lt(keys[order[j] as int], k));
        } else {
            assert(!key_lt(keys[order[j] as int], k));
            if j > pos {
                assert(key_lt(keys[order[pos] as int], keys[order[j] as int]));
            }
        }
    }
}

/// Where each old entry sits after inserting at `pos`.
proof fn lemma_insert_index(order: Seq<usize>, pos: int, v: usize)
    requires
        0 <= pos <= order.len(),
    ensures
        forall|j: int| 0 <= j < pos ==> order.insert(pos, v)[j] == #[trigger] order[j],
        forall|j: int| pos <= j < order.len() ==> order.insert(pos, v)[j + 1] == #[trigger] order[j],
        order.insert(pos, v)[pos] == v,
        order.insert(pos, v).len() == order.len() + 1,
{
}

/// Inserting the new pair at its place keeps the pairs strictly increasing.
proof fn lemma_insert_sorted(keys: Seq<(u32, u32)>, order: Seq<usize>, i: int, pos: int)
    requires
        0 <= i < keys.len(),
        i <= usize::MAX,
        forall|j: int| 0 <= j < order.len() ==> #[trigger] order[j] < keys.len(),
        strictly_sorted(keys, order),
        0 <= pos <= order.len(),
        forall|j: int| 0 <= j < pos ==> key_lt(keys[#[trigger] order[j] as int], keys[i]),
        forall|j: int| pos <= j < order.len() ==> !key_lt(keys[#[trigger] order[j] as int], keys[i]),
        pos < order.len() ==> keys[order[pos] as int] != keys[i],
    ensures
        strictly_sorted(keys, order.insert(pos, i as usize)),
{
    let k = keys[i];
    let no = order.insert(pos, i as usize);
    lemma_insert_index(order, pos, i as usize);
    assert forall|a: int, b: int| 0 <= a < b < no.len() implies key_lt(
        keys[#[trigger] no[a] as int],
        keys[#[trigger] no[b] as int],
    ) by {
        if a < pos && b < pos {
            assert(no[a] == order[a] && no[b] == order[b]);
        } else if a < pos && b == pos {
            assert(no[a] == order[a]);
        } else if a < pos {
            assert(no[a] == order[a] && no[b] == order[b - 1]);
            assert(key_lt(keys[order[a] as int], keys[order[b - 1] as int]));
        } else if a == pos {
            assert(no[b] == order[b - 1]);
            assert(!key_lt(keys[order[b - 1] as int], k));
            if b - 1 > pos {
                assert(key_lt(keys[order[pos] as int], keys[order[b - 1] as int]));
            }
        } else {
            assert(no[a] == order[a - 1] && no[b] == order[b - 1]);
            assert(key_lt(keys[order[a - 1] as int], keys[order[b - 1] as int]));
        }
    }
}

/// Inserting a new pair at its place keeps the order.
proof fn lemma_insert_keeps_order(keys: Seq<(u32, u32)>, order: Seq<usize>, i: int, pos: int)
    requires
        0 <= i < keys.len(),
        i <= usize::MAX,
        order_inv(keys, order, i),
        0 <= pos <= order.len(),
        forall|j: int| 0 <= j < pos ==> key_lt(keys[#[trigger] order[j] as int], keys[i]),
        forall|j: int| pos <= j < order.len() ==> !key_lt(keys[#[trigger] order[j] as int], keys[i]),
        pos < order.len() ==> keys[order[pos] as int] != keys[i],
    ensures
        order_inv(keys, order.insert(pos, i as usize), i + 1),
{
    let no = order.insert(pos, i as usize);
    lemma_absent_is_first(keys, order, i, pos);
    lemma_insert_index(order, pos, i as usize);
    assert forall|j: int| 0 <= j < order.len() implies #[trigger] order[j] < keys.len() by {
        assert(order[j] < i);
    }
    lemma_insert_sorted(keys, order, i, pos);
    assert forall|j: int| 0 <= j < no.len() implies #[trigger] no[j] < i + 1 by {
        if j < pos {
            assert(no[j] == order[j]);
        } else if j > pos {
            assert(no[j] == order[j - 1]);
        }
    }
    assert forall|j: int| 0 <= j < no.len() implies first_of_key(keys, #[trigger] no[j] as int) by {
        if j < pos {
            assert(no[j] == order[j]);
        } else if j > pos {
            assert(no[j] == order[j - 1]);
        }
    }
    assert forall|m: int| 0 <= m < i + 1 implies key_listed(keys, no, #[trigger] keys[m]) by {
        if m == i {
            assert(no[pos] == i);
        } else {
            let j = choose|j: int| 0 <= j < order.len() && keys[order[j] as int] == keys[m];
            if j < pos {
                assert(no[j] == order[j]);
            } else {
                assert(no[j + 1] == order[j]);
            }
        }
    }
}

/// A pair already in `order` needs nothing more.
proof fn lemma_present_keeps_order(keys: Seq<(u32, u32)>, order: Seq<usize>, i: int, pos: int)
    requires
        0 <= i < keys.len(),
        order_inv(keys, order, i),
        0 <= pos < order.len(),
        keys[order[pos] as int] == keys[i],
    ensures
        order_inv(keys, order, i + 1),
{
    assert forall|j: int| 0 <= j < order.len() implies #[trigger] order[j] < i + 1 by {}
    assert forall|m: int| 0 <= m < i + 1 implies key_listed(keys, order, #[trigger] keys[m]) by {
        if m == i {
            assert(keys[order[pos] as int] == keys[m]);
        } else {
            assert(keys[m] == keys[m]);
        }
    }
}

/// The positions of the synapses a child keeps out of those drawn from both
/// parents, given the pair of ends of each: see `is_crossover_order`.
pub fn crossover_order(keys: &Vec<(u32, u32)>) -> (order: Vec<usize>)
    ensures
        is_crossover_order(keys@, order@),
{
    let n = keys.len();
    let mut order: Vec<usize> = Vec::new();
    let mut i: usize = 0;
    while i < n
        invariant
            n == keys@.len(),
            i <= n,
            order_inv(keys@, order@, i as int),
        decreases n - i,
    {
        let k = keys[i];
        proof {
            assert forall|j: int| 0 <= j < order@.len() implies #[trigger] order@[j] < keys@.len() by {
                assert(order@[j] < i);
            }
        }
        let pos = lower_bound(keys, &order, k);
        let present = pos < order.len() && {
            let q = keys[order[pos]];
            q.0 == k.0 && q.1 == k.1
        };
        if !present {
            proof {
                lemma_insert_keeps_order(keys@, order@, i as int, pos as int);
            }
            order.insert(pos, i);
        } else {
            proof {
                lemma_present_keeps_order(keys@, order@, i as int, pos as int);
            }
        }
        i = i + 1;
    }
    proof {
        assert forall|j: int| 0 <= j < order@.len() implies #[trigger] order@[j] < keys@.len() by {
            assert(order@[j] < n);
        }
    }
    order
}

} // verus!
