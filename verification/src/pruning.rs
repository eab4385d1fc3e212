//! Pruning weak synapses: which positions go, and the list without them.

use vstd::prelude::*;

verus! {

/// The positions below `n` whose entry is marked weak, in order.
pub open spec fn weak_positions(weak: Seq<bool>, n: int) -> Seq<usize> {
    Seq::new(n as nat, |i: int| i as usize).filter(|i: usize| weak[i as int])
}

/// The entries of `s` not marked weak in `weak`, in order.
pub open spec fn strong_entries<T>(s: Seq<T>, weak: Seq<bool>) -> Seq<T>
    decreases s.len(),
{
    if s.len() == 0 {
        Seq::empty()
    } else {
        let rest = strong_entries(s.drop_last(), weak);
        if weak[s.len() - 1] {
            rest
        } else {
            rest.push(s.last())
        }
    }
}

/// `s` without the entries at the positions listed in `gone`, in order.
pub open spec fn kept<T>(s: Seq<T>, gone: Seq<usize>) -> Seq<T>
    decreases s.len(),
{
    if s.len() == 0 {
        Seq::empty()
    } else {
        let rest = kept(s.drop_last(), gone);
        if gone.contains((s.len() - 1) as usize) {
            rest
        } else {
            rest.push(s.last())
        }
    }
}

/// The weak positions below `n + 1` are those below `n`, then `n` if it is
/// weak.
proof fn lemma_weak_positions_step(weak: Seq<bool>, n: int)
    requires
        0 <= n < usize::MAX,
    ensures
        weak_positions(weak, n + 1) == if weak[n] {
            weak_positions(weak, n).push(n as usize)
        } else {
            weak_positions(weak, n)
        },
{
    let all = Seq::new((n + 1) as nat, |i: int| i as usize);
    assert(all.drop_last() =~= Seq::new(n as nat, |i: int| i as usize));
    assert(all.last() == n as usize);
    assert((n as usize) as int == n);
    reveal_with_fuel(Seq::filter, 1);
    assert(all.filter(|i: usize| weak[i as int]) == if weak[n] {
        all.drop_last().filter(|i: usize| weak[i as int]).push(n as usize)
    } else {
        all.drop_last().filter(|i: usize| weak[i as int])
    });
}

/// The positions marked weak, in increasing order.
pub fn prune_plan(weak: &Vec<bool>) -> (plan: Vec<usize>)
    ensures
        plan@ == weak_positions(weak@, weak@.len() as int),
        forall|j: int, k: int| 0 <= j < k < plan@.len() ==> plan@[j] < plan@[k],
        forall|j: int| 0 <= j < plan@.len() ==> plan@[j] < weak@.len(),
{
    let n = weak.len();
    let mut plan: Vec<usize> = Vec::new();
    let mut i: usize = 0;
    while i < n
        invariant
            n == weak@.len(),
            i <= n,
            plan@ == weak_positions(weak@, i as int),
            forall|j: int, k: int| 0 <= j < k < plan@.len() ==> plan@[j] < plan@[k],
            forall|j: int| 0 <= j < plan@.len() ==> plan@[j] < i,
        decreases n - i,
    {
        proof {
            lemma_weak_positions_step(weak@, i as int);
        }
        if weak[i] {
            plan.push(i);
        }
        i = i + 1;
    }
    plan
}

/// With every listed position at or past the end, nothing is removed.
proof fn lemma_kept_none<T>(s: Seq<T>, gone: Seq<usize>)
    requires
        forall|x: usize| gone.contains(x) ==> x >= s.len(),
    ensures
        kept(s, gone) == s,
    decreases s.len(),
{
    if s.len() > 0 {
        lemma_kept_none(s.drop_last(), gone);
        assert(s.drop_last().push(s.last()) =~= s);
    }
}

/// With every listed position past `a`, the entries up to `a` are all kept.
proof fn lemma_kept_front<T>(s: Seq<T>, gone: Seq<usize>, a: int)
    requires
        0 <= a < s.len() <= usize::MAX,
        forall|x: usize| gone.contains(x) ==> x > a,
    ensures
        kept(s, gone).len() > a,
        kept(s, gone).take(a + 1) == s.take(a + 1),
    decreases s.len(),
{
    let s1 = s.drop_last();
    if s.len() - 1 == a {
        lemma_kept_none(s1, gone);
        assert(kept(s, gone) =~= s1.push(s.last()));
        assert(s1.push(s.last()) =~= s);
    } else {
        lemma_kept_front(s1, gone, a);
        let k = kept(s1, gone);
        if !gone.contains((s.len() - 1) as usize) {
            assert(k.push(s.last()).take(a + 1) =~= k.take(a + 1));
        }
        assert(s1.take(a + 1) =~= s.take(a + 1));
    }
}

/// Listing one more position `a`, below all those listed, removes the entry
/// that `a` held from what is kept.
proof fn lemma_kept_one_more<T>(s: Seq<T>, gone: Seq<usize>, a: usize)
    requires
        a < s.len() <= usize::MAX,
        forall|x: usize| gone.contains(x) ==> x > a,
    ensures
        kept(s, seq![a] + gone) == kept(s, gone).remove(a as int),
    decreases s.len(),
{
    let g2 = seq![a] + gone;
    assert forall|x: usize| g2.contains(x) <==> (x == a || gone.contains(x)) by {
        if g2.contains(x) {
            let k = choose|k: int| 0 <= k < g2.len() && g2[k] == x;
            if k > 0 {
                assert(gone[k - 1] == x);
            }
        }
        if x == a {
            assert(g2[0] == x);
        }
        if gone.contains(x) {
            let k = choose|k: int| 0 <= k < gone.len() && gone[k] == x;
            assert(g2[k + 1] == x);
        }
    }
    let s1 = s.drop_last();
    let m = (s.len() - 1) as usize;
    if s.len() - 1 == a {
        assert(m == a);
        assert(g2.contains(m));
        assert(!gone.contains(m));
        lemma_kept_none(s1, g2);
        lemma_kept_none(s1, gone);
        assert(kept(s, g2) == kept(s1, g2));
        assert(kept(s, gone) == kept(s1, gone).push(s.last()));
        assert(s1.push(s.last()).remove(a as int) =~= s1);
    } else {
        assert(m != a);
        assert(g2.contains(m) == gone.contains(m));
        lemma_kept_one_more(s1, gone, a);
        lemma_kept_front(s1, gone, a as int);
        let k = kept(s1, gone);
        if !gone.contains(m) {
            assert(kept(s, g2) == kept(s1, g2).push(s.last()));
            assert(kept(s, gone) == k.push(s.last()));
            assert(k.push(s.last()).remove(a as int) =~= k.remove(a as int).push(s.last()));
        } else {
            assert(kept(s, g2) == kept(s1, g2));
            assert(kept(s, gone) == k);
        }
    }
}

/// Removes the entries at the positions in `plan`, which go strictly up and
/// lie within `v`; the rest keep their order.
pub fn remove_positions<T>(v: &mut Vec<T>, plan: &Vec<usize>)
    requires
        forall|j: int, k: int| 0 <= j < k < plan@.len() ==> plan@[j] < plan@[k],
        forall|j: int| 0 <= j < plan@.len() ==> plan@[j] < old(v)@.len(),
    ensures
        final(v)@ == kept(old(v)@, plan@),
{
    let ghost orig = v@;
    let _ = v.len();
    let mut k: usize = plan.len();
    proof {
        assert(plan@.skip(k as int) =~= Seq::<usize>::empty());
        lemma_kept_none(orig, plan@.skip(k as int));
    }
    while k > 0
        invariant
            k <= plan@.len(),
            forall|j: int, m: int| 0 <= j < m < plan@.len() ==> plan@[j] < plan@[m],
            forall|j: int| 0 <= j < plan@.len() ==> plan@[j] < orig.len(),
            orig.len() <= usize::MAX,
            v@ == kept(orig, plan@.skip(k as int)),
        decreases k,
    {
        let a = plan[k - 1];
        let ghost rest = plan@.skip(k as int);
        proof {
            assert forall|x: usize| rest.contains(x) implies x > a by {
                let m = choose|m: int| 0 <= m < rest.len() && rest[m] == x;
                assert(plan@[k + m] == x);
            }
            lemma_kept_front(orig, rest, a as int);
            lemma_kept_one_more(orig, rest, a);
            assert(plan@.skip(k - 1) =~= seq![a] + rest);
        }
        v.remove(a);
        k = k - 1;
    }
    proof {
        assert(plan@.skip(0) =~= plan@);
    }
}

/// Prunes `v`, whose entries are marked weak or not in `weak`: every weak
/// entry goes, the others stay in order.
pub fn prune_weak<T>(v: &mut Vec<T>, weak: &Vec<bool>)
    requires
        weak@.len() == old(v)@.len(),
    ensures
        final(v)@ == strong_entries(old(v)@, weak@),
{
    let plan = prune_plan(weak);
    let _ = weak.len();
    let ghost before = v@;
    remove_positions(v, &plan);
    proof {
        lemma_kept_weak(before, weak@, weak@.len() as int);
    }
}

/// The weak positions below `n` go strictly up, lie below `n`, and are weak.
proof fn lemma_weak_positions_shape(weak: Seq<bool>, n: int)
    requires
        0 <= n <= usize::MAX,
    ensures
        forall|j: int, k: int|
            0 <= j < k < weak_positions(weak, n).len() ==> weak_positions(weak, n)[j]
                < weak_positions(weak, n)[k],
        forall|j: int|
            0 <= j < weak_positions(weak, n).len() ==> weak_positions(weak, n)[j] < n && weak[
                weak_positions(weak, n)[j] as int
            ],
    decreases n,
{
    if n > 0 {
        lemma_weak_positions_shape(weak, n - 1);
        lemma_weak_positions_step(weak, n - 1);
    } else {
        assert(weak_positions(weak, 0) =~= Seq::<usize>::empty()) by {
            reveal_with_fuel(Seq::filter, 1);
        }
    }
}

/// A position below `n` is listed among the weak positions exactly when it is
/// marked weak.
proof fn lemma_weak_positions_member(weak: Seq<bool>, n: int, i: int)
    requires
        0 <= i < n <= usize::MAX,
    ensures
        weak_positions(weak, n).contains(i as usize) <==> weak[i],
{
    lemma_weak_positions_shape(weak, n);
    let all = Seq::new(n as nat, |k: int| k as usize);
    let pred = |k: usize| weak[k as int];
    if weak[i] {
        assert(all[i] == i as usize);
        all.lemma_filter_contains(pred, i);
    }
    if weak_positions(weak, n).contains(i as usize) {
        let j = choose|j: int|
            0 <= j < weak_positions(weak, n).len() && weak_positions(weak, n)[j] == i as usize;
        assert(weak[weak_positions(weak, n)[j] as int]);
    }
}

/// Removing the weak positions below `n` from a list no longer than `n`
/// leaves its entries that are not marked weak.
proof fn lemma_kept_weak<T>(s: Seq<T>, weak: Seq<bool>, n: int)
    requires
        s.len() <= n <= usize::MAX,
    ensures
        kept(s, weak_positions(weak, n)) == strong_entries(s, weak),
    decreases s.len(),
{
    if s.len() > 0 {
        lemma_kept_weak(s.drop_last(), weak, n);
        lemma_weak_positions_member(weak, n, s.len() - 1);
    }
}

/// Pruning by a property of each entry leaves exactly the entries without
/// it, in order: no weak entry stays and every other one does.
pub proof fn lemma_prune_by_property<T>(s: Seq<T>, weak: Seq<bool>, p: spec_fn(T) -> bool)
    requires
        weak.len() == s.len(),
        forall|i: int| 0 <= i < s.len() ==> weak[i] == p(#[trigger] s[i]),
    ensures
        strong_entries(s, weak) == s.filter(|x: T| !p(x)),
    decreases s.len(),
{
    reveal_with_fuel(Seq::filter, 1);
    if s.len() > 0 {
        let s1 = s.drop_last();
        assert forall|i: int| 0 <= i < s1.len() implies weak.drop_last()[i] == p(#[trigger] s1[i]) by {
            assert(s1[i] == s[i]);
        }
        lemma_prune_by_property(s1, weak.drop_last(), p);
        lemma_strong_entries_prefix(s1, weak);
        assert(p(s[s.len() - 1]) == weak[s.len() - 1]);
    }
}

/// Only the marks of positions within `s` matter.
proof fn lemma_strong_entries_prefix<T>(s: Seq<T>, weak: Seq<bool>)
    requires
        s.len() < weak.len(),
    ensures
        strong_entries(s, weak.drop_last()) == strong_entries(s, weak),
    decreases s.len(),
{
    if s.len() > 0 {
        lemma_strong_entries_prefix(s.drop_last(), weak);
    }
}

} // verus!
