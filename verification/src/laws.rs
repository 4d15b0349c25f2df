//! Order-independence of deferred damage: pending amounts are applied as
//! one exact sum, so the order in which hits were enqueued during a tick
//! cannot change the final hit points.
use vstd::prelude::*;
use crate::damage_system::{hp_after_damage, sum_i32, sum_prefix};
use crate::world::{Slot, pending_damage};

verus! {

proof fn lemma_sum_prefix_congruent(s: Seq<i32>, t: Seq<i32>, n: int)
    requires
        0 <= n <= s.len(),
        n <= t.len(),
        forall|j: int| 0 <= j < n ==> s[j] == t[j],
    ensures
        sum_prefix(s, n) == sum_prefix(t, n),
    decreases n,
{
    if n > 0 {
        lemma_sum_prefix_congruent(s, t, n - 1);
    }
}

/// Removing one element lowers the sum by exactly that element.
proof fn lemma_sum_remove(s: Seq<i32>, i: int)
    requires
        0 <= i < s.len(),
    ensures
        sum_i32(s) == sum_i32(s.remove(i)) + s[i],
    decreases s.len(),
{
    let n = s.len() as int;
    let t = s.remove(i);
    if i == n - 1 {
        assert(forall|j: int| 0 <= j < n - 1 ==> t[j] == s[j]);
        lemma_sum_prefix_congruent(s, t, n - 1);
    } else {
        let sd = s.drop_last();
        lemma_sum_remove(sd, i);
        assert(t.drop_last() =~= sd.remove(i));
        assert(sum_i32(t) == sum_prefix(t, t.len() as int));
        assert(sum_prefix(t, t.len() as int) == sum_prefix(t, t.len() as int - 1) + t[t.len()
            - 1]);
        lemma_sum_prefix_congruent(t, t.drop_last(), t.len() as int - 1);
        assert(sum_prefix(t, t.len() as int - 1) == sum_i32(t.drop_last()));
        assert(t[t.len() - 1] == s[n - 1]);
        assert(sum_i32(s) == sum_prefix(s, n - 1) + s[n - 1]);
        lemma_sum_prefix_congruent(s, sd, n - 1);
        assert(sum_prefix(s, n - 1) == sum_i32(sd));
    }
}

/// Two damage queues holding the same amounts, in any order, sum to the
/// same total.
pub proof fn lemma_sum_permutation(s1: Seq<i32>, s2: Seq<i32>)
    requires
        s1.to_multiset() == s2.to_multiset(),
    ensures
        sum_i32(s1) == sum_i32(s2),
    decreases s1.len(),
{
    s1.to_multiset_ensures();
    s2.to_multiset_ensures();
    if s1.len() == 0 {
        assert(s2.len() == 0);
    } else {
        let n1 = s1.len() as int;
        let x = s1[n1 - 1];
        assert(s1.to_multiset().count(x) > 0);
        assert(s2.contains(x));
        let j = choose|j: int| 0 <= j < s2.len() && s2[j] == x;
        lemma_sum_remove(s1, n1 - 1);
        lemma_sum_remove(s2, j);
        assert(s1.remove(n1 - 1).to_multiset() =~= s1.to_multiset().remove(x));
        assert(s2.remove(j).to_multiset() =~= s2.to_multiset().remove(x));
        lemma_sum_permutation(s1.remove(n1 - 1), s2.remove(j));
    }
}

/// For all sequences of enqueued damage amounts, the applied hit-point
/// delta is their exact sum: two slots that agree on everything but the
/// order of their pending damage end up with the same hit points.
pub proof fn lemma_damage_order_irrelevant(a: Slot, b: Slot)
    requires
        a.combat_stats == b.combat_stats,
        pending_damage(a).to_multiset() == pending_damage(b).to_multiset(),
    ensures
        hp_after_damage(a) == hp_after_damage(b),
{
    lemma_sum_permutation(pending_damage(a), pending_damage(b));
}

} // verus!
