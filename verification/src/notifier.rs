//! Keeping the list of subscribers to configuration changes: after a
//! notification, the subscribers that could not be reached are dropped.
use vstd::prelude::*;

verus! {

/// `Vec::swap_remove`: the last element takes the place of the one at `i`.
pub open spec fn swap_removed<T>(s: Seq<T>, i: int) -> Seq<T> {
    s.update(i, s.last()).drop_last()
}

/// The positions at which `failed` holds, in increasing order.
pub open spec fn failed_positions(failed: Seq<bool>) -> Seq<int>
    decreases failed.len(),
{
    if failed.len() == 0 {
        Seq::empty()
    } else if failed.last() {
        failed_positions(failed.drop_last()).push(failed.len() - 1)
    } else {
        failed_positions(failed.drop_last())
    }
}

/// `s` after swap-removing the positions in `m`, the last one first.
pub open spec fn pruned<T>(s: Seq<T>, m: Seq<int>) -> Seq<T>
    decreases m.len(),
{
    if m.len() == 0 {
        s
    } else {
        pruned(swap_removed(s, m.last()), m.drop_last())
    }
}

proof fn lemma_failed_positions(failed: Seq<bool>)
    ensures
        ({
            let m = failed_positions(failed);
            &&& forall|k: int| 0 <= k < m.len() ==> 0 <= #[trigger] m[k] && m[k] + (m.len() - k) <= failed.len()
            &&& forall|k: int| 0 <= k < m.len() ==> failed[#[trigger] m[k]]
            &&& forall|k1: int, k2: int| 0 <= k1 < k2 < m.len() ==> #[trigger] m[k1] < #[trigger] m[k2]
            &&& forall|i: int| 0 <= i < failed.len() && failed[i] ==> #[trigger] m.contains(i)
        }),
    decreases failed.len(),
{
    if failed.len() > 0 {
        let f = failed.drop_last();
        lemma_failed_positions(f);
        let m0 = failed_positions(f);
        let m = failed_positions(failed);
        assert forall|k: int| 0 <= k < m.len() implies 0 <= #[trigger] m[k] && m[k] + (m.len() - k) <= failed.len()
            && failed[m[k]] by {
            if k < m0.len() {
                assert(m[k] == m0[k]);
                assert(f[m0[k]] == failed[m0[k]]);
            }
        }
        assert forall|k1: int, k2: int| 0 <= k1 < k2 < m.len() implies #[trigger] m[k1] < #[trigger] m[k2] by {
            assert(m[k1] == m0[k1]);
            if k2 < m0.len() {
                assert(m[k2] == m0[k2]);
            }
        }
        assert forall|i: int| 0 <= i < failed.len() && failed[i] implies #[trigger] m.contains(i) by {
            if i < f.len() {
                assert(f[i] == failed[i]);
                assert(m0.contains(i));
                let k = choose|k: int| 0 <= k < m0.len() && m0[k] == i;
                assert(m[k] == m0[k]);
                assert(m[k] == i);
            } else {
                assert(m[m.len() - 1] == i);
            }
        }
    }
}

proof fn lemma_pruned<T>(s: Seq<T>, m: Seq<int>)
    requires
        forall|k: int| 0 <= k < m.len() ==> 0 <= #[trigger] m[k] && m[k] + (m.len() - k) <= s.len(),
        forall|k1: int, k2: int| 0 <= k1 < k2 < m.len() ==> #[trigger] m[k1] < #[trigger] m[k2],
    ensures
        pruned(s, m).len() == s.len() - m.len(),
        forall|i: int| 0 <= i < s.len() && !m.contains(i) ==> pruned(s, m).contains(#[trigger] s[i]),
    decreases m.len(),
{
    if m.len() > 0 {
        let x = m.last();
        let m2 = m.drop_last();
        let s2 = swap_removed(s, x);
        assert forall|k: int| 0 <= k < m2.len() implies 0 <= #[trigger] m2[k] && m2[k] + (m2.len() - k) <= s2.len() by {
            assert(m2[k] == m[k]);
        }
        assert forall|k1: int, k2: int| 0 <= k1 < k2 < m2.len() implies #[trigger] m2[k1] < #[trigger] m2[k2] by {
            assert(m2[k1] == m[k1] && m2[k2] == m[k2]);
        }
        lemma_pruned(s2, m2);
        assert forall|i: int| 0 <= i < s.len() && !m.contains(i) implies pruned(s, m).contains(#[trigger] s[i]) by {
            assert(i != x);
            if i < s.len() - 1 {
                assert(s2[i] == s[i]);
                if m2.contains(i) {
                    let k = choose|k: int| 0 <= k < m2.len() && m2[k] == i;
                    assert(m[k] == i);
                }
            } else {
                assert(s2[x] == s[i]);
                if m2.contains(x) {
                    let k = choose|k: int| 0 <= k < m2.len() && m2[k] == x;
                    assert(m[k] < m[m.len() - 1]);
                }
            }
        }
    }
}

/// Dropping the failed subscribers removes as many as failed and keeps
/// every one whose notification went through.
pub proof fn lemma_drop_failed_keeps_the_others<T>(s: Seq<T>, failed: Seq<bool>)
    requires
        failed.len() == s.len(),
    ensures
        pruned(s, failed_positions(failed)).len() == s.len() - failed_positions(failed).len(),
        forall|i: int| 0 <= i < s.len() && !failed[i] ==> pruned(s, failed_positions(failed)).contains(#[trigger] s[i]),
{
    let m = failed_positions(failed);
    lemma_failed_positions(failed);
    lemma_pruned(s, m);
    assert forall|i: int| 0 <= i < s.len() && !failed[i] implies !m.contains(i) by {
        if m.contains(i) {
            let k = choose|k: int| 0 <= k < m.len() && m[k] == i;
            assert(failed[m[k]]);
        }
    }
}

/// Drops the subscribers whose notification failed: their positions are
/// swap-removed, from the last to the first.
pub fn drop_failed<T>(subscribers: &mut Vec<T>, failed: &Vec<bool>)
    requires
        failed@.len() == old(subscribers)@.len(),
    ensures
        final(subscribers)@ == pruned(old(subscribers)@, failed_positions(failed@)),
{
    let mut marked: Vec<usize> = Vec::new();
    let mut i: usize = 0;
    while i < failed.len()
        invariant
            i <= failed.len(),
            marked@.len() == failed_positions(failed@.take(i as int)).len(),
            forall|k: int| 0 <= k < marked@.len() ==> (#[trigger] marked@[k]) as int == failed_positions(failed@.take(i as int))[k],
        decreases failed.len() - i,
    {
        proof {
            assert(failed@.take(i + 1).drop_last() =~= failed@.take(i as int));
        }
        if failed[i] {
            marked.push(i);
        }
        i = i + 1;
    }
    proof {
        assert(failed@.take(i as int) =~= failed@);
        lemma_failed_positions(failed@);
    }
    let ghost m = failed_positions(failed@);
    let ghost n = subscribers@.len();
    let mut j: usize = marked.len();
    proof {
        assert(m.take(j as int) =~= m);
    }
    while j > 0
        invariant
            j <= marked@.len(),
            marked@.len() == m.len(),
            forall|k: int| 0 <= k < marked@.len() ==> (#[trigger] marked@[k]) as int == m[k],
            forall|k: int| 0 <= k < m.len() ==> 0 <= #[trigger] m[k] && m[k] + (m.len() - k) <= n,
            subscribers@.len() == n - (m.len() - j),
            pruned(old(subscribers)@, m) == pruned(subscribers@, m.take(j as int)),
        decreases j,
    {
        let p = marked[j - 1];
        proof {
            assert(m.take(j as int).drop_last() =~= m.take(j - 1));
        }
        subscribers.swap_remove(p);
        j = j - 1;
    }
    proof {
        assert(m.take(0) =~= Seq::<int>::empty());
    }
}

} // verus!
