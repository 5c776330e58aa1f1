//! What a run may come to spend: parallel attempts share its budget without
//! overcommitting it.

use vstd::prelude::*;

use crate::engine::{claim, claims, left_of, total};
use crate::ids::AttemptId;
use crate::money::Usd;
use crate::order::{in_order_lists, increasing, Key};
use crate::state::RunStateModel;

verus! {

proof fn total_adds(a: Seq<int>, b: Seq<int>)
    ensures
        total(a + b) == total(a) + total(b),
    decreases b.len(),
{
    if b.len() == 0 {
        assert(a + b =~= a);
    } else {
        total_adds(a, b.drop_last());
        assert((a + b).drop_last() =~= a + b.drop_last());
    }
}

proof fn total_without(a: Seq<int>, i: int)
    requires
        0 <= i < a.len(),
    ensures
        total(a) == total(a.remove(i)) + a[i],
{
    let front = a.take(i);
    let back = a.skip(i + 1);
    let one = seq![a[i]];
    assert(a =~= front + one + back);
    assert(a.remove(i) =~= front + back);
    total_adds(front + one, back);
    total_adds(front, one);
    total_adds(front, back);
    assert(one.drop_last() =~= Seq::<int>::empty());
    assert(total(Seq::<int>::empty()) == 0);
}

/// A sum over a set of keys does not depend on their order.
proof fn total_of_same<K>(a: Seq<K>, b: Seq<K>, f: spec_fn(K) -> int)
    requires
        a.no_duplicates(),
        b.no_duplicates(),
        a.to_set() == b.to_set(),
    ensures
        total(a.map_values(f)) == total(b.map_values(f)),
    decreases a.len(),
{
    if a.len() == 0 {
        if b.len() > 0 {
            assert(b.to_set().contains(b[0]));
            assert(a.contains(b[0]));
        }
        assert(a.map_values(f) =~= b.map_values(f));
    } else {
        let x = a.last();
        assert(a.to_set().contains(x));
        assert(b.contains(x));
        let j = b.index_of(x);
        let rest = b.remove(j);
        total_without(b.map_values(f), j);
        assert(b.map_values(f).remove(j) =~= rest.map_values(f));
        assert(a.map_values(f).drop_last() =~= a.drop_last().map_values(f));
        assert forall|m: int, n: int| 0 <= m < rest.len() && 0 <= n < rest.len() && m
            != n implies rest[m] != rest[n] by {
            let p = if m < j { m } else { m + 1 };
            let q = if n < j { n } else { n + 1 };
            assert(rest[m] == b[p] && rest[n] == b[q]);
        }
        assert forall|k: K| a.drop_last().to_set().contains(k) <==> rest.to_set().contains(k) by {
            if a.drop_last().contains(k) {
                let i = choose|i: int| 0 <= i < a.drop_last().len() && a.drop_last()[i] == k;
                assert(a[i] == k);
                assert(a.to_set().contains(k));
                assert(b.contains(k));
                let m = choose|m: int| 0 <= m < b.len() && b[m] == k;
                assert(k != x);
                assert(m != j);
                assert(rest[if m < j { m } else { m - 1 }] == k);
            }
            if rest.contains(k) {
                let m = choose|m: int| 0 <= m < rest.len() && rest[m] == k;
                let p = if m < j { m } else { m + 1 };
                assert(b[p] == k);
                assert(b.to_set().contains(k));
                assert(a.contains(k));
                let i = choose|i: int| 0 <= i < a.len() && a[i] == k;
                assert(k != x);
                assert(a.drop_last()[i] == k);
            }
        }
        assert(a.drop_last().to_set() =~= rest.to_set());
        total_of_same(a.drop_last(), rest, f);
    }
}

proof fn total_of_equal(n: nat, v: int)
    ensures
        total(Seq::new(n, |i: int| v)) == n * v,
    decreases n,
{
    let all = Seq::new(n, |i: int| v);
    if n > 0 {
        let m = (n - 1) as nat;
        assert(all.drop_last() =~= Seq::new(m, |i: int| v));
        total_of_equal(m, v);
        assert(n * v == m * v + v) by (nonlinear_arith)
            requires
                n == m + 1,
        ;
    } else {
        assert(n * v == 0) by (nonlinear_arith)
            requires
                n == 0,
        ;
    }
}

proof fn total_grows(a: Seq<int>, b: Seq<int>)
    requires
        a.len() == b.len(),
        forall|i: int| 0 <= i < a.len() ==> #[trigger] a[i] <= b[i],
    ensures
        total(a) <= total(b),
    decreases a.len(),
{
    if a.len() > 0 {
        assert(a[a.len() - 1] <= b[a.len() - 1]);
        assert forall|i: int| 0 <= i < a.drop_last().len() implies #[trigger] a.drop_last()[i]
            <= b.drop_last()[i] by {
            assert(a[i] <= b[i]);
        }
        total_grows(a.drop_last(), b.drop_last());
    }
}

proof fn in_order_once<K: Key>(q: Seq<K::Model>)
    requires
        increasing::<K>(q),
    ensures
        q.no_duplicates(),
{
    assert forall|i: int, j: int| 0 <= i < q.len() && 0 <= j < q.len() && i != j implies q[i]
        != q[j] by {
        if i < j {
            assert(K::before(q[i], q[j]));
        } else {
            assert(K::before(q[j], q[i]));
        }
        K::irreflexive(q[i]);
    }
}

/// Attempts have started: the run has them beside those that it had, each with
/// `share` as its cap, and none of them has ended or spent more than that.
pub open spec fn have_started(
    s: RunStateModel,
    caps: Map<AttemptId, Usd>,
    ids: Seq<AttemptId>,
    share: Usd,
    t: RunStateModel,
    after: Map<AttemptId, Usd>,
) -> bool {
    &&& ids.no_duplicates()
    &&& t.attempts.dom() == s.attempts.dom().union(ids.to_set())
    &&& forall|id: AttemptId| #[trigger]
        s.attempts.dom().contains(id) ==> {
            &&& !ids.contains(id)
            &&& t.attempts[id] == s.attempts[id]
            &&& after.dom().contains(id) == caps.dom().contains(id)
            &&& after[id] == caps[id]
        }
    &&& forall|i: int|
        0 <= i < ids.len() ==> {
            &&& t.attempts[#[trigger] ids[i]].outcome is None
            &&& t.attempts[ids[i]].usage.cost_usd.nanos <= share.nanos
            &&& after.dom().contains(ids[i])
            &&& after[ids[i]] == share
        }
}

/// Attempts that run in parallel share the budget without overcommitting it:
/// where what earlier attempts may come to cost is within the limit, it still is
/// with those that start together, each capped at an even share of what is left.
pub proof fn shares_never_overcommit(
    s: RunStateModel,
    caps: Map<AttemptId, Usd>,
    limit: int,
    ids: Seq<AttemptId>,
    share: Usd,
    t: RunStateModel,
    after: Map<AttemptId, Usd>,
)
    requires
        s.wf(),
        t.wf(),
        s.attempts.dom().finite(),
        total(claims(s, caps)) <= limit,
        ids.len() > 0,
        share.nanos == left_of(limit, total(claims(s, caps))) / ids.len() as int,
        have_started(s, caps, ids, share, t, after),
    ensures
        total(claims(t, after)) == total(claims(s, caps)) + ids.len() * share.nanos,
        total(claims(t, after)) <= limit,
{
    let n = ids.len() as int;
    let left = left_of(limit, total(claims(s, caps)));
    assert(n * (left / n) <= left) by (nonlinear_arith)
        requires
            n > 0,
    ;
    let f = |id: AttemptId| claim(t.attempts[id], after);
    let old = s.attempt_order();
    in_order_lists::<AttemptId>(s.attempts.dom());
    assert(ids.to_set().finite());
    in_order_lists::<AttemptId>(t.attempts.dom());
    in_order_once::<AttemptId>(old);
    in_order_once::<AttemptId>(t.attempt_order());
    let all = old + ids;
    assert forall|i: int| 0 <= i < old.len() implies s.attempts.dom().contains(#[trigger] old[i]) by {
        assert(old.to_set().contains(old[i]));
    }
    assert forall|i: int, j: int| 0 <= i < all.len() && 0 <= j < all.len() && i != j implies all[i]
        != all[j] by {
        if i < old.len() && j >= old.len() {
            assert(s.attempts.dom().contains(old[i]));
            assert(ids.contains(ids[j - old.len()]));
        } else if j < old.len() && i >= old.len() {
            assert(s.attempts.dom().contains(old[j]));
            assert(ids.contains(ids[i - old.len()]));
        }
    }
    assert forall|id: AttemptId| all.to_set().contains(id) <==> t.attempts.dom().contains(id) by {
        if all.contains(id) {
            let i = choose|i: int| 0 <= i < all.len() && all[i] == id;
            if i < old.len() {
                assert(s.attempts.dom().contains(old[i]));
            } else {
                assert(ids[i - old.len()] == id);
                assert(ids.to_set().contains(id));
            }
        }
        if t.attempts.dom().contains(id) {
            if s.attempts.dom().contains(id) {
                assert(old.to_set().contains(id));
                let i = choose|i: int| 0 <= i < old.len() && old[i] == id;
                assert(all[i] == id);
            } else {
                assert(ids.to_set().contains(id));
                let i = choose|i: int| 0 <= i < ids.len() && ids[i] == id;
                assert(all[old.len() + i] == id);
            }
        }
    }
    assert(all.to_set() =~= t.attempts.dom());
    total_of_same(t.attempt_order(), all, f);
    assert(all.map_values(f) =~= old.map_values(f) + ids.map_values(f));
    total_adds(old.map_values(f), ids.map_values(f));
    assert(claims(s, caps) =~= old.map_values(f)) by {
        assert forall|i: int| 0 <= i < old.len() implies claims(s, caps)[i] == old.map_values(f)[i] by {
            assert(s.attempts.dom().contains(old[i]));
        }
    }
    assert(ids.map_values(f) =~= Seq::new(ids.len(), |i: int| share.nanos as int)) by {
        assert forall|i: int| 0 <= i < ids.len() implies ids.map_values(f)[i] == share.nanos by {
            let a = t.attempts[ids[i]];
            assert(ids.to_set().contains(ids[i]));
            assert(t.attempts.dom().contains(ids[i]));
            assert(a.id == ids[i]);
        }
    }
    total_of_equal(ids.len(), share.nanos as int);
    assert(claims(t, after) =~= t.attempt_order().map_values(f));
}

/// What each attempt has cost, in id order.
pub open spec fn costs(s: RunStateModel) -> Seq<int> {
    s.attempt_order().map_values(|id: AttemptId| s.attempts[id].usage.cost_usd.nanos as int)
}

/// A run spends no more than is committed: what all attempts have cost is never
/// above what they may come to cost.
pub proof fn spending_is_committed(s: RunStateModel, caps: Map<AttemptId, Usd>)
    ensures
        total(costs(s)) <= total(claims(s, caps)),
{
    assert forall|i: int| 0 <= i < costs(s).len() implies #[trigger] costs(s)[i] <= claims(
        s,
        caps,
    )[i] by {}
    total_grows(costs(s), claims(s, caps));
}

} // verus!
