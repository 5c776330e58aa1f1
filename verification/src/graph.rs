//! Dependency graphs for task plans.
//!
//! A plan is a directed acyclic graph: each node lists the nodes it depends
//! on. The scheduler asks the graph which nodes are *ready* (every dependency
//! done, not already active), and which nodes are affected when one fails.
//! Everything is kept in key order, so scheduling decisions are deterministic
//! and can be replayed.

use vstd::prelude::*;

use crate::order::{increasing, models, models_push, Key, OrdMap, OrdSet, Rank};
use crate::text::{join, texts};

verus! {

/// Errors found while building or validating a dependency graph.
#[derive(Debug, PartialEq, Eq)]
pub enum GraphError {
    UnknownDependency { node: String, dependency: String },
    SelfDependency { node: String },
    Cycle { path: Vec<String> },
}

impl GraphError {
    pub open spec fn message_spec(&self) -> Seq<char> {
        match self {
            GraphError::UnknownDependency { node, dependency } => "`"@ + node@
                + "` depends on unknown node `"@ + dependency@ + "`"@,
            GraphError::SelfDependency { node } => "`"@ + node@ + "` depends on itself"@,
            GraphError::Cycle { path } => "dependency cycle: "@ + join(texts(path@), " -> "@),
        }
    }

    /// The error, in words.
    pub fn message(&self) -> (r: String)
        ensures
            r@ == self.message_spec(),
    {
        match self {
            GraphError::UnknownDependency { node, dependency } => {
                let mut r = "`".to_owned();
                r.append(node.as_str());
                r.append("` depends on unknown node `");
                r.append(dependency.as_str());
                r.append("`");
                r
            },
            GraphError::SelfDependency { node } => {
                let mut r = "`".to_owned();
                r.append(node.as_str());
                r.append("` depends on itself");
                r
            },
            GraphError::Cycle { path } => {
                let mut r = "dependency cycle: ".to_owned();
                r.append(crate::text::join_texts(path, " -> ").as_str());
                r
            },
        }
    }
}

/// The next node follows from the one before it: each depends on the next.
pub open spec fn is_path<M>(g: Map<M, Set<M>>, p: Seq<M>) -> bool {
    forall|i: int|
        0 <= i < p.len() - 1 ==> g.dom().contains(#[trigger] p[i]) && g[p[i]].contains(p[i + 1])
}

/// `p` leads from `a` to `b` in at least one step.
pub open spec fn leads<M>(g: Map<M, Set<M>>, p: Seq<M>, a: M, b: M) -> bool {
    &&& p.len() >= 2
    &&& is_path(g, p)
    &&& p.first() == a
    &&& p.last() == b
}

/// `a` directly or indirectly depends on `b`.
pub open spec fn depends<M>(g: Map<M, Set<M>>, a: M, b: M) -> bool {
    exists|p: Seq<M>| leads(g, p, a, b)
}

/// No node depends on itself, directly or indirectly.
pub open spec fn acyclic<M>(g: Map<M, Set<M>>) -> bool {
    forall|m: M| !#[trigger] depends(g, m, m)
}

/// `n` is left, and all it depends on is done.
pub open spec fn available<M>(g: Map<M, Set<M>>, done: Set<M>, n: M) -> bool {
    &&& g.dom().contains(n)
    &&& !done.contains(n)
    &&& g[n].subset_of(done)
}

/// `n` is the least node available.
pub open spec fn is_next<K: Key>(
    g: Map<K::Model, Set<K::Model>>,
    done: Set<K::Model>,
    n: K::Model,
) -> bool {
    &&& available(g, done, n)
    &&& forall|m: K::Model| #[trigger] available(g, done, m) ==> m == n || K::before(n, m)
}

/// Each node of `s` is the least one available after those before it.
pub open spec fn is_schedule<K: Key>(
    g: Map<K::Model, Set<K::Model>>,
    s: Seq<K::Model>,
) -> bool {
    forall|i: int| 0 <= i < s.len() ==> is_next::<K>(g, s.take(i).to_set(), #[trigger] s[i])
}

/// A schedule after which nothing is available.
pub open spec fn is_full<K: Key>(g: Map<K::Model, Set<K::Model>>, s: Seq<K::Model>) -> bool {
    &&& is_schedule::<K>(g, s)
    &&& forall|m: K::Model| !#[trigger] available(g, s.to_set(), m)
}

/// The order in which nodes become available, the least one first.
pub open spec fn schedule<K: Key>(g: Map<K::Model, Set<K::Model>>) -> Seq<K::Model> {
    choose|s: Seq<K::Model>| is_full::<K>(g, s)
}

/// The nodes that never become available.
pub open spec fn stuck<K: Key>(g: Map<K::Model, Set<K::Model>>) -> Set<K::Model> {
    g.dom().difference(schedule::<K>(g).to_set())
}

pub open spec fn is_least<K: Key>(s: Set<K::Model>, m: K::Model) -> bool {
    &&& s.contains(m)
    &&& forall|x: K::Model| #[trigger] s.contains(x) ==> x == m || K::before(m, x)
}

/// The least key of a set.
pub open spec fn least<K: Key>(s: Set<K::Model>) -> K::Model {
    choose|m: K::Model| is_least::<K>(s, m)
}

/// From the least stuck node on, always to the least stuck dependency.
pub open spec fn walk<K: Key>(g: Map<K::Model, Set<K::Model>>, i: nat) -> K::Model
    decreases i,
{
    if i == 0 {
        least::<K>(stuck::<K>(g))
    } else {
        least::<K>(g[walk::<K>(g, (i - 1) as nat)].intersect(stuck::<K>(g)))
    }
}

/// The first `n` nodes of the walk.
pub open spec fn walked<K: Key>(g: Map<K::Model, Set<K::Model>>, n: nat) -> Seq<K::Model> {
    Seq::new(n, |i: int| walk::<K>(g, i as nat))
}

/// How a sequence of nodes prints.
pub open spec fn labels<K: Key>(s: Seq<K::Model>) -> Seq<Seq<char>> {
    s.map_values(|m: K::Model| K::label(m))
}

/// `to` is the first step of the walk to come back to an earlier node, the one
/// at `from`.
pub open spec fn returns_at<K: Key>(
    g: Map<K::Model, Set<K::Model>>,
    from: nat,
    to: nat,
) -> bool {
    &&& from < to
    &&& walk::<K>(g, from) == walk::<K>(g, to)
    &&& walked::<K>(g, to).no_duplicates()
}

/// `path` is the stretch of the walk between the two visits to the first node
/// that it visits twice.
pub open spec fn is_reported_cycle<K: Key>(
    g: Map<K::Model, Set<K::Model>>,
    path: Seq<Seq<char>>,
) -> bool {
    exists|from: nat, to: nat| #[trigger]
        returns_at::<K>(g, from, to) && path == labels::<K>(
            walked::<K>(g, to + 1).skip(from as int),
        )
}

proof fn schedules_agree<K: Key>(
    g: Map<K::Model, Set<K::Model>>,
    a: Seq<K::Model>,
    b: Seq<K::Model>,
    n: int,
)
    requires
        is_schedule::<K>(g, a),
        is_schedule::<K>(g, b),
        0 <= n <= a.len(),
        n <= b.len(),
    ensures
        a.take(n) == b.take(n),
    decreases n,
{
    if n > 0 {
        schedules_agree::<K>(g, a, b, n - 1);
        let done = a.take(n - 1).to_set();
        assert(is_next::<K>(g, done, a[n - 1]));
        assert(is_next::<K>(g, b.take(n - 1).to_set(), b[n - 1]));
        assert(available(g, done, a[n - 1]));
        assert(available(g, done, b[n - 1]));
        if a[n - 1] != b[n - 1] {
            K::transitive(a[n - 1], b[n - 1], a[n - 1]);
            K::irreflexive(a[n - 1]);
        }
        assert(a.take(n) =~= a.take(n - 1).push(a[n - 1]));
        assert(b.take(n) =~= b.take(n - 1).push(b[n - 1]));
    } else {
        assert(a.take(0) =~= b.take(0));
    }
}

/// The order of a graph is determined by the graph: any full schedule is
/// `schedule(g)`.
pub proof fn schedule_is_unique<K: Key>(g: Map<K::Model, Set<K::Model>>, s: Seq<K::Model>)
    requires
        is_full::<K>(g, s),
    ensures
        schedule::<K>(g) == s,
{
    let t = schedule::<K>(g);
    assert(is_full::<K>(g, t));
    if s.len() <= t.len() {
        schedules_agree::<K>(g, s, t, s.len() as int);
        assert(s.take(s.len() as int) =~= s);
        if s.len() < t.len() {
            assert(is_next::<K>(g, t.take(s.len() as int).to_set(), t[s.len() as int]));
            assert(available(g, s.to_set(), t[s.len() as int]));
        }
        assert(t.take(t.len() as int) =~= t);
    } else {
        schedules_agree::<K>(g, s, t, t.len() as int);
        assert(t.take(t.len() as int) =~= t);
        assert(is_next::<K>(g, s.take(t.len() as int).to_set(), s[t.len() as int]));
        assert(available(g, t.to_set(), s[t.len() as int]));
    }
}

/// In a schedule, what a node depends on comes before it.
pub proof fn dependencies_come_first<K: Key>(
    g: Map<K::Model, Set<K::Model>>,
    s: Seq<K::Model>,
    i: int,
    d: K::Model,
)
    requires
        is_schedule::<K>(g, s),
        0 <= i < s.len(),
        g[s[i]].contains(d),
    ensures
        exists|j: int| 0 <= j < i && s[j] == d,
{
    assert(is_next::<K>(g, s.take(i).to_set(), s[i]));
    assert(s.take(i).to_set().contains(d));
    let j = choose|j: int| 0 <= j < s.take(i).len() && s.take(i)[j] == d;
    assert(s[j] == d);
}

/// A schedule names each node once, and only nodes.
pub proof fn schedule_is_distinct<K: Key>(g: Map<K::Model, Set<K::Model>>, s: Seq<K::Model>)
    requires
        is_schedule::<K>(g, s),
    ensures
        s.no_duplicates(),
        s.to_set().subset_of(g.dom()),
        g.dom().finite() ==> s.len() <= g.dom().len(),
{
    assert forall|i: int, j: int| 0 <= i < s.len() && 0 <= j < s.len() && i != j implies s[i]
        != s[j] by {
        let (lo, hi) = if i < j { (i, j) } else { (j, i) };
        assert(is_next::<K>(g, s.take(hi).to_set(), s[hi]));
        assert(s.take(hi)[lo] == s[lo]);
        assert(s.take(hi).to_set().contains(s[lo]));
    }
    assert forall|m: K::Model| s.to_set().contains(m) implies g.dom().contains(m) by {
        let i = choose|i: int| 0 <= i < s.len() && s[i] == m;
        assert(is_next::<K>(g, s.take(i).to_set(), s[i]));
    }
    if g.dom().finite() {
        s.unique_seq_to_set();
        vstd::set_lib::lemma_len_subset(s.to_set(), g.dom());
    }
}

proof fn path_goes_down<K: Key>(
    g: Map<K::Model, Set<K::Model>>,
    s: Seq<K::Model>,
    p: Seq<K::Model>,
    n: int,
) -> (at: int)
    requires
        is_schedule::<K>(g, s),
        g.dom() == s.to_set(),
        is_path(g, p),
        1 <= n < p.len(),
    ensures
        0 <= at < s.index_of(p[0]),
        at < s.len(),
        s[at] == p[n],
    decreases n,
{
    schedule_is_distinct::<K>(g, s);
    assert(g.dom().contains(p[0]));
    assert(s.contains(p[0]));
    let here = if n == 1 {
        s.index_of(p[0])
    } else {
        path_goes_down::<K>(g, s, p, n - 1)
    };
    assert(s[here] == p[n - 1]);
    assert(g.dom().contains(p[n - 1]) && g[p[n - 1]].contains(p[n - 1 + 1]));
    dependencies_come_first::<K>(g, s, here, p[n]);
    choose|j: int| 0 <= j < here && s[j] == p[n]
}

/// A graph whose schedule names every node has no cycle.
pub proof fn scheduled_graph_is_acyclic<K: Key>(
    g: Map<K::Model, Set<K::Model>>,
    s: Seq<K::Model>,
)
    requires
        is_schedule::<K>(g, s),
        g.dom() == s.to_set(),
    ensures
        acyclic(g),
{
    assert forall|m: K::Model| !#[trigger] depends(g, m, m) by {
        if depends(g, m, m) {
            let p = choose|p: Seq<K::Model>| leads(g, p, m, m);
            let at = path_goes_down::<K>(g, s, p, p.len() - 1);
            schedule_is_distinct::<K>(g, s);
            assert(g.dom().contains(p[0]));
            assert(s.contains(p[0]));
            assert(s[s.index_of(p[0])] == p[0]);
            assert(s[at] == m);
        }
    }
}

proof fn has_least<K: Key>(s: Set<K::Model>)
    requires
        s.finite(),
        exists|m: K::Model| s.contains(m),
    ensures
        is_least::<K>(s, least::<K>(s)),
    decreases s.len(),
{
    let a = choose|m: K::Model| s.contains(m);
    let rest = s.remove(a);
    if exists|m: K::Model| rest.contains(m) {
        has_least::<K>(rest);
        let b = least::<K>(rest);
        let low = if K::before(a, b) { a } else { b };
        assert forall|x: K::Model| #[trigger] s.contains(x) implies x == low || K::before(low, x) by {
            K::total(a, b);
            if x != a {
                assert(rest.contains(x));
                if x != b && low == a {
                    K::transitive(a, b, x);
                }
            }
        }
        assert(is_least::<K>(s, low));
    } else {
        assert forall|x: K::Model| #[trigger] s.contains(x) implies x == a || K::before(a, x) by {
            if x != a {
                assert(rest.contains(x));
            }
        }
        assert(is_least::<K>(s, a));
    }
}

/// A schedule can be gone on with until nothing is available.
proof fn fills_up<K: Key>(g: Map<K::Model, Set<K::Model>>, s: Seq<K::Model>)
    requires
        g.dom().finite(),
        is_schedule::<K>(g, s),
    ensures
        is_full::<K>(g, schedule::<K>(g)),
    decreases g.dom().len() - s.len(),
{
    schedule_is_distinct::<K>(g, s);
    let open = g.dom().filter(|m: K::Model| available(g, s.to_set(), m));
    if exists|m: K::Model| available(g, s.to_set(), m) {
        let m = choose|m: K::Model| available(g, s.to_set(), m);
        assert(open.contains(m));
        has_least::<K>(open);
        let n = least::<K>(open);
        let t = s.push(n);
        assert forall|i: int| 0 <= i < t.len() implies is_next::<K>(
            g,
            t.take(i).to_set(),
            #[trigger] t[i],
        ) by {
            if i < s.len() {
                assert(t.take(i) =~= s.take(i));
                assert(t[i] == s[i]);
            } else {
                assert(t.take(i) =~= s);
                assert forall|x: K::Model| #[trigger] available(g, s.to_set(), x) implies x == n
                    || K::before(n, x) by {
                    assert(open.contains(x));
                }
            }
        }
        schedule_is_distinct::<K>(g, t);
        fills_up::<K>(g, t);
    } else {
        assert(is_full::<K>(g, s));
    }
}

/// The walk stays among the stuck nodes, and each of its steps goes to a
/// dependency.
proof fn walk_is_stuck<K: Key>(g: Map<K::Model, Set<K::Model>>, i: nat)
    requires
        g.dom().finite(),
        DepGraph::<K>::edges_fit(g),
        is_full::<K>(g, schedule::<K>(g)),
        exists|m: K::Model| stuck::<K>(g).contains(m),
    ensures
        stuck::<K>(g).contains(walk::<K>(g, i)),
        g[walk::<K>(g, i)].contains(walk::<K>(g, i + 1)),
        stuck::<K>(g).contains(walk::<K>(g, i + 1)),
    decreases i,
{
    let left = stuck::<K>(g);
    let done = schedule::<K>(g).to_set();
    if i == 0 {
        has_least::<K>(left);
    } else {
        walk_is_stuck::<K>(g, (i - 1) as nat);
    }
    let here = walk::<K>(g, i);
    let rest = g[here].intersect(left);
    assert(!available(g, done, here));
    let d = choose|d: K::Model| g[here].contains(d) && !done.contains(d);
    assert(rest.contains(d));
    assert(rest.subset_of(g.dom()));
    vstd::set_lib::lemma_len_subset(rest, g.dom());
    has_least::<K>(rest);
    assert(walk::<K>(g, i + 1) == least::<K>(rest));
}

/// A cycle that is reported is a real one: its texts are those of nodes of which
/// each depends on the next, the last is the first again, and no other node
/// occurs twice, so that nothing only leads into it.
pub proof fn reported_cycles_are_real<K: Key>(
    g: Map<K::Model, Set<K::Model>>,
    path: Seq<Seq<char>>,
)
    requires
        g.dom().finite(),
        DepGraph::<K>::edges_fit(g),
        !acyclic(g),
        is_reported_cycle::<K>(g, path),
    ensures
        exists|nodes: Seq<K::Model>| #[trigger]
            leads(g, nodes, nodes[0], nodes[0]) && path == labels::<K>(nodes)
                && nodes.drop_last().no_duplicates(),
{
    assert(is_schedule::<K>(g, Seq::<K::Model>::empty()));
    fills_up::<K>(g, Seq::<K::Model>::empty());
    let s = schedule::<K>(g);
    schedule_is_distinct::<K>(g, s);
    assert(exists|m: K::Model| stuck::<K>(g).contains(m)) by {
        if forall|m: K::Model| !stuck::<K>(g).contains(m) {
            assert forall|m: K::Model| g.dom().contains(m) implies s.to_set().contains(m) by {
                assert(!stuck::<K>(g).contains(m));
            }
            assert(s.to_set() =~= g.dom());
            scheduled_graph_is_acyclic::<K>(g, s);
        }
    }
    let (from, to) = choose|from: nat, to: nat| #[trigger]
        returns_at::<K>(g, from, to) && path == labels::<K>(
            walked::<K>(g, to + 1).skip(from as int),
        );
    let nodes = walked::<K>(g, to + 1).skip(from as int);
    assert forall|k: int| 0 <= k < nodes.len() - 1 implies g.dom().contains(#[trigger] nodes[k])
        && g[nodes[k]].contains(nodes[k + 1]) by {
        walk_is_stuck::<K>(g, (from + k) as nat);
        assert(nodes[k + 1] == walk::<K>(g, (from + k + 1) as nat));
    }
    assert(nodes.last() == walk::<K>(g, to));
    assert(leads(g, nodes, nodes[0], nodes[0]));
    let once = walked::<K>(g, to);
    assert forall|i: int, j: int|
        0 <= i < nodes.drop_last().len() && 0 <= j < nodes.drop_last().len() && i
            != j implies nodes.drop_last()[i] != nodes.drop_last()[j] by {
        assert(once[from + i] != once[from + j]);
    }
}

/// Dependence is transitive.
pub proof fn depends_is_transitive<M>(g: Map<M, Set<M>>, a: M, b: M, c: M)
    requires
        depends(g, a, b),
        depends(g, b, c),
    ensures
        depends(g, a, c),
{
    let p = choose|p: Seq<M>| leads(g, p, a, b);
    let q = choose|q: Seq<M>| leads(g, q, b, c);
    let r = p + q.drop_first();
    assert forall|i: int| 0 <= i < r.len() - 1 implies g.dom().contains(#[trigger] r[i]) && g[r[i]].contains(
        r[i + 1],
    ) by {
        if i < p.len() - 1 {
            assert(r[i] == p[i] && r[i + 1] == p[i + 1]);
        } else {
            let k = i - (p.len() - 1);
            assert(r[i] == q[k]);
            assert(r[i + 1] == q[k + 1]);
        }
    }
    assert(leads(g, r, a, c));
}

/// Nodes added by pairs of a node and its dependencies.
pub open spec fn graph_of<M>(nodes: Seq<(M, Seq<M>)>) -> Map<M, Set<M>> {
    Map::new(|m: M| names(nodes, m), |m: M| Set::new(|d: M| lists(nodes, m, d)))
}

/// Some pair is about `m`.
pub open spec fn names<M>(nodes: Seq<(M, Seq<M>)>, m: M) -> bool {
    exists|i: int| 0 <= i < nodes.len() && (#[trigger] nodes[i]).0 == m
}

/// Some pair about `m` lists `d`.
pub open spec fn lists<M>(nodes: Seq<(M, Seq<M>)>, m: M, d: M) -> bool {
    exists|i: int| 0 <= i < nodes.len() && (#[trigger] nodes[i]).0 == m && nodes[i].1.contains(d)
}

/// Dependency `j` of pair `i` cannot be added: it is the node itself, or no
/// node.
pub open spec fn is_bad<M>(nodes: Seq<(M, Seq<M>)>, i: int, j: int) -> bool {
    nodes[i].0 == nodes[i].1[j] || !names(nodes, nodes[i].1[j])
}

/// Dependency `j` of pair `i` exists and comes before dependency `l` of pair
/// `k`.
pub open spec fn listed_before<M>(
    nodes: Seq<(M, Seq<M>)>,
    i: int,
    j: int,
    k: int,
    l: int,
) -> bool {
    &&& 0 <= i < nodes.len()
    &&& 0 <= j < nodes[i].1.len()
    &&& i < k || (i == k && j < l)
}

/// Nothing listed before dependency `l` of pair `k` is bad.
pub open spec fn fine_before<M>(nodes: Seq<(M, Seq<M>)>, k: int, l: int) -> bool {
    forall|i: int, j: int| #[trigger]
        listed_before(nodes, i, j, k, l) ==> !is_bad(nodes, i, j)
}

/// Dependency `k`, `l` is the first bad one.
pub open spec fn is_first_bad<M>(nodes: Seq<(M, Seq<M>)>, k: int, l: int) -> bool {
    &&& 0 <= k < nodes.len()
    &&& 0 <= l < nodes[k].1.len()
    &&& is_bad(nodes, k, l)
    &&& fine_before(nodes, k, l)
}

/// The pairs by their keys.
pub open spec fn pairs<K: Key>(nodes: Seq<(K, Vec<K>)>) -> Seq<(K::Model, Seq<K::Model>)> {
    Seq::new(nodes.len(), |i: int| (nodes[i].0.model(), models(nodes[i].1@)))
}

/// Why pairs of a node and its dependencies do not make a graph: the first
/// dependency that cannot be added, or else a cycle.
pub open spec fn is_refusal<K: Key>(
    nodes: Seq<(K::Model, Seq<K::Model>)>,
    e: GraphError,
) -> bool {
    match e {
        GraphError::SelfDependency { node } => exists|i: int, j: int|
            {
                &&& #[trigger] is_first_bad(nodes, i, j)
                &&& nodes[i].1[j] == nodes[i].0
                &&& node@ == K::label(nodes[i].0)
            },
        GraphError::UnknownDependency { node, dependency } => exists|i: int, j: int|
            {
                &&& #[trigger] is_first_bad(nodes, i, j)
                &&& nodes[i].1[j] != nodes[i].0
                &&& node@ == K::label(nodes[i].0)
                &&& dependency@ == K::label(nodes[i].1[j])
            },
        GraphError::Cycle { path } => {
            &&& fine_before(nodes, nodes.len() as int, 0)
            &&& !acyclic(graph_of(nodes))
            &&& is_reported_cycle::<K>(graph_of(nodes), texts(path@))
        },
    }
}

/// A directed graph of nodes keyed by `K`, where an edge from `a` to `b` means
/// that `a` depends on `b`.
#[derive(Debug, PartialEq)]
pub struct DepGraph<K: Key> {
    deps: OrdMap<K, OrdSet<K>>,
}

impl<K: Key> View for DepGraph<K> {
    type V = Map<K::Model, Set<K::Model>>;

    /// Each node with the set of nodes that it directly depends on.
    closed spec fn view(&self) -> Map<K::Model, Set<K::Model>> {
        Map::new(
            |m: K::Model| self.deps@.dom().contains(m),
            |m: K::Model| self.deps@[m]@,
        )
    }
}

impl<K: Key> Default for DepGraph<K> {
    fn default() -> (r: Self)
        ensures
            r.wf(),
            r@ == Map::<K::Model, Set<K::Model>>::empty(),
    {
        Self::new()
    }
}

impl<K: Key> DepGraph<K> {
    /// The nodes, in key order.
    pub closed spec fn order(&self) -> Seq<K::Model> {
        self.deps.order()
    }

    /// Dependencies are nodes, other than the one that depends on them.
    pub open spec fn edges_fit(g: Map<K::Model, Set<K::Model>>) -> bool {
        forall|m: K::Model, d: K::Model|
            #![trigger g[m].contains(d)]
            g.dom().contains(m) && g[m].contains(d) ==> g.dom().contains(d) && m != d
    }

    pub closed spec fn inner_wf(&self) -> bool {
        &&& self.deps.wf()
        &&& forall|i: int| 0 <= i < self.deps.held().len() ==> (#[trigger] self.deps.held()[i]).wf()
    }

    pub open spec fn wf(&self) -> bool {
        &&& self.inner_wf()
        &&& increasing::<K>(self.order())
        &&& self@.dom() == self.order().to_set()
        &&& Self::edges_fit(self@)
    }

    proof fn node_at(&self, i: int)
        requires
            self.wf(),
            0 <= i < self.order().len(),
        ensures
            self@.dom().contains(self.order()[i]),
            self@[self.order()[i]] == self.deps.held()[i]@,
            self.deps.held()[i].wf(),
    {
        self.deps.position(i);
    }

    proof fn has_place(&self, m: K::Model) -> (i: int)
        requires
            self.wf(),
            self@.dom().contains(m),
        ensures
            0 <= i < self.order().len(),
            self.order()[i] == m,
    {
        assert(self.order().contains(m));
        choose|i: int| 0 <= i < self.order().len() && self.order()[i] == m
    }

    proof fn size(&self)
        requires
            self.wf(),
        ensures
            self@.dom().finite(),
            self@.dom().len() == self.order().len(),
    {
        let s = self.order();
        assert forall|i: int, j: int| 0 <= i < s.len() && 0 <= j < s.len() && i != j implies s[i]
            != s[j] by {
            if i < j {
                assert(K::before(s[i], s[j]));
            } else {
                assert(K::before(s[j], s[i]));
            }
            K::irreflexive(s[i]);
        }
        s.unique_seq_to_set();
    }

    pub fn new() -> (r: Self)
        ensures
            r.wf(),
            r@ == Map::<K::Model, Set<K::Model>>::empty(),
    {
        let r = DepGraph { deps: OrdMap::new() };
        proof {
            assert(r@ =~= Map::<K::Model, Set<K::Model>>::empty());
            assert(r@.dom() =~= r.order().to_set());
        }
        r
    }

    proof fn dom_is_order(&self)
        requires
            self.inner_wf(),
        ensures
            self@.dom() == self.order().to_set(),
            increasing::<K>(self.order()),
    {
        assert(self@.dom() =~= self.order().to_set());
    }

    proof fn held_sets_are_wf(&self, m: K::Model)
        requires
            self.inner_wf(),
            self.deps@.dom().contains(m),
        ensures
            self.deps@[m].wf(),
    {
        let i = self.deps.order().index_of(m);
        assert(self.deps.order().contains(m));
        assert(self.deps.held()[i].wf());
    }

    /// Replacing the set of one node, or adding a node with its set, keeps the
    /// inner invariant.
    proof fn put_set(&self, prior: Self, m: K::Model, set: OrdSet<K>)
        requires
            prior.inner_wf(),
            set.wf(),
            self.deps.wf(),
            self.deps@ == prior.deps@.insert(m, set),
        ensures
            self.inner_wf(),
            self@ == prior@.insert(m, set@),
    {
        assert forall|i: int| 0 <= i < self.deps.held().len() implies (#[trigger] self.deps.held()[i]).wf() by {
            self.deps.position(i);
            let k = self.deps.order()[i];
            if k != m {
                prior.held_sets_are_wf(k);
            }
        }
        assert(self@ =~= prior@.insert(m, set@));
    }

    /// Adds a node with no dependencies. Adding an existing node changes
    /// nothing.
    pub fn add_node(&mut self, node: K)
        requires
            old(self).wf(),
        ensures
            final(self).wf(),
            final(self)@ == if old(self)@.dom().contains(node.model()) {
                old(self)@
            } else {
                old(self)@.insert(node.model(), Set::empty())
            },
    {
        if !self.deps.contains_key(&node) {
            let ghost m = node.model();
            let ghost prior = *self;
            let empty: OrdSet<K> = OrdSet::new();
            self.deps.insert(node, empty);
            proof {
                self.put_set(prior, m, empty);
                self.dom_is_order();
                assert(self@ =~= prior@.insert(m, Set::empty()));
                let g = self@;
                assert forall|a: K::Model, d: K::Model|
                    #![trigger g[a].contains(d)]
                    g.dom().contains(a) && g[a].contains(d) implies g.dom().contains(d) && a != d by {
                    if a != m {
                        assert(prior@[a].contains(d));
                    }
                }
            }
        }
    }

    /// Records that `node` depends on `dependency`. Both must already exist.
    pub fn add_dependency(&mut self, node: &K, dependency: K) -> (r: Result<(), GraphError>)
        requires
            old(self).wf(),
        ensures
            final(self).wf(),
            r is Ok <==> {
                &&& node.model() != dependency.model()
                &&& old(self)@.dom().contains(node.model())
                &&& old(self)@.dom().contains(dependency.model())
            },
            match r {
                Ok(_) => final(self)@ == old(self)@.insert(
                    node.model(),
                    old(self)@[node.model()].insert(dependency.model()),
                ),
                Err(e) => {
                    &&& final(self)@ == old(self)@
                    &&& match e {
                        GraphError::SelfDependency { node: n } => {
                            &&& node.model() == dependency.model()
                            &&& n@ == K::label(node.model())
                        },
                        GraphError::UnknownDependency { node: n, dependency: d } => {
                            &&& node.model() != dependency.model()
                            &&& n@ == K::label(node.model())
                            &&& d@ == K::label(dependency.model())
                        },
                        GraphError::Cycle { path } => false,
                    }
                },
            },
    {
        let ghost dm = dependency.model();
        let alike: bool = match node.rank(&dependency) {
            Rank::Same => true,
            Rank::Before => {
                proof {
                    K::irreflexive(node.model());
                }
                false
            },
            Rank::After => {
                proof {
                    K::irreflexive(node.model());
                }
                false
            },
        };
        if alike {
            return Err(GraphError::SelfDependency { node: node.render() });
        }
        if !self.deps.contains_key(&dependency) {
            return Err(
                GraphError::UnknownDependency {
                    node: node.render(),
                    dependency: dependency.render(),
                },
            );
        }
        match self.deps.find(node) {
            Ok(i) => {
                let ghost prior = *self;
                proof {
                    prior.held_sets_are_wf(node.model());
                }
                let mut set = self.deps.value_at(i).duplicate();
                set.insert(dependency);
                self.deps.set_at(i, set);
                proof {
                    self.put_set(prior, node.model(), set);
                    self.dom_is_order();
                    let g = self@;
                    assert forall|a: K::Model, d: K::Model|
                        #![trigger g[a].contains(d)]
                        g.dom().contains(a) && g[a].contains(d) implies g.dom().contains(d) && a
                        != d by {
                        if a != node.model() || d != dm {
                            assert(prior@[a].contains(d));
                        }
                    }
                }
                Ok(())
            },
            Err(_) => Err(
                GraphError::UnknownDependency {
                    node: node.render(),
                    dependency: dependency.render(),
                },
            ),
        }
    }

    /// Builds and validates a graph from pairs of a node and its dependencies.
    /// A dependency that cannot be added is reported before any cycle, the
    /// first one listed first.
    pub fn from_nodes(nodes: Vec<(K, Vec<K>)>) -> (r: Result<Self, GraphError>)
        ensures
            match r {
                Ok(g) => {
                    &&& g.wf()
                    &&& g@ == graph_of(pairs(nodes@))
                    &&& fine_before(pairs(nodes@), nodes@.len() as int, 0)
                    &&& acyclic(g@)
                },
                Err(e) => is_refusal::<K>(pairs(nodes@), e),
            },
    {
        let ghost ps = pairs(nodes@);
        let mut graph: Self = Self::new();
        let mut i: usize = 0;
        while i < nodes.len()
            invariant
                i <= nodes.len(),
                ps == pairs(nodes@),
                graph.wf(),
                forall|m: K::Model| #[trigger]
                    graph@.dom().contains(m) <==> names(ps.take(i as int), m),
                forall|m: K::Model|
                    graph@.dom().contains(m) ==> #[trigger] graph@[m] == Set::<K::Model>::empty(),
            decreases nodes.len() - i,
        {
            let ghost before = graph@;
            let key = nodes[i].0.duplicate();
            graph.add_node(key);
            proof {
                assert(ps[i as int].0 == key.model());
                let prev = ps.take(i as int);
                let next = ps.take(i + 1);
                assert forall|m: K::Model| #[trigger]
                    graph@.dom().contains(m) <==> names(next, m) by {
                    assert(before.dom().contains(m) <==> names(prev, m));
                    if names(prev, m) {
                        let k = choose|k: int| 0 <= k < prev.len() && (#[trigger] prev[k]).0 == m;
                        assert(next[k].0 == m);
                    }
                    if m == key.model() {
                        assert(next[i as int].0 == m);
                    }
                    if names(next, m) && m != key.model() {
                        let k = choose|k: int| 0 <= k < next.len() && (#[trigger] next[k]).0 == m;
                        assert(prev[k].0 == m);
                    }
                }
            }
            i += 1;
        }
        assert(ps.take(i as int) =~= ps);
        assert(forall|m: K::Model, d: K::Model| !lists(ps.take(0), m, d));
        assert(fine_before(ps, 0, 0));
        let mut k: usize = 0;
        while k < nodes.len()
            invariant
                k <= nodes.len(),
                ps == pairs(nodes@),
                graph.wf(),
                forall|m: K::Model| #[trigger] graph@.dom().contains(m) <==> names(ps, m),
                forall|m: K::Model, d: K::Model|
                    graph@.dom().contains(m) ==> (#[trigger] graph@[m].contains(d) <==> lists(
                        ps.take(k as int),
                        m,
                        d,
                    )),
                fine_before(ps, k as int, 0),
            decreases nodes.len() - k,
        {
            let deps: &Vec<K> = &nodes[k].1;
            let ghost before = graph@;
            let ghost here = ps[k as int];
            let mut l: usize = 0;
            while l < deps.len()
                invariant
                    l <= deps.len(),
                    k < nodes.len(),
                    ps == pairs(nodes@),
                    here == ps[k as int],
                    deps@ == nodes@[k as int].1@,
                    graph.wf(),
                    forall|m: K::Model| #[trigger] graph@.dom().contains(m) <==> names(ps, m),
                    forall|m: K::Model| #[trigger] before.dom().contains(m) <==> names(ps, m),
                    forall|m: K::Model, d: K::Model|
                        before.dom().contains(m) ==> (#[trigger] graph@[m].contains(d) <==> (
                        before[m].contains(d) || (m == here.0 && here.1.take(l as int).contains(
                            d,
                        )))),
                    fine_before(ps, k as int, l as int),
                decreases deps.len() - l,
            {
                let ghost cur = graph@;
                let dep = deps[l].duplicate();
                proof {
                    assert(here.1[l as int] == dep.model());
                    assert(names(ps, here.0)) by {
                        assert(ps[k as int].0 == here.0);
                    }
                }
                match graph.add_dependency(&nodes[k].0, dep) {
                    Ok(_) => {
                        proof {
                            assert(graph@.dom() =~= cur.dom());
                            let prev = here.1.take(l as int);
                            let next = here.1.take(l + 1);
                            assert(next =~= prev.push(here.1[l as int]));
                            assert forall|m: K::Model, d: K::Model|
                                before.dom().contains(m) implies (#[trigger] graph@[m].contains(d)
                                <==> (before[m].contains(d) || (m == here.0 && next.contains(d)))) by {
                                assert(cur[m].contains(d) <==> (before[m].contains(d) || (m
                                    == here.0 && prev.contains(d))));
                                if prev.contains(d) {
                                    let x = choose|x: int| 0 <= x < prev.len() && prev[x] == d;
                                    assert(next[x] == d);
                                }
                                assert(next[l as int] == here.1[l as int]);
                                if next.contains(d) && d != here.1[l as int] {
                                    let x = choose|x: int| 0 <= x < next.len() && next[x] == d;
                                    assert(prev[x] == d);
                                }
                            }
                            assert(!is_bad(ps, k as int, l as int));
                            assert(fine_before(ps, k as int, l + 1)) by {
                                assert forall|i: int, j: int| #[trigger]
                                    listed_before(ps, i, j, k as int, l + 1) implies !is_bad(
                                    ps,
                                    i,
                                    j,
                                ) by {
                                    if !(i == k && j == l) {
                                        assert(listed_before(ps, i, j, k as int, l as int));
                                    }
                                }
                            }
                        }
                    },
                    Err(e) => {
                        proof {
                            assert(is_first_bad(ps, k as int, l as int));
                        }
                        return Err(e);
                    },
                }
                l += 1;
            }
            proof {
                assert(here.1.take(l as int) =~= here.1);
                let prev = ps.take(k as int);
                let next = ps.take(k + 1);
                assert forall|m: K::Model, d: K::Model|
                    graph@.dom().contains(m) implies (#[trigger] graph@[m].contains(d) <==> lists(
                    next,
                    m,
                    d,
                )) by {
                    assert(before.dom().contains(m));
                    assert(before[m].contains(d) <==> lists(prev, m, d));
                    if lists(prev, m, d) {
                        let x = choose|x: int|
                            0 <= x < prev.len() && (#[trigger] prev[x]).0 == m && prev[x].1.contains(
                                d,
                            );
                        assert(next[x].0 == m && next[x].1.contains(d));
                    }
                    if m == here.0 && here.1.contains(d) {
                        assert(next[k as int].0 == m && next[k as int].1.contains(d));
                    }
                    if lists(next, m, d) && !(m == here.0 && here.1.contains(d)) {
                        let x = choose|x: int|
                            0 <= x < next.len() && (#[trigger] next[x]).0 == m && next[x].1.contains(
                                d,
                            );
                        assert(prev[x].0 == m && prev[x].1.contains(d));
                    }
                }
                assert(fine_before(ps, k + 1, 0)) by {
                    assert forall|i: int, j: int| #[trigger]
                        listed_before(ps, i, j, k + 1, 0) implies !is_bad(ps, i, j) by {
                        assert(listed_before(ps, i, j, k as int, l as int));
                    }
                }
            }
            k += 1;
        }
        proof {
            assert(ps.take(k as int) =~= ps);
            assert forall|m: K::Model| graph@.dom().contains(m) implies #[trigger] graph@[m]
                == graph_of(ps)[m] by {
                assert(graph@[m] =~= graph_of(ps)[m]);
            }
            assert(graph@ =~= graph_of(ps));
        }
        match graph.validate() {
            Ok(_) => Ok(graph),
            Err(e) => Err(e),
        }
    }

    pub fn len(&self) -> (n: usize)
        requires
            self.wf(),
        ensures
            n == self@.dom().len(),
            n == self.order().len(),
    {
        proof {
            self.size();
        }
        self.deps.len()
    }

    pub fn is_empty(&self) -> (b: bool)
        requires
            self.wf(),
        ensures
            b == (self@.dom() == Set::<K::Model>::empty()),
    {
        proof {
            if self.order().len() == 0 {
                assert(self@.dom() =~= Set::<K::Model>::empty());
            } else {
                assert(self.order().contains(self.order()[0]));
                assert(self@.dom().contains(self.order()[0]));
            }
        }
        self.deps.is_empty()
    }

    pub fn contains(&self, node: &K) -> (b: bool)
        requires
            self.wf(),
        ensures
            b == self@.dom().contains(node.model()),
    {
        self.deps.contains_key(node)
    }

    /// The nodes, in key order.
    pub fn nodes(&self) -> (r: Vec<K>)
        requires
            self.wf(),
        ensures
            models(r@) == self.order(),
    {
        let mut r: Vec<K> = Vec::new();
        let mut i: usize = 0;
        while i < self.deps.len()
            invariant
                i <= self.order().len(),
                self.wf(),
                models(r@) == self.order().take(i as int),
            decreases self.order().len() - i,
        {
            let key = self.deps.key_at(i).duplicate();
            proof {
                models_push(r@, key);
                assert(self.order().take(i + 1) =~= self.order().take(i as int).push(key.model()));
            }
            r.push(key);
            i += 1;
        }
        assert(self.order().take(i as int) =~= self.order());
        r
    }

    /// The direct dependencies of `node`, in key order; none where it is no
    /// node.
    pub fn dependencies(&self, node: &K) -> (r: Vec<K>)
        requires
            self.wf(),
        ensures
            increasing::<K>(models(r@)),
            models(r@).to_set() == if self@.dom().contains(node.model()) {
                self@[node.model()]
            } else {
                Set::empty()
            },
    {
        match self.deps.get(node) {
            Some(set) => {
                proof {
                    self.held_sets_are_wf(node.model());
                }
                set.to_vec()
            },
            None => {
                let r: Vec<K> = Vec::new();
                assert(models(r@).to_set() =~= Set::<K::Model>::empty());
                r
            },
        }
    }

    /// The nodes that directly depend on `node`, in key order.
    pub fn dependents(&self, node: &K) -> (r: Vec<K>)
        requires
            self.wf(),
        ensures
            models(r@) == self.order().filter(|m: K::Model| self@[m].contains(node.model())),
    {
        let ghost pick = |m: K::Model| self@[m].contains(node.model());
        let mut r: Vec<K> = Vec::new();
        let mut i: usize = 0;
        while i < self.deps.len()
            invariant
                i <= self.order().len(),
                self.wf(),
                pick == |m: K::Model| self@[m].contains(node.model()),
                models(r@) == self.order().take(i as int).filter(pick),
            decreases self.order().len() - i,
        {
            proof {
                self.node_at(i as int);
                assert(self.order().take(i + 1) =~= self.order().take(i as int).push(
                    self.order()[i as int],
                ));
                reveal_with_fuel(Seq::filter, 1);
                assert(self.order().take(i + 1).drop_last() =~= self.order().take(i as int));
            }
            if self.deps.value_at(i).contains(node) {
                let key = self.deps.key_at(i).duplicate();
                proof {
                    models_push(r@, key);
                }
                r.push(key);
            }
            i += 1;
        }
        assert(self.order().take(i as int) =~= self.order());
        r
    }

    /// The place of the first node that is not in `out` and directly depends
    /// on `node` or on a node in `out`.
    fn first_affected(&self, node: &K, out: &OrdSet<K>) -> (r: Option<usize>)
        requires
            self.wf(),
            out.wf(),
        ensures
            match r {
                Some(i) => {
                    &&& i < self.order().len()
                    &&& !out@.contains(self.order()[i as int])
                    &&& exists|d: K::Model| #[trigger]
                        self@[self.order()[i as int]].contains(d) && (d == node.model()
                            || out@.contains(d))
                },
                None => forall|m: K::Model, d: K::Model|
                    self@.dom().contains(m) && #[trigger] self@[m].contains(d) && (d == node.model()
                        || out@.contains(d)) ==> out@.contains(m),
            },
    {
        let mut i: usize = 0;
        while i < self.deps.len()
            invariant
                i <= self.order().len(),
                self.wf(),
                out.wf(),
                forall|k: int, d: K::Model|
                    0 <= k < i && #[trigger] self@[self.order()[k]].contains(d) && (d
                        == node.model() || out@.contains(d)) ==> out@.contains(self.order()[k]),
            decreases self.order().len() - i,
        {
            proof {
                self.node_at(i as int);
            }
            if !out.contains(self.deps.key_at(i)) {
                let set = self.deps.value_at(i);
                if set.contains(node) {
                    return Some(i);
                }
                let mut j: usize = 0;
                while j < set.len()
                    invariant
                        i < self.order().len(),
                        self.wf(),
                        out.wf(),
                        set.wf(),
                        set@ == self@[self.order()[i as int]],
                        !out@.contains(self.order()[i as int]),
                        !set@.contains(node.model()),
                        j <= set.keys().len(),
                        forall|k: int| 0 <= k < j ==> !out@.contains(#[trigger] set.keys()[k]),
                    decreases set.keys().len() - j,
                {
                    if out.contains(set.at(j)) {
                        proof {
                            let d = set.keys()[j as int];
                            assert(set.keys().contains(d));
                            assert(self@[self.order()[i as int]].contains(d));
                        }
                        return Some(i);
                    }
                    j += 1;
                }
                proof {
                    assert forall|d: K::Model| #[trigger]
                        self@[self.order()[i as int]].contains(d) && (d == node.model()
                            || out@.contains(d)) implies out@.contains(self.order()[i as int]) by {
                        assert(set.keys().contains(d));
                        let k = choose|k: int| 0 <= k < set.keys().len() && set.keys()[k] == d;
                    }
                }
            }
            i += 1;
        }
        proof {
            assert forall|m: K::Model, d: K::Model|
                self@.dom().contains(m) && #[trigger] self@[m].contains(d) && (d == node.model()
                    || out@.contains(d)) implies out@.contains(m) by {
                let k = self.has_place(m);
                assert(self@[self.order()[k]].contains(d));
            }
        }
        None
    }

    /// Every node that directly or indirectly depends on `node`.
    pub fn transitive_dependents(&self, node: &K) -> (r: OrdSet<K>)
        requires
            self.wf(),
        ensures
            r.wf(),
            forall|m: K::Model| #[trigger] r@.contains(m) <==> depends(self@, m, node.model()),
    {
        let ghost target = node.model();
        let mut out: OrdSet<K> = OrdSet::new();
        proof {
            self.size();
        }
        loop
            invariant
                self.wf(),
                out.wf(),
                target == node.model(),
                self@.dom().finite(),
                out@.subset_of(self@.dom()),
                forall|m: K::Model| #[trigger] out@.contains(m) ==> depends(self@, m, target),
            ensures
                forall|m: K::Model, d: K::Model|
                    self@.dom().contains(m) && #[trigger] self@[m].contains(d) && (d == target
                        || out@.contains(d)) ==> out@.contains(m),
            decreases self@.dom().difference(out@).len(),
        {
            match self.first_affected(node, &out) {
                None => {
                    break;
                },
                Some(i) => {
                    let ghost prior = out@;
                    let ghost m = self.order()[i as int];
                    proof {
                        self.node_at(i as int);
                        let d = choose|d: K::Model| #[trigger]
                            self@[m].contains(d) && (d == target || prior.contains(d));
                        let first = seq![m, d];
                        assert(leads(self@, first, m, d));
                        if d != target {
                            depends_is_transitive(self@, m, d, target);
                        }
                    }
                    let key = self.deps.key_at(i).duplicate();
                    out.insert(key);
                    proof {
                        let left = self@.dom().difference(prior);
                        assert(left.contains(m));
                        assert(self@.dom().difference(out@) =~= left.remove(m));
                    }
                },
            }
        }
        proof {
            assert forall|m: K::Model| depends(self@, m, target) implies #[trigger] out@.contains(
                m,
            ) by {
                let p = choose|p: Seq<K::Model>| leads(self@, p, m, target);
                Self::closed_under_paths(self@, out@, target, p);
            }
        }
        out
    }

    proof fn closed_under_paths(
        g: Map<K::Model, Set<K::Model>>,
        out: Set<K::Model>,
        target: K::Model,
        p: Seq<K::Model>,
    )
        requires
            forall|m: K::Model, d: K::Model|
                g.dom().contains(m) && #[trigger] g[m].contains(d) && (d == target || out.contains(
                    d,
                )) ==> out.contains(m),
            p.len() >= 2,
            is_path(g, p),
            p.last() == target,
        ensures
            out.contains(p.first()),
        decreases p.len(),
    {
        assert(g.dom().contains(p[0]) && g[p[0]].contains(p[0int + 1]));
        if p.len() > 2 {
            let q = p.drop_first();
            assert forall|i: int| 0 <= i < q.len() - 1 implies g.dom().contains(#[trigger] q[i])
                && g[q[i]].contains(q[i + 1]) by {
                assert(p[i + 1] == q[i] && p[i + 2] == q[i + 1]);
            }
            Self::closed_under_paths(g, out, target, q);
            assert(q.first() == p[1]);
        }
        assert(g[p[0]].contains(p[1]));
    }

    /// Checks that the graph has no cycles.
    pub fn validate(&self) -> (r: Result<(), GraphError>)
        requires
            self.wf(),
        ensures
            r is Ok <==> acyclic(self@),
            r matches Err(e) ==> e matches GraphError::Cycle { path } && is_reported_cycle::<K>(
                self@,
                texts(path@),
            ),
    {
        match self.topo_order() {
            Ok(_) => Ok(()),
            Err(e) => Err(e),
        }
    }

    /// Whether everything in `set` is in `done`.
    fn all_in(set: &OrdSet<K>, done: &OrdSet<K>) -> (b: bool)
        requires
            set.wf(),
            done.wf(),
        ensures
            b == set@.subset_of(done@),
    {
        let mut j: usize = 0;
        while j < set.len()
            invariant
                set.wf(),
                done.wf(),
                j <= set.keys().len(),
                forall|k: int| 0 <= k < j ==> done@.contains(#[trigger] set.keys()[k]),
            decreases set.keys().len() - j,
        {
            if !done.contains(set.at(j)) {
                proof {
                    let d = set.keys()[j as int];
                    assert(set.keys().contains(d));
                    assert(set@.contains(d));
                }
                return false;
            }
            j += 1;
        }
        proof {
            assert forall|d: K::Model| set@.contains(d) implies done@.contains(d) by {
                assert(set.keys().contains(d));
                let k = choose|k: int| 0 <= k < set.keys().len() && set.keys()[k] == d;
            }
        }
        true
    }

    /// The place of the least node available.
    fn first_available(&self, done: &OrdSet<K>) -> (r: Option<usize>)
        requires
            self.wf(),
            done.wf(),
        ensures
            match r {
                Some(i) => i < self.order().len() && is_next::<K>(
                    self@,
                    done@,
                    self.order()[i as int],
                ),
                None => forall|m: K::Model| !#[trigger] available(self@, done@, m),
            },
    {
        let mut i: usize = 0;
        while i < self.deps.len()
            invariant
                i <= self.order().len(),
                self.wf(),
                done.wf(),
                forall|k: int| 0 <= k < i ==> !available(self@, done@, #[trigger] self.order()[k]),
            decreases self.order().len() - i,
        {
            proof {
                self.node_at(i as int);
            }
            if !done.contains(self.deps.key_at(i)) && Self::all_in(self.deps.value_at(i), done) {
                proof {
                    let n = self.order()[i as int];
                    assert forall|m: K::Model| #[trigger] available(self@, done@, m) implies m == n
                        || K::before(n, m) by {
                        let k = self.has_place(m);
                        if k < i {
                            assert(!available(self@, done@, self.order()[k]));
                        }
                    }
                }
                return Some(i);
            }
            i += 1;
        }
        proof {
            assert forall|m: K::Model| !#[trigger] available(self@, done@, m) by {
                if available(self@, done@, m) {
                    let k = self.has_place(m);
                    assert(!available(self@, done@, self.order()[k]));
                }
            }
        }
        None
    }

    /// A deterministic topological order (dependencies first). Ties are broken
    /// by key order so the same plan always schedules the same way.
    pub fn topo_order(&self) -> (r: Result<Vec<K>, GraphError>)
        requires
            self.wf(),
        ensures
            r is Ok <==> acyclic(self@),
            match r {
                Ok(order) => {
                    &&& models(order@) == schedule::<K>(self@)
                    &&& is_full::<K>(self@, models(order@))
                    &&& models(order@).no_duplicates()
                    &&& models(order@).to_set() == self@.dom()
                },
                Err(e) => e matches GraphError::Cycle { path } && is_reported_cycle::<K>(
                    self@,
                    texts(path@),
                ),
            },
    {
        let mut done: OrdSet<K> = OrdSet::new();
        let mut order: Vec<K> = Vec::new();
        proof {
            self.size();
            assert(models(order@).to_set() =~= done@);
        }
        loop
            invariant
                self.wf(),
                done.wf(),
                self@.dom().finite(),
                self@.dom().len() == self.order().len(),
                done@ == models(order@).to_set(),
                is_schedule::<K>(self@, models(order@)),
                done.keys().len() == order@.len(),
            ensures
                is_full::<K>(self@, models(order@)),
            decreases self@.dom().len() - order@.len(),
        {
            proof {
                schedule_is_distinct::<K>(self@, models(order@));
            }
            match self.first_available(&done) {
                None => {
                    break;
                },
                Some(i) => {
                    let ghost prior = models(order@);
                    let key = self.deps.key_at(i).duplicate();
                    let again = self.deps.key_at(i).duplicate();
                    let ghost m = key.model();
                    proof {
                        models_push(order@, key);
                    }
                    order.push(key);
                    done.insert(again);
                    proof {
                        let next = models(order@);
                        assert(next == prior.push(m));
                        assert forall|x: K::Model| #[trigger]
                            next.to_set().contains(x) <==> prior.to_set().insert(m).contains(x) by {
                            if prior.contains(x) {
                                let p = choose|p: int| 0 <= p < prior.len() && prior[p] == x;
                                assert(next[p] == x);
                            }
                            assert(next[prior.len() as int] == m);
                        }
                        assert(done@ =~= next.to_set());
                        assert forall|k: int| 0 <= k < next.len() implies is_next::<K>(
                            self@,
                            next.take(k).to_set(),
                            #[trigger] next[k],
                        ) by {
                            if k < prior.len() {
                                assert(next.take(k) =~= prior.take(k));
                                assert(next[k] == prior[k]);
                            } else {
                                assert(next.take(k) =~= prior);
                            }
                        }
                        schedule_is_distinct::<K>(self@, next);
                    }
                },
            }
        }
        proof {
            schedule_is_unique::<K>(self@, models(order@));
            schedule_is_distinct::<K>(self@, models(order@));
        }
        if order.len() == self.deps.len() {
            proof {
                let s = models(order@);
                s.unique_seq_to_set();
                vstd::set_lib::lemma_subset_equality(s.to_set(), self@.dom());
                scheduled_graph_is_acyclic::<K>(self@, s);
            }
            Ok(order)
        } else {
            proof {
                let s = models(order@);
                s.unique_seq_to_set();
                if s.to_set() == self@.dom() {
                    assert(false);
                }
                assert(exists|m: K::Model| stuck::<K>(self@).contains(m)) by {
                    if forall|m: K::Model| !stuck::<K>(self@).contains(m) {
                        assert forall|m: K::Model| self@.dom().contains(m) implies s.to_set().contains(m) by {
                            assert(!stuck::<K>(self@).contains(m));
                        }
                        assert(s.to_set() =~= self@.dom());
                    }
                }
            }
            Err(GraphError::Cycle { path: self.find_cycle(&done) })
        }
    }

    /// The least node of `from` that is not in `done`, if any.
    fn first_left(from: &OrdSet<K>, done: &OrdSet<K>) -> (r: Option<usize>)
        requires
            from.wf(),
            done.wf(),
        ensures
            match r {
                Some(i) => i < from.keys().len() && is_least::<K>(
                    from@.difference(done@),
                    from.keys()[i as int],
                ),
                None => from@.subset_of(done@),
            },
    {
        let mut i: usize = 0;
        while i < from.len()
            invariant
                from.wf(),
                done.wf(),
                i <= from.keys().len(),
                forall|k: int| 0 <= k < i ==> done@.contains(#[trigger] from.keys()[k]),
            decreases from.keys().len() - i,
        {
            if !done.contains(from.at(i)) {
                proof {
                    let m = from.keys()[i as int];
                    assert(from.keys().contains(m));
                    assert forall|x: K::Model| #[trigger]
                        from@.difference(done@).contains(x) implies x == m || K::before(m, x) by {
                        assert(from.keys().contains(x));
                        let k = choose|k: int| 0 <= k < from.keys().len() && from.keys()[k] == x;
                        if k < i {
                            assert(done@.contains(from.keys()[k]));
                        }
                    }
                }
                return Some(i);
            }
            i += 1;
        }
        proof {
            assert forall|d: K::Model| from@.contains(d) implies done@.contains(d) by {
                assert(from.keys().contains(d));
                let k = choose|k: int| 0 <= k < from.keys().len() && from.keys()[k] == d;
            }
        }
        None
    }

    /// The first node that is not in `done`.
    fn first_stuck(&self, done: &OrdSet<K>) -> (r: Option<usize>)
        requires
            self.wf(),
            done.wf(),
        ensures
            match r {
                Some(i) => i < self.order().len() && is_least::<K>(
                    self@.dom().difference(done@),
                    self.order()[i as int],
                ),
                None => self@.dom().subset_of(done@),
            },
    {
        let mut i: usize = 0;
        while i < self.deps.len()
            invariant
                self.wf(),
                done.wf(),
                i <= self.order().len(),
                forall|k: int| 0 <= k < i ==> done@.contains(#[trigger] self.order()[k]),
            decreases self.order().len() - i,
        {
            if !done.contains(self.deps.key_at(i)) {
                proof {
                    let m = self.order()[i as int];
                    self.node_at(i as int);
                    assert forall|x: K::Model| #[trigger]
                        self@.dom().difference(done@).contains(x) implies x == m || K::before(m, x) by {
                        let k = self.has_place(x);
                        if k < i {
                            assert(done@.contains(self.order()[k]));
                        }
                    }
                }
                return Some(i);
            }
            i += 1;
        }
        proof {
            assert forall|d: K::Model| self@.dom().contains(d) implies done@.contains(d) by {
                let k = self.has_place(d);
            }
        }
        None
    }

    proof fn least_is(s: Set<K::Model>, m: K::Model)
        requires
            is_least::<K>(s, m),
        ensures
            least::<K>(s) == m,
    {
        let l = least::<K>(s);
        assert(is_least::<K>(s, l));
        assert(s.contains(l) && s.contains(m));
        if l != m {
            K::transitive(l, m, l);
            K::irreflexive(l);
        }
    }

    /// Every node that never becomes available has a dependency that never
    /// does either, so walking those edges must come back to a node already
    /// visited. The stretch between the two visits is a cycle.
    fn find_cycle(&self, done: &OrdSet<K>) -> (r: Vec<String>)
        requires
            self.wf(),
            done.wf(),
            is_full::<K>(self@, schedule::<K>(self@)),
            done@ == schedule::<K>(self@).to_set(),
            exists|m: K::Model| stuck::<K>(self@).contains(m),
        ensures
            is_reported_cycle::<K>(self@, texts(r@)),
            !acyclic(self@),
    {
        let ghost g = self@;
        let ghost left = stuck::<K>(g);
        proof {
            self.size();
            assert(left =~= g.dom().difference(done@));
        }
        let start: usize = match self.first_stuck(done) {
            Some(i) => i,
            None => {
                assert(false);
                0
            },
        };
        let mut path: Vec<usize> = Vec::new();
        path.push(start);
        proof {
            Self::least_is(left, self.order()[start as int]);
        }
        loop
            invariant
                self.wf(),
                done.wf(),
                g == self@,
                left == stuck::<K>(g),
                left == g.dom().difference(done@),
                is_full::<K>(g, schedule::<K>(g)),
                done@ == schedule::<K>(g).to_set(),
                g.dom().finite(),
                path@.len() >= 1,
                forall|k: int|
                    0 <= k < path@.len() ==> #[trigger] path@[k] < self.order().len() && self.order()[path@[k] as int]
                        == walk::<K>(g, k as nat),
                forall|k: int| 0 <= k < path@.len() ==> left.contains(#[trigger] walk::<K>(g, k as nat)),
                walked::<K>(g, path@.len()).no_duplicates(),
            decreases g.dom().len() - path@.len(),
        {
            let ghost n = path@.len();
            let current: usize = path[path.len() - 1];
            let ghost here = self.order()[current as int];
            proof {
                assert(here == walk::<K>(g, (n - 1) as nat));
                self.node_at(current as int);
                let s = walked::<K>(g, n);
                s.unique_seq_to_set();
                assert forall|m: K::Model| s.to_set().contains(m) implies g.dom().contains(m) by {
                    let k = choose|k: int| 0 <= k < s.len() && s[k] == m;
                    assert(s[k] == walk::<K>(g, k as nat));
                }
                vstd::set_lib::lemma_len_subset(s.to_set(), g.dom());
                assert(!available(g, done@, here));
                assert(left.contains(here));
            }
            let set = self.deps.value_at(current);
            let at: usize = match Self::first_left(set, done) {
                Some(i) => i,
                None => {
                    assert(false);
                    0
                },
            };
            let ghost next = set.keys()[at as int];
            proof {
                assert(set.keys().contains(next));
                assert(set@.contains(next));
                assert(g[here].contains(next));
                assert(g.dom().contains(next));
                assert(g[here].intersect(left) =~= set@.difference(done@)) by {
                    assert forall|d: K::Model| #[trigger]
                        g[here].intersect(left).contains(d) <==> set@.difference(done@).contains(d) by {
                        if set@.contains(d) {
                            assert(g[here].contains(d));
                        }
                    }
                }
                Self::least_is(g[here].intersect(left), next);
                assert(next == walk::<K>(g, n));
                assert(left.contains(next));
            }
            let place: usize = match self.deps.find(set.at(at)) {
                Ok(i) => i,
                Err(_) => {
                    assert(false);
                    0
                },
            };
            let mut pos: usize = 0;
            while pos < path.len() && path[pos] != place
                invariant
                    pos <= path@.len(),
                    forall|k: int| 0 <= k < pos ==> #[trigger] path@[k] != place,
                decreases path@.len() - pos,
            {
                pos += 1;
            }
            if pos < path.len() {
                proof {
                    assert(returns_at::<K>(g, pos as nat, n));
                }
                let mut cycle: Vec<String> = Vec::new();
                let mut i: usize = pos;
                let ghost whole = labels::<K>(walked::<K>(g, n + 1).skip(pos as int));
                while i < path.len()
                    invariant
                        pos <= i <= path@.len(),
                        self.wf(),
                        n == path@.len(),
                        g == self@,
                        whole == labels::<K>(walked::<K>(g, n + 1).skip(pos as int)),
                        forall|k: int|
                            0 <= k < path@.len() ==> #[trigger] path@[k] < self.order().len()
                                && self.order()[path@[k] as int] == walk::<K>(g, k as nat),
                        texts(cycle@) == whole.take(i - pos),
                    decreases path@.len() - i,
                {
                    let label = self.deps.key_at(path[i]).render();
                    proof {
                        assert(whole[i - pos] == label@);
                        crate::text::texts_push(cycle@, label);
                        assert(whole.take(i - pos + 1) =~= whole.take(i - pos).push(label@));
                    }
                    cycle.push(label);
                    i += 1;
                }
                let label = set.at(at).render();
                proof {
                    assert(whole.len() == n + 1 - pos);
                    assert(whole[n - pos] == label@);
                    crate::text::texts_push(cycle@, label);
                    assert(whole =~= whole.take(n - pos).push(label@));
                }
                cycle.push(label);
                proof {
                    assert(texts(cycle@) == whole);
                    let loop_path = walked::<K>(g, n + 1).skip(pos as int);
                    assert forall|k: int| 0 <= k < loop_path.len() - 1 implies g.dom().contains(
                        #[trigger] loop_path[k],
                    ) && g[loop_path[k]].contains(loop_path[k + 1]) by {
                        let a = (k + pos) as nat;
                        assert(loop_path[k] == walk::<K>(g, a));
                        assert(loop_path[k + 1] == walk::<K>(g, a + 1));
                        assert(left.contains(walk::<K>(g, a)));
                        walk_is_stuck::<K>(g, a);
                    }
                    let m = walk::<K>(g, pos as nat);
                    assert(loop_path.first() == m);
                    assert(loop_path.last() == walk::<K>(g, n));
                    assert(leads(g, loop_path, m, m));
                    assert(depends(g, m, m));
                }
                return cycle;
            }
            proof {
                let s = walked::<K>(g, n);
                let t = walked::<K>(g, n + 1);
                assert(t =~= s.push(next));
                assert forall|a: int, b: int| 0 <= a < t.len() && 0 <= b < t.len() && a != b implies t[a]
                    != t[b] by {
                    if a < n && b < n {
                        assert(s[a] != s[b]);
                    } else {
                        let c = if a < n { a } else { b };
                        assert(path@[c] != place);
                        if t[c] == next {
                            self.same_place(path@[c] as int, place as int);
                        }
                    }
                }
                t.unique_seq_to_set();
                assert forall|m: K::Model| t.to_set().contains(m) implies g.dom().contains(m) by {
                    let k = choose|k: int| 0 <= k < t.len() && t[k] == m;
                    if k < n {
                        assert(t[k] == walk::<K>(g, k as nat));
                        assert(left.contains(walk::<K>(g, k as nat)));
                    }
                }
                vstd::set_lib::lemma_len_subset(t.to_set(), g.dom());
            }
            path.push(place);
        }
    }

    proof fn same_place(&self, i: int, j: int)
        requires
            self.wf(),
            0 <= i < self.order().len(),
            0 <= j < self.order().len(),
            self.order()[i] == self.order()[j],
        ensures
            i == j,
    {
        K::irreflexive(self.order()[i]);
        if i < j {
            assert(K::before(self.order()[i], self.order()[j]));
        }
        if j < i {
            assert(K::before(self.order()[j], self.order()[i]));
        }
    }

    /// Nodes whose dependencies are all in `done` and that are neither done nor
    /// `active` themselves, in key order.
    pub fn ready(&self, done: &OrdSet<K>, active: &OrdSet<K>) -> (r: Vec<K>)
        requires
            self.wf(),
            done.wf(),
            active.wf(),
        ensures
            models(r@) == self.order().filter(
                |n: K::Model| available(self@, done@, n) && !active@.contains(n),
            ),
    {
        let ghost pick = |n: K::Model| available(self@, done@, n) && !active@.contains(n);
        let mut r: Vec<K> = Vec::new();
        let mut i: usize = 0;
        while i < self.deps.len()
            invariant
                i <= self.order().len(),
                self.wf(),
                done.wf(),
                active.wf(),
                pick == |n: K::Model| available(self@, done@, n) && !active@.contains(n),
                models(r@) == self.order().take(i as int).filter(pick),
            decreases self.order().len() - i,
        {
            proof {
                self.node_at(i as int);
                assert(self.order().take(i + 1).drop_last() =~= self.order().take(i as int));
                reveal_with_fuel(Seq::filter, 1);
            }
            let node = self.deps.key_at(i);
            if !done.contains(node) && !active.contains(node) && Self::all_in(
                self.deps.value_at(i),
                done,
            ) {
                let key = node.duplicate();
                proof {
                    models_push(r@, key);
                }
                r.push(key);
            }
            i += 1;
        }
        assert(self.order().take(i as int) =~= self.order());
        r
    }
}

} // verus!
