//! Ordered keys, and sets and maps kept in key order.
//!
//! Scheduling decisions have to be the same on every replay, so everything
//! that is walked is walked in key order. The collections here keep their keys
//! in a strictly increasing vector; their order is part of what they promise.

use vstd::prelude::*;
use vstd::utf8::*;

verus! {

/// How one key stands to another.
#[derive(Debug, Clone, Copy, PartialEq, Eq)]
pub enum Rank {
    Before,
    Same,
    After,
}

/// A key with a strict total order and a printed form.
pub trait Key: Sized {
    /// What the key is, for the purpose of order and equality.
    type Model;

    spec fn model(&self) -> Self::Model;

    /// The strict order of keys.
    spec fn before(a: Self::Model, b: Self::Model) -> bool;

    /// How a key prints.
    spec fn label(m: Self::Model) -> Seq<char>;

    proof fn irreflexive(a: Self::Model)
        ensures
            !Self::before(a, a),
    ;

    proof fn transitive(a: Self::Model, b: Self::Model, c: Self::Model)
        requires
            Self::before(a, b),
            Self::before(b, c),
        ensures
            Self::before(a, c),
    ;

    proof fn total(a: Self::Model, b: Self::Model)
        ensures
            a == b || Self::before(a, b) || Self::before(b, a),
    ;

    fn rank(&self, other: &Self) -> (r: Rank)
        ensures
            match r {
                Rank::Before => Self::before(self.model(), other.model()),
                Rank::Same => self.model() == other.model(),
                Rank::After => Self::before(other.model(), self.model()),
            },
    ;

    fn duplicate(&self) -> (r: Self)
        ensures
            r.model() == self.model(),
    ;

    fn render(&self) -> (r: String)
        ensures
            r@ == Self::label(self.model()),
    ;
}

/// `a` and `b` agree below `i`, and `a` ends or is smaller there.
pub open spec fn parts_at(a: Seq<u8>, b: Seq<u8>, i: int) -> bool {
    &&& 0 <= i <= a.len()
    &&& i < b.len()
    &&& forall|k: int| 0 <= k < i ==> #[trigger] a[k] == b[k]
    &&& i == a.len() || a[i] < b[i]
}

/// Lexicographic order of byte sequences.
pub open spec fn bytes_before(a: Seq<u8>, b: Seq<u8>) -> bool {
    exists|i: int| parts_at(a, b, i)
}

proof fn bytes_transitive(a: Seq<u8>, b: Seq<u8>, c: Seq<u8>)
    requires
        bytes_before(a, b),
        bytes_before(b, c),
    ensures
        bytes_before(a, c),
{
    let i = choose|i: int| parts_at(a, b, i);
    let j = choose|j: int| parts_at(b, c, j);
    let k = if i <= j { i } else { j };
    assert(forall|n: int| 0 <= n < k ==> #[trigger] a[n] == b[n] && b[n] == c[n]);
    assert(parts_at(a, c, k));
}

proof fn bytes_total(a: Seq<u8>, b: Seq<u8>, i: int)
    requires
        0 <= i <= a.len(),
        i <= b.len(),
        forall|k: int| 0 <= k < i ==> #[trigger] a[k] == b[k],
    ensures
        a == b || bytes_before(a, b) || bytes_before(b, a),
    decreases a.len() - i,
{
    if i == a.len() && i == b.len() {
        assert(a =~= b);
    } else if i == a.len() {
        assert(parts_at(a, b, i));
    } else if i == b.len() {
        assert(parts_at(b, a, i));
    } else if a[i] < b[i] {
        assert(parts_at(a, b, i));
    } else if b[i] < a[i] {
        assert(parts_at(b, a, i));
    } else {
        bytes_total(a, b, i + 1);
    }
}

/// Texts are ordered by the bytes of their encoding.
impl Key for String {
    type Model = Seq<char>;

    open spec fn model(&self) -> Seq<char> {
        self@
    }

    open spec fn before(a: Seq<char>, b: Seq<char>) -> bool {
        bytes_before(encode_utf8(a), encode_utf8(b))
    }

    open spec fn label(m: Seq<char>) -> Seq<char> {
        m
    }

    proof fn irreflexive(a: Seq<char>) {
        let s = encode_utf8(a);
        assert forall|i: int| !parts_at(s, s, i) by {}
    }

    proof fn transitive(a: Seq<char>, b: Seq<char>, c: Seq<char>) {
        bytes_transitive(encode_utf8(a), encode_utf8(b), encode_utf8(c));
    }

    proof fn total(a: Seq<char>, b: Seq<char>) {
        bytes_total(encode_utf8(a), encode_utf8(b), 0);
        encode_utf8_decode_utf8(a);
        encode_utf8_decode_utf8(b);
    }

    fn rank(&self, other: &String) -> (r: Rank) {
        let a = self.as_str().as_bytes();
        let b = other.as_str().as_bytes();
        let mut i: usize = 0;
        while i < a.len() && i < b.len() && a[i] == b[i]
            invariant
                0 <= i <= a@.len(),
                i <= b@.len(),
                forall|k: int| 0 <= k < i ==> #[trigger] a@[k] == b@[k],
            decreases a@.len() - i,
        {
            i += 1;
        }
        proof {
            encode_utf8_decode_utf8(self@);
            encode_utf8_decode_utf8(other@);
        }
        if i == a.len() {
            if i == b.len() {
                assert(a@ =~= b@);
                Rank::Same
            } else {
                assert(parts_at(a@, b@, i as int));
                Rank::Before
            }
        } else if i == b.len() {
            assert(parts_at(b@, a@, i as int));
            Rank::After
        } else if a[i] < b[i] {
            assert(parts_at(a@, b@, i as int));
            Rank::Before
        } else {
            assert(parts_at(b@, a@, i as int));
            Rank::After
        }
    }

    fn duplicate(&self) -> (r: String) {
        self.clone()
    }

    fn render(&self) -> (r: String) {
        self.clone()
    }
}

/// The keys that a sequence of key values stands for.
pub open spec fn models<K: Key>(s: Seq<K>) -> Seq<K::Model> {
    Seq::new(s.len(), |i: int| s[i].model())
}

pub proof fn models_push<K: Key>(s: Seq<K>, k: K)
    ensures
        models(s.push(k)) == models(s).push(k.model()),
{
    assert(models(s.push(k)) =~= models(s).push(k.model()));
}

/// Strictly increasing in key order; so nothing occurs twice.
pub open spec fn increasing<K: Key>(s: Seq<K::Model>) -> bool {
    forall|i: int, j: int| 0 <= i < j < s.len() ==> K::before(#[trigger] s[i], #[trigger] s[j])
}

/// An increasing sequence is determined by the set of its keys.
pub proof fn increasing_is_determined<K: Key>(a: Seq<K::Model>, b: Seq<K::Model>)
    requires
        increasing::<K>(a),
        increasing::<K>(b),
        forall|m: K::Model| #[trigger] a.contains(m) <==> b.contains(m),
    ensures
        a == b,
    decreases a.len(),
{
    if a.len() == 0 {
        if b.len() > 0 {
            assert(b.contains(b[0]));
            assert(a.contains(b[0]));
        }
        assert(a =~= b);
    } else {
        assert(a.contains(a[0]));
        assert(b.contains(a[0]));
        assert(b.contains(b[0]));
        assert(a.contains(b[0]));
        let i = choose|i: int| 0 <= i < b.len() && b[i] == a[0];
        let j = choose|j: int| 0 <= j < a.len() && a[j] == b[0];
        if i > 0 {
            assert(K::before(b[0], b[i]));
            if j > 0 {
                assert(K::before(a[0], a[j]));
                K::transitive(a[0], b[0], a[0]);
            }
            K::irreflexive(a[0]);
        }
        let ta = a.drop_first();
        let tb = b.drop_first();
        assert forall|m: K::Model| #[trigger] ta.contains(m) <==> tb.contains(m) by {
            if ta.contains(m) {
                let x = choose|x: int| 0 <= x < ta.len() && ta[x] == m;
                assert(a[x + 1] == m);
                assert(a.contains(m));
                let y = choose|y: int| 0 <= y < b.len() && b[y] == m;
                if y == 0 {
                    assert(K::before(a[0], a[x + 1]));
                    K::irreflexive(a[0]);
                }
                assert(tb[y - 1] == m);
            }
            if tb.contains(m) {
                let x = choose|x: int| 0 <= x < tb.len() && tb[x] == m;
                assert(b[x + 1] == m);
                assert(b.contains(m));
                assert(a.contains(m));
                let y = choose|y: int| 0 <= y < a.len() && a[y] == m;
                if y == 0 {
                    assert(K::before(b[0], b[x + 1]));
                    K::irreflexive(b[0]);
                }
                assert(ta[y - 1] == m);
            }
        }
        assert(increasing::<K>(ta));
        assert(increasing::<K>(tb));
        increasing_is_determined::<K>(ta, tb);
        assert(a =~= seq![a[0]] + ta);
        assert(b =~= seq![b[0]] + tb);
    }
}

/// The keys of a set, in key order.
pub open spec fn in_order<K: Key>(s: Set<K::Model>) -> Seq<K::Model> {
    choose|q: Seq<K::Model>| #[trigger] increasing::<K>(q) && q.to_set() == s
}

/// Any increasing sequence of the keys of a set is that set in key order.
pub proof fn in_order_is<K: Key>(q: Seq<K::Model>)
    requires
        increasing::<K>(q),
    ensures
        in_order::<K>(q.to_set()) == q,
{
    let r = in_order::<K>(q.to_set());
    assert(increasing::<K>(r) && r.to_set() == q.to_set());
    assert forall|m: K::Model| #[trigger] r.contains(m) <==> q.contains(m) by {
        assert(r.contains(m) <==> r.to_set().contains(m));
        assert(q.contains(m) <==> q.to_set().contains(m));
    }
    increasing_is_determined::<K>(r, q);
}

/// An increasing sequence with one more key in its place.
proof fn with_key<K: Key>(q: Seq<K::Model>, m: K::Model) -> (r: Seq<K::Model>)
    requires
        increasing::<K>(q),
        !q.contains(m),
    ensures
        increasing::<K>(r),
        r.to_set() == q.to_set().insert(m),
    decreases q.len(),
{
    if q.len() == 0 {
        let r = seq![m];
        assert(r[0] == m);
        assert(r.to_set() =~= q.to_set().insert(m)) by {
            assert forall|x: K::Model| r.to_set().contains(x) <==> #[trigger] q.to_set().insert(
                m,
            ).contains(x) by {
                if x == m {
                    assert(r.contains(x));
                }
            }
        }
        r
    } else {
        let z = q.last();
        assert(q.contains(z));
        K::total(z, m);
        if K::before(z, m) {
            let r = q.push(m);
            assert forall|i: int, j: int| 0 <= i < j < r.len() implies K::before(
                #[trigger] r[i],
                #[trigger] r[j],
            ) by {
                if j == q.len() && i < q.len() - 1 {
                    assert(K::before(q[i], q[q.len() - 1]));
                    K::transitive(q[i], z, m);
                }
            }
            assert(r.to_set() =~= q.to_set().insert(m)) by {
                q.lemma_push_to_set_commute(m);
            }
            r
        } else {
            let rest = q.drop_last();
            assert forall|x: int| 0 <= x < rest.len() implies #[trigger] rest[x] != m by {
                assert(q.contains(q[x]));
            }
            let t = with_key::<K>(rest, m);
            let r = t.push(z);
            assert forall|i: int, j: int| 0 <= i < j < r.len() implies K::before(
                #[trigger] r[i],
                #[trigger] r[j],
            ) by {
                if j == t.len() {
                    assert(t.contains(t[i]));
                    assert(t.to_set().contains(t[i]));
                    if t[i] != m {
                        assert(rest.to_set().contains(t[i]));
                        let x = choose|x: int| 0 <= x < rest.len() && rest[x] == t[i];
                        assert(K::before(q[x], q[q.len() - 1]));
                    }
                }
            }
            t.lemma_push_to_set_commute(z);
            rest.lemma_push_to_set_commute(z);
            assert(rest.push(z) =~= q);
            assert(r.to_set() =~= q.to_set().insert(m));
            r
        }
    }
}

/// Every finite set of keys can be put in order.
pub proof fn in_order_lists<K: Key>(s: Set<K::Model>)
    requires
        s.finite(),
    ensures
        increasing::<K>(in_order::<K>(s)),
        in_order::<K>(s).to_set() == s,
    decreases s.len(),
{
    if s.len() == 0 {
        let q = Seq::<K::Model>::empty();
        assert(q.to_set() =~= s);
        in_order_is::<K>(q);
    } else {
        let m = s.choose();
        let rest = s.remove(m);
        in_order_lists::<K>(rest);
        let q = in_order::<K>(rest);
        assert(!q.contains(m)) by {
            if q.contains(m) {
                assert(q.to_set().contains(m));
            }
        }
        let r = with_key::<K>(q, m);
        assert(r.to_set() =~= s);
        in_order_is::<K>(r);
    }
}

/// What a filter keeps depends on the elements only.
pub proof fn filter_agrees<T>(s: Seq<T>, p: spec_fn(T) -> bool, q: spec_fn(T) -> bool)
    requires
        forall|i: int| 0 <= i < s.len() ==> p(#[trigger] s[i]) == q(s[i]),
    ensures
        s.filter(p) == s.filter(q),
    decreases s.len(),
{
    reveal(Seq::filter);
    if s.len() > 0 {
        let t = s.drop_last();
        assert forall|i: int| 0 <= i < t.len() implies p(#[trigger] t[i]) == q(t[i]) by {
            assert(t[i] == s[i]);
        }
        filter_agrees(t, p, q);
    }
}

/// A filter keeps or leaves one more element.
pub proof fn filter_step<T>(s: Seq<T>, p: spec_fn(T) -> bool, i: int)
    requires
        0 <= i < s.len(),
    ensures
        s.take(i + 1).filter(p) == if p(s[i]) {
            s.take(i).filter(p).push(s[i])
        } else {
            s.take(i).filter(p)
        },
{
    reveal(Seq::filter);
    assert(s.take(i + 1).drop_last() =~= s.take(i));
}

/// A filter of nothing is nothing.
pub proof fn filter_none<T>(s: Seq<T>, p: spec_fn(T) -> bool)
    ensures
        s.take(0).filter(p) == Seq::<T>::empty(),
{
    reveal(Seq::filter);
    assert(s.take(0) =~= Seq::<T>::empty());
}

/// A set of keys, kept in key order.
#[derive(Debug, PartialEq, Eq)]
pub struct OrdSet<K: Key> {
    items: Vec<K>,
}

impl<K: Key> View for OrdSet<K> {
    type V = Set<K::Model>;

    open spec fn view(&self) -> Set<K::Model> {
        self.keys().to_set()
    }
}

impl<K: Key> OrdSet<K> {
    /// The keys, in their order in the set.
    pub closed spec fn keys(&self) -> Seq<K::Model> {
        models(self.items@)
    }

    pub open spec fn wf(&self) -> bool {
        increasing::<K>(self.keys())
    }

    pub fn new() -> (r: Self)
        ensures
            r.wf(),
            r.keys() == Seq::<K::Model>::empty(),
            r@ == Set::<K::Model>::empty(),
    {
        let r = OrdSet { items: Vec::new() };
        assert(r.keys() =~= Seq::<K::Model>::empty());
        assert(r@ =~= Set::<K::Model>::empty());
        r
    }

    pub fn len(&self) -> (n: usize)
        ensures
            n == self.keys().len(),
    {
        self.items.len()
    }

    pub fn is_empty(&self) -> (b: bool)
        ensures
            b == (self.keys().len() == 0),
    {
        self.items.len() == 0
    }

    /// The key at position `i` of the order.
    pub fn at(&self, i: usize) -> (k: &K)
        requires
            i < self.keys().len(),
        ensures
            k.model() == self.keys()[i as int],
    {
        &self.items[i]
    }

    /// Where `key` stands: its position, or the position it would take.
    pub fn find(&self, key: &K) -> (r: Result<usize, usize>)
        requires
            self.wf(),
        ensures
            match r {
                Ok(i) => i < self.keys().len() && self.keys()[i as int] == key.model(),
                Err(i) => {
                    &&& i <= self.keys().len()
                    &&& forall|j: int| 0 <= j < i ==> K::before(#[trigger] self.keys()[j], key.model())
                    &&& forall|j: int|
                        i <= j < self.keys().len() ==> K::before(key.model(), #[trigger] self.keys()[j])
                    &&& !self.keys().contains(key.model())
                },
            },
    {
        let mut i: usize = 0;
        while i < self.items.len()
            invariant
                self.wf(),
                i <= self.items.len(),
                self.keys().len() == self.items.len(),
                forall|j: int| 0 <= j < i ==> K::before(#[trigger] self.keys()[j], key.model()),
            decreases self.items.len() - i,
        {
            match self.items[i].rank(key) {
                Rank::Before => {
                    assert(self.keys()[i as int] == self.items[i as int].model());
                },
                Rank::Same => {
                    assert(self.keys()[i as int] == self.items[i as int].model());
                    return Ok(i);
                },
                Rank::After => {
                    proof {
                        let ks = self.keys();
                        assert(ks[i as int] == self.items[i as int].model());
                        assert forall|j: int| i <= j < ks.len() implies K::before(
                            key.model(),
                            #[trigger] ks[j],
                        ) by {
                            if j > i {
                                K::transitive(key.model(), ks[i as int], ks[j]);
                            }
                        }
                        Self::absent(ks, key.model(), i as int);
                    }
                    return Err(i);
                },
            }
            i += 1;
        }
        proof {
            Self::absent(self.keys(), key.model(), i as int);
        }
        Err(i)
    }

    proof fn absent(ks: Seq<K::Model>, m: K::Model, i: int)
        requires
            0 <= i <= ks.len(),
            forall|j: int| 0 <= j < i ==> K::before(#[trigger] ks[j], m),
            forall|j: int| i <= j < ks.len() ==> K::before(m, #[trigger] ks[j]),
        ensures
            !ks.contains(m),
    {
        if ks.contains(m) {
            let j = choose|j: int| 0 <= j < ks.len() && ks[j] == m;
            K::irreflexive(m);
        }
    }

    pub fn contains(&self, key: &K) -> (b: bool)
        requires
            self.wf(),
        ensures
            b == self@.contains(key.model()),
            b == self.keys().contains(key.model()),
    {
        match self.find(key) {
            Ok(i) => true,
            Err(i) => false,
        }
    }

    /// Adds `key`; tells whether it was new.
    pub fn insert(&mut self, key: K) -> (fresh: bool)
        requires
            old(self).wf(),
        ensures
            final(self).wf(),
            final(self)@ == old(self)@.insert(key.model()),
            fresh == !old(self)@.contains(key.model()),
            !fresh ==> final(self).keys() == old(self).keys(),
            final(self).keys().len() == old(self).keys().len() + if fresh {
                1int
            } else {
                0int
            },
    {
        match self.find(&key) {
            Ok(i) => {
                assert(self@ =~= old(self)@.insert(key.model()));
                false
            },
            Err(i) => {
                self.put(i, key);
                true
            },
        }
    }

    /// Adds a key that is not there, at the position it takes.
    pub fn put(&mut self, i: usize, key: K)
        requires
            old(self).wf(),
            i <= old(self).keys().len(),
            forall|j: int| 0 <= j < i ==> K::before(#[trigger] old(self).keys()[j], key.model()),
            forall|j: int|
                i <= j < old(self).keys().len() ==> K::before(
                    key.model(),
                    #[trigger] old(self).keys()[j],
                ),
        ensures
            final(self).wf(),
            final(self).keys() == old(self).keys().insert(i as int, key.model()),
            final(self)@ == old(self)@.insert(key.model()),
    {
        let ghost before = self.keys();
        let ghost m = key.model();
        self.items.insert(i, key);
        proof {
            let after = before.insert(i as int, m);
            assert(self.keys() =~= after);
            assert forall|a: int, b: int| 0 <= a < b < after.len() implies K::before(
                #[trigger] after[a],
                #[trigger] after[b],
            ) by {
                let oa = if a < i { a } else { a - 1 };
                let ob = if b < i { b } else { b - 1 };
                if a != i && b != i {
                    assert(K::before(before[oa], before[ob]));
                }
            }
            assert forall|x: K::Model| #[trigger]
                after.to_set().contains(x) <==> before.to_set().insert(m).contains(x) by {
                if before.contains(x) {
                    let p = choose|p: int| 0 <= p < before.len() && before[p] == x;
                    if p < i {
                        assert(after[p] == x);
                    } else {
                        assert(after[p + 1] == x);
                    }
                }
                assert(after[i as int] == m);
            }
            assert(self@ =~= old(self)@.insert(m));
        }
    }

    /// Takes out the key at position `i`.
    pub fn take_out(&mut self, i: usize) -> (k: K)
        requires
            old(self).wf(),
            i < old(self).keys().len(),
        ensures
            final(self).wf(),
            final(self).keys() == old(self).keys().remove(i as int),
            k.model() == old(self).keys()[i as int],
    {
        let ghost before = self.keys();
        let k = self.items.remove(i);
        proof {
            let after = before.remove(i as int);
            assert(self.keys() =~= after);
            assert forall|a: int, b: int| 0 <= a < b < after.len() implies K::before(
                #[trigger] after[a],
                #[trigger] after[b],
            ) by {
                let oa = if a < i { a } else { a + 1 };
                let ob = if b < i { b } else { b + 1 };
                assert(K::before(before[oa], before[ob]));
            }
        }
        k
    }

    /// The set of the keys in `items`.
    pub fn of(items: Vec<K>) -> (r: Self)
        ensures
            r.wf(),
            r@ == models(items@).to_set(),
    {
        let ghost all = models(items@);
        let mut r = OrdSet::new();
        let mut i: usize = 0;
        while i < items.len()
            invariant
                i <= items.len(),
                r.wf(),
                all == models(items@),
                r@ == all.take(i as int).to_set(),
            decreases items.len() - i,
        {
            let key = items[i].duplicate();
            r.insert(key);
            proof {
                let prev = all.take(i as int);
                let next = all.take(i + 1);
                assert(next =~= prev.push(all[i as int]));
                assert(next.to_set() =~= prev.to_set().insert(all[i as int])) by {
                    assert forall|x: K::Model| #[trigger]
                        next.to_set().contains(x) <==> prev.to_set().insert(
                            all[i as int],
                        ).contains(x) by {
                        if prev.contains(x) {
                            let p = choose|p: int| 0 <= p < prev.len() && prev[p] == x;
                            assert(next[p] == x);
                        }
                        assert(next[i as int] == all[i as int]);
                    }
                }
            }
            i += 1;
        }
        assert(all.take(i as int) =~= all);
        r
    }

    pub fn duplicate(&self) -> (r: Self)
        ensures
            r.keys() == self.keys(),
            r@ == self@,
            self.wf() ==> r.wf(),
    {
        let items = self.to_vec();
        let r = OrdSet { items };
        assert(r.keys() =~= self.keys());
        r
    }

    /// The keys, as values, in order.
    pub fn to_vec(&self) -> (r: Vec<K>)
        ensures
            models(r@) == self.keys(),
    {
        let mut items: Vec<K> = Vec::new();
        let mut i: usize = 0;
        while i < self.items.len()
            invariant
                i <= self.items.len(),
                models(items@) == models(self.items@).take(i as int),
            decreases self.items.len() - i,
        {
            let key = self.items[i].duplicate();
            proof {
                models_push(items@, key);
                assert(models(self.items@).take(i + 1) =~= models(self.items@).take(i as int).push(
                    key.model(),
                ));
            }
            items.push(key);
            i += 1;
        }
        assert(models(items@) =~= self.keys());
        items
    }
}

/// A map from keys to values, kept in key order.
#[derive(Debug, PartialEq)]
pub struct OrdMap<K: Key, V> {
    keys: OrdSet<K>,
    values: Vec<V>,
}

impl<K: Key, V> View for OrdMap<K, V> {
    type V = Map<K::Model, V>;

    open spec fn view(&self) -> Map<K::Model, V> {
        entries_of::<K, V>(self.order(), self.held())
    }
}

/// The map that pairs the keys with the values at their positions.
pub open spec fn entries_of<K: Key, V>(keys: Seq<K::Model>, values: Seq<V>) -> Map<K::Model, V> {
    Map::new(|m: K::Model| keys.contains(m), |m: K::Model| values[keys.index_of(m)])
}

pub proof fn increasing_index<K: Key>(s: Seq<K::Model>, i: int)
    requires
        increasing::<K>(s),
        0 <= i < s.len(),
    ensures
        s.contains(s[i]),
        s.index_of(s[i]) == i,
{
    let j = s.index_of(s[i]);
    assert(s.contains(s[i]));
    assert(0 <= j < s.len() && s[j] == s[i]);
    if j < i {
        assert(K::before(s[j], s[i]));
        K::irreflexive(s[i]);
    }
    if i < j {
        assert(K::before(s[i], s[j]));
        K::irreflexive(s[i]);
    }
}

impl<K: Key, V> OrdMap<K, V> {
    /// The keys, in order.
    pub closed spec fn order(&self) -> Seq<K::Model> {
        self.keys.keys()
    }

    /// The values, in the order of their keys.
    pub closed spec fn held(&self) -> Seq<V> {
        self.values@
    }

    pub open spec fn wf(&self) -> bool {
        &&& increasing::<K>(self.order())
        &&& self.held().len() == self.order().len()
    }

    /// The keys of a well-formed map are its domain, in key order.
    pub proof fn order_of_keys(&self)
        requires
            self.wf(),
        ensures
            self@.dom() == self.order().to_set(),
            self.order() == in_order::<K>(self@.dom()),
    {
        assert(self@.dom() =~= self.order().to_set());
        in_order_is::<K>(self.order());
    }

    /// What position `i` of a well-formed map says of its view.
    pub proof fn position(&self, i: int)
        requires
            self.wf(),
            0 <= i < self.order().len(),
        ensures
            self@.dom().contains(self.order()[i]),
            self@[self.order()[i]] == self.held()[i],
    {
        increasing_index::<K>(self.order(), i);
    }

    pub fn new() -> (r: Self)
        ensures
            r.wf(),
            r.order() == Seq::<K::Model>::empty(),
            r.held() == Seq::<V>::empty(),
            r@ == Map::<K::Model, V>::empty(),
    {
        let r = OrdMap { keys: OrdSet::new(), values: Vec::new() };
        assert(r@ =~= Map::<K::Model, V>::empty());
        r
    }

    /// Whether every key stands in its place, with a value.
    pub fn is_ordered(&self) -> (b: bool)
        ensures
            b == self.wf(),
    {
        if self.values.len() != self.keys.len() {
            return false;
        }
        let ghost ks = self.order();
        let mut i: usize = 1;
        while i < self.keys.len()
            invariant
                1 <= i,
                i <= ks.len() || ks.len() == 0,
                ks == self.order(),
                ks.len() == self.held().len(),
                forall|j: int, k: int|
                    0 <= j < k < i && k < ks.len() ==> K::before(#[trigger] ks[j], #[trigger] ks[k]),
            decreases ks.len() - i,
        {
            let last = self.keys.at(i - 1);
            let next = self.keys.at(i);
            match last.rank(next) {
                Rank::Before => {
                    proof {
                        assert forall|j: int| 0 <= j < i implies K::before(
                            #[trigger] ks[j],
                            ks[i as int],
                        ) by {
                            if j < i - 1 {
                                K::transitive(ks[j], ks[i - 1], ks[i as int]);
                            }
                        }
                    }
                },
                Rank::Same => {
                    proof {
                        K::irreflexive(ks[i as int]);
                    }
                    return false;
                },
                Rank::After => {
                    proof {
                        if K::before(ks[i - 1], ks[i as int]) {
                            K::transitive(ks[i - 1], ks[i as int], ks[i - 1]);
                            K::irreflexive(ks[i - 1]);
                        }
                    }
                    return false;
                },
            }
            i += 1;
        }
        true
    }

    pub fn len(&self) -> (n: usize)
        ensures
            n == self.order().len(),
    {
        self.keys.len()
    }

    pub fn is_empty(&self) -> (b: bool)
        ensures
            b == (self.order().len() == 0),
    {
        self.keys.is_empty()
    }

    pub fn key_at(&self, i: usize) -> (k: &K)
        requires
            i < self.order().len(),
        ensures
            k.model() == self.order()[i as int],
    {
        self.keys.at(i)
    }

    pub fn value_at(&self, i: usize) -> (v: &V)
        requires
            i < self.held().len(),
        ensures
            *v == self.held()[i as int],
    {
        &self.values[i]
    }

    /// The position of `key`, or the one it would take.
    pub fn find(&self, key: &K) -> (r: Result<usize, usize>)
        requires
            self.wf(),
        ensures
            match r {
                Ok(i) => {
                    &&& i < self.order().len()
                    &&& self.order()[i as int] == key.model()
                    &&& self@.dom().contains(key.model())
                    &&& self@[key.model()] == self.held()[i as int]
                },
                Err(i) => {
                    &&& i <= self.order().len()
                    &&& forall|j: int| 0 <= j < i ==> K::before(#[trigger] self.order()[j], key.model())
                    &&& forall|j: int|
                        i <= j < self.order().len() ==> K::before(key.model(), #[trigger] self.order()[j])
                    &&& !self@.dom().contains(key.model())
                },
            },
    {
        let r = self.keys.find(key);
        proof {
            if let Ok(i) = r {
                self.position(i as int);
            }
        }
        r
    }

    pub fn get(&self, key: &K) -> (r: Option<&V>)
        requires
            self.wf(),
        ensures
            match r {
                Some(v) => self@.dom().contains(key.model()) && *v == self@[key.model()],
                None => !self@.dom().contains(key.model()),
            },
    {
        match self.find(key) {
            Ok(i) => Some(&self.values[i]),
            Err(i) => None,
        }
    }

    pub fn contains_key(&self, key: &K) -> (b: bool)
        requires
            self.wf(),
        ensures
            b == self@.dom().contains(key.model()),
    {
        match self.find(key) {
            Ok(i) => true,
            Err(i) => false,
        }
    }

    /// Sets the value of `key`.
    pub fn insert(&mut self, key: K, value: V)
        requires
            old(self).wf(),
        ensures
            final(self).wf(),
            final(self)@ == old(self)@.insert(key.model(), value),
    {
        match self.find(&key) {
            Ok(i) => {
                self.set_at(i, value);
            },
            Err(i) => {
                let ghost ks = self.order();
                let ghost vs = self.held();
                let ghost m = key.model();
                self.keys.put(i, key);
                self.values.insert(i, value);
                proof {
                    assert(self.held() == vs.insert(i as int, value));
                    assert(self.wf());
                    let nk = self.order();
                    assert(nk == ks.insert(i as int, m));
                    assert forall|x: K::Model| nk.contains(x) <==> (ks.contains(x) || x == m) by {
                        if ks.contains(x) {
                            let p = choose|p: int| 0 <= p < ks.len() && ks[p] == x;
                            if p < i {
                                assert(nk[p] == x);
                            } else {
                                assert(nk[p + 1] == x);
                            }
                        }
                        if nk.contains(x) && x != m {
                            let p = choose|p: int| 0 <= p < nk.len() && nk[p] == x;
                            if p < i {
                                assert(ks[p] == x);
                            } else {
                                assert(p != i);
                                assert(ks[p - 1] == x);
                            }
                        }
                        assert(nk[i as int] == m);
                    }
                    assert forall|x: K::Model| ks.contains(x) implies #[trigger] self@[x] == old(
                        self,
                    )@[x] by {
                        let p = ks.index_of(x);
                        increasing_index::<K>(ks, p);
                        if p < i {
                            increasing_index::<K>(nk, p);
                        } else {
                            increasing_index::<K>(nk, p + 1);
                        }
                    }
                    increasing_index::<K>(nk, i as int);
                    assert(self@ =~= old(self)@.insert(m, value));
                }
            },
        }
    }

    /// Takes `key` out, and gives its value.
    pub fn remove(&mut self, key: &K) -> (r: Option<V>)
        requires
            old(self).wf(),
        ensures
            final(self).wf(),
            final(self)@ == old(self)@.remove(key.model()),
            match r {
                Some(v) => old(self)@.dom().contains(key.model()) && v == old(self)@[key.model()],
                None => !old(self)@.dom().contains(key.model()),
            },
    {
        match self.find(key) {
            Ok(i) => {
                let ghost ks = self.order();
                let ghost vs = self.held();
                let ghost m = key.model();
                let gone = self.keys.take_out(i);
                let v = self.values.remove(i);
                proof {
                    let nk = self.order();
                    assert(nk == ks.remove(i as int));
                    assert(self.held() == vs.remove(i as int));
                    assert forall|x: K::Model| nk.contains(x) <==> (ks.contains(x) && x != m) by {
                        if nk.contains(x) {
                            let p = choose|p: int| 0 <= p < nk.len() && nk[p] == x;
                            let q = if p < i { p } else { p + 1 };
                            assert(ks[q] == x);
                            if x == m {
                                increasing_index::<K>(ks, q);
                                increasing_index::<K>(ks, i as int);
                            }
                        }
                        if ks.contains(x) && x != m {
                            let p = choose|p: int| 0 <= p < ks.len() && ks[p] == x;
                            if p < i {
                                assert(nk[p] == x);
                            } else {
                                assert(nk[p - 1] == x);
                            }
                        }
                    }
                    assert forall|x: K::Model| nk.contains(x) implies #[trigger] self@[x] == old(
                        self,
                    )@[x] by {
                        let p = nk.index_of(x);
                        increasing_index::<K>(nk, p);
                        let q = if p < i { p } else { p + 1 };
                        increasing_index::<K>(ks, q);
                    }
                    assert(self@ =~= old(self)@.remove(m));
                }
                Some(v)
            },
            Err(_) => {
                assert(self@ =~= old(self)@.remove(key.model()));
                None
            },
        }
    }

    /// Replaces the value at position `i`.
    pub fn set_at(&mut self, i: usize, value: V)
        requires
            old(self).wf(),
            i < old(self).order().len(),
        ensures
            final(self).wf(),
            final(self).order() == old(self).order(),
            final(self).held() == old(self).held().update(i as int, value),
            final(self)@ == old(self)@.insert(old(self).order()[i as int], value),
    {
        self.values.set(i, value);
        proof {
            self.updated(*old(self), i as int, value);
        }
    }

    /// What replacing one value does to the view.
    pub proof fn updated(&self, prior: Self, i: int, value: V)
        requires
            prior.wf(),
            0 <= i < prior.order().len(),
            self.order() == prior.order(),
            self.held() == prior.held().update(i, value),
        ensures
            self.wf(),
            self@ == prior@.insert(prior.order()[i], value),
    {
        let ks = prior.order();
        assert forall|x: K::Model| ks.contains(x) implies #[trigger] self@[x] == prior@.insert(
            ks[i],
            value,
        )[x] by {
            let p = ks.index_of(x);
            increasing_index::<K>(ks, p);
            increasing_index::<K>(ks, i);
        }
        increasing_index::<K>(ks, i);
        assert(self@ =~= prior@.insert(ks[i], value));
    }
}

impl<K: Key, V: crate::text::Duplicate> OrdMap<K, V> {
    pub fn duplicate(&self) -> (r: Self)
        requires
            self.wf(),
        ensures
            r.wf(),
            r.order() == self.order(),
            crate::text::views(r.held()) == crate::text::views(self.held()),
            r@.dom() == self@.dom(),
            forall|m: K::Model| #[trigger] self@.dom().contains(m) ==> r@[m]@ == self@[m]@,
    {
        let r = OrdMap {
            keys: self.keys.duplicate(),
            values: crate::text::duplicate_all(&self.values),
        };
        proof {
            let a = crate::text::views(self.held());
            let b = crate::text::views(r.held());
            assert(b.len() == r.held().len());
            assert(r@.dom() =~= self@.dom());
            assert forall|m: K::Model| #[trigger] self@.dom().contains(m) implies r@[m]@
                == self@[m]@ by {
                let i = self.order().index_of(m);
                assert(self.order().contains(m));
                assert(a[i] == self.held()[i]@);
                assert(b[i] == r.held()[i]@);
            }
        }
        r
    }
}

} // verus!
