//! A finite map from keys to values, kept as lists, that every container
//! of the tree is built on.
use vstd::prelude::*;

verus! {

/// A key type whose executable comparison agrees with equality of its view.
pub trait Key: View + Sized {
    /// Whether `self` and `other` are the same key.
    fn same(&self, other: &Self) -> (r: bool)
        ensures
            r == (self@ == other@),
    ;
}

impl Key for String {
    fn same(&self, other: &Self) -> (r: bool) {
        *self == *other
    }
}

impl Key for u32 {
    fn same(&self, other: &Self) -> (r: bool) {
        *self == *other
    }
}

/// The map that a sequence of entries denotes; a later entry wins over an earlier one.
spec fn map_of<A, V>(s: Seq<(A, V)>) -> Map<A, V>
    decreases s.len(),
{
    if s.len() == 0 {
        Map::empty()
    } else {
        map_of(s.drop_last()).insert(s.last().0, s.last().1)
    }
}

/// No two entries carry the same key.
spec fn keys_unique<A, V>(s: Seq<(A, V)>) -> bool {
    forall|i: int, j: int|
        0 <= i < s.len() && 0 <= j < s.len() && i != j ==> #[trigger] s[i].0 != #[trigger] s[j].0
}

/// With unique keys, each entry is found in the map under its key, the map
/// holds nothing else, and it has one key per entry.
proof fn lemma_map_of<A, V>(s: Seq<(A, V)>)
    requires
        keys_unique(s),
    ensures
        map_of(s).dom().finite(),
        map_of(s).len() == s.len(),
        forall|i: int|
            0 <= i < s.len() ==> #[trigger] map_of(s).contains_key(s[i].0) && map_of(s)[s[i].0]
                == s[i].1,
        forall|k: A| #[trigger]
            map_of(s).contains_key(k) ==> exists|i: int| 0 <= i < s.len() && s[i].0 == k,
    decreases s.len(),
{
    if s.len() > 0 {
        let p = s.drop_last();
        let n = s.len() - 1;
        assert forall|i: int, j: int|
            0 <= i < p.len() && 0 <= j < p.len() && i != j implies #[trigger] p[i].0
            != #[trigger] p[j].0 by {
            assert(p[i] == s[i] && p[j] == s[j]);
        }
        lemma_map_of(p);
        if map_of(p).contains_key(s.last().0) {
            let i = choose|i: int| 0 <= i < p.len() && p[i].0 == s.last().0;
            assert(s[i] == p[i]);
            assert(s[i].0 == s[n].0);
        }
        assert forall|i: int| 0 <= i < s.len() implies #[trigger] map_of(s).contains_key(s[i].0)
            && map_of(s)[s[i].0] == s[i].1 by {
            if i < n {
                assert(s[i] == p[i]);
                assert(s[i].0 != s[n].0);
            }
        }
        assert forall|k: A| #[trigger] map_of(s).contains_key(k) implies exists|i: int|
            0 <= i < s.len() && s[i].0 == k by {
            if k != s[n].0 {
                let i = choose|i: int| 0 <= i < p.len() && p[i].0 == k;
                assert(s[i] == p[i]);
            }
        }
    }
}

/// The map of any sequence of entries is finite.
proof fn lemma_map_of_finite<A, V>(s: Seq<(A, V)>)
    ensures
        map_of(s).dom().finite(),
    decreases s.len(),
{
    if s.len() > 0 {
        lemma_map_of_finite(s.drop_last());
    }
}

/// Appending an entry under a fresh key keeps the keys unique and adds that key to the map.
proof fn lemma_map_of_push<A, V>(s: Seq<(A, V)>, a: A, v: V)
    requires
        keys_unique(s),
        !map_of(s).contains_key(a),
    ensures
        keys_unique(s.push((a, v))),
        map_of(s.push((a, v))) == map_of(s).insert(a, v),
{
    let t = s.push((a, v));
    lemma_map_of(s);
    assert(t.drop_last() =~= s);
    assert forall|i: int, j: int|
        0 <= i < t.len() && 0 <= j < t.len() && i != j implies #[trigger] t[i].0
        != #[trigger] t[j].0 by {
        if i < s.len() {
            assert(t[i] == s[i]);
            assert(map_of(s).contains_key(s[i].0));
        }
        if j < s.len() {
            assert(t[j] == s[j]);
            assert(map_of(s).contains_key(s[j].0));
        }
    }
}

/// Replacing the value of one entry replaces the value under its key.
proof fn lemma_map_of_update<A, V>(s: Seq<(A, V)>, i: int, v: V)
    requires
        keys_unique(s),
        0 <= i < s.len(),
    ensures
        keys_unique(s.update(i, (s[i].0, v))),
        map_of(s.update(i, (s[i].0, v))) == map_of(s).insert(s[i].0, v),
{
    let a = s[i].0;
    let t = s.update(i, (a, v));
    let r = map_of(s).insert(a, v);
    assert forall|x: int, y: int|
        0 <= x < t.len() && 0 <= y < t.len() && x != y implies #[trigger] t[x].0
        != #[trigger] t[y].0 by {
        assert(s[x].0 == t[x].0 && s[y].0 == t[y].0);
    }
    lemma_map_of(s);
    lemma_map_of(t);
    assert forall|k: A| #[trigger] map_of(t).contains_key(k) <==> r.contains_key(k) by {
        assert(map_of(t).contains_key(t[i].0));
        if map_of(s).contains_key(k) {
            let j = choose|j: int| 0 <= j < s.len() && s[j].0 == k;
            assert(map_of(t).contains_key(t[j].0));
        }
        if map_of(t).contains_key(k) {
            let j = choose|j: int| 0 <= j < t.len() && t[j].0 == k;
            assert(map_of(s).contains_key(s[j].0));
        }
    }
    assert forall|k: A| #[trigger] map_of(t).contains_key(k) implies map_of(t)[k] == r[k] by {
        let j = choose|j: int| 0 <= j < t.len() && t[j].0 == k;
        assert(map_of(s).contains_key(s[j].0));
        assert(j != i ==> t[j] == s[j]);
    }
    assert(map_of(t) =~= r);
}

/// Taking out one entry keeps the keys unique and removes its key from the map.
proof fn lemma_map_of_remove<A, V>(s: Seq<(A, V)>, i: int)
    requires
        keys_unique(s),
        0 <= i < s.len(),
    ensures
        keys_unique(s.remove(i)),
        map_of(s.remove(i)) == map_of(s).remove(s[i].0),
{
    let t = s.remove(i);
    let r = map_of(s).remove(s[i].0);
    assert forall|j: int| 0 <= j < t.len() implies #[trigger] t[j] == (if j < i {
        s[j]
    } else {
        s[j + 1]
    }) by {}
    assert forall|a: int, b: int|
        0 <= a < t.len() && 0 <= b < t.len() && a != b implies #[trigger] t[a].0
        != #[trigger] t[b].0 by {
        let a2 = if a < i { a } else { a + 1 };
        let b2 = if b < i { b } else { b + 1 };
        assert(t[a] == s[a2] && t[b] == s[b2]);
    }
    lemma_map_of(s);
    lemma_map_of(t);
    assert forall|k: A| #[trigger] map_of(t).contains_key(k) <==> r.contains_key(k) by {
        if r.contains_key(k) {
            let j = choose|j: int| 0 <= j < s.len() && s[j].0 == k;
            let j2 = if j < i { j } else { j - 1 };
            assert(t[j2] == s[j]);
            assert(map_of(t).contains_key(t[j2].0));
        }
        if map_of(t).contains_key(k) {
            let j = choose|j: int| 0 <= j < t.len() && t[j].0 == k;
            let j2 = if j < i { j } else { j + 1 };
            assert(t[j] == s[j2]);
            assert(map_of(s).contains_key(s[j2].0));
        }
    }
    assert forall|k: A| #[trigger] map_of(t).contains_key(k) implies map_of(t)[k] == r[k] by {
        let j = choose|j: int| 0 <= j < t.len() && t[j].0 == k;
        let j2 = if j < i { j } else { j + 1 };
        assert(t[j] == s[j2]);
        assert(map_of(s).contains_key(s[j2].0));
    }
    assert(map_of(t) =~= r);
}

/// The map with each value replaced by its view.
pub open spec fn views_of<K, V: View>(m: Map<K, V>) -> Map<K, V::V> {
    Map::new(|k: K| m.contains_key(k), |k: K| m[k]@)
}

/// Taking views keeps the keys, and so the number of entries.
pub proof fn lemma_views_of_dom<K, V: View>(m: Map<K, V>)
    ensures
        views_of(m).dom() == m.dom(),
        views_of(m).len() == m.len(),
{
    assert(views_of(m).dom() =~= m.dom());
}

/// The views of an empty map form an empty map.
pub proof fn lemma_views_of_empty<K, V: View>()
    ensures
        views_of(Map::<K, V>::empty()) == Map::<K, V::V>::empty(),
{
    assert(views_of(Map::<K, V>::empty()) =~= Map::<K, V::V>::empty());
}

/// Taking views commutes with insertion.
pub proof fn lemma_views_of_insert<K, V: View>(m: Map<K, V>, k: K, v: V)
    ensures
        views_of(m.insert(k, v)) == views_of(m).insert(k, v@),
{
    assert(views_of(m.insert(k, v)) =~= views_of(m).insert(k, v@));
}

/// Taking views commutes with removal.
pub proof fn lemma_views_of_remove<K, V: View>(m: Map<K, V>, k: K)
    ensures
        views_of(m.remove(k)) == views_of(m).remove(k),
{
    assert(views_of(m.remove(k)) =~= views_of(m).remove(k));
}

/// Keys, seen through their views, paired with the values at the same positions.
spec fn entries_of<K: View, V>(keys: Seq<K>, vals: Seq<V>) -> Seq<(K::V, V)> {
    Seq::new(vals.len(), |i: int| (keys[i]@, vals[i]))
}

/// A finite map held as two parallel lists: keys, pairwise distinct, and their values.
#[derive(Debug)]
pub struct Store<K: Key, V> {
    keys: Vec<K>,
    vals: Vec<V>,
}

impl<K: Key, V> Store<K, V> {
    /// The entries, each key seen through its view.
    spec fn entries(&self) -> Seq<(K::V, V)> {
        entries_of(self.keys@, self.vals@)
    }

    #[verifier::type_invariant]
    spec fn inv(self) -> bool {
        &&& self.keys@.len() == self.vals@.len()
        &&& keys_unique(self.entries())
    }
}

impl<K: Key, V> View for Store<K, V> {
    type V = Map<K::V, V>;

    closed spec fn view(&self) -> Map<K::V, V> {
        map_of(self.entries())
    }
}

impl<K: Key, V> Store<K, V> {
    /// An empty store.
    pub fn new() -> (r: Self)
        ensures
            r@ == Map::<K::V, V>::empty(),
    {
        let r = Store { keys: Vec::new(), vals: Vec::new() };
        assert(r.entries().len() == 0);
        r
    }

    /// A store holds finitely many keys.
    pub proof fn lemma_view_finite(&self)
        ensures
            self@.dom().finite(),
    {
        lemma_map_of_finite(self.entries());
    }

    /// The number of keys in the store.
    pub fn len(&self) -> (r: usize)
        ensures
            r == self@.len(),
    {
        proof {
            use_type_invariant(self);
            lemma_map_of(self.entries());
        }
        self.vals.len()
    }

    /// Whether the store holds no key.
    pub fn is_empty(&self) -> (r: bool)
        ensures
            r == (self@.len() == 0),
            r == (self@ == Map::<K::V, V>::empty()),
    {
        proof {
            use_type_invariant(self);
            lemma_map_of(self.entries());
            if self@.len() == 0 {
                assert(self@.dom() =~= Set::empty());
                assert(self@ =~= Map::<K::V, V>::empty());
            }
        }
        self.vals.len() == 0
    }

    /// The keys, each once, in no promised order.
    pub fn keys(&self) -> (r: &Vec<K>)
        ensures
            r@.len() == self@.len(),
            forall|i: int| 0 <= i < r@.len() ==> #[trigger] self@.contains_key(r@[i]@),
            forall|k: K::V| #[trigger]
                self@.contains_key(k) ==> exists|i: int| 0 <= i < r@.len() && r@[i]@ == k,
            forall|i: int, j: int|
                0 <= i < r@.len() && 0 <= j < r@.len() && i != j ==> #[trigger] r@[i]@
                    != #[trigger] r@[j]@,
    {
        proof {
            use_type_invariant(self);
            let s = self.entries();
            lemma_map_of(s);
            assert forall|i: int| 0 <= i < self.keys@.len() implies #[trigger] self@.contains_key(
                self.keys@[i]@,
            ) by {
                assert(s[i].0 == self.keys@[i]@);
            }
            assert forall|i: int, j: int|
                0 <= i < self.keys@.len() && 0 <= j < self.keys@.len() && i != j implies #[trigger] self.keys@[i]@
                != #[trigger] self.keys@[j]@ by {
                assert(s[i].0 == self.keys@[i]@ && s[j].0 == self.keys@[j]@);
            }
        }
        &self.keys
    }

    /// The position of `k` among the keys, if it is there.
    fn find(&self, k: &K) -> (r: Option<usize>)
        ensures
            match r {
                Some(i) => i < self.keys@.len() && self.keys@[i as int]@ == k@,
                None => forall|i: int| 0 <= i < self.keys@.len() ==> #[trigger] self.keys@[i]@ != k@,
            },
    {
        let mut i: usize = 0;
        while i < self.keys.len()
            invariant
                i <= self.keys@.len(),
                forall|j: int| 0 <= j < i ==> #[trigger] self.keys@[j]@ != k@,
            decreases self.keys@.len() - i,
        {
            if self.keys[i].same(k) {
                return Some(i);
            }
            i = i + 1;
        }
        None
    }

    /// Whether `k` has an entry.
    pub fn contains_key(&self, k: &K) -> (r: bool)
        ensures
            r == self@.contains_key(k@),
    {
        proof {
            use_type_invariant(self);
            lemma_map_of(self.entries());
        }
        match self.find(k) {
            Some(i) => {
                proof {
                    assert(self.entries()[i as int].0 == k@);
                }
                true
            },
            None => {
                proof {
                    if self@.contains_key(k@) {
                        let j = choose|j: int| 0 <= j < self.entries().len() && self.entries()[j].0 == k@;
                        assert(self.keys@[j]@ == k@);
                    }
                }
                false
            },
        }
    }

    /// The value stored under `k`, if any.
    pub fn get(&self, k: &K) -> (r: Option<&V>)
        ensures
            match r {
                Some(v) => self@.contains_key(k@) && *v == self@[k@],
                None => !self@.contains_key(k@),
            },
    {
        proof {
            use_type_invariant(self);
            lemma_map_of(self.entries());
        }
        match self.find(k) {
            Some(i) => {
                proof {
                    assert(self.entries()[i as int] == (k@, self.vals@[i as int]));
                    assert(map_of(self.entries()).contains_key(self.entries()[i as int].0));
                }
                Some(&self.vals[i])
            },
            None => {
                proof {
                    if self@.contains_key(k@) {
                        let j = choose|j: int| 0 <= j < self.entries().len() && self.entries()[j].0 == k@;
                        assert(self.keys@[j]@ == k@);
                    }
                }
                None
            },
        }
    }

    /// Stores `v` under `k`; an earlier value under `k` is dropped.
    pub fn insert(&mut self, k: K, v: V)
        ensures
            final(self)@ == old(self)@.insert(k@, v),
    {
        proof {
            use_type_invariant(&*self);
            lemma_map_of(self.entries());
        }
        let ghost s = self.entries();
        match self.find(&k) {
            Some(i) => {
                proof {
                    lemma_map_of_update(s, i as int, v);
                }
                let mut taken = Store::new();
                std::mem::swap(self, &mut taken);
                let Store { keys, mut vals } = taken;
                vals.set(i, v);
                assert(entries_of(keys@, vals@) =~= s.update(i as int, (s[i as int].0, v)));
                let r = Store { keys, vals };
                *self = r;
            },
            None => {
                proof {
                    if map_of(s).contains_key(k@) {
                        let j = choose|j: int| 0 <= j < s.len() && s[j].0 == k@;
                        assert(self.keys@[j]@ == k@);
                    }
                    lemma_map_of_push(s, k@, v);
                }
                let mut taken = Store::new();
                std::mem::swap(self, &mut taken);
                let Store { mut keys, mut vals } = taken;
                keys.push(k);
                vals.push(v);
                assert(entries_of(keys@, vals@) =~= s.push((k@, v)));
                let r = Store { keys, vals };
                *self = r;
            },
        }
    }

    /// Drops the entry for `k`; nothing happens when there is none.
    pub fn remove(&mut self, k: &K)
        ensures
            final(self)@ == old(self)@.remove(k@),
    {
        proof {
            use_type_invariant(&*self);
            lemma_map_of(self.entries());
        }
        let ghost s = self.entries();
        match self.find(k) {
            Some(i) => {
                proof {
                    lemma_map_of_remove(s, i as int);
                }
                let mut taken = Store::new();
                std::mem::swap(self, &mut taken);
                let Store { mut keys, mut vals } = taken;
                let _ = keys.remove(i);
                let _ = vals.remove(i);
                assert(entries_of(keys@, vals@) =~= s.remove(i as int));
                let r = Store { keys, vals };
                *self = r;
            },
            None => {
                proof {
                    if map_of(s).contains_key(k@) {
                        let j = choose|j: int| 0 <= j < s.len() && s[j].0 == k@;
                        assert(self.keys@[j]@ == k@);
                    }
                    assert(map_of(s).remove(k@) =~= map_of(s));
                }
            },
        }
    }

    /// A mutable borrow of the value stored under `k`, if any; whatever is
    /// written through it becomes the value under `k`.
    pub fn get_mut(&mut self, k: &K) -> (r: Option<&mut V>)
        ensures
            r.is_some() == old(self)@.contains_key(k@),
            r.is_some() ==> *r.unwrap() == old(self)@[k@] && final(self)@ == old(self)@.insert(
                k@,
                *final(r.unwrap()),
            ),
            r.is_none() ==> final(self)@ == old(self)@,
    {
        proof {
            use_type_invariant(&*self);
            lemma_map_of(self.entries());
        }
        let ghost s = self.entries();
        match self.find(k) {
            Some(i) => {
                proof {
                    assert(s[i as int] == (k@, self.vals@[i as int]));
                    assert(map_of(s).contains_key(s[i as int].0));
                }
                proof {
                    assert forall|x: V|
                        #![trigger entries_of(self.keys@, self.vals@.update(i as int, x))]
                        keys_unique(entries_of(self.keys@, self.vals@.update(i as int, x)))
                            && map_of(entries_of(self.keys@, self.vals@.update(i as int, x)))
                            == map_of(s).insert(k@, x) by {
                        assert(entries_of(self.keys@, self.vals@.update(i as int, x)) =~= s.update(
                            i as int,
                            (s[i as int].0, x),
                        ));
                        lemma_map_of_update(s, i as int, x);
                    }
                }
                Some(&mut self.vals[i])
            },
            None => {
                proof {
                    if map_of(s).contains_key(k@) {
                        let j = choose|j: int| 0 <= j < s.len() && s[j].0 == k@;
                        assert(self.keys@[j]@ == k@);
                    }
                }
                None
            },
        }
    }
}

} // verus!
