//! A finite map kept as two parallel vectors (keys and values), for keys
//! whose equality is decided by their models. Keys are pairwise distinct.
use vstd::prelude::*;

verus! {

/// Keys that can be compared and copied with known results.
pub trait KeyEq: DeepView + Sized {
    fn key_eq(&self, other: &Self) -> (r: bool)
        ensures
            r == (self.deep_view() == other.deep_view()),
    ;

    fn key_clone(&self) -> (r: Self)
        ensures
            r.deep_view() == self.deep_view(),
    ;
}

impl KeyEq for u64 {
    fn key_eq(&self, other: &Self) -> (r: bool) {
        *self == *other
    }

    fn key_clone(&self) -> (r: Self) {
        *self
    }
}

impl KeyEq for String {
    fn key_eq(&self, other: &Self) -> (r: bool) {
        *self == *other
    }

    fn key_clone(&self) -> (r: Self) {
        self.clone()
    }
}

pub struct AssocMap<K, V> {
    keys: Vec<K>,
    vals: Vec<V>,
}

impl<K: KeyEq, V: DeepView> DeepView for AssocMap<K, V> {
    type V = Map<K::V, V::V>;

    open spec fn deep_view(&self) -> Map<K::V, V::V> {
        self.model()
    }
}

impl<K: KeyEq, V: DeepView> AssocMap<K, V> {
    /// The model of the key stored at position `i`.
    pub closed spec fn key_at(&self, i: int) -> K::V {
        self.keys@[i].deep_view()
    }

    /// The value stored at position `i`.
    pub closed spec fn val_at(&self, i: int) -> V {
        self.vals@[i]
    }

    /// The number of entries.
    pub closed spec fn size(&self) -> nat {
        self.keys@.len()
    }

    /// Keys and values line up and no key occurs twice.
    pub closed spec fn wf(&self) -> bool {
        &&& self.keys@.len() == self.vals@.len()
        &&& forall|i: int, j: int|
            0 <= i < self.keys@.len() && 0 <= j < self.keys@.len() && i != j
                ==> #[trigger] self.keys@[i].deep_view() != #[trigger] self.keys@[j].deep_view()
    }

    /// The stored values, by key.
    pub closed spec fn entries(&self) -> Map<K::V, V> {
        Map::new(
            |k: K::V| exists|i: int| 0 <= i < self.keys@.len() && self.keys@[i].deep_view() == k,
            |k: K::V|
                self.vals@[choose|i: int| 0 <= i < self.keys@.len() && self.keys@[i].deep_view() == k],
        )
    }

    /// The map from key models to value models.
    pub open spec fn model(&self) -> Map<K::V, V::V> {
        self.entries().map_values(|v: V| v.deep_view())
    }

    pub proof fn lemma_at(&self, i: int)
        requires
            self.wf(),
            0 <= i < self.size(),
        ensures
            self.entries().contains_key(self.key_at(i)),
            self.entries()[self.key_at(i)] == self.val_at(i),
            self.model().contains_key(self.key_at(i)),
            self.model()[self.key_at(i)] == self.val_at(i).deep_view(),
    {
        let k = self.key_at(i);
        assert(self.keys@[i].deep_view() == k);
        let j = choose|j: int| 0 <= j < self.keys@.len() && self.keys@[j].deep_view() == k;
        assert(j == i);
    }

    /// A sequence listing the keys in order holds each key once, and exactly
    /// the keys of the map.
    pub proof fn lemma_keys(&self, s: Seq<K::V>)
        requires
            self.wf(),
            s.len() == self.size(),
            forall|j: int| 0 <= j < s.len() ==> s[j] == #[trigger] self.key_at(j),
        ensures
            s.no_duplicates(),
            s.to_set() == self.model().dom(),
    {
        assert forall|a: int, b: int| 0 <= a < s.len() && 0 <= b < s.len() && a != b implies s[a] != s[b] by {
            assert(s[a] == self.key_at(a));
            assert(s[b] == self.key_at(b));
        }
        assert forall|x: K::V| s.to_set().contains(x) <==> self.model().dom().contains(x) by {
            if s.to_set().contains(x) {
                assert(s.contains(x));
                let j = choose|j: int| 0 <= j < s.len() && s[j] == x;
                assert(s[j] == self.key_at(j));
                self.lemma_at(j);
            }
            if self.model().dom().contains(x) {
                self.lemma_keys_complete(x);
                let i = choose|i: int| 0 <= i < self.size() && self.key_at(i) == x;
                assert(s[i] == self.key_at(i));
                assert(s.contains(x));
            }
        }
        assert(s.to_set() =~= self.model().dom());
    }

    pub proof fn lemma_keys_complete(&self, k: K::V)
        requires
            self.wf(),
            self.entries().contains_key(k),
        ensures
            exists|i: int| 0 <= i < self.size() && self.key_at(i) == k,
    {
        let i = choose|i: int| 0 <= i < self.keys@.len() && self.keys@[i].deep_view() == k;
        assert(self.key_at(i) == k);
    }

    pub fn new() -> (r: Self)
        ensures
            r.wf(),
            r.model() == Map::<K::V, V::V>::empty(),
            r.entries() == Map::<K::V, V>::empty(),
    {
        let r = AssocMap { keys: Vec::new(), vals: Vec::new() };
        assert(r.entries() =~= Map::<K::V, V>::empty());
        assert(r.model() =~= Map::<K::V, V::V>::empty());
        r
    }

    /// The position of `k`, if present.
    pub fn find(&self, k: &K) -> (r: Option<usize>)
        requires
            self.wf(),
        ensures
            match r {
                Some(i) => i < self.size() && self.key_at(i as int) == k.deep_view(),
                None => !self.entries().contains_key(k.deep_view()),
            },
    {
        let mut i: usize = 0;
        while i < self.keys.len()
            invariant
                self.wf(),
                i <= self.keys@.len(),
                forall|j: int| 0 <= j < i ==> self.keys@[j].deep_view() != k.deep_view(),
            decreases self.keys@.len() - i,
        {
            if self.keys[i].key_eq(k) {
                return Some(i);
            }
            i = i + 1;
        }
        None
    }

    /// The value stored for `k`, if any.
    pub fn get(&self, k: &K) -> (r: Option<&V>)
        requires
            self.wf(),
        ensures
            match r {
                Some(v) => self.entries().contains_key(k.deep_view())
                    && self.entries()[k.deep_view()] == *v
                    && self.model().contains_key(k.deep_view())
                    && self.model()[k.deep_view()] == v.deep_view(),
                None => !self.entries().contains_key(k.deep_view())
                    && !self.model().contains_key(k.deep_view()),
            },
    {
        match self.find(k) {
            Some(i) => {
                proof {
                    self.lemma_at(i as int);
                }
                Some(&self.vals[i])
            },
            None => None,
        }
    }

    /// Whether `k` has a value.
    pub fn contains(&self, k: &K) -> (r: bool)
        requires
            self.wf(),
        ensures
            r == self.entries().contains_key(k.deep_view()),
            r == self.model().contains_key(k.deep_view()),
    {
        match self.find(k) {
            Some(i) => {
                proof {
                    self.lemma_at(i as int);
                }
                true
            },
            None => false,
        }
    }

    /// The value stored at position `i`.
    pub fn value_at(&self, i: usize) -> (r: &V)
        requires
            self.wf(),
            i < self.size(),
        ensures
            *r == self.val_at(i as int),
            self.entries().contains_key(self.key_at(i as int)),
            self.entries()[self.key_at(i as int)] == *r,
            self.model()[self.key_at(i as int)] == r.deep_view(),
    {
        proof {
            self.lemma_at(i as int);
        }
        &self.vals[i]
    }

    /// The number of entries.
    pub fn len(&self) -> (r: usize)
        requires
            self.wf(),
        ensures
            r == self.size(),
    {
        self.keys.len()
    }

    /// The key stored at position `i`.
    pub fn key_ref(&self, i: usize) -> (r: &K)
        requires
            self.wf(),
            i < self.size(),
        ensures
            r.deep_view() == self.key_at(i as int),
    {
        &self.keys[i]
    }

    /// Swaps `v` with the value stored at position `i`.
    pub fn swap_at(&mut self, i: usize, v: &mut V)
        requires
            old(self).wf(),
            i < old(self).size(),
        ensures
            final(self).wf(),
            final(self).size() == old(self).size(),
            forall|j: int| 0 <= j < old(self).size() ==> final(self).key_at(j) == old(self).key_at(j),
            *final(v) == old(self).val_at(i as int),
            final(self).entries() == old(self).entries().insert(old(self).key_at(i as int), *old(v)),
            final(self).model() == old(self).model().insert(old(self).key_at(i as int), old(v).deep_view()),
    {
        let ghost pre = *self;
        let ghost nv = *v;
        self.vals.set_and_swap(i, v);
        proof {
            let k = pre.key_at(i as int);
            assert(self.keys@ == pre.keys@);
            assert forall|x: K::V| #![auto] self.entries().contains_key(x) <==> pre.entries().insert(k, nv).contains_key(x) by {
                if pre.entries().insert(k, nv).contains_key(x) && x != k {
                    pre.lemma_keys_complete(x);
                }
            }
            assert forall|x: K::V| #![auto] self.entries().contains_key(x) implies self.entries()[x] == pre.entries().insert(k, nv)[x] by {
                let j = choose|j: int| 0 <= j < self.keys@.len() && self.keys@[j].deep_view() == x;
                self.lemma_at(j);
                if j != i {
                    pre.lemma_at(j);
                }
            }
            assert(self.entries() =~= pre.entries().insert(k, nv));
            assert(self.model() =~= pre.model().insert(k, nv.deep_view()));
        }
    }

    /// The position of `k`, inserting `default` for it first if absent.
    pub fn entry(&mut self, k: &K, default: V) -> (i: usize)
        requires
            old(self).wf(),
        ensures
            final(self).wf(),
            i < final(self).size(),
            final(self).key_at(i as int) == k.deep_view(),
            old(self).entries().contains_key(k.deep_view()) ==> final(self).entries() == old(self).entries(),
            !old(self).entries().contains_key(k.deep_view()) ==> final(self).entries() == old(self).entries().insert(k.deep_view(), default),
            old(self).model().contains_key(k.deep_view()) ==> final(self).model() == old(self).model(),
            !old(self).model().contains_key(k.deep_view()) ==> final(self).model() == old(self).model().insert(k.deep_view(), default.deep_view()),
    {
        match self.find(k) {
            Some(i) => {
                proof {
                    self.lemma_at(i as int);
                }
                i
            },
            None => {
                let ghost pre = *self;
                let kc = k.key_clone();
                self.keys.push(kc);
                self.vals.push(default);
                let i = self.keys.len() - 1;
                proof {
                    let kk = k.deep_view();
                    assert(self.key_at(i as int) == kk);
                    assert forall|a: int, b: int|
                        0 <= a < self.keys@.len() && 0 <= b < self.keys@.len() && a != b
                            implies #[trigger] self.keys@[a].deep_view() != #[trigger] self.keys@[b].deep_view() by {
                        if a < i && b < i {
                            assert(self.keys@[a] == pre.keys@[a]);
                            assert(self.keys@[b] == pre.keys@[b]);
                        } else if a < i {
                            assert(self.keys@[a] == pre.keys@[a]);
                            assert(pre.key_at(a) != kk);
                        } else {
                            assert(self.keys@[b] == pre.keys@[b]);
                            assert(pre.key_at(b) != kk);
                        }
                    }
                    assert forall|x: K::V| #![auto] self.entries().contains_key(x) <==> pre.entries().insert(kk, default).contains_key(x) by {
                        if pre.entries().contains_key(x) {
                            let j = choose|j: int| 0 <= j < pre.keys@.len() && pre.keys@[j].deep_view() == x;
                            assert(self.keys@[j] == pre.keys@[j]);
                        }
                        if self.entries().contains_key(x) && x != kk {
                            let j = choose|j: int| 0 <= j < self.keys@.len() && self.keys@[j].deep_view() == x;
                            assert(j != i);
                            assert(self.keys@[j] == pre.keys@[j]);
                        }
                    }
                    assert forall|x: K::V| #![auto] self.entries().contains_key(x) implies self.entries()[x] == pre.entries().insert(kk, default)[x] by {
                        let j = choose|j: int| 0 <= j < self.keys@.len() && self.keys@[j].deep_view() == x;
                        self.lemma_at(j);
                        if j != i {
                            assert(self.keys@[j] == pre.keys@[j]);
                            assert(self.vals@[j] == pre.vals@[j]);
                            pre.lemma_at(j);
                        }
                    }
                    assert(self.entries() =~= pre.entries().insert(kk, default));
                    assert(self.model() =~= pre.model().insert(kk, default.deep_view()));
                }
                i
            },
        }
    }

    /// Stores `v` for `k`.
    pub fn insert(&mut self, k: K, v: V)
        requires
            old(self).wf(),
        ensures
            final(self).wf(),
            final(self).entries() == old(self).entries().insert(k.deep_view(), v),
            final(self).model() == old(self).model().insert(k.deep_view(), v.deep_view()),
    {
        match self.find(&k) {
            Some(i) => {
                let mut v2 = v;
                self.swap_at(i, &mut v2);
            },
            None => {
                let _ = self.entry(&k, v);
            },
        }
        assert(self.model() =~= old(self).model().insert(k.deep_view(), v.deep_view()));
    }
}

/// The sequence stored for `k`, or the empty sequence.
pub open spec fn seq_at<K, T>(m: Map<K, Seq<T>>, k: K) -> Seq<T> {
    if m.contains_key(k) {
        m[k]
    } else {
        Seq::empty()
    }
}

/// `m` with an (empty) entry for `k` if it had none.
pub open spec fn with_key<K, T>(m: Map<K, Seq<T>>, k: K) -> Map<K, Seq<T>> {
    if m.contains_key(k) {
        m
    } else {
        m.insert(k, Seq::empty())
    }
}

/// `m` with `x` appended to the sequence of `k`.
pub open spec fn append_at<K, T>(m: Map<K, Seq<T>>, k: K, x: T) -> Map<K, Seq<T>> {
    m.insert(k, seq_at(m, k).push(x))
}

impl<K: KeyEq, T: DeepView> AssocMap<K, Vec<T>> {
    /// Creates an empty sequence for `k` if it has none.
    pub fn ensure_key(&mut self, k: &K) -> (i: usize)
        requires
            old(self).wf(),
        ensures
            final(self).wf(),
            i < final(self).size(),
            final(self).key_at(i as int) == k.deep_view(),
            final(self).model() == with_key(old(self).model(), k.deep_view()),
    {
        let e: Vec<T> = Vec::new();
        assert(e.deep_view() =~= Seq::<T::V>::empty());
        self.entry(k, e)
    }

    /// Appends `x` to the sequence of `k` (creating it if needed).
    pub fn push_to(&mut self, k: &K, x: T)
        requires
            old(self).wf(),
        ensures
            final(self).wf(),
            final(self).model() == append_at(old(self).model(), k.deep_view(), x.deep_view()),
    {
        let ghost pre = self.model();
        let i = self.ensure_key(k);
        proof {
            self.lemma_at(i as int);
        }
        let mut tmp: Vec<T> = Vec::new();
        self.swap_at(i, &mut tmp);
        let ghost before = tmp.deep_view();
        assert(before == seq_at(pre, k.deep_view()));
        tmp.push(x);
        assert(tmp.deep_view() =~= before.push(x.deep_view()));
        self.swap_at(i, &mut tmp);
        assert(self.model() =~= append_at(pre, k.deep_view(), x.deep_view()));
    }

    /// Removes and returns the first element of the sequence of `k`.
    pub fn pop_front_at(&mut self, k: &K) -> (r: T)
        requires
            old(self).wf(),
            old(self).model().contains_key(k.deep_view()),
            old(self).model()[k.deep_view()].len() > 0,
        ensures
            final(self).wf(),
            r.deep_view() == old(self).model()[k.deep_view()][0],
            final(self).model() == old(self).model().insert(k.deep_view(), old(self).model()[k.deep_view()].drop_first()),
    {
        let ghost pre = self.model();
        let i = self.ensure_key(k);
        proof {
            self.lemma_at(i as int);
        }
        let mut tmp: Vec<T> = Vec::new();
        self.swap_at(i, &mut tmp);
        let ghost before = tmp.deep_view();
        assert(before == pre[k.deep_view()]);
        let r = tmp.remove(0);
        assert(tmp.deep_view() =~= before.drop_first());
        self.swap_at(i, &mut tmp);
        assert(self.model() =~= pre.insert(k.deep_view(), before.drop_first()));
        r
    }
}

} // verus!
