use vstd::prelude::*;

verus! {

/// The index of the entry keyed `k` in `s`, or -1 where there is none.
pub open spec fn key_index<A>(s: Seq<(usize, A)>, k: usize) -> int {
    if exists|i: int| 0 <= i < s.len() && s[i].0 == k {
        choose|i: int| 0 <= i < s.len() && s[i].0 == k
    } else {
        -1
    }
}

/// No two entries of `s` share a key.
pub open spec fn keys_unique<A>(s: Seq<(usize, A)>) -> bool {
    forall|i: int, j: int| 0 <= i < s.len() && 0 <= j < s.len() && s[i].0 == s[j].0 ==> i == j
}

/// Sets the value of key `k`: in place where the key is present, else as a new last entry.
pub open spec fn spec_upsert<A>(s: Seq<(usize, A)>, k: usize, v: A) -> Seq<(usize, A)> {
    let i = key_index(s, k);
    if i >= 0 {
        s.update(i, (k, v))
    } else {
        s.push((k, v))
    }
}

/// Takes out the entry keyed `k`; the entries after it move up, keeping their order.
pub open spec fn spec_remove_key<A>(s: Seq<(usize, A)>, k: usize) -> Seq<(usize, A)> {
    let i = key_index(s, k);
    if i >= 0 {
        s.remove(i)
    } else {
        s
    }
}

/// The value stored under key `k`, if any.
pub open spec fn spec_lookup<A>(s: Seq<(usize, A)>, k: usize) -> Option<A> {
    let i = key_index(s, k);
    if i >= 0 {
        Some(s[i].1)
    } else {
        None
    }
}

/// A group: for each outer key in order, its entries in order.
pub type GroupView<V> = Seq<(usize, Seq<(usize, V)>)>;

pub open spec fn group_wf<V>(g: GroupView<V>) -> bool {
    &&& keys_unique(g)
    &&& forall|t: int| 0 <= t < g.len() ==> keys_unique(#[trigger] g[t].1)
}

/// The value at outer key `key` and inner key `inner_key`, if any.
pub open spec fn spec_get<V>(g: GroupView<V>, key: usize, inner_key: usize) -> Option<V> {
    match spec_lookup(g, key) {
        Some(entries) => spec_lookup(entries, inner_key),
        None => None,
    }
}

pub open spec fn spec_insert<V>(g: GroupView<V>, key: usize, inner_key: usize, v: V) -> GroupView<V> {
    let t = key_index(g, key);
    if t >= 0 {
        g.update(t, (key, spec_upsert(g[t].1, inner_key, v)))
    } else {
        g.push((key, seq![(inner_key, v)]))
    }
}

pub open spec fn spec_remove<V>(g: GroupView<V>, key: usize, inner_key: usize) -> GroupView<V> {
    let t = key_index(g, key);
    if t >= 0 {
        g.update(t, (key, spec_remove_key(g[t].1, inner_key)))
    } else {
        g
    }
}

/// The number of entries over all outer keys.
pub open spec fn spec_value_count<V>(g: GroupView<V>) -> nat
    decreases g.len(),
{
    if g.len() == 0 {
        0
    } else {
        spec_value_count(g.drop_last()) + g.last().1.len()
    }
}

pub proof fn lemma_key_index_found<A>(s: Seq<(usize, A)>, k: usize, i: int)
    requires
        keys_unique(s),
        0 <= i < s.len(),
        s[i].0 == k,
    ensures
        key_index(s, k) == i,
{
}

pub proof fn lemma_upsert_unique<A>(s: Seq<(usize, A)>, k: usize, v: A)
    requires
        keys_unique(s),
    ensures
        keys_unique(spec_upsert(s, k, v)),
        key_index(spec_upsert(s, k, v), k) >= 0,
        spec_lookup(spec_upsert(s, k, v), k) == Some(v),
{
    let r = spec_upsert(s, k, v);
    let i = key_index(s, k);
    if i >= 0 {
        lemma_key_index_found(r, k, i);
    } else {
        lemma_key_index_found(r, k, s.len() as int);
    }
}

pub proof fn lemma_remove_unique<A>(s: Seq<(usize, A)>, k: usize)
    requires
        keys_unique(s),
    ensures
        keys_unique(spec_remove_key(s, k)),
{
    let i = key_index(s, k);
    if i >= 0 {
        let r = spec_remove_key(s, k);
        assert forall|a: int, b: int|
            0 <= a < r.len() && 0 <= b < r.len() && r[a].0 == r[b].0 implies a == b by {
            let ia = if a < i { a } else { a + 1 };
            let ib = if b < i { b } else { b + 1 };
            assert(r[a] == s[ia]);
            assert(r[b] == s[ib]);
        }
    }
}

/// Finds the position of key `k` in `s`.
pub fn find_key<A>(s: &Vec<(usize, A)>, k: usize) -> (r: Option<usize>)
    ensures
        match r {
            Some(i) => i < s@.len() && s@[i as int].0 == k,
            None => forall|j: int| 0 <= j < s@.len() ==> s@[j].0 != k,
        },
{
    let mut i: usize = 0;
    while i < s.len()
        invariant
            i <= s@.len(),
            forall|j: int| 0 <= j < i ==> s@[j].0 != k,
        decreases s@.len() - i,
    {
        if s[i].0 == k {
            return Some(i);
        }
        i = i + 1;
    }
    None
}

/// A two-level keyed collection: an outer key (a track) holds an ordered map from an inner
/// key (a position) to a value. Outer keys keep the order in which they first came; within
/// one outer key, entries keep the order of insertion, and an inner key occurs at most once.
pub struct ItemGroup<V> {
    inner: Vec<(usize, Vec<(usize, V)>)>,
}

impl<V> View for ItemGroup<V> {
    type V = GroupView<V>;

    closed spec fn view(&self) -> GroupView<V> {
        self.inner@.map_values(|t: (usize, Vec<(usize, V)>)| (t.0, t.1@))
    }
}

impl<V> ItemGroup<V> {
    pub open spec fn wf(&self) -> bool {
        group_wf(self@)
    }

    pub fn new() -> (r: Self)
        ensures
            r.wf(),
            r@ == GroupView::<V>::empty(),
    {
        let r = ItemGroup { inner: Vec::new() };
        assert(r@ =~= GroupView::<V>::empty());
        r
    }

    /// Every outer key with its entries, in order.
    pub fn inner(&self) -> (r: &Vec<(usize, Vec<(usize, V)>)>)
        ensures
            r@.len() == self@.len(),
            forall|t: int| 0 <= t < r@.len() ==> (#[trigger] r@[t]).0 == self@[t].0 && r@[t].1@ == self@[t].1,
    {
        &self.inner
    }

    /// Sets the value at (`key`, `inner_key`), replacing the one there if any.
    pub fn insert(&mut self, key: usize, inner_key: usize, value: V)
        requires
            old(self).wf(),
        ensures
            final(self).wf(),
            final(self)@ == spec_insert(old(self)@, key, inner_key, value),
    {
        let ghost g = self@;
        match find_key(&self.inner, key) {
            Some(t) => {
                proof {
                    assert(g[t as int].0 == key);
                    lemma_key_index_found(g, key, t as int);
                }
                match find_key(&self.inner[t].1, inner_key) {
                    Some(i) => {
                        proof {
                            assert(g[t as int].1[i as int].0 == inner_key);
                            lemma_key_index_found(g[t as int].1, inner_key, i as int);
                        }
                        self.inner[t].1[i] = (inner_key, value);
                    },
                    None => {
                        self.inner[t].1.push((inner_key, value));
                    },
                }
                proof {
                    lemma_upsert_unique(g[t as int].1, inner_key, value);
                    assert(self@ =~= spec_insert(g, key, inner_key, value));
                }
            },
            None => {
                let mut entries = Vec::new();
                entries.push((inner_key, value));
                self.inner.push((key, entries));
                proof {
                    assert(self@ =~= spec_insert(g, key, inner_key, value));
                    assert(keys_unique(seq![(inner_key, value)]));
                    assert(keys_unique(self@));
                }
            },
        }
        proof {
            let n = self@;
            assert forall|u: int| 0 <= u < n.len() implies keys_unique(#[trigger] n[u].1) by {
                if u < g.len() && u != key_index(g, key) {
                    assert(n[u] == g[u]);
                }
            }
        }
    }

    /// Takes out the value at (`key`, `inner_key`); the later entries of that outer key move up,
    /// keeping their order. Absent keys leave the group as it is.
    pub fn remove(&mut self, key: &usize, inner_key: usize) -> (r: Option<V>)
        requires
            old(self).wf(),
        ensures
            final(self).wf(),
            final(self)@ == spec_remove(old(self)@, *key, inner_key),
            r == spec_get(old(self)@, *key, inner_key),
    {
        let ghost g = self@;
        match find_key(&self.inner, *key) {
            Some(t) => {
                proof {
                    assert(g[t as int].0 == *key);
                    lemma_key_index_found(g, *key, t as int);
                    lemma_remove_unique(g[t as int].1, inner_key);
                }
                match find_key(&self.inner[t].1, inner_key) {
                    Some(i) => {
                        proof {
                            assert(g[t as int].1[i as int].0 == inner_key);
                            lemma_key_index_found(g[t as int].1, inner_key, i as int);
                        }
                        let (_, v) = self.inner[t].1.remove(i);
                        proof {
                            assert(self@ =~= spec_remove(g, *key, inner_key));
                            let n = self@;
                            assert forall|u: int| 0 <= u < n.len() implies keys_unique(
                                #[trigger] n[u].1,
                            ) by {
                                if u != t {
                                    assert(n[u] == g[u]);
                                }
                            }
                        }
                        Some(v)
                    },
                    None => {
                        proof {
                            assert(spec_remove_key(g[t as int].1, inner_key) == g[t as int].1);
                            assert(g.update(t as int, (*key, g[t as int].1)) =~= g);
                        }
                        None
                    },
                }
            },
            None => None,
        }
    }

    /// The entries of outer key `key`, if it is present.
    pub fn get(&self, key: usize) -> (r: Option<&Vec<(usize, V)>>)
        requires
            self.wf(),
        ensures
            match r {
                Some(e) => key_index(self@, key) >= 0 && e@ == self@[key_index(self@, key)].1,
                None => key_index(self@, key) == -1,
            },
    {
        match find_key(&self.inner, key) {
            Some(t) => {
                proof {
                    assert(self@[t as int].0 == key);
                    lemma_key_index_found(self@, key, t as int);
                }
                Some(&self.inner[t].1)
            },
            None => {
                proof {
                    assert(forall|j: int| 0 <= j < self@.len() ==> self@[j].0 == self.inner@[j].0);
                }
                None
            },
        }
    }

    /// Where (`key`, `inner_key`) sits: the index of the outer key and of the entry within it.
    pub fn locate(&self, key: usize, inner_key: usize) -> (r: Option<(usize, usize)>)
        requires
            self.wf(),
        ensures
            match r {
                Some((t, i)) => {
                    &&& t == key_index(self@, key)
                    &&& 0 <= t < self@.len()
                    &&& i == key_index(self@[t as int].1, inner_key)
                    &&& 0 <= i < self@[t as int].1.len()
                    &&& self@[t as int].1[i as int].0 == inner_key
                },
                None => spec_get(self@, key, inner_key) is None,
            },
            r is Some <==> spec_get(self@, key, inner_key) is Some,
    {
        match find_key(&self.inner, key) {
            Some(t) => {
                proof {
                    assert(self@[t as int].0 == key);
                    lemma_key_index_found(self@, key, t as int);
                    assert(self@[t as int].1 == self.inner@[t as int].1@);
                }
                match find_key(&self.inner[t].1, inner_key) {
                    Some(i) => {
                        proof {
                            assert(self@[t as int].1[i as int].0 == inner_key);
                            lemma_key_index_found(self@[t as int].1, inner_key, i as int);
                        }
                        Some((t, i))
                    },
                    None => None,
                }
            },
            None => {
                proof {
                    assert(forall|j: int| 0 <= j < self@.len() ==> self@[j].0 == self.inner@[j].0);
                }
                None
            },
        }
    }

    /// The number of entries of the `t`-th outer key, if there is one.
    pub fn get_by_index(&self, t: usize) -> (r: Option<usize>)
        ensures
            t < self@.len() ==> (r matches Some(n) && n == self@[t as int].1.len()),
            t >= self@.len() ==> r is None,
    {
        if t < self.inner.len() {
            Some(self.inner[t].1.len())
        } else {
            None
        }
    }

    /// Removes every outer key and entry.
    pub fn clear(&mut self)
        ensures
            final(self).wf(),
            final(self)@ == GroupView::<V>::empty(),
    {
        self.inner.clear();
        assert(self@ =~= GroupView::<V>::empty());
    }

    /// The number of outer keys.
    pub fn key_len(&self) -> (r: usize)
        ensures
            r == self@.len(),
    {
        self.inner.len()
    }

    /// The number of entries over all outer keys, saturating at `usize::MAX`.
    pub fn value_len(&self) -> (r: usize)
        ensures
            r == if spec_value_count(self@) <= usize::MAX {
                spec_value_count(self@)
            } else {
                usize::MAX as nat
            },
    {
        let mut total: usize = 0;
        let mut t: usize = 0;
        while t < self.inner.len()
            invariant
                t <= self@.len(),
                self@.len() == self.inner@.len(),
                total == if spec_value_count(self@.take(t as int)) <= usize::MAX {
                    spec_value_count(self@.take(t as int))
                } else {
                    usize::MAX as nat
                },
            decreases self@.len() - t,
        {
            proof {
                assert(self@.take(t as int + 1).drop_last() =~= self@.take(t as int));
                assert(self@[t as int].1.len() == self.inner@[t as int].1@.len());
            }
            total = total.saturating_add(self.inner[t].1.len());
            t = t + 1;
        }
        proof {
            assert(self@.take(t as int) =~= self@);
        }
        total
    }

    /// Hands out the value of the `i`-th entry of the `t`-th outer key for the caller to change
    /// in place; the keys stay as they are.
    pub fn value_at_mut(&mut self, t: usize, i: usize) -> (r: &mut V)
        requires
            t < old(self)@.len(),
            i < old(self)@[t as int].1.len(),
        ensures
            *r == old(self)@[t as int].1[i as int].1,
            final(self)@ == old(self)@.update(
                t as int,
                (
                    old(self)@[t as int].0,
                    old(self)@[t as int].1.update(i as int, (old(self)@[t as int].1[i as int].0, *final(r))),
                ),
            ),
    {
        &mut self.inner[t].1[i].1
    }

    /// Every outer key with its entries, in order.
    pub fn values(&self) -> (r: &Vec<(usize, Vec<(usize, V)>)>)
        ensures
            r@.len() == self@.len(),
            forall|t: int| 0 <= t < r@.len() ==> (#[trigger] r@[t]).0 == self@[t].0 && r@[t].1@ == self@[t].1,
    {
        &self.inner
    }
}

/// Setting two values at one place in turn leaves the second alone there, exactly as if the
/// first had never been set.
pub proof fn lemma_insert_twice_replaces<V>(g: GroupView<V>, key: usize, inner_key: usize, a: V, b: V)
    requires
        group_wf(g),
    ensures
        spec_insert(spec_insert(g, key, inner_key, a), key, inner_key, b) == spec_insert(
            g,
            key,
            inner_key,
            b,
        ),
        spec_get(spec_insert(spec_insert(g, key, inner_key, a), key, inner_key, b), key, inner_key)
            == Some(b),
        group_wf(spec_insert(spec_insert(g, key, inner_key, a), key, inner_key, b)),
        spec_insert(spec_insert(g, key, inner_key, a), key, inner_key, b).len() == spec_insert(
            g,
            key,
            inner_key,
            a,
        ).len(),
        forall|u: int|
            0 <= u < spec_insert(g, key, inner_key, a).len() ==> (#[trigger] spec_insert(
                spec_insert(g, key, inner_key, a),
                key,
                inner_key,
                b,
            )[u]).1.len() == spec_insert(g, key, inner_key, a)[u].1.len(),
{
    lemma_insert_wf(g, key, inner_key, a);
    let g1 = spec_insert(g, key, inner_key, a);
    lemma_insert_wf(g1, key, inner_key, b);
    let t = key_index(g, key);
    if t >= 0 {
        lemma_key_index_found(g1, key, t);
        let s = g[t].1;
        let i = key_index(s, inner_key);
        lemma_upsert_unique(s, inner_key, a);
        if i >= 0 {
            lemma_key_index_found(spec_upsert(s, inner_key, a), inner_key, i);
            assert(spec_upsert(spec_upsert(s, inner_key, a), inner_key, b) =~= spec_upsert(s, inner_key, b));
        } else {
            lemma_key_index_found(spec_upsert(s, inner_key, a), inner_key, s.len() as int);
            assert(spec_upsert(spec_upsert(s, inner_key, a), inner_key, b) =~= spec_upsert(s, inner_key, b));
        }
        assert(spec_insert(g1, key, inner_key, b) =~= spec_insert(g, key, inner_key, b));
    } else {
        lemma_key_index_found(g1, key, g.len() as int);
        let one = seq![(inner_key, a)];
        lemma_key_index_found(one, inner_key, 0);
        assert(spec_upsert(one, inner_key, b) =~= seq![(inner_key, b)]);
        assert(spec_insert(g1, key, inner_key, b) =~= spec_insert(g, key, inner_key, b));
    }
    lemma_insert_wf(g, key, inner_key, b);
    lemma_insert_get(g, key, inner_key, b);
}

pub proof fn lemma_insert_wf<V>(g: GroupView<V>, key: usize, inner_key: usize, v: V)
    requires
        group_wf(g),
    ensures
        group_wf(spec_insert(g, key, inner_key, v)),
        key_index(spec_insert(g, key, inner_key, v), key) >= 0,
{
    let n = spec_insert(g, key, inner_key, v);
    let t = key_index(g, key);
    if t >= 0 {
        lemma_upsert_unique(g[t].1, inner_key, v);
        lemma_key_index_found(n, key, t);
        assert forall|u: int| 0 <= u < n.len() implies keys_unique(#[trigger] n[u].1) by {
            if u != t {
                assert(n[u] == g[u]);
            }
        }
    } else {
        assert(keys_unique(seq![(inner_key, v)]));
        lemma_key_index_found(n, key, g.len() as int);
        assert forall|u: int| 0 <= u < n.len() implies keys_unique(#[trigger] n[u].1) by {
            if u < g.len() {
                assert(n[u] == g[u]);
            }
        }
    }
}

/// Changing a value in place, keys untouched, keeps a group well formed.
pub proof fn lemma_update_value_wf<V>(g: GroupView<V>, t: int, i: int, v: V)
    requires
        group_wf(g),
        0 <= t < g.len(),
        0 <= i < g[t].1.len(),
    ensures
        group_wf(g.update(t, (g[t].0, g[t].1.update(i, (g[t].1[i].0, v))))),
{
    let n = g.update(t, (g[t].0, g[t].1.update(i, (g[t].1[i].0, v))));
    assert forall|a: int, b: int| 0 <= a < n.len() && 0 <= b < n.len() && n[a].0 == n[b].0 implies a == b by {
        assert(n[a].0 == g[a].0);
        assert(n[b].0 == g[b].0);
    }
    assert forall|u: int| 0 <= u < n.len() implies keys_unique(#[trigger] n[u].1) by {
        if u == t {
            let s = n[u].1;
            assert forall|a: int, b: int| 0 <= a < s.len() && 0 <= b < s.len() && s[a].0 == s[b].0 implies a == b by {
                assert(s[a].0 == g[t].1[a].0);
                assert(s[b].0 == g[t].1[b].0);
            }
        } else {
            assert(n[u] == g[u]);
        }
    }
}

pub proof fn lemma_insert_get<V>(g: GroupView<V>, key: usize, inner_key: usize, v: V)
    requires
        group_wf(g),
    ensures
        spec_get(spec_insert(g, key, inner_key, v), key, inner_key) == Some(v),
{
    let n = spec_insert(g, key, inner_key, v);
    let t = key_index(g, key);
    if t >= 0 {
        lemma_upsert_unique(g[t].1, inner_key, v);
        lemma_key_index_found(n, key, t);
    } else {
        lemma_key_index_found(n, key, g.len() as int);
        lemma_key_index_found(seq![(inner_key, v)], inner_key, 0);
    }
}

} // verus!
