use vstd::prelude::*;

verus! {

/// A value that knows the key it is stored under.
pub trait EvictionMapValue<K> {
    spec fn key(&self) -> K;

    /// What the value's own type requires of every value of it.
    spec fn value_wf(&self) -> bool;

    fn hashmap_key(&self) -> (r: K)
        ensures
            r == self.key(),
    ;
}

/// Every value of `s` is well formed.
pub open spec fn all_wf<V: EvictionMapValue<u64>>(s: Seq<V>) -> bool {
    forall|i: int| 0 <= i < s.len() ==> (#[trigger] s[i]).value_wf()
}

/// No two values of `s` report the same key.
pub open spec fn keys_distinct<V: EvictionMapValue<u64>>(s: Seq<V>) -> bool {
    forall|i: int, j: int|
        0 <= i < s.len() && 0 <= j < s.len() && i != j ==> #[trigger] s[i].key() != #[trigger] s[j].key()
}

/// Some value of `s` reports key `k`.
pub open spec fn holds_key<V: EvictionMapValue<u64>>(s: Seq<V>, k: u64) -> bool {
    exists|i: int| 0 <= i < s.len() && #[trigger] s[i].key() == k
}

/// One partition of the store: its residents in order of use, least recently
/// used first.
pub struct EvictionShard<V> {
    entries: Vec<V>,
    capacity: usize,
}

impl<V: EvictionMapValue<u64>> EvictionShard<V> {
    pub closed spec fn residents(&self) -> Seq<V> {
        self.entries@
    }

    pub closed spec fn spec_capacity(&self) -> nat {
        self.capacity as nat
    }

    pub open spec fn wf(&self) -> bool {
        &&& 0 < self.spec_capacity()
        &&& self.residents().len() <= self.spec_capacity()
        &&& keys_distinct(self.residents())
        &&& all_wf(self.residents())
    }

    pub fn new(capacity: usize) -> (r: Self)
        requires
            0 < capacity,
        ensures
            r.wf(),
            r.residents() == Seq::<V>::empty(),
            r.spec_capacity() == capacity,
    {
        EvictionShard { entries: Vec::new(), capacity }
    }

    pub fn len(&self) -> (r: usize)
        ensures
            r == self.residents().len(),
    {
        self.entries.len()
    }

    /// The position of the resident stored under `key`, if any.
    fn position(&self, key: u64) -> (r: Option<usize>)
        ensures
            match r {
                Some(i) => i < self.residents().len() && self.residents()[i as int].key() == key,
                None => !holds_key(self.residents(), key),
            },
    {
        let mut i: usize = 0;
        while i < self.entries.len()
            invariant
                i <= self.entries@.len(),
                forall|j: int| 0 <= j < i ==> #[trigger] self.entries@[j].key() != key,
            decreases self.entries@.len() - i,
        {
            if self.entries[i].hashmap_key() == key {
                return Some(i);
            }
            i = i + 1;
        }
        None
    }

    /// The resident stored under `key`, if any.
    pub fn get(&self, key: u64) -> (r: Option<&V>)
        requires
            self.wf(),
        ensures
            match r {
                Some(v) => v.key() == key && v.value_wf() && self.residents().contains(*v),
                None => !holds_key(self.residents(), key),
            },
    {
        match self.position(key) {
            Some(i) => Some(&self.entries[i]),
            None => None,
        }
    }

    /// Takes out the resident stored under `key`, if any.
    pub fn remove(&mut self, key: u64) -> (r: Option<V>)
        requires
            old(self).wf(),
        ensures
            final(self).wf(),
            final(self).spec_capacity() == old(self).spec_capacity(),
            match r {
                Some(v) => exists|i: int|
                    0 <= i < old(self).residents().len() && old(self).residents()[i] == v
                        && v.key() == key && final(self).residents() == old(self).residents().remove(i),
                None => !holds_key(old(self).residents(), key) && final(self).residents()
                    == old(self).residents(),
            },
    {
        match self.position(key) {
            Some(i) => {
                let v = self.entries.remove(i);
                assert(forall|a: int| 0 <= a < self.entries@.len() ==> #[trigger] self.entries@[a]
                    == old(self).entries@[if a < i { a } else { a + 1 }]);
                Some(v)
            },
            None => None,
        }
    }

    /// Returns the resident stored under `key`, building it with `init` when it
    /// is missing, and marks it as the most recently used. When a missing value
    /// finds the shard full, the least recently used resident is evicted first.
    pub fn get_or_insert_with<F: FnOnce() -> V>(&mut self, key: u64, init: F) -> (r: &mut V)
        requires
            old(self).wf(),
            init.requires(()),
            forall|v: V| #[trigger] init.ensures((), v) ==> v.key() == key && v.value_wf(),
        ensures
            r.key() == key,
            r.value_wf(),
            final(self).spec_capacity() == old(self).spec_capacity(),
            final(self).residents().len() >= 1,
            final(self).residents().last() == *final(r),
            !holds_key(old(self).residents(), key) && old(self).residents().len() == old(self).spec_capacity()
                && final(r).key() == key ==> !holds_key(final(self).residents(), old(self).residents()[0].key()),
            forall|j: int|
                0 <= j < final(self).residents().len() - 1 ==> old(self).residents().contains(
                    #[trigger] final(self).residents()[j],
                ),
            ({
                let o = old(self).residents();
                let rest = final(self).residents().drop_last();
                if holds_key(o, key) {
                    exists|i: int| 0 <= i < o.len() && o[i].key() == key && *r == o[i] && rest == o.remove(i)
                } else {
                    &&& init.ensures((), *r)
                    &&& rest == if o.len() == old(self).spec_capacity() { o.remove(0) } else { o }
                }
            }),
            final(r).key() == key && final(r).value_wf() ==> final(self).wf(),
    {
        let ghost o = self.entries@;
        match self.position(key) {
            Some(i) => {
                let v = self.entries.remove(i);
                assert(forall|a: int| 0 <= a < self.entries@.len() ==> #[trigger] self.entries@[a]
                    == o[if a < i { a } else { a + 1 }]);
                assert(forall|a: int| 0 <= a < self.entries@.len() ==> o.contains(#[trigger] self.entries@[a]));
                self.entries.push(v);
            },
            None => {
                let v = init();
                if self.entries.len() == self.capacity {
                    let _evicted = self.entries.remove(0);
                    assert(forall|a: int| 0 <= a < self.entries@.len() ==> #[trigger] self.entries@[a]
                        == o[a + 1]);
                    assert(forall|a: int| 0 <= a < self.entries@.len() ==> #[trigger] self.entries@[a].key()
                        != o[0].key());
                    assert(o[0].key() != key);
                }
                assert(forall|a: int| 0 <= a < self.entries@.len() ==> o.contains(#[trigger] self.entries@[a]));
                self.entries.push(v);
            },
        }
        let last = self.entries.len() - 1;
        assert(self.entries@.drop_last() =~= self.entries@.subrange(0, last as int));
        &mut self.entries[last]
    }
}

/// Number of residents over all of `shards`.
pub open spec fn total_residents<V: EvictionMapValue<u64>>(shards: Seq<EvictionShard<V>>) -> nat
    decreases shards.len(),
{
    if shards.len() == 0 {
        0
    } else {
        total_residents(shards.drop_last()) + shards.last().residents().len()
    }
}

/// The keys of all residents of `shards`, shard by shard.
pub open spec fn all_keys<V: EvictionMapValue<u64>>(shards: Seq<EvictionShard<V>>) -> Seq<u64>
    decreases shards.len(),
{
    if shards.len() == 0 {
        Seq::empty()
    } else {
        all_keys(shards.drop_last()) + shards.last().residents().map_values(|v: V| v.key())
    }
}

proof fn lemma_total_update<V: EvictionMapValue<u64>>(
    shards: Seq<EvictionShard<V>>,
    i: int,
    x: EvictionShard<V>,
)
    requires
        0 <= i < shards.len(),
    ensures
        total_residents(shards.update(i, x)) + shards[i].residents().len() == total_residents(shards)
            + x.residents().len(),
    decreases shards.len(),
{
    let u = shards.update(i, x);
    if i < shards.len() - 1 {
        assert(u.drop_last() =~= shards.drop_last().update(i, x));
        lemma_total_update(shards.drop_last(), i, x);
    } else {
        assert(u.drop_last() =~= shards.drop_last());
    }
}

proof fn lemma_total_bound<V: EvictionMapValue<u64>>(shards: Seq<EvictionShard<V>>, c: nat)
    requires
        forall|i: int| 0 <= i < shards.len() ==> (#[trigger] shards[i]).residents().len() <= c,
    ensures
        total_residents(shards) <= shards.len() * c,
    decreases shards.len(),
{
    if shards.len() > 0 {
        lemma_total_bound(shards.drop_last(), c);
        assert(total_residents(shards) <= (shards.len() - 1) * c + c);
        assert((shards.len() - 1) * c + c == shards.len() * c) by (nonlinear_arith);
    }
}

/// A capacity-bounded store of self-keyed values, split by key into shards
/// that each hold an equal slice of the capacity and evict on their own.
/// Recency is kept exactly within a shard; there is no order across shards,
/// so the store as a whole evicts by approximate recency.
pub struct EvictionMap<V> {
    shards: Vec<EvictionShard<V>>,
    shard_capacity: usize,
}

impl<V: EvictionMapValue<u64>> EvictionMap<V> {
    pub closed spec fn spec_shards(&self) -> Seq<EvictionShard<V>> {
        self.shards@
    }

    pub closed spec fn spec_shard_capacity(&self) -> nat {
        self.shard_capacity as nat
    }

    /// Total number of residents the store may hold.
    pub open spec fn spec_capacity(&self) -> nat {
        self.spec_shards().len() * self.spec_shard_capacity()
    }

    /// The shard that holds key `k`.
    pub open spec fn shard_of(&self, k: u64) -> int {
        (k % (self.spec_shards().len() as u64)) as int
    }

    pub open spec fn residents_of(&self, k: u64) -> Seq<V> {
        self.spec_shards()[self.shard_of(k)].residents()
    }

    /// Some resident is stored under `k`.
    pub open spec fn holds(&self, k: u64) -> bool {
        holds_key(self.residents_of(k), k)
    }

    pub open spec fn resident_count(&self) -> nat {
        total_residents(self.spec_shards())
    }

    pub open spec fn wf(&self) -> bool {
        &&& 0 < self.spec_shards().len() <= usize::MAX
        &&& self.spec_capacity() <= usize::MAX
        &&& forall|t: int|
            0 <= t < self.spec_shards().len() ==> {
                &&& (#[trigger] self.spec_shards()[t]).wf()
                &&& self.spec_shards()[t].spec_capacity() == self.spec_shard_capacity()
                &&& forall|j: int|
                    0 <= j < self.spec_shards()[t].residents().len() ==> (#[trigger] self.spec_shards()[t].residents()[j].key()
                        % (self.spec_shards().len() as u64)) as int == t
            }
    }

    /// A store of `num_shards` shards that share `capacity` equally (the
    /// remainder of the division is not used).
    pub fn new(capacity: usize, num_shards: usize) -> (r: Self)
        requires
            0 < num_shards <= capacity,
        ensures
            r.wf(),
            r.spec_shards().len() == num_shards,
            r.spec_shard_capacity() == capacity / num_shards,
            r.resident_count() == 0,
            forall|k: u64| !r.holds(k),
    {
        let shard_capacity = capacity / num_shards;
        assert(shard_capacity * num_shards <= capacity && 0 < shard_capacity) by (nonlinear_arith)
            requires
                shard_capacity == capacity / num_shards,
                0 < num_shards <= capacity,
        ;
        let mut shards: Vec<EvictionShard<V>> = Vec::new();
        while shards.len() < num_shards
            invariant
                shards@.len() <= num_shards,
                0 < shard_capacity,
                forall|t: int|
                    0 <= t < shards@.len() ==> (#[trigger] shards@[t]).wf()
                        && shards@[t].spec_capacity() == shard_capacity
                        && shards@[t].residents() == Seq::<V>::empty(),
                total_residents(shards@) == 0,
            decreases num_shards - shards@.len(),
        {
            let ghost before = shards@;
            shards.push(EvictionShard::new(shard_capacity));
            assert(shards@.drop_last() =~= before);
        }
        let r = EvictionMap { shards, shard_capacity };
        assert(r.spec_capacity() <= usize::MAX) by (nonlinear_arith)
            requires
                r.spec_capacity() == num_shards * shard_capacity,
                shard_capacity * num_shards <= capacity,
                capacity <= usize::MAX,
        ;
        r
    }

    /// Total number of residents the store may hold.
    pub fn capacity(&self) -> (r: usize)
        requires
            self.wf(),
        ensures
            r == self.spec_capacity(),
    {
        self.shards.len() * self.shard_capacity
    }

    /// Number of residents over all shards.
    pub fn len(&self) -> (r: usize)
        requires
            self.wf(),
        ensures
            r == self.resident_count(),
            r <= self.spec_capacity(),
    {
        let mut sum: usize = 0;
        let mut t: usize = 0;
        proof {
            lemma_total_bound(self.spec_shards(), self.spec_shard_capacity());
        }
        while t < self.shards.len()
            invariant
                self.wf(),
                t <= self.shards@.len(),
                sum == total_residents(self.shards@.subrange(0, t as int)),
                total_residents(self.shards@) <= self.spec_capacity(),
            decreases self.shards@.len() - t,
        {
            let ghost prefix = self.shards@.subrange(0, t as int + 1);
            assert(prefix.drop_last() =~= self.shards@.subrange(0, t as int));
            proof {
                assert forall|i: int| 0 <= i < prefix.len() implies (#[trigger] prefix[i]).residents().len()
                    <= self.spec_shard_capacity() by {
                    assert(self.shards@[i].wf());
                }
                lemma_total_bound(prefix, self.spec_shard_capacity());
                assert(prefix.len() * self.spec_shard_capacity() <= self.spec_capacity()) by (nonlinear_arith)
                    requires
                        prefix.len() <= self.spec_shards().len(),
                        self.spec_capacity() == self.spec_shards().len() * self.spec_shard_capacity(),
                ;
            }
            sum = sum + self.shards[t].len();
            t = t + 1;
        }
        assert(self.shards@.subrange(0, t as int) =~= self.shards@);
        sum
    }

    fn shard_index(&self, key: u64) -> (r: usize)
        requires
            self.wf(),
        ensures
            r == self.shard_of(key),
            r < self.spec_shards().len(),
    {
        (key % (self.shards.len() as u64)) as usize
    }

    /// The resident stored under `key`, if any.
    pub fn get(&self, key: u64) -> (r: Option<&V>)
        requires
            self.wf(),
        ensures
            match r {
                Some(v) => v.key() == key && v.value_wf() && self.residents_of(key).contains(*v),
                None => !self.holds(key),
            },
    {
        let t = self.shard_index(key);
        assert(self.shards@[t as int].wf());
        self.shards[t].get(key)
    }

    /// Returns the resident stored under `key`, building it with `init` when it
    /// is missing, and marks it as the most recently used in its shard. Only the
    /// key's shard changes; when it is full on a miss, its least recently used
    /// resident is evicted.
    pub fn get_or_insert_with<F: FnOnce() -> V>(&mut self, key: u64, init: F) -> (r: &mut V)
        requires
            old(self).wf(),
            init.requires(()),
            forall|v: V| #[trigger] init.ensures((), v) ==> v.key() == key && v.value_wf(),
        ensures
            r.key() == key,
            r.value_wf(),
            final(r).key() == key && final(r).value_wf() ==> final(self).wf(),
            final(self).spec_shards().len() == old(self).spec_shards().len(),
            final(self).spec_shard_capacity() == old(self).spec_shard_capacity(),
            forall|u: int|
                0 <= u < old(self).spec_shards().len() && u != old(self).shard_of(key)
                    ==> #[trigger] final(self).spec_shards()[u] == old(self).spec_shards()[u],
            final(self).residents_of(key).len() >= 1,
            final(self).residents_of(key).last() == *final(r),
            !old(self).holds(key) && old(self).residents_of(key).len() == old(self).spec_shard_capacity()
                && final(r).key() == key ==> !final(self).holds(old(self).residents_of(key)[0].key()),
            ({
                let o = old(self).residents_of(key);
                let rest = final(self).residents_of(key).drop_last();
                if holds_key(o, key) {
                    exists|i: int| 0 <= i < o.len() && o[i].key() == key && *r == o[i] && rest == o.remove(i)
                } else {
                    &&& init.ensures((), *r)
                    &&& rest == if o.len() == old(self).spec_shard_capacity() { o.remove(0) } else { o }
                }
            }),
    {
        let t = self.shard_index(key);
        let ghost old_shards = self.shards@;
        proof {
            let o = old_shards[t as int].residents();
            assert(old_shards[t as int].wf());
            if !holds_key(o, key) && o.len() > 0 {
                assert(o[0].key() != key);
                assert(forall|j: int| 1 <= j < o.len() ==> #[trigger] o[j].key() != o[0].key());
            }
        }
        let shard = &mut self.shards[t];
        shard.get_or_insert_with(key, init)
    }

    /// Takes out the resident stored under `key`, if any; other keys stay.
    pub fn remove(&mut self, key: u64) -> (r: Option<V>)
        requires
            old(self).wf(),
        ensures
            final(self).wf(),
            final(self).spec_shards().len() == old(self).spec_shards().len(),
            final(self).spec_shard_capacity() == old(self).spec_shard_capacity(),
            !final(self).holds(key),
            forall|u: int|
                0 <= u < old(self).spec_shards().len() && u != old(self).shard_of(key)
                    ==> #[trigger] final(self).spec_shards()[u] == old(self).spec_shards()[u],
            match r {
                Some(v) => exists|i: int|
                    0 <= i < old(self).residents_of(key).len() && old(self).residents_of(key)[i] == v
                        && v.key() == key && final(self).residents_of(key) == old(self).residents_of(
                        key,
                    ).remove(i),
                None => !old(self).holds(key) && final(self).residents_of(key) == old(self).residents_of(key),
            },
    {
        let t = self.shard_index(key);
        let ghost old_shards = self.shards@;
        let shard = &mut self.shards[t];
        let r = shard.remove(key);
        proof {
            let n = old_shards.len();
            let o = old_shards[t as int].residents();
            let f = self.shards@[t as int].residents();
            if r is Some {
                let i = choose|i: int|
                    0 <= i < o.len() && o[i] == r->0 && r->0.key() == key && f == o.remove(i);
                assert forall|j: int| 0 <= j < f.len() implies (#[trigger] f[j].key() % (n as u64)) as int == t by {
                    assert(f[j] == o[if j < i { j } else { j + 1 }]);
                }
                assert forall|j: int| 0 <= j < f.len() implies #[trigger] f[j].key() != key by {
                    assert(f[j] == o[if j < i { j } else { j + 1 }]);
                }
                assert(old(self).residents_of(key) == o);
                assert(self.residents_of(key) == f);
            }
        }
        r
    }
    /// The keys of all residents, shard by shard, each shard from least to
    /// most recently used.
    pub fn keys(&self) -> (r: Vec<u64>)
        requires
            self.wf(),
        ensures
            r@ == all_keys(self.spec_shards()),
    {
        let mut out: Vec<u64> = Vec::new();
        let mut t: usize = 0;
        while t < self.shards.len()
            invariant
                t <= self.shards@.len(),
                out@ == all_keys(self.shards@.subrange(0, t as int)),
            decreases self.shards@.len() - t,
        {
            let shard = &self.shards[t];
            let ghost base = out@;
            let mut j: usize = 0;
            while j < shard.entries.len()
                invariant
                    j <= shard.entries@.len(),
                    out@ == base + shard.entries@.subrange(0, j as int).map_values(|v: V| v.key()),
                decreases shard.entries@.len() - j,
            {
                out.push(shard.entries[j].hashmap_key());
                j = j + 1;
                assert(out@ =~= base + shard.entries@.subrange(0, j as int).map_values(|v: V| v.key()));
            }
            assert(shard.entries@.subrange(0, j as int) =~= shard.entries@);
            assert(self.shards@.subrange(0, t + 1).drop_last() =~= self.shards@.subrange(0, t as int));
            t = t + 1;
        }
        assert(self.shards@.subrange(0, t as int) =~= self.shards@);
        out
    }
}

/// A well-formed store never holds more residents than its capacity, whatever
/// sequence of insertions led to it.
pub proof fn lemma_resident_count_within_capacity<V: EvictionMapValue<u64>>(m: &EvictionMap<V>)
    requires
        m.wf(),
    ensures
        m.resident_count() <= m.spec_capacity(),
{
    assert forall|i: int| 0 <= i < m.spec_shards().len() implies (#[trigger] m.spec_shards()[i]).residents().len()
        <= m.spec_shard_capacity() by {
        assert(m.spec_shards()[i].wf());
    }
    lemma_total_bound(m.spec_shards(), m.spec_shard_capacity());
}

/// Every resident is found under its own key: it lies in the shard of that key,
/// and it is the only resident there that reports the key.
pub proof fn lemma_self_keyed<V: EvictionMapValue<u64>>(m: &EvictionMap<V>, t: int, j: int)
    requires
        m.wf(),
        0 <= t < m.spec_shards().len(),
        0 <= j < m.spec_shards()[t].residents().len(),
    ensures
        ({
            let e = m.spec_shards()[t].residents()[j];
            &&& m.shard_of(e.key()) == t
            &&& m.holds(e.key())
            &&& forall|v: V| #[trigger] m.residents_of(e.key()).contains(v) && v.key() == e.key() ==> v == e
        }),
{
    let e = m.spec_shards()[t].residents()[j];
    assert(m.spec_shards()[t].wf());
    assert((e.key() % (m.spec_shards().len() as u64)) as int == t);
    assert(m.residents_of(e.key())[j] == e);
}

/// The enumeration of a store lists each resident's key once: it is as long as
/// the number of residents, and a key is listed exactly when it is held.
pub proof fn lemma_keys_enumerate<V: EvictionMapValue<u64>>(m: &EvictionMap<V>, k: u64)
    requires
        m.wf(),
    ensures
        all_keys(m.spec_shards()).len() == m.resident_count(),
        all_keys(m.spec_shards()).contains(k) <==> m.holds(k),
{
    lemma_all_keys(m.spec_shards(), m.spec_shards().len() as u64, k);
}

proof fn lemma_all_keys<V: EvictionMapValue<u64>>(shards: Seq<EvictionShard<V>>, n: u64, k: u64)
    requires
        0 < n,
        shards.len() <= n,
        forall|t: int|
            0 <= t < shards.len() ==> forall|j: int|
                0 <= j < (#[trigger] shards[t]).residents().len() ==> (#[trigger] shards[t].residents()[j].key()
                    % n) as int == t,
    ensures
        all_keys(shards).len() == total_residents(shards),
        all_keys(shards).contains(k) <==> ((k % n) as int) < shards.len() && holds_key(
            shards[(k % n) as int].residents(),
            k,
        ),
    decreases shards.len(),
{
    if shards.len() > 0 {
        let init = shards.drop_last();
        let last = shards.last();
        let lk = last.residents().map_values(|v: V| v.key());
        let t = (k % n) as int;
        lemma_all_keys(init, n, k);
        let all = all_keys(shards);
        assert(all == all_keys(init) + lk);
        if all.contains(k) {
            let i = choose|i: int| 0 <= i < all.len() && all[i] == k;
            if i >= all_keys(init).len() {
                let j = i - all_keys(init).len();
                assert(lk[j] == k);
                assert(last.residents()[j].key() == k);
                assert(shards[shards.len() - 1] == last);
            } else {
                assert(all_keys(init).contains(k));
                assert(init[t] == shards[t]);
            }
        }
        if t < shards.len() && holds_key(shards[t].residents(), k) {
            let j = choose|j: int| 0 <= j < shards[t].residents().len() && #[trigger] shards[t].residents()[j].key() == k;
            if t == shards.len() - 1 {
                assert(all[all_keys(init).len() + j] == k);
            } else {
                assert(init[t] == shards[t]);
                assert(all_keys(init).contains(k));
                let i = choose|i: int| 0 <= i < all_keys(init).len() && all_keys(init)[i] == k;
                assert(all[i] == k);
            }
        }
    }
}

} // verus!
