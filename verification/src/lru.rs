//! LRU node cache with a tunable eviction policy.
//!
//! Entries carry a stamp from a global wrapping counter that is bumped
//! on every access; the `Immediate` strategy evicts the entry with the
//! oldest stamp as soon as the capacity is exceeded, while the
//! `Probabilistic` strategy evicts a batch of entries chosen by their
//! age whenever a randomly throttled trigger fires.  The per-entry
//! eviction decisions of the probabilistic strategy depend on a decay
//! curve computed outside this crate, so they are handed in as plain
//! booleans.

use vstd::prelude::*;

use crate::buffer::BufIoError;

verus! {

/// The age of a stamp relative to the global counter, allowing for at
/// most one wraparound: `(global_value - item_value) mod 2^32`.
pub fn counter_age(global_value: u32, item_value: u32) -> (r: u32)
    ensures
        r == (global_value - item_value) % 0x1_0000_0000,
{
    if global_value >= item_value {
        global_value - item_value
    } else {
        (u32::MAX - item_value) + global_value + 1
    }
}

/// Relies on `rand::Rng::gen_range` over the inclusive range
/// `lo..=hi`: the result lies within the range.
#[verifier::external_body]
fn random_u16_in(lo: u16, hi: u16) -> (r: u16)
    requires
        lo <= hi,
    ensures
        lo <= r <= hi,
{
    rand::Rng::gen_range(&mut rand::thread_rng(), lo..=hi)
}

/// Parameters of probabilistic eviction: a trigger frequency (the
/// sweep runs on average once every `freq` calls) and the decay rate
/// of the recency curve, in millionths.
#[derive(Debug, Clone, Copy, PartialEq, Eq)]
pub struct ProbEviction {
    pub freq: u16,
    pub lambda_micros: u32,
}

impl ProbEviction {
    /// A strategy triggering once every `freq` calls on average, with
    /// the default decay rate of one hundredth.
    pub fn new(freq: u16) -> (r: Self)
        ensures
            r.freq == freq,
            r.lambda_micros == 10000,
    {
        ProbEviction { freq, lambda_micros: 10000 }
    }

    /// Draws a random number to decide whether an eviction sweep runs
    /// now; true with probability `1/freq`.
    pub fn should_trigger(&self) -> (r: bool)
        requires
            self.freq >= 1,
    {
        let n = random_u16_in(1, self.freq);
        n % self.freq == 0
    }
}

/// When entries over capacity are evicted: at once, or in randomly
/// triggered sweeps.
pub enum EvictStrategy {
    Immediate,
    Probabilistic(ProbEviction),
}

/// Keys are absent from the later part of the entry sequence.
pub open spec fn keys_unique<V>(s: Seq<(u64, V, u32)>) -> bool {
    forall|i: int, j: int| 0 <= i < j < s.len() ==> (#[trigger] s[i]).0 != (#[trigger] s[j]).0
}

/// Some entry holds key `k`.
pub open spec fn has_key<V>(s: Seq<(u64, V, u32)>, k: u64) -> bool {
    exists|i: int| 0 <= i < s.len() && (#[trigger] s[i]).0 == k
}

/// The slot of key `k`.
pub open spec fn idx_of<V>(s: Seq<(u64, V, u32)>, k: u64) -> int {
    choose|i: int| 0 <= i < s.len() && (#[trigger] s[i]).0 == k
}

/// With unique keys, the slot of a key is the only one holding it.
pub proof fn lemma_idx_of_unique<V>(s: Seq<(u64, V, u32)>, k: u64, i: int)
    requires
        keys_unique(s),
        0 <= i < s.len(),
        s[i].0 == k,
    ensures
        idx_of(s, k) == i,
        has_key(s, k),
{
    assert(has_key(s, k));
    let j = idx_of(s, k);
    if i < j {
        assert(s[i].0 != s[j].0);
    } else if j < i {
        assert(s[j].0 != s[i].0);
    }
}

/// A cache of at most `capacity` values keyed by `u64`, with one
/// stamp per entry and a global wrapping counter.
pub struct LRUCache<V> {
    entries: Vec<(u64, V, u32)>,
    capacity: usize,
    counter: u32,
    evict_strategy: EvictStrategy,
}

impl<V: Copy> LRUCache<V> {
    /// The entries as `(key, value, stamp)` triples, oldest slot
    /// first.
    pub closed spec fn spec_entries(&self) -> Seq<(u64, V, u32)> {
        self.entries@
    }

    /// The configured capacity.
    pub closed spec fn spec_capacity(&self) -> usize {
        self.capacity
    }

    /// The global counter's current value.
    pub closed spec fn spec_counter(&self) -> u32 {
        self.counter
    }

    /// The configured eviction strategy.
    pub closed spec fn spec_strategy(&self) -> EvictStrategy {
        self.evict_strategy
    }

    /// Entry keys never repeat.
    pub open spec fn wf(&self) -> bool {
        keys_unique(self.spec_entries())
    }

    /// The number of cached entries.
    pub open spec fn spec_len(&self) -> int {
        self.spec_entries().len() as int
    }

    /// Key `k` is cached.
    pub open spec fn contains_key(&self, k: u64) -> bool {
        has_key(self.spec_entries(), k)
    }

    /// The value cached under `k`.
    pub open spec fn value_of(&self, k: u64) -> V
        recommends
            self.contains_key(k),
    {
        self.spec_entries()[idx_of(self.spec_entries(), k)].1
    }

    /// An empty cache.
    pub fn new(capacity: usize, evict_strategy: EvictStrategy) -> (r: Self)
        ensures
            r.wf(),
            r.spec_len() == 0,
            r.spec_capacity() == capacity,
            r.spec_strategy() == evict_strategy,
            r.spec_counter() == 0,
    {
        LRUCache { entries: Vec::new(), capacity, counter: 0, evict_strategy }
    }

    /// Bumps the global counter, wrapping at `u32::MAX`, and returns
    /// its previous value.
    fn increment_counter(&mut self) -> (r: u32)
        ensures
            r == old(self).spec_counter(),
            final(self).spec_counter() == (old(self).spec_counter() + 1) % 0x1_0000_0000,
            final(self).spec_entries() == old(self).spec_entries(),
            final(self).spec_capacity() == old(self).spec_capacity(),
            final(self).spec_strategy() == old(self).spec_strategy(),
    {
        let r = self.counter;
        if self.counter == u32::MAX {
            self.counter = 0;
        } else {
            self.counter = self.counter + 1;
        }
        r
    }

    /// The slot holding key `k`, if any.
    fn find_index(&self, k: u64) -> (r: Option<usize>)
        ensures
            r is Some <==> self.contains_key(k),
            r matches Some(i) ==> i < self.spec_entries().len() && self.spec_entries()[i as int].0
                == k,
    {
        let mut i: usize = 0;
        while i < self.entries.len()
            invariant
                i <= self.entries@.len(),
                forall|j: int| 0 <= j < i ==> (#[trigger] self.entries@[j]).0 != k,
            decreases self.entries@.len() - i,
        {
            if self.entries[i].0 == k {
                return Some(i);
            }
            i = i + 1;
        }
        None
    }

    /// Looks `key` up; on a hit the entry's stamp is refreshed and a
    /// copy of the value returned.  Keys and values never change.
    pub fn get(&mut self, key: &u64) -> (r: Option<V>)
        requires
            old(self).wf(),
        ensures
            final(self).wf(),
            r is Some <==> old(self).contains_key(*key),
            r matches Some(v) ==> v == old(self).value_of(*key),
            r is None ==> *final(self) == *old(self),
            r is Some ==> final(self).spec_entries() == old(self).spec_entries().update(
                idx_of(old(self).spec_entries(), *key),
                (*key, old(self).value_of(*key), old(self).spec_counter()),
            ) && final(self).spec_counter() == (old(self).spec_counter() + 1) % 0x1_0000_0000,
            final(self).spec_entries().len() == old(self).spec_entries().len(),
            forall|i: int|
                0 <= i < old(self).spec_entries().len() ==> (#[trigger] final(self).spec_entries()[i]).0 == old(self).spec_entries()[i].0 && final(self).spec_entries()[i].1 == old(self).spec_entries()[i].1,
            final(self).spec_capacity() == old(self).spec_capacity(),
            final(self).spec_strategy() == old(self).spec_strategy(),
    {
        let k = *key;
        match self.find_index(k) {
            Some(i) => {
                let stamp = self.increment_counter();
                let (ek, ev, _) = self.entries[i];
                self.entries.set(i, (ek, ev, stamp));
                proof {
                    lemma_idx_of_unique(old(self).spec_entries(), k, i as int);
                    assert(keys_unique(self.entries@));
                }
                Some(ev)
            },
            None => None,
        }
    }

    /// Removes one entry whose stamp is minimal among all entries.
    fn evict_lru(&mut self)
        requires
            old(self).wf(),
            old(self).spec_entries().len() > 0,
        ensures
            final(self).wf(),
            final(self).spec_entries().len() == old(self).spec_entries().len() - 1,
            exists|i: int|
                0 <= i < old(self).spec_entries().len() && final(self).spec_entries() =~= old(self).spec_entries().remove(i) && (forall|j: int|
                    0 <= j < old(self).spec_entries().len() ==> (#[trigger] old(self).spec_entries()[j]).2 >= old(self).spec_entries()[i].2),
            final(self).spec_capacity() == old(self).spec_capacity(),
            final(self).spec_strategy() == old(self).spec_strategy(),
            final(self).spec_counter() == old(self).spec_counter(),
    {
        let mut oldest: usize = 0;
        let mut i: usize = 1;
        while i < self.entries.len()
            invariant
                oldest < i,
                i <= self.entries@.len(),
                self.entries@.len() > 0,
                forall|j: int|
                    0 <= j < i ==> (#[trigger] self.entries@[j]).2
                        >= self.entries@[oldest as int].2,
                *self == *old(self),
            decreases self.entries@.len() - i,
        {
            if self.entries[i].2 < self.entries[oldest].2 {
                oldest = i;
            }
            i = i + 1;
        }
        let ghost removed = oldest as int;
        self.entries.remove(oldest);
        proof {
            assert(final(self).spec_entries() =~= old(self).spec_entries().remove(removed));
            assert(keys_unique(self.entries@)) by {
                assert forall|a: int, b: int|
                    0 <= a < b < self.entries@.len() implies (#[trigger] self.entries@[a]).0 != (
                #[trigger] self.entries@[b]).0 by {
                    let s = old(self).spec_entries();
                    let a0 = if a < removed {
                        a
                    } else {
                        a + 1
                    };
                    let b0 = if b < removed {
                        b
                    } else {
                        b + 1
                    };
                    assert(self.entries@[a] == s[a0]);
                    assert(self.entries@[b] == s[b0]);
                }
            }
        }
    }

    /// Caches `value` under `key`, replacing any entry the key already
    /// has.  Under the `Immediate` strategy the oldest entry is
    /// evicted as soon as the capacity is exceeded, so the cache never
    /// grows past `capacity` entries nor past its previous size.
    pub fn insert(&mut self, key: u64, value: V)
        requires
            old(self).wf(),
        ensures
            final(self).wf(),
            final(self).spec_capacity() == old(self).spec_capacity(),
            final(self).spec_strategy() == old(self).spec_strategy(),
            final(self).spec_counter() == (old(self).spec_counter() + 1) % 0x1_0000_0000,
            forall|k: u64|
                k != key && #[trigger] final(self).contains_key(k) ==> old(self).contains_key(k)
                    && final(self).value_of(k) == old(self).value_of(k),
            old(self).spec_strategy() is Immediate ==> final(self).spec_len() <= old(self).spec_len() || final(self).spec_len() <= old(self).spec_capacity(),
            old(self).contains_key(key) || old(self).spec_len() < old(self).spec_capacity()
                ==> final(self).contains_key(key) && final(self).value_of(key) == value,
            old(self).spec_strategy() is Probabilistic ==> final(self).contains_key(key) && final(self).value_of(key) == value,
            old(self).contains_key(key) ==> final(self).spec_entries() == old(self).spec_entries().update(
                idx_of(old(self).spec_entries(), key),
                (key, value, old(self).spec_counter()),
            ),
            ({
                let grown = old(self).spec_entries().push(
                    (key, value, old(self).spec_counter()),
                );
                &&& (!old(self).contains_key(key) && !(old(self).spec_strategy() is Immediate
                    && grown.len() > old(self).spec_capacity()) ==> final(self).spec_entries()
                    == grown)
                &&& (!old(self).contains_key(key) && old(self).spec_strategy() is Immediate
                    && grown.len() > old(self).spec_capacity() ==> exists|i: int|
                    0 <= i < grown.len() && final(self).spec_entries() =~= grown.remove(i) && (
                    forall|j: int| 0 <= j < grown.len() ==> (#[trigger] grown[j]).2 >= grown[i].2))
            }),
    {
        let stamp = self.increment_counter();
        let ghost pre = self.entries@;
        match self.find_index(key) {
            Some(i) => {
                self.entries.set(i, (key, value, stamp));
                proof {
                    lemma_idx_of_unique(pre, key, i as int);
                    assert(keys_unique(self.entries@));
                    lemma_idx_of_unique(self.entries@, key, i as int);
                    assert forall|k: u64|
                        k != key && #[trigger] has_key(self.entries@, k) implies has_key(pre, k)
                        && self.entries@[idx_of(self.entries@, k)].1 == pre[idx_of(pre, k)].1 by {
                        let j = idx_of(self.entries@, k);
                        assert(self.entries@[j].0 == k);
                        assert(pre[j].0 == k);
                        lemma_idx_of_unique(pre, k, j);
                    }
                }
            },
            None => {
                self.entries.push((key, value, stamp));
                proof {
                    assert(keys_unique(self.entries@));
                    lemma_idx_of_unique(self.entries@, key, pre.len() as int);
                }
                let ghost mid = self.entries@;
                let over = match self.evict_strategy {
                    EvictStrategy::Immediate => self.entries.len() > self.capacity,
                    EvictStrategy::Probabilistic(_) => false,
                };
                if over {
                    self.evict_lru();
                    proof {
                        let i = choose|i: int|
                            0 <= i < mid.len() && self.entries@ =~= mid.remove(i) && (forall|
                                j: int,
                            |
                                0 <= j < mid.len() ==> (#[trigger] mid[j]).2 >= mid[i].2);
                        assert forall|k: u64|
                            k != key && #[trigger] has_key(self.entries@, k) implies has_key(
                            pre,
                            k,
                        ) && self.entries@[idx_of(self.entries@, k)].1 == pre[idx_of(pre, k)].1 by {
                            let j = idx_of(self.entries@, k);
                            assert(self.entries@[j].0 == k);
                            let j0 = if j < i {
                                j
                            } else {
                                j + 1
                            };
                            assert(mid[j0].0 == k);
                            assert(j0 < pre.len());
                            assert(pre[j0] == mid[j0]);
                            lemma_idx_of_unique(pre, k, j0);
                        }
                        if old(self).spec_len() < old(self).spec_capacity() {
                            assert(false);
                        }
                    }
                } else {
                    proof {
                        assert forall|k: u64|
                            k != key && #[trigger] has_key(self.entries@, k) implies has_key(
                            pre,
                            k,
                        ) && self.entries@[idx_of(self.entries@, k)].1 == pre[idx_of(pre, k)].1 by {
                            let j = idx_of(self.entries@, k);
                            assert(self.entries@[j].0 == k);
                            assert(pre[j].0 == k);
                            lemma_idx_of_unique(pre, k, j);
                        }
                    }
                }
            },
        }
    }

    /// Looks `key` up; when absent, runs the factory and caches the
    /// produced value.  A factory error leaves the cache unchanged:
    /// no partial entry stays behind and nothing is evicted.
    pub fn get_or_insert<F: FnOnce() -> Result<V, BufIoError>>(&mut self, key: u64, f: F) -> (r:
        Result<V, BufIoError>)
        requires
            old(self).wf(),
            call_requires(f, ()),
        ensures
            final(self).wf(),
            final(self).spec_capacity() == old(self).spec_capacity(),
            final(self).spec_strategy() == old(self).spec_strategy(),
            old(self).contains_key(key) ==> r == Result::<V, BufIoError>::Ok(
                old(self).value_of(key),
            ) && final(self).spec_entries().len() == old(self).spec_entries().len(),
            !old(self).contains_key(key) ==> match r {
                Ok(v) => call_ensures(f, (), Ok(v)),
                Err(e) => call_ensures(f, (), Err(e)) && final(self).spec_entries() == old(self).spec_entries() && final(self).spec_counter() == old(self).spec_counter(),
            },
            (!old(self).contains_key(key) && old(self).spec_len() < old(self).spec_capacity()
                && r is Ok) ==> final(self).contains_key(key) && final(self).value_of(key)
                == r->Ok_0,
            old(self).spec_strategy() is Immediate ==> final(self).spec_len() <= old(self).spec_len() || final(self).spec_len() <= old(self).spec_capacity(),
            old(self).contains_key(key) ==> final(self).spec_entries() == old(self).spec_entries().update(
                idx_of(old(self).spec_entries(), key),
                (key, old(self).value_of(key), old(self).spec_counter()),
            ),
            !old(self).contains_key(key) ==> (r matches Ok(v) ==> ({
                let grown = old(self).spec_entries().push((key, v, old(self).spec_counter()));
                &&& (!(old(self).spec_strategy() is Immediate && grown.len() > old(self).spec_capacity()) ==> final(self).spec_entries() == grown)
                &&& (old(self).spec_strategy() is Immediate && grown.len() > old(self).spec_capacity() ==> exists|i: int|
                    0 <= i < grown.len() && final(self).spec_entries() =~= grown.remove(i) && (
                    forall|j: int| 0 <= j < grown.len() ==> (#[trigger] grown[j]).2 >= grown[i].2))
            })),
    {
        match self.get(&key) {
            Some(v) => Ok(v),
            None => {
                match f() {
                    Ok(v) => {
                        self.insert(key, v);
                        Ok(v)
                    },
                    Err(e) => Err(e),
                }
            },
        }
    }

    /// The cached values, in slot order.
    pub fn values(&self) -> (r: Values<V>)
        ensures
            r.items@ =~= self.spec_entries().map_values(|e: (u64, V, u32)| e.1),
            r.pos == 0,
    {
        let mut items: Vec<V> = Vec::new();
        let mut i: usize = 0;
        while i < self.entries.len()
            invariant
                i <= self.entries@.len(),
                items@ =~= self.entries@.take(i as int).map_values(|e: (u64, V, u32)| e.1),
            decreases self.entries@.len() - i,
        {
            items.push(self.entries[i].1);
            proof {
                assert(self.entries@.take(i + 1).map_values(|e: (u64, V, u32)| e.1)
                    =~= self.entries@.take(i as int).map_values(|e: (u64, V, u32)| e.1).push(
                    self.entries@[i as int].1,
                ));
            }
            i = i + 1;
        }
        proof {
            assert(self.entries@.take(self.entries@.len() as int) =~= self.entries@);
        }
        Values { items, pos: 0 }
    }

    /// The entries as `(key, value, stamp)` triples, in slot order.
    pub fn iter(&self) -> (r: Vec<(u64, V, u32)>)
        ensures
            r@ =~= self.spec_entries(),
    {
        let mut items: Vec<(u64, V, u32)> = Vec::new();
        let mut i: usize = 0;
        while i < self.entries.len()
            invariant
                i <= self.entries@.len(),
                items@ =~= self.entries@.take(i as int),
            decreases self.entries@.len() - i,
        {
            items.push(self.entries[i]);
            i = i + 1;
        }
        proof {
            assert(self.entries@.take(self.entries@.len() as int) =~= self.entries@);
        }
        items
    }

    /// The number of cached entries.
    pub fn len(&self) -> (r: usize)
        ensures
            r == self.spec_len(),
    {
        self.entries.len()
    }

    /// The global counter's current value.
    pub fn counter(&self) -> (r: u32)
        ensures
            r == self.spec_counter(),
    {
        self.counter
    }

    /// The configured capacity.
    pub fn capacity(&self) -> (r: usize)
        ensures
            r == self.spec_capacity(),
    {
        self.capacity
    }

    /// Evicts the entries the caller marked for eviction, one decision
    /// per slot of the current entry table, removing at most the count
    /// over capacity; a cache within its capacity is left alone.  The
    /// survivors are exactly what the sweep of the decisions leaves.
    #[verifier::loop_isolation(false)]
    pub fn evict_lru_probabilistic(&mut self, decisions: &Vec<bool>)
        requires
            old(self).wf(),
        ensures
            final(self).wf(),
            final(self).spec_capacity() == old(self).spec_capacity(),
            final(self).spec_strategy() == old(self).spec_strategy(),
            final(self).spec_counter() == old(self).spec_counter(),
            old(self).spec_len() <= old(self).spec_capacity() ==> final(self).spec_entries()
                == old(self).spec_entries(),
            old(self).spec_len() > old(self).spec_capacity() ==> final(self).spec_entries()
                == spec_sweep(
                old(self).spec_entries(),
                decisions@,
                0,
                old(self).spec_len() - old(self).spec_capacity(),
            ),
    {
        if self.entries.len() <= self.capacity {
            return ;
        }
        let num_to_evict = self.entries.len() - self.capacity;
        let ghost source = self.entries@;
        let mut out: Vec<(u64, V, u32)> = Vec::new();
        let mut quota = num_to_evict;
        let mut i: usize = 0;
        while i < self.entries.len()
            invariant
                i <= source.len(),
                self.entries@ == source,
                spec_sweep(source, decisions@, 0, num_to_evict as int) == out@ + spec_sweep(
                    source,
                    decisions@,
                    i as int,
                    quota as int,
                ),
                quota <= num_to_evict,
            decreases source.len() - i,
        {
            let ghost pre_out = out@;
            let ghost pre_quota = quota as int;
            if quota > 0 && i < decisions.len() && decisions[i] {
                quota = quota - 1;
            } else {
                out.push(self.entries[i]);
            }
            proof {
                assert(spec_sweep(source, decisions@, i as int, pre_quota) == (if pre_quota > 0
                    && i < decisions@.len() && decisions@[i as int] {
                    spec_sweep(source, decisions@, i as int + 1, pre_quota - 1)
                } else {
                    seq![source[i as int]] + spec_sweep(source, decisions@, i as int + 1, pre_quota)
                }));
                assert(out@ + spec_sweep(source, decisions@, i as int + 1, quota as int)
                    =~= pre_out + spec_sweep(source, decisions@, i as int, pre_quota));
            }
            i = i + 1;
        }
        proof {
            assert(spec_sweep(source, decisions@, source.len() as int, quota as int)
                =~= Seq::<(u64, V, u32)>::empty());
            assert(out@ =~= spec_sweep(source, decisions@, 0, num_to_evict as int));
            lemma_sweep_wf(source, decisions@, 0, num_to_evict as int);
        }
        self.entries = out;
    }
}

/// The entries a sweep leaves, walking the table from slot `k`: a
/// marked entry is dropped while the quota lasts, everything else
/// stays.
pub open spec fn spec_sweep<V>(
    s: Seq<(u64, V, u32)>,
    decisions: Seq<bool>,
    k: int,
    quota: int,
) -> Seq<(u64, V, u32)>
    decreases s.len() - k,
{
    if k < 0 || k >= s.len() {
        Seq::empty()
    } else if quota > 0 && k < decisions.len() && decisions[k] {
        spec_sweep(s, decisions, k + 1, quota - 1)
    } else {
        seq![s[k]] + spec_sweep(s, decisions, k + 1, quota)
    }
}

/// A sweep of a unique-keyed table keeps the keys unique: every
/// survivor comes from a distinct later slot of the table.
pub proof fn lemma_sweep_wf<V>(s: Seq<(u64, V, u32)>, decisions: Seq<bool>, k: int, quota: int)
    requires
        keys_unique(s),
    ensures
        keys_unique(spec_sweep(s, decisions, k, quota)),
        forall|a: int|
            0 <= a < spec_sweep(s, decisions, k, quota).len() ==> exists|j: int|
                k <= j < s.len() && #[trigger] spec_sweep(s, decisions, k, quota)[a] == s[j],
    decreases s.len() - k,
{
    if k < 0 || k >= s.len() {
    } else if quota > 0 && k < decisions.len() && decisions[k] {
        lemma_sweep_wf(s, decisions, k + 1, quota - 1);
    } else {
        lemma_sweep_wf(s, decisions, k + 1, quota);
        let sw = spec_sweep(s, decisions, k, quota);
        let rest = spec_sweep(s, decisions, k + 1, quota);
        assert forall|a: int|
            0 <= a < sw.len() implies exists|j: int|
            k <= j < s.len() && #[trigger] sw[a] == s[j] by {
            if a == 0 {
                assert(sw[0] == s[k]);
            } else {
                assert(sw[a] == rest[a - 1]);
                let j0 = choose|j0: int| k + 1 <= j0 < s.len() && rest[a - 1] == s[j0];
                assert(sw[a] == s[j0]);
            }
        }
        assert forall|a: int, b: int|
            0 <= a < b < sw.len() implies (#[trigger] sw[a]).0 != (#[trigger] sw[b]).0 by {
            if a == 0 {
                assert(sw[b] == rest[b - 1]);
                let j0 = choose|j0: int| k + 1 <= j0 < s.len() && rest[b - 1] == s[j0];
                assert(s[k].0 != s[j0].0);
            } else {
                assert(sw[a] == rest[a - 1]);
                assert(sw[b] == rest[b - 1]);
            }
        }
    }
}

/// A detached snapshot of cached values that hands them out one at a
/// time.
pub struct Values<V> {
    pub items: Vec<V>,
    pub pos: usize,
}

impl<V: Copy> Values<V> {
    /// The next value of the snapshot, or `None` once exhausted.
    pub fn next(&mut self) -> (r: Option<V>)
        ensures
            old(self).pos < old(self).items@.len() ==> r == Some(
                old(self).items@[old(self).pos as int],
            ) && final(self).pos == old(self).pos + 1,
            old(self).pos >= old(self).items@.len() ==> r is None && final(self).pos == old(self).pos,
            final(self).items == old(self).items,
    {
        if self.pos < self.items.len() {
            let v = self.items[self.pos];
            self.pos = self.pos + 1;
            Some(v)
        } else {
            None
        }
    }
}

} // verus!
