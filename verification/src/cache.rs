//! Bounded cache with TTL eviction, used for the row-count and cursor
//! caches. Entries are kept oldest first; a full cache drops its oldest
//! entries to make room, and an entry read after its TTL is dropped.
//! Times are nanoseconds on the cache's own clock, which starts when the
//! cache is made.
use vstd::prelude::*;
use core::time::Duration;
use std::time::Instant;

verus! {

/// `std::time::Instant`, carried through as an opaque value.
#[verifier::external_type_specification]
#[verifier::external_body]
pub struct ExInstant(Instant);

/// The current instant (`Instant::now`); it depends on the clock, so
/// nothing is stated of it.
#[verifier::external_body]
fn now() -> Instant {
    Instant::now()
}

/// The time since `origin` (`Instant::elapsed`); it depends on the clock,
/// so nothing is stated of it.
#[verifier::external_body]
fn elapsed_since(origin: &Instant) -> Duration {
    origin.elapsed()
}

/// The whole nanoseconds of `d` (`Duration::as_nanos`); a `Duration` is
/// opaque here, so nothing is stated of the number.
#[verifier::external_body]
fn whole_nanos(d: &Duration) -> u128 {
    d.as_nanos()
}

/// A reading of the cache's clock: the whole nanoseconds since `origin`.
fn clock_reading(origin: &Instant) -> u128 {
    let d = elapsed_since(origin);
    whole_nanos(&d)
}

/// A cache key, compared by its view.
pub trait CacheKey: View + Sized {
    fn same_key(&self, other: &Self) -> (r: bool)
        ensures
            r == (self@ == other@),
    ;
}

impl CacheKey for u64 {
    fn same_key(&self, other: &u64) -> (r: bool) {
        *self == *other
    }
}

impl CacheKey for String {
    fn same_key(&self, other: &String) -> (r: bool) {
        self.eq(other)
    }
}

/// A cache key that belongs to a table.
pub trait TableKey: CacheKey {
    /// The table a key (by its view) belongs to.
    spec fn key_table(v: Self::V) -> Seq<char>;

    fn in_table(&self, table: &str) -> (r: bool)
        ensures
            r == (Self::key_table(self@) == table@),
    ;
}

struct Entry<K, V> {
    key: K,
    value: V,
    /// The clock reading when the entry was cached.
    stamp: u128,
}

/// How long ago `stamp` was, read at `now` (0 for a reading before it).
pub open spec fn age(now: u128, stamp: u128) -> int {
    if now >= stamp {
        now - stamp
    } else {
        0
    }
}

/// Whether an entry of age `age` has outlived `ttl`.
pub fn is_expired(age: u128, ttl: u128) -> (r: bool)
    ensures
        r == (age > ttl),
{
    age > ttl
}

/// Position of the entry for `k`, or -1.
pub open spec fn key_pos<KV, V>(m: Seq<(KV, V)>, k: KV) -> int
    decreases m.len(),
{
    if m.len() == 0 {
        -1
    } else if m.last().0 == k {
        m.len() - 1
    } else {
        key_pos(m.drop_last(), k)
    }
}

/// The value cached for `k`, expiry aside.
pub open spec fn lookup<KV, V>(m: Seq<(KV, V)>, k: KV) -> Option<V> {
    let i = key_pos(m, k);
    if i >= 0 {
        Some(m[i].1)
    } else {
        None
    }
}

/// No key occurs twice.
pub open spec fn distinct_keys<KV, V>(m: Seq<(KV, V)>) -> bool {
    forall|i: int, j: int| 0 <= i < j < m.len() ==> m[i].0 != m[j].0
}

/// How many of the oldest entries a new key displaces: entries go while
/// the cache holds at least `cap` of them and any are left.
pub open spec fn evict_count(len: nat, cap: nat) -> nat {
    if len < cap {
        0
    } else if cap == 0 {
        len
    } else {
        (len - cap + 1) as nat
    }
}

/// The contents after `insert(k, v)`: a present key keeps its place and
/// takes the new value; a new key goes last, after the oldest entries
/// have made room.
pub open spec fn inserted<KV, V>(m: Seq<(KV, V)>, cap: nat, k: KV, v: V) -> Seq<(KV, V)> {
    let i = key_pos(m, k);
    if i >= 0 {
        m.update(i, (k, v))
    } else {
        m.skip(evict_count(m.len(), cap) as int).push((k, v))
    }
}

/// The contents without the entry for `k`.
pub open spec fn removed<KV, V>(m: Seq<(KV, V)>, k: KV) -> Seq<(KV, V)> {
    let i = key_pos(m, k);
    if i >= 0 {
        m.remove(i)
    } else {
        m
    }
}

/// The entries' clock readings after `insert(k, v)` at `now`: a present
/// key's reading becomes `now`; a new key's goes last, after those of the
/// displaced entries have gone.
pub open spec fn stamped<KV, V>(m: Seq<(KV, V)>, s: Seq<u128>, cap: nat, k: KV, now: u128) -> Seq<u128> {
    let i = key_pos(m, k);
    if i >= 0 {
        s.update(i, now)
    } else {
        s.skip(evict_count(m.len(), cap) as int).push(now)
    }
}

/// What a lookup of `k` at `now` finds: the value of its entry while the
/// entry's age is at most `ttl`, else nothing.
pub open spec fn lookup_at<KV, V>(m: Seq<(KV, V)>, s: Seq<u128>, ttl: u128, k: KV, now: u128) -> Option<V> {
    let i = key_pos(m, k);
    if i >= 0 && age(now, s[i]) <= ttl {
        Some(m[i].1)
    } else {
        None
    }
}

pub proof fn lemma_key_pos<KV, V>(m: Seq<(KV, V)>, k: KV)
    ensures
        -1 <= key_pos(m, k) < m.len(),
        key_pos(m, k) >= 0 ==> m[key_pos(m, k)].0 == k,
        key_pos(m, k) == -1 ==> forall|i: int| 0 <= i < m.len() ==> m[i].0 != k,
        distinct_keys(m) ==> forall|i: int| 0 <= i < m.len() && m[i].0 == k ==> i == key_pos(m, k),
    decreases m.len(),
{
    if m.len() > 0 {
        lemma_key_pos(m.drop_last(), k);
        if m.last().0 != k {
            assert forall|i: int| 0 <= i < m.len() - 1 implies m[i] == m.drop_last()[i] by {}
        }
    }
}

pub struct TtlLruCache<K: CacheKey, V> {
    capacity: usize,
    /// Nanoseconds an entry stays live.
    ttl: u128,
    /// Where the cache's clock starts.
    origin: Instant,
    /// Oldest first.
    entries: Vec<Entry<K, V>>,
}

impl<K: CacheKey, V> TtlLruCache<K, V> {
    /// The (key, value) pairs held, oldest first.
    pub closed spec fn contents(&self) -> Seq<(K::V, V)> {
        self.entries@.map_values(|e: Entry<K, V>| (e.key@, e.value))
    }

    /// The clock readings at which the entries were cached, in the order
    /// of `contents`.
    pub closed spec fn stamps(&self) -> Seq<u128> {
        self.entries@.map_values(|e: Entry<K, V>| e.stamp)
    }

    /// The number of entries at which a new key displaces the oldest.
    pub closed spec fn capacity(&self) -> nat {
        self.capacity as nat
    }

    /// Nanoseconds an entry stays live.
    pub closed spec fn ttl(&self) -> u128 {
        self.ttl
    }

    #[verifier::type_invariant]
    closed spec fn keys_are_distinct(&self) -> bool {
        distinct_keys(self.contents())
    }

    /// A cache holds one clock reading per entry.
    pub proof fn lemma_stamps_len(&self)
        ensures
            self.stamps().len() == self.contents().len(),
    {
    }

    /// An empty cache holding up to `capacity` keys for `ttl` nanoseconds
    /// each.
    pub fn new(capacity: usize, ttl: u128) -> (r: Self)
        ensures
            r.contents() == Seq::<(K::V, V)>::empty(),
            r.stamps() == Seq::<u128>::empty(),
            r.capacity() == capacity,
            r.ttl() == ttl,
    {
        let r = TtlLruCache { capacity, ttl, origin: now(), entries: Vec::new() };
        assert(r.contents() =~= Seq::<(K::V, V)>::empty());
        assert(r.stamps() =~= Seq::<u128>::empty());
        r
    }

    /// Position of `key` in the entries.
    fn find(&self, key: &K) -> (r: Option<usize>)
        ensures
            match r {
                Some(i) => i == key_pos(self.contents(), key@) && i < self.entries@.len()
                    && self.contents()[i as int].0 == key@,
                None => key_pos(self.contents(), key@) == -1,
            },
            self.contents().len() == self.entries@.len(),
            self.stamps().len() == self.entries@.len(),
    {
        proof {
            use_type_invariant(self);
            lemma_key_pos(self.contents(), key@);
        }
        let mut i: usize = 0;
        while i < self.entries.len()
            invariant
                0 <= i <= self.entries@.len(),
                distinct_keys(self.contents()),
                -1 <= key_pos(self.contents(), key@) < self.contents().len(),
                key_pos(self.contents(), key@) >= 0 ==> self.contents()[key_pos(
                    self.contents(),
                    key@,
                )].0 == key@,
                key_pos(self.contents(), key@) == -1 ==> forall|j: int|
                    0 <= j < self.contents().len() ==> self.contents()[j].0 != key@,
                forall|j: int| 0 <= j < i ==> self.contents()[j].0 != key@,
            decreases self.entries@.len() - i,
        {
            if self.entries[i].key.same_key(key) {
                assert(self.contents()[i as int].0 == key@);
                return Some(i);
            }
            i += 1;
        }
        None
    }

    /// The lookup of `key` with the clock reading `now`: a miss when there
    /// is no entry; when the entry's age is over the TTL, the entry is
    /// dropped and a miss reported; its value otherwise.
    pub fn get_at(&mut self, key: &K, now: u128) -> (r: Option<&V>)
        ensures
            (match r {
                Some(x) => Some(*x),
                None => None,
            }) == lookup_at(old(self).contents(), old(self).stamps(), old(self).ttl(), key@, now),
            key_pos(old(self).contents(), key@) >= 0 && age(
                now,
                old(self).stamps()[key_pos(old(self).contents(), key@)],
            ) > old(self).ttl() ==> final(self).contents() == removed(old(self).contents(), key@)
                && final(self).stamps() == old(self).stamps().remove(
                key_pos(old(self).contents(), key@),
            ),
            !(key_pos(old(self).contents(), key@) >= 0 && age(
                now,
                old(self).stamps()[key_pos(old(self).contents(), key@)],
            ) > old(self).ttl()) ==> final(self).contents() == old(self).contents()
                && final(self).stamps() == old(self).stamps(),
            final(self).capacity() == old(self).capacity(),
            final(self).ttl() == old(self).ttl(),
            distinct_keys(final(self).contents()),
    {
        proof {
            use_type_invariant(&*self);
        }
        match self.find(key) {
            None => None,
            Some(i) => {
                let stamp = self.entries[i].stamp;
                let a: u128 = if now >= stamp {
                    now - stamp
                } else {
                    0
                };
                if is_expired(a, self.ttl) {
                    self.remove_at(i);
                    proof {
                        use_type_invariant(&*self);
                    }
                    None
                } else {
                    Some(&self.entries[i].value)
                }
            },
        }
    }

    fn remove_at(&mut self, i: usize)
        requires
            i < old(self).entries@.len(),
        ensures
            final(self).contents() == old(self).contents().remove(i as int),
            final(self).stamps() == old(self).stamps().remove(i as int),
            final(self).capacity() == old(self).capacity(),
            final(self).ttl() == old(self).ttl(),
    {
        proof {
            use_type_invariant(&*self);
        }
        let ghost before = self.contents();
        let ghost before_s = self.stamps();
        let mut items = Vec::new();
        std::mem::swap(&mut items, &mut self.entries);
        items.remove(i);
        proof {
            let n = items@.map_values(|e: Entry<K, V>| (e.key@, e.value));
            assert(n =~= before.remove(i as int));
            assert(items@.map_values(|e: Entry<K, V>| e.stamp) =~= before_s.remove(i as int));
            assert forall|a: int, b: int| 0 <= a < b < n.len() implies n[a].0 != n[b].0 by {
                let a2 = if a < i { a } else { a + 1 };
                let b2 = if b < i { b } else { b + 1 };
                assert(n[a] == before[a2] && n[b] == before[b2]);
            }
        }
        self.entries = items;
    }

    /// The value for `key` if it is cached and its TTL has not run out;
    /// an entry found expired is dropped. The clock is read once, and
    /// whatever it reads, the outcome is that of `get_at` at that reading.
    pub fn get(&mut self, key: &K) -> (r: Option<&V>)
        ensures
            exists|now: u128|
                {
                    &&& (match r {
                        Some(x) => Some(*x),
                        None => None,
                    }) == lookup_at(
                        old(self).contents(),
                        old(self).stamps(),
                        old(self).ttl(),
                        key@,
                        now,
                    )
                    &&& (key_pos(old(self).contents(), key@) >= 0 && age(
                        now,
                        old(self).stamps()[key_pos(old(self).contents(), key@)],
                    ) > old(self).ttl()) ==> final(self).contents() == removed(
                        old(self).contents(),
                        key@,
                    ) && final(self).stamps() == old(self).stamps().remove(
                        key_pos(old(self).contents(), key@),
                    )
                    &&& !(key_pos(old(self).contents(), key@) >= 0 && age(
                        now,
                        old(self).stamps()[key_pos(old(self).contents(), key@)],
                    ) > old(self).ttl()) ==> final(self).contents() == old(self).contents()
                        && final(self).stamps() == old(self).stamps()
                },
            key_pos(old(self).contents(), key@) == -1 ==> r is None && final(self).contents()
                == old(self).contents() && final(self).stamps() == old(self).stamps(),
            final(self).capacity() == old(self).capacity(),
            final(self).ttl() == old(self).ttl(),
            distinct_keys(final(self).contents()),
    {
        let now = clock_reading(&self.origin);
        self.get_at(key, now)
    }

    /// Caches `value` under `key` with the clock reading `now`: a present
    /// key takes the new value and reading in place; a new key goes last,
    /// the oldest entries dropped while the cache is at capacity.
    pub fn insert_at(&mut self, key: K, value: V, now: u128)
        ensures
            final(self).contents() == inserted(
                old(self).contents(),
                old(self).capacity(),
                key@,
                value,
            ),
            final(self).stamps() == stamped(
                old(self).contents(),
                old(self).stamps(),
                old(self).capacity(),
                key@,
                now,
            ),
            final(self).capacity() == old(self).capacity(),
            final(self).ttl() == old(self).ttl(),
            distinct_keys(final(self).contents()),
    {
        proof {
            use_type_invariant(&*self);
            lemma_key_pos(self.contents(), key@);
        }
        let ghost m = self.contents();
        let ghost st = self.stamps();
        let ghost kv = key@;
        match self.find(&key) {
            Some(i) => {
                let mut items = Vec::new();
                std::mem::swap(&mut items, &mut self.entries);
                items.set(i, Entry { key, value, stamp: now });
                proof {
                    let n = items@.map_values(|e: Entry<K, V>| (e.key@, e.value));
                    assert(n =~= m.update(i as int, (kv, value)));
                    assert(items@.map_values(|e: Entry<K, V>| e.stamp) =~= st.update(i as int, now));
                    assert forall|a: int, b: int| 0 <= a < b < n.len() implies n[a].0 != n[b].0 by {
                        if a != i && b != i {
                            assert(m[a].0 != m[b].0);
                        } else if a == i {
                            assert(m[b].0 != kv);
                        } else {
                            assert(m[a].0 != kv);
                        }
                    }
                }
                self.entries = items;
            },
            None => {
                let mut items = Vec::new();
                std::mem::swap(&mut items, &mut self.entries);
                let ghost start = items@.len();
                let cap = self.capacity;
                while items.len() >= cap && items.len() > 0
                    invariant
                        items@.len() <= start,
                        start == m.len(),
                        start == st.len(),
                        items@.map_values(|e: Entry<K, V>| (e.key@, e.value)) == m.skip(
                            start - items@.len(),
                        ),
                        items@.map_values(|e: Entry<K, V>| e.stamp) == st.skip(
                            start - items@.len(),
                        ),
                        start < cap ==> items@.len() == start,
                        cap > 0 && start >= cap ==> items@.len() >= cap - 1,
                    decreases items@.len(),
                {
                    let ghost before = items@;
                    items.remove(0);
                    proof {
                        assert(items@ =~= before.subrange(1, before.len() as int));
                        assert(items@.map_values(|e: Entry<K, V>| (e.key@, e.value)) =~= before.map_values(
                            |e: Entry<K, V>| (e.key@, e.value),
                        ).skip(1));
                        assert(items@.map_values(|e: Entry<K, V>| e.stamp) =~= before.map_values(
                            |e: Entry<K, V>| e.stamp,
                        ).skip(1));
                        assert(m.skip(start - before.len()).skip(1) =~= m.skip(
                            start - items@.len(),
                        ));
                        assert(st.skip(start - before.len()).skip(1) =~= st.skip(
                            start - items@.len(),
                        ));
                    }
                }
                assert(start - items@.len() == evict_count(m.len(), cap as nat));
                let ghost kept = items@.map_values(|e: Entry<K, V>| (e.key@, e.value));
                let ghost kept_s = items@.map_values(|e: Entry<K, V>| e.stamp);
                items.push(Entry { key, value, stamp: now });
                proof {
                    let n = items@.map_values(|e: Entry<K, V>| (e.key@, e.value));
                    assert(n =~= kept.push((kv, value)));
                    assert(items@.map_values(|e: Entry<K, V>| e.stamp) =~= kept_s.push(now));
                    let e = evict_count(m.len(), self.capacity as nat) as int;
                    assert forall|a: int, b: int| 0 <= a < b < n.len() implies n[a].0 != n[b].0 by {
                        assert(kept[a] == m[a + e]);
                        if b < kept.len() {
                            assert(kept[b] == m[b + e]);
                        }
                    }
                }
                self.entries = items;
            },
        }
    }

    /// Caches `value` under `key`, stamped with a reading of the clock:
    /// the outcome is that of `insert_at` at that reading.
    pub fn insert(&mut self, key: K, value: V)
        ensures
            final(self).contents() == inserted(
                old(self).contents(),
                old(self).capacity(),
                key@,
                value,
            ),
            exists|now: u128|
                final(self).stamps() == stamped(
                    old(self).contents(),
                    old(self).stamps(),
                    old(self).capacity(),
                    key@,
                    now,
                ),
            final(self).capacity() == old(self).capacity(),
            final(self).ttl() == old(self).ttl(),
            distinct_keys(final(self).contents()),
    {
        let now = clock_reading(&self.origin);
        self.insert_at(key, value, now);
    }

    /// Drops the entry for `key`, if any.
    pub fn remove(&mut self, key: &K)
        ensures
            final(self).contents() == removed(old(self).contents(), key@),
            key_pos(old(self).contents(), key@) >= 0 ==> final(self).stamps() == old(
                self,
            ).stamps().remove(key_pos(old(self).contents(), key@)),
            key_pos(old(self).contents(), key@) == -1 ==> final(self).stamps() == old(
                self,
            ).stamps(),
            final(self).capacity() == old(self).capacity(),
            final(self).ttl() == old(self).ttl(),
            distinct_keys(final(self).contents()),
    {
        match self.find(key) {
            Some(i) => self.remove_at(i),
            None => {},
        }
        proof {
            use_type_invariant(&*self);
        }
    }

    /// The number of entries.
    pub fn len(&self) -> (r: usize)
        ensures
            r == self.contents().len(),
    {
        self.entries.len()
    }

    /// Drops every entry.
    pub fn clear(&mut self)
        ensures
            final(self).contents() == Seq::<(K::V, V)>::empty(),
            final(self).stamps() == Seq::<u128>::empty(),
            final(self).capacity() == old(self).capacity(),
            final(self).ttl() == old(self).ttl(),
    {
        self.entries = Vec::new();
        assert(self.contents() =~= Seq::<(K::V, V)>::empty());
        assert(self.stamps() =~= Seq::<u128>::empty());
    }
}

impl<K: TableKey, V> TtlLruCache<K, V> {
    /// The (key, value) pairs held with their clock readings, oldest first.
    pub closed spec fn stamped_contents(&self) -> Seq<((K::V, V), u128)> {
        self.entries@.map_values(|e: Entry<K, V>| ((e.key@, e.value), e.stamp))
    }

    /// Drops every entry whose key belongs to `table`; the others stay, in
    /// order, with their values and clock readings.
    pub fn drop_table(&mut self, table: &str)
        ensures
            final(self).contents() == old(self).contents().filter(
                |p: (K::V, V)| K::key_table(p.0) != table@,
            ),
            final(self).stamped_contents() == old(self).stamped_contents().filter(
                |q: ((K::V, V), u128)| K::key_table(q.0.0) != table@,
            ),
            final(self).capacity() == old(self).capacity(),
            final(self).ttl() == old(self).ttl(),
            distinct_keys(final(self).contents()),
    {
        proof {
            use_type_invariant(&*self);
        }
        let ghost m = self.contents();
        let ghost ms = self.stamped_contents();
        let ghost p1 = |p: (K::V, V)| K::key_table(p.0) != table@;
        let ghost p2 = |q: ((K::V, V), u128)| K::key_table(q.0.0) != table@;
        let mut items = Vec::new();
        std::mem::swap(&mut items, &mut self.entries);
        let ghost old_items = items@;
        let mut kept: Vec<Entry<K, V>> = Vec::new();
        assert(m.take(0) =~= Seq::<(K::V, V)>::empty());
        assert(ms.take(0) =~= Seq::<((K::V, V), u128)>::empty());
        assert(m.take(0).filter(p1) =~= Seq::<(K::V, V)>::empty()) by {
            reveal(Seq::filter);
        }
        assert(ms.take(0).filter(p2) =~= Seq::<((K::V, V), u128)>::empty()) by {
            reveal(Seq::filter);
        }
        while items.len() > 0
            invariant
                p1 == (|p: (K::V, V)| K::key_table(p.0) != table@),
                p2 == (|q: ((K::V, V), u128)| K::key_table(q.0.0) != table@),
                m == old_items.map_values(|e: Entry<K, V>| (e.key@, e.value)),
                ms == old_items.map_values(|e: Entry<K, V>| ((e.key@, e.value), e.stamp)),
                distinct_keys(m),
                items@.len() <= old_items.len(),
                items@ == old_items.skip(old_items.len() - items@.len()),
                kept@.map_values(|e: Entry<K, V>| (e.key@, e.value)) == m.take(
                    old_items.len() - items@.len(),
                ).filter(p1),
                kept@.map_values(|e: Entry<K, V>| ((e.key@, e.value), e.stamp)) == ms.take(
                    old_items.len() - items@.len(),
                ).filter(p2),
                forall|a: int|
                    0 <= a < kept@.len() ==> exists|j: int|
                        0 <= j < old_items.len() - items@.len() && #[trigger] kept@[a].key@
                            == m[j].0,
                distinct_keys(kept@.map_values(|e: Entry<K, V>| (e.key@, e.value))),
            decreases items@.len(),
        {
            let ghost done = old_items.len() - items@.len();
            let ghost before = items@;
            let ghost kept_before = kept@;
            let e = items.remove(0);
            assert(e == old_items[done]);
            assert(items@ =~= old_items.skip(done + 1));
            assert(m.take(done + 1) =~= m.take(done).push(m[done]));
            assert(ms.take(done + 1) =~= ms.take(done).push(ms[done]));
            proof {
                assert(m[done] == (e.key@, e.value));
                assert(ms[done] == ((e.key@, e.value), e.stamp));
                m.take(done).lemma_filter_push(m[done], p1);
                ms.take(done).lemma_filter_push(ms[done], p2);
            }
            if !e.key.in_table(table) {
                assert(p1(m[done]) && p2(ms[done]));
                kept.push(e);
                proof {
                    let kv = kept@.map_values(|e: Entry<K, V>| (e.key@, e.value));
                    let kb = kept_before.map_values(|e: Entry<K, V>| (e.key@, e.value));
                    assert(kv =~= kb.push(m[done]));
                    assert(kept@.map_values(|e: Entry<K, V>| ((e.key@, e.value), e.stamp))
                        =~= kept_before.map_values(|e: Entry<K, V>| ((e.key@, e.value), e.stamp)).push(ms[done]));
                    assert forall|a: int| 0 <= a < kept@.len() implies exists|j: int|
                        0 <= j < done + 1 && #[trigger] kept@[a].key@ == m[j].0 by {
                        if a < kept_before.len() {
                            assert(kept@[a] == kept_before[a]);
                        } else {
                            assert(kept@[a].key@ == m[done].0);
                        }
                    }
                    assert forall|a: int, b: int| 0 <= a < b < kv.len() implies kv[a].0 != kv[b].0 by {
                        if b == kv.len() - 1 {
                            assert(kept@[a] == kept_before[a]);
                            let j = choose|j: int| 0 <= j < done && #[trigger] kept_before[a].key@ == m[j].0;
                            assert(m[j].0 != m[done].0);
                        } else {
                            assert(kv[a] == kb[a] && kv[b] == kb[b]);
                        }
                    }
                }
            } else {
                proof {
                    assert(!p1(m[done]) && !p2(ms[done]));
                    assert forall|a: int| 0 <= a < kept@.len() implies exists|j: int|
                        0 <= j < done + 1 && #[trigger] kept@[a].key@ == m[j].0 by {
                        let j = choose|j: int| 0 <= j < done && #[trigger] kept@[a].key@ == m[j].0;
                    }
                }
            }
        }
        assert(m.take(m.len() as int) =~= m);
        assert(ms.take(ms.len() as int) =~= ms);
        self.entries = kept;
    }
}

/// A value just cached under `k` is what a lookup of `k` finds.
pub proof fn law_lookup_after_insert<KV, V>(m: Seq<(KV, V)>, cap: nat, k: KV, v: V)
    requires
        distinct_keys(m),
    ensures
        lookup(inserted(m, cap, k, v), k) == Some(v),
        distinct_keys(inserted(m, cap, k, v)),
{
    lemma_key_pos(m, k);
    let n = inserted(m, cap, k, v);
    let i = key_pos(m, k);
    if i >= 0 {
        assert forall|a: int, b: int| 0 <= a < b < n.len() implies n[a].0 != n[b].0 by {
            if a != i && b != i {
                assert(m[a].0 != m[b].0);
            }
        }
    } else {
        let e = evict_count(m.len(), cap) as int;
        assert forall|a: int, b: int| 0 <= a < b < n.len() implies n[a].0 != n[b].0 by {
            assert(n[a] == m[a + e]);
            if b < n.len() - 1 {
                assert(n[b] == m[b + e]);
            }
        }
    }
    lemma_key_pos(n, k);
    if i >= 0 {
        assert(n[i].0 == k);
    } else {
        assert(n[n.len() - 1].0 == k);
    }
}

/// A value cached under `k` at clock reading `t` is what every lookup of
/// `k` finds up to `ttl` nanoseconds later (and at any earlier reading),
/// and no lookup after that.
pub proof fn law_entry_lives_for_ttl<KV, V>(
    m: Seq<(KV, V)>,
    s: Seq<u128>,
    cap: nat,
    ttl: u128,
    k: KV,
    v: V,
    t: u128,
    now: u128,
)
    requires
        distinct_keys(m),
        s.len() == m.len(),
    ensures
        lookup_at(inserted(m, cap, k, v), stamped(m, s, cap, k, t), ttl, k, now) == if now - t
            <= ttl {
            Some(v)
        } else {
            None::<V>
        },
{
    law_lookup_after_insert(m, cap, k, v);
    lemma_key_pos(m, k);
    let n = inserted(m, cap, k, v);
    let ns = stamped(m, s, cap, k, t);
    lemma_key_pos(n, k);
    let i = key_pos(m, k);
    if i >= 0 {
        assert(n[i].0 == k);
        assert(key_pos(n, k) == i);
        assert(ns[i] == t);
    } else {
        assert(n[n.len() - 1].0 == k);
        assert(key_pos(n, k) == n.len() - 1);
        assert(ns.len() == n.len());
        assert(ns[ns.len() - 1] == t);
    }
}

/// Caching under a key already present leaves the other keys' values and
/// the number of entries as they were.
pub proof fn law_refresh_in_place<KV, V>(m: Seq<(KV, V)>, cap: nat, k: KV, v: V, other: KV)
    requires
        distinct_keys(m),
        lookup(m, k) is Some,
        other != k,
    ensures
        inserted(m, cap, k, v).len() == m.len(),
        lookup(inserted(m, cap, k, v), other) == lookup(m, other),
{
    lemma_key_pos(m, k);
    lemma_key_pos(m, other);
    law_lookup_after_insert(m, cap, k, v);
    let n = inserted(m, cap, k, v);
    lemma_key_pos(n, other);
    if key_pos(m, other) >= 0 {
        assert(n[key_pos(m, other)].0 == other);
    } else if key_pos(n, other) >= 0 {
        assert(m[key_pos(n, other)].0 == other);
    }
}

/// A cache with a positive capacity never holds more entries than its
/// capacity.
pub proof fn law_capacity_bound<KV, V>(m: Seq<(KV, V)>, cap: nat, k: KV, v: V)
    requires
        cap > 0,
        m.len() <= cap,
    ensures
        inserted(m, cap, k, v).len() <= cap,
{
    lemma_key_pos(m, k);
}

/// Caching a new key in a full cache drops exactly the oldest entry.
pub proof fn law_full_cache_drops_oldest<KV, V>(m: Seq<(KV, V)>, cap: nat, k: KV, v: V)
    requires
        cap > 0,
        m.len() == cap,
        lookup(m, k) is None,
    ensures
        inserted(m, cap, k, v) == m.drop_first().push((k, v)),
{
    assert(m.skip(1) =~= m.drop_first());
}

/// After `remove(k)` a lookup of `k` misses, and the other keys keep their
/// values.
pub proof fn law_lookup_after_remove<KV, V>(m: Seq<(KV, V)>, k: KV, other: KV)
    requires
        distinct_keys(m),
        other != k,
    ensures
        lookup(removed(m, k), k) is None,
        lookup(removed(m, k), other) == lookup(m, other),
{
    lemma_key_pos(m, k);
    lemma_key_pos(m, other);
    let n = removed(m, k);
    let i = key_pos(m, k);
    lemma_key_pos(n, k);
    lemma_key_pos(n, other);
    if i >= 0 {
        assert(distinct_keys(n)) by {
            assert forall|a: int, b: int| 0 <= a < b < n.len() implies n[a].0 != n[b].0 by {
                let a2 = if a < i { a } else { a + 1 };
                let b2 = if b < i { b } else { b + 1 };
                assert(n[a] == m[a2] && n[b] == m[b2]);
            }
        }
        if key_pos(n, k) >= 0 {
            let j = key_pos(n, k);
            let j2 = if j < i { j } else { j + 1 };
            assert(n[j] == m[j2]);
        }
        if key_pos(m, other) >= 0 {
            let j = key_pos(m, other);
            let j2 = if j < i { j } else { j - 1 };
            assert(n[j2] == m[j]);
        }
        if key_pos(n, other) >= 0 {
            let j = key_pos(n, other);
            let j2 = if j < i { j } else { j + 1 };
            assert(n[j] == m[j2]);
        }
    }
}

} // verus!
