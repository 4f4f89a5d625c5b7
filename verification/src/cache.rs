//! The answer cache of the DNS server: upstream answers kept by name and
//! query type until their TTL runs out, with room for a bounded number of
//! entries.
use vstd::prelude::*;
use dashmap::DashMap;
use std::time::Instant;

verus! {

#[verifier::external_type_specification]
#[verifier::external_body]
#[verifier::reject_recursive_types(K)]
#[verifier::reject_recursive_types(V)]
#[verifier::reject_recursive_types(S)]
pub struct ExDashMap<K, V, S>(DashMap<K, V, S>);

#[verifier::external_type_specification]
#[verifier::external_body]
pub struct ExInstant(Instant);

/// What a cached answer is stored under: the queried name and query type.
#[derive(Debug, Clone, PartialEq, Eq, Hash)]
pub struct CacheKey {
    pub name: String,
    pub qtype: u16,
}

/// A cached answer, the time it expires and the time it was last stored or
/// answered from, in nanoseconds after the cache's creation.
pub struct Entry {
    pub data: Vec<u8>,
    pub expires: u128,
    pub used: u128,
}

/// A cache key as plain values.
pub open spec fn key_view(k: CacheKey) -> (Seq<char>, u16) {
    (k.name@, k.qtype)
}

/// Two cache keys name the same entry.
pub open spec fn same_entry_key(a: CacheKey, b: CacheKey) -> bool {
    key_view(a) == key_view(b)
}

/// The cache contents as plain values: answer bytes, expiry time and time
/// of last use by key.
pub type Contents = Map<(Seq<char>, u16), (Seq<u8>, u128, u128)>;

/// The entries a `DashMap` of answers holds.
pub uninterp spec fn cache_entries(m: DashMap<CacheKey, Entry>) -> Map<(Seq<char>, u16), (Seq<u8>, u128, u128)>;

/// Calls `DashMap::with_capacity`: a new map holds nothing.
#[verifier::external_body]
fn map_with_capacity(capacity: usize) -> (r: DashMap<CacheKey, Entry>)
    ensures
        cache_entries(r).is_empty(),
{
    DashMap::with_capacity(capacity)
}

/// Calls `DashMap::get` and copies out the entry's bytes and expiry: there
/// is an entry exactly when the map holds the key, and it is the one held.
#[verifier::external_body]
fn map_get(m: &DashMap<CacheKey, Entry>, key: &CacheKey) -> (r: Option<(Vec<u8>, u128)>)
    ensures
        match r {
            Some(e) => cache_entries(*m).contains_key(key_view(*key)) && cache_entries(*m)[key_view(
                *key,
            )].0 == e.0@ && cache_entries(*m)[key_view(*key)].1 == e.1,
            None => !cache_entries(*m).contains_key(key_view(*key)),
        },
{
    m.get(key).map(|e| (e.data.clone(), e.expires))
}

/// Calls `DashMap::insert`: the key now holds the new entry, replacing any
/// entry it held.
#[verifier::external_body]
fn map_insert(m: &mut DashMap<CacheKey, Entry>, key: CacheKey, e: Entry)
    ensures
        cache_entries(*final(m)) == cache_entries(*old(m)).insert(
            key_view(key),
            (e.data@, e.expires, e.used),
        ),
{
    m.insert(key, e);
}

/// Calls `DashMap::remove`: the key holds nothing afterwards.
#[verifier::external_body]
fn map_remove(m: &mut DashMap<CacheKey, Entry>, key: &CacheKey)
    ensures
        cache_entries(*final(m)) == cache_entries(*old(m)).remove(key_view(*key)),
{
    m.remove(key);
}

/// Calls `DashMap::len`: the number of entries.
#[verifier::external_body]
fn map_len(m: &DashMap<CacheKey, Entry>) -> (n: usize)
    ensures
        n == cache_entries(*m).len(),
{
    m.len()
}

/// Walks the map with `DashMap::iter` and collects each key with its
/// expiry and time of last use. Every entry comes once; the order is the
/// map's own, which its hasher decides, and is left unsaid.
#[verifier::external_body]
fn map_keys(m: &DashMap<CacheKey, Entry>) -> (r: Vec<(CacheKey, u128, u128)>)
    ensures
        forall|i: int|
            0 <= i < r@.len() ==> cache_entries(*m).contains_key(key_view((#[trigger] r@[i]).0))
                && cache_entries(*m)[key_view(r@[i].0)].1 == r@[i].1
                && cache_entries(*m)[key_view(r@[i].0)].2 == r@[i].2,
        forall|i: int, j: int|
            0 <= i < j < r@.len() ==> !same_entry_key((#[trigger] r@[i]).0, (#[trigger] r@[j]).0),
        forall|k: (Seq<char>, u16)|
            #[trigger] cache_entries(*m).contains_key(k) ==> exists|i: int|
                0 <= i < r@.len() && key_view((#[trigger] r@[i]).0) == k,
{
    m.iter().map(|e| (e.key().clone(), e.value().expires, e.value().used)).collect()
}

/// Calls `Instant::now`.
#[verifier::external_body]
fn instant_now() -> Instant {
    Instant::now()
}

/// The largest number of nanoseconds a `Duration` holds: whole seconds are a
/// `u64` and the rest is under one second.
pub open spec fn max_duration_nanos() -> int {
    (u64::MAX as u128) * 1_000_000_000 + 999_999_999
}

/// Calls `Instant::elapsed` and `Duration::as_nanos`: nanoseconds since
/// `origin`. It depends on the clock; only the range of a `Duration` is
/// stated.
#[verifier::external_body]
fn nanos_since(origin: &Instant) -> (r: u128)
    ensures
        r <= max_duration_nanos(),
{
    origin.elapsed().as_nanos()
}

/// The number of entries a cache made with `max_size` keeps at most: a
/// full cache makes room for each new entry, so even a cache of size 0
/// keeps the last one.
pub open spec fn capacity(max_size: usize) -> nat {
    if max_size == 0 {
        1
    } else {
        max_size as nat
    }
}

/// The keys whose entries have expired at `now`.
pub open spec fn expired(m: Contents, now: u128) -> Set<(Seq<char>, u16)> {
    m.dom().filter(|k: (Seq<char>, u16)| m[k].1 <= now)
}

/// What one eviction at `now` does to the contents: it removes up to 10
/// expired entries (all of them, where fewer than 10 have expired; which
/// ones otherwise is the map's order), and where none has expired, the
/// least recently used entry, if there is any (one of them, where several
/// were last used at the same time).
pub open spec fn evicted(before: Contents, after: Contents, now: u128) -> bool {
    let removed = before.dom().difference(after.dom());
    &&& after == before.remove_keys(removed)
    &&& removed.finite()
    &&& if exists|k: (Seq<char>, u16)| #[trigger] expired(before, now).contains(k) {
        &&& removed.subset_of(expired(before, now))
        &&& 1 <= removed.len() <= 10
        &&& removed.len() < 10 ==> removed == expired(before, now)
    } else {
        &&& removed.len() == if before.len() > 0 {
            1nat
        } else {
            0nat
        }
        &&& forall|k: (Seq<char>, u16), k2: (Seq<char>, u16)|
            #[trigger] removed.contains(k) && #[trigger] before.contains_key(k2) ==> before[k].2
                <= before[k2].2
    }
}

/// The expiry of an entry stored at `now` for `ttl_secs` seconds.
pub open spec fn expiry(now: u128, ttl_secs: u32) -> u128 {
    (now + ttl_secs * 1_000_000_000) as u128
}

/// What `get` at `now` answers and leaves: a live entry's bytes, the entry
/// marked as used at `now`; nothing for an expired entry, which is removed;
/// nothing for an absent key, with the cache unchanged.
pub open spec fn get_outcome(
    before: Contents,
    k: (Seq<char>, u16),
    now: u128,
    r: Option<Seq<u8>>,
    after: Contents,
) -> bool {
    if before.contains_key(k) {
        if before[k].1 > now {
            r == Some(before[k].0) && after == before.insert(k, (before[k].0, before[k].1, now))
        } else {
            r is None && after == before.remove(k)
        }
    } else {
        r is None && after == before
    }
}

/// Before storing at `now`, a cache that holds `max_size` entries or more
/// evicts; otherwise its contents stay.
pub open spec fn made_room(before: Contents, mid: Contents, max_size: usize, now: u128) -> bool {
    if before.len() >= max_size {
        evicted(before, mid, now)
    } else {
        mid == before
    }
}

/// What storing `v` under `k` at `now` does: room is made as `made_room`
/// says, then `k` holds `v`, replacing what it held.
pub open spec fn insert_outcome(
    before: Contents,
    after: Contents,
    max_size: usize,
    k: (Seq<char>, u16),
    v: (Seq<u8>, u128, u128),
    now: u128,
) -> bool {
    exists|mid: Contents| #[trigger] made_room(before, mid, max_size, now) && after == mid.insert(k, v)
}

/// The bytes of a cached answer, if there is one.
pub open spec fn answer_view(r: Option<Vec<u8>>) -> Option<Seq<u8>> {
    match r {
        Some(d) => Some(d@),
        None => None,
    }
}

/// The answer cache.
pub struct DnsCache {
    inner: DashMap<CacheKey, Entry>,
    max_size: usize,
    origin: Instant,
}

impl DnsCache {
    /// The entries held, by key.
    pub closed spec fn entries(&self) -> Contents {
        cache_entries(self.inner)
    }

    /// The size the cache was made with.
    pub closed spec fn max_size(&self) -> usize {
        self.max_size
    }

    /// The cache holds finitely many entries, no more than its capacity.
    pub open spec fn wf(&self) -> bool {
        &&& self.entries().dom().finite()
        &&& self.entries().len() <= capacity(self.max_size())
    }

    /// An empty cache for up to `max_size` entries.
    pub fn new(max_size: usize) -> (c: DnsCache)
        ensures
            c.wf(),
            c.entries() == Map::<(Seq<char>, u16), (Seq<u8>, u128, u128)>::empty(),
            c.max_size() == max_size,
    {
        let cap = if max_size < 65536 {
            max_size
        } else {
            65536
        };
        let c = DnsCache { inner: map_with_capacity(cap), max_size, origin: instant_now() };
        assert(c.entries() =~= Map::<(Seq<char>, u16), (Seq<u8>, u128, u128)>::empty());
        c
    }

    /// Nanoseconds since the cache was made.
    fn now(&self) -> (t: u128)
        ensures
            t <= max_duration_nanos(),
    {
        nanos_since(&self.origin)
    }

    /// The number of entries held.
    pub fn len(&self) -> (n: usize)
        ensures
            n == self.entries().len(),
    {
        map_len(&self.inner)
    }

    /// Looks `key` up at time `now`: a live entry's bytes; an expired entry
    /// is removed and gives nothing.
    pub fn get_at(&mut self, key: &CacheKey, now: u128) -> (r: Option<Vec<u8>>)
        requires
            old(self).wf(),
        ensures
            final(self).wf(),
            final(self).max_size() == old(self).max_size(),
            get_outcome(
                old(self).entries(),
                key_view(*key),
                now,
                answer_view(r),
                final(self).entries(),
            ),
    {
        match map_get(&self.inner, key) {
            Some((data, expires)) => {
                if expires > now {
                    let ghost before = self.entries();
                    let kept = vstd::slice::slice_to_vec(data.as_slice());
                    map_insert(&mut self.inner, copy_key(key), Entry { data: kept, expires, used: now });
                    proof {
                        let k = key_view(*key);
                        assert(self.entries().dom() =~= before.dom());
                    }
                    Some(data)
                } else {
                    let ghost before = self.entries();
                    map_remove(&mut self.inner, key);
                    proof {
                        before.lemma_remove_key_len(key_view(*key));
                    }
                    None
                }
            },
            None => None,
        }
    }

    /// Looks `key` up now: what `get_at` gives at the present time.
    pub fn get(&mut self, key: &CacheKey) -> (r: Option<Vec<u8>>)
        requires
            old(self).wf(),
        ensures
            final(self).wf(),
            final(self).max_size() == old(self).max_size(),
            exists|now: u128|
                now <= max_duration_nanos() && #[trigger] get_outcome(
                    old(self).entries(),
                    key_view(*key),
                    now,
                    answer_view(r),
                    final(self).entries(),
                ),
    {
        let now = self.now();
        self.get_at(key, now)
    }

    /// Stores `data` under `key` at time `now` for `ttl_secs` seconds; a
    /// cache that holds `max_size` entries or more evicts first.
    pub fn insert_at(&mut self, key: CacheKey, data: Vec<u8>, ttl_secs: u32, now: u128)
        requires
            old(self).wf(),
            now <= max_duration_nanos(),
        ensures
            final(self).wf(),
            final(self).max_size() == old(self).max_size(),
            insert_outcome(
                old(self).entries(),
                final(self).entries(),
                old(self).max_size(),
                key_view(key),
                (data@, expiry(now, ttl_secs), now),
                now,
            ),
    {
        let ghost before = self.entries();
        let n = map_len(&self.inner);
        if n >= self.max_size {
            self.evict_at(now);
        }
        let ghost mid = self.entries();
        proof {
            let removed = before.dom().difference(mid.dom());
            if n >= self.max_size {
                assert(removed.subset_of(before.dom()));
                before.lemma_remove_keys_len(removed);
                assert(mid.dom() =~= before.remove_keys(removed).dom());
                if before.len() > 0 {
                    if exists|k: (Seq<char>, u16)| #[trigger] expired(before, now).contains(k) {
                        assert(removed.len() >= 1);
                    }
                    assert(mid.len() < before.len());
                }
            }
            assert(made_room(before, mid, self.max_size, now));
        }
        let expires: u128 = now + (ttl_secs as u128) * 1_000_000_000;
        let ghost v = (data@, expires, now);
        map_insert(&mut self.inner, key, Entry { data, expires, used: now });
        proof {
            let k = key_view(key);
            assert(self.entries() == mid.insert(k, v));
            if mid.contains_key(k) {
                assert(self.entries().dom() =~= mid.dom());
            } else {
                assert(self.entries().dom() =~= mid.dom().insert(k));
            }
            assert(made_room(before, mid, self.max_size, now) && self.entries() == mid.insert(k, v));
        }
    }

    /// Stores `data` under `key` for `ttl_secs` seconds from now: what
    /// `insert_at` does at the present time.
    pub fn insert(&mut self, key: CacheKey, data: Vec<u8>, ttl_secs: u32)
        requires
            old(self).wf(),
        ensures
            final(self).wf(),
            final(self).max_size() == old(self).max_size(),
            exists|now: u128|
                now <= max_duration_nanos() && #[trigger] insert_outcome(
                    old(self).entries(),
                    final(self).entries(),
                    old(self).max_size(),
                    key_view(key),
                    (data@, expiry(now, ttl_secs), now),
                    now,
                ),
    {
        let now = self.now();
        self.insert_at(key, data, ttl_secs, now);
    }

    /// Evicts at time `now`: up to 10 expired entries, or where none has
    /// expired, the least recently used entry.
    fn evict_at(&mut self, now: u128)
        requires
            old(self).entries().dom().finite(),
        ensures
            final(self).max_size() == old(self).max_size(),
            final(self).entries().dom().finite(),
            evicted(old(self).entries(), final(self).entries(), now),
    {
        let ghost before = self.entries();
        let all = map_keys(&self.inner);
        let mut found: Vec<CacheKey> = Vec::new();
        let mut i: usize = 0;
        while i < all.len() && found.len() < 10
            invariant
                before == self.entries(),
                i <= all@.len(),
                found@.len() <= 10,
                forall|a: int|
                    0 <= a < all@.len() ==> before.contains_key(key_view((#[trigger] all@[a]).0))
                        && before[key_view(all@[a].0)].1 == all@[a].1,
                forall|a: int, b: int|
                    0 <= a < b < all@.len() ==> !same_entry_key((#[trigger] all@[a]).0, (#[trigger] all@[b]).0),
                forall|a: int|
                    0 <= a < found@.len() ==> #[trigger] expired(before, now).contains(
                        key_view(found@[a]),
                    ),
                forall|a: int, b: int|
                    0 <= a < b < found@.len() ==> !same_entry_key(#[trigger] found@[a], #[trigger] found@[b]),
                forall|j: int|
                    0 <= j < i && all@[j].1 <= now ==> exists|a: int|
                        0 <= a < found@.len() && same_entry_key(#[trigger] found@[a], (#[trigger] all@[j]).0),
                forall|a: int|
                    0 <= a < found@.len() ==> exists|j: int|
                        0 <= j < i && same_entry_key((#[trigger] all@[j]).0, #[trigger] found@[a]),
            decreases all@.len() - i,
        {
            if all[i].1 <= now {
                let k = copy_key(&all[i].0);
                let ghost f0 = found@;
                found.push(k);
                proof {
                    assert(found@[f0.len() as int] == k);
                    assert(expired(before, now).contains(key_view(k)));
                    assert forall|a: int, b: int|
                        0 <= a < b < found@.len() implies !same_entry_key(#[trigger] found@[a], #[trigger] found@[b]) by {
                        if b == f0.len() {
                            assert(found@[a] == f0[a]);
                            let j = choose|j: int|
                                0 <= j < i && same_entry_key((#[trigger] all@[j]).0, f0[a]);
                            assert(!same_entry_key(all@[j].0, all@[i as int].0));
                        } else {
                            assert(found@[a] == f0[a] && found@[b] == f0[b]);
                        }
                    }
                    assert forall|j: int|
                        0 <= j < i + 1 && all@[j].1 <= now implies exists|a: int|
                            0 <= a < found@.len() && same_entry_key(#[trigger] found@[a], (#[trigger] all@[j]).0) by {
                        if j == i {
                            assert(same_entry_key(found@[f0.len() as int], all@[j].0));
                        } else {
                            let a = choose|a: int|
                                0 <= a < f0.len() && same_entry_key(#[trigger] f0[a], all@[j].0);
                            assert(found@[a] == f0[a]);
                        }
                    }
                    assert forall|a: int|
                        0 <= a < found@.len() implies exists|j: int|
                            0 <= j < i + 1 && same_entry_key((#[trigger] all@[j]).0, #[trigger] found@[a]) by {
                        if a == f0.len() {
                            assert(same_entry_key(all@[i as int].0, found@[a]));
                        } else {
                            assert(found@[a] == f0[a]);
                            let j = choose|j: int|
                                0 <= j < i && same_entry_key((#[trigger] all@[j]).0, f0[a]);
                            assert(same_entry_key(all@[j].0, found@[a]));
                        }
                    }
                }
            } else {
                proof {
                    assert forall|j: int|
                        0 <= j < i + 1 && all@[j].1 <= now implies exists|a: int|
                            0 <= a < found@.len() && same_entry_key(#[trigger] found@[a], (#[trigger] all@[j]).0) by {
                        let kv = key_view(all@[j].0);
                        assert(j < i);
                    }
                    assert forall|a: int|
                        0 <= a < found@.len() implies exists|j: int|
                            0 <= j < i + 1 && same_entry_key((#[trigger] all@[j]).0, #[trigger] found@[a]) by {
                        let j = choose|j: int|
                            0 <= j < i && same_entry_key((#[trigger] all@[j]).0, found@[a]);
                        assert(same_entry_key(all@[j].0, found@[a]));
                    }
                }
            }
            i = i + 1;
        }
        proof {
            if found@.len() < 10 {
                assert forall|k: (Seq<char>, u16)| #[trigger]
                    expired(before, now).contains(k) implies exists|a: int|
                    0 <= a < found@.len() && key_view(#[trigger] found@[a]) == k by {
                    assert(before.contains_key(k));
                    let j = choose|j: int| 0 <= j < all@.len() && key_view((#[trigger] all@[j]).0) == k;
                    assert(all@[j].1 <= now);
                }
            }
        }
        if found.len() > 0 {
            let ghost mut removed: Set<(Seq<char>, u16)> = Set::empty();
            let mut j: usize = 0;
            while j < found.len()
                invariant
                    j <= found@.len(),
                    removed.finite(),
                    removed.len() == j,
                    forall|k: (Seq<char>, u16)|
                        #[trigger] removed.contains(k) <==> exists|a: int|
                            0 <= a < j && key_view(#[trigger] found@[a]) == k,
                    forall|a: int|
                        0 <= a < found@.len() ==> #[trigger] expired(before, now).contains(
                            key_view(found@[a]),
                        ),
                    forall|a: int, b: int|
                        0 <= a < b < found@.len() ==> !same_entry_key(#[trigger] found@[a], #[trigger] found@[b]),
                    self.entries() == before.remove_keys(removed),
                    self.max_size == old(self).max_size,
                decreases found@.len() - j,
            {
                let ghost e0 = self.entries();
                map_remove(&mut self.inner, &found[j]);
                proof {
                    let x = key_view(found@[j as int]);
                    assert(!removed.contains(x)) by {
                        if removed.contains(x) {
                            let a = choose|a: int| 0 <= a < j && key_view(#[trigger] found@[a]) == x;
                        }
                    }
                    let r2 = removed.insert(x);
                    assert forall|k: (Seq<char>, u16)|
                        #[trigger] r2.contains(k) <==> exists|a: int|
                            0 <= a < j + 1 && key_view(#[trigger] found@[a]) == k by {
                        if r2.contains(k) && k != x {
                            let a = choose|a: int| 0 <= a < j && key_view(#[trigger] found@[a]) == k;
                        }
                        if exists|a: int| 0 <= a < j + 1 && key_view(#[trigger] found@[a]) == k {
                            let a = choose|a: int|
                                0 <= a < j + 1 && key_view(#[trigger] found@[a]) == k;
                            if a < j {
                                assert(removed.contains(k));
                            }
                        }
                    }
                    assert(self.entries() =~= before.remove_keys(r2));
                    removed = r2;
                }
                j = j + 1;
            }
            proof {
                let after = self.entries();
                assert(after.dom() =~= before.dom().difference(removed));
                assert(removed.subset_of(expired(before, now)));
                assert(before.dom().difference(after.dom()) =~= removed);
                assert(expired(before, now).contains(key_view(found@[0])));
                if removed.len() < 10 {
                    assert(removed =~= expired(before, now));
                }
            }
        } else {
            proof {
                assert forall|k: (Seq<char>, u16)| !(#[trigger] expired(before, now).contains(k)) by {
                    if expired(before, now).contains(k) {
                        let a = choose|a: int|
                            0 <= a < found@.len() && key_view(#[trigger] found@[a]) == k;
                    }
                }
            }
            if all.len() > 0 {
                let mut best: usize = 0;
                let mut j: usize = 1;
                while j < all.len()
                    invariant
                        1 <= j <= all@.len(),
                        best < j,
                        forall|a: int| 0 <= a < j ==> all@[best as int].2 <= (#[trigger] all@[a]).2,
                    decreases all@.len() - j,
                {
                    if all[j].2 < all[best].2 {
                        best = j;
                    }
                    j = j + 1;
                }
                map_remove(&mut self.inner, &all[best].0);
                proof {
                    let x = key_view(all@[best as int].0);
                    let after = self.entries();
                    assert(before.dom().difference(after.dom()) =~= set![x]);
                    assert(after =~= before.remove_keys(set![x]));
                    assert(after.dom() =~= before.dom().remove(x));
                    before.lemma_remove_key_len(x);
                    assert forall|k: (Seq<char>, u16), k2: (Seq<char>, u16)|
                        #[trigger] set![x].contains(k) && #[trigger] before.contains_key(k2) implies before[k].2
                        <= before[k2].2 by {
                        let a = choose|a: int| 0 <= a < all@.len() && key_view((#[trigger] all@[a]).0) == k2;
                        assert(all@[best as int].2 <= all@[a].2);
                    }
                }
            } else {
                proof {
                    assert(before.dom() =~= Set::<(Seq<char>, u16)>::empty()) by {
                        assert forall|k: (Seq<char>, u16)| !(#[trigger] before.dom().contains(k)) by {
                            if before.dom().contains(k) {
                                assert(before.contains_key(k));
                                let j = choose|j: int|
                                    0 <= j < all@.len() && key_view((#[trigger] all@[j]).0) == k;
                            }
                        }
                    }
                    assert(before.dom().difference(self.entries().dom()) =~= Set::<
                        (Seq<char>, u16),
                    >::empty());
                    assert(self.entries() =~= before.remove_keys(Set::empty()));
                }
            }
        }
    }
}

/// A copy of a cache key.
fn copy_key(k: &CacheKey) -> (r: CacheKey)
    ensures
        key_view(r) == key_view(*k),
{
    CacheKey { name: k.name.clone(), qtype: k.qtype }
}

/// An entry stored at `now` with a TTL of `t` seconds expires exactly `t`
/// seconds later.
pub proof fn lemma_expiry(now: u128, t: u32)
    requires
        now <= max_duration_nanos(),
    ensures
        expiry(now, t) as int == now + t * 1_000_000_000,
{
}

/// Storing and then looking up: a lookup of the stored key before its TTL
/// has run out gives the stored bytes; a lookup once it has run out gives
/// nothing and leaves the key gone.
pub proof fn lemma_insert_then_get(
    before: Contents,
    after: Contents,
    max_size: usize,
    k: (Seq<char>, u16),
    d: Seq<u8>,
    t: u32,
    now: u128,
    later: u128,
    r: Option<Seq<u8>>,
    after_get: Contents,
)
    requires
        now <= max_duration_nanos(),
        insert_outcome(before, after, max_size, k, (d, expiry(now, t), now), now),
        get_outcome(after, k, later, r, after_get),
    ensures
        later < now + t * 1_000_000_000 ==> r == Some(d),
        later >= now + t * 1_000_000_000 ==> r is None && !after_get.contains_key(k),
{
    let mid = choose|mid: Contents| #[trigger] made_room(before, mid, max_size, now) && after == mid.insert(
        k,
        (d, expiry(now, t), now),
    );
    assert(after.contains_key(k));
    assert(after[k] == (d, expiry(now, t), now));
}

/// Storing a new key in a full cache where nothing has expired drops the
/// least recently used entry: one stored entry is gone, no entry was used
/// less recently than it, and the cache keeps its size.
pub proof fn lemma_full_insert_drops_lru(
    before: Contents,
    after: Contents,
    max_size: usize,
    k: (Seq<char>, u16),
    v: (Seq<u8>, u128, u128),
    now: u128,
)
    requires
        before.dom().finite(),
        before.len() >= max_size,
        before.len() > 0,
        !before.contains_key(k),
        forall|x: (Seq<char>, u16)| #[trigger] before.contains_key(x) ==> before[x].1 > now,
        insert_outcome(before, after, max_size, k, v, now),
    ensures
        after.len() == before.len(),
        exists|g: (Seq<char>, u16)|
            #![trigger before.contains_key(g)]
            before.contains_key(g) && !after.contains_key(g) && forall|x: (Seq<char>, u16)|
                #[trigger] before.contains_key(x) ==> before[g].2 <= before[x].2,
{
    let mid = choose|mid: Contents| #[trigger] made_room(before, mid, max_size, now) && after == mid.insert(k, v);
    let removed = before.dom().difference(mid.dom());
    assert forall|x: (Seq<char>, u16)| !(#[trigger] expired(before, now).contains(x)) by {
        if expired(before, now).contains(x) {
            assert(before.contains_key(x));
        }
    }
    assert(removed.len() == 1);
    let g = removed.choose();
    assert(removed.contains(g));
    assert(removed.subset_of(before.dom()));
    before.lemma_remove_keys_len(removed);
    assert(mid.dom() =~= before.remove_keys(removed).dom());
    assert(!mid.contains_key(k));
    assert(after.dom() =~= mid.dom().insert(k));
    assert(mid.dom() =~= before.dom().difference(removed));
    assert(mid.dom().finite());
    assert(mid.dom().len() == before.dom().len() - 1);
    assert(mid.dom().insert(k).len() == mid.dom().len() + 1);
    assert(!after.contains_key(g));
}

} // verus!
