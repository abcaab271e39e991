//! The cache of computed symbols: a bounded map from keys to values that
//! drops the least recently used entry when it is full, kept in an `LruCache`.
use lru::LruCache;
use vstd::prelude::*;

verus! {

/// The key under which a symbol is cached: the two lower and the three upper
/// limits of its series.
pub type Wigner3jCacheKey = (i32, i32, i32, i32, i32);

/// The greatest capacity with which a cache is made: up to it the hash map
/// of the cache has a size in bytes that fits in 32 bits.
pub const MAX_CACHE_CAPACITY: usize = 0x0400_0000;

/// One entry of the cache: a key and the value kept under it.
pub type CacheEntry = (Wigner3jCacheKey, u64);

/// `lru::LruCache`, of which nothing is seen but through the functions below.
#[verifier::external_type_specification]
#[verifier::external_body]
#[verifier::reject_recursive_types(K)]
#[verifier::reject_recursive_types(V)]
#[verifier::reject_recursive_types(S)]
pub struct ExLruCache<K, V, S>(LruCache<K, V, S>);

/// `lru::DefaultHasher`, the hasher of an `LruCache` made by `LruCache::new`.
#[verifier::external_type_specification]
#[verifier::external_body]
pub struct ExDefaultHasher(lru::DefaultHasher);

/// The entries that a cache holds, the most recently used first.
pub uninterp spec fn cache_entries(cache: LruCache<Wigner3jCacheKey, u64>) -> Seq<CacheEntry>;

/// The number of entries that a cache was made to hold at most.
pub uninterp spec fn cache_capacity(cache: LruCache<Wigner3jCacheKey, u64>) -> nat;

/// The position of the first entry under `key`, or the number of entries
/// where there is none.
pub open spec fn position_of(entries: Seq<CacheEntry>, key: Wigner3jCacheKey) -> int
    decreases entries.len(),
{
    if entries.len() == 0 {
        0
    } else if entries[0].0 == key {
        0
    } else {
        1 + position_of(entries.subrange(1, entries.len() as int), key)
    }
}

/// Whether there is an entry under `key`.
pub open spec fn holds(entries: Seq<CacheEntry>, key: Wigner3jCacheKey) -> bool {
    position_of(entries, key) < entries.len()
}

/// The value kept under `key`, if there is one.
pub open spec fn lookup(entries: Seq<CacheEntry>, key: Wigner3jCacheKey) -> Option<u64> {
    if holds(entries, key) {
        Some(entries[position_of(entries, key)].1)
    } else {
        None
    }
}

/// The entries after the one under `key`, if there is one, was used: it has
/// moved to the front.
pub open spec fn after_use(entries: Seq<CacheEntry>, key: Wigner3jCacheKey) -> Seq<CacheEntry> {
    if holds(entries, key) {
        let at = position_of(entries, key);
        seq![entries[at]] + entries.remove(at)
    } else {
        entries
    }
}

/// The entries after `value` was put under `key` into a cache of the given
/// capacity: the entry is at the front, in place of an earlier one under the
/// key or, where the cache was full, of the last.
pub open spec fn after_put(
    entries: Seq<CacheEntry>,
    capacity: nat,
    key: Wigner3jCacheKey,
    value: u64,
) -> Seq<CacheEntry> {
    if holds(entries, key) {
        seq![(key, value)] + entries.remove(position_of(entries, key))
    } else if capacity == 0 {
        entries
    } else if entries.len() == capacity {
        seq![(key, value)] + entries.drop_last()
    } else {
        seq![(key, value)] + entries
    }
}

/// What a list of entries holds under a key is what it holds under it from
/// its second entry on, unless the first entry is under the key.
pub proof fn lemma_lookup_rest(entries: Seq<CacheEntry>, key: Wigner3jCacheKey)
    requires
        entries.len() > 0,
        entries[0].0 != key,
    ensures
        lookup(entries, key) == lookup(entries.subrange(1, entries.len() as int), key),
{
    let rest = entries.subrange(1, entries.len() as int);
    lemma_position_of(rest, key);
    if holds(rest, key) {
        assert(rest[position_of(rest, key)] == entries[position_of(rest, key) + 1]);
    }
}

/// What a list of entries holds under a key does not change when an entry
/// under another key is removed.
pub proof fn lemma_lookup_without(entries: Seq<CacheEntry>, at: int, key: Wigner3jCacheKey)
    requires
        0 <= at < entries.len(),
        entries[at].0 != key,
    ensures
        lookup(entries.remove(at), key) == lookup(entries, key),
    decreases entries.len(),
{
    let rest = entries.subrange(1, entries.len() as int);
    let without = entries.remove(at);
    if at == 0 {
        assert(without =~= rest);
        lemma_lookup_rest(entries, key);
    } else if entries[0].0 == key {
        assert(without[0] == entries[0]);
    } else {
        assert(without[0] == entries[0]);
        assert(without.subrange(1, without.len() as int) =~= rest.remove(at - 1));
        lemma_lookup_without(rest, at - 1, key);
        lemma_lookup_rest(entries, key);
        lemma_lookup_rest(without, key);
    }
}

/// The position of the first entry under a key is within the list, and the
/// entry there is under the key, where the list holds one.
pub proof fn lemma_position_of(entries: Seq<CacheEntry>, key: Wigner3jCacheKey)
    ensures
        0 <= position_of(entries, key) <= entries.len(),
        holds(entries, key) ==> entries[position_of(entries, key)].0 == key,
    decreases entries.len(),
{
    if entries.len() > 0 && entries[0].0 != key {
        let rest = entries.subrange(1, entries.len() as int);
        lemma_position_of(rest, key);
        if holds(rest, key) {
            assert(rest[position_of(rest, key)] == entries[position_of(rest, key) + 1]);
        }
    }
}

/// Using an entry changes nothing of what the cache holds under any key.
pub proof fn lemma_lookup_after_use(
    entries: Seq<CacheEntry>,
    used: Wigner3jCacheKey,
    key: Wigner3jCacheKey,
)
    ensures
        lookup(after_use(entries, used), key) == lookup(entries, key),
{
    if holds(entries, used) {
        let at = position_of(entries, used);
        lemma_position_of(entries, used);
        let after = after_use(entries, used);
        assert(after[0] == entries[at]);
        if key != used {
            assert(after.subrange(1, after.len() as int) =~= entries.remove(at));
            lemma_lookup_rest(after, key);
            lemma_lookup_without(entries, at, key);
        }
    }
}

/// After a value was put under a key, a cache that holds anything at all
/// holds the value under the key; and it holds under another key what it held
/// before, unless it was full and the key was new to it.
pub proof fn lemma_lookup_after_put(
    entries: Seq<CacheEntry>,
    capacity: nat,
    put: Wigner3jCacheKey,
    value: u64,
    key: Wigner3jCacheKey,
)
    ensures
        capacity > 0 ==> lookup(after_put(entries, capacity, put, value), put) == Some(value),
        key != put && (holds(entries, put) || entries.len() != capacity) ==> lookup(
            after_put(entries, capacity, put, value),
            key,
        ) == lookup(entries, key),
{
    let after = after_put(entries, capacity, put, value);
    if key != put && (holds(entries, put) || entries.len() != capacity) {
        if holds(entries, put) {
            let at = position_of(entries, put);
            lemma_position_of(entries, put);
            assert(after[0] == (put, value));
            assert(after.subrange(1, after.len() as int) =~= entries.remove(at));
            lemma_lookup_rest(after, key);
            lemma_lookup_without(entries, at, key);
        } else if capacity > 0 {
            assert(after[0] == (put, value));
            assert(after.subrange(1, after.len() as int) =~= entries);
            lemma_lookup_rest(after, key);
        }
    }
    if capacity > 0 {
        assert(after[0] == (put, value));
    }
}

/// `LruCache::new`: an empty cache that holds at most `capacity` entries. It
/// makes a hash map for as many entries at once, which panics where their
/// number, or the size of the map in bytes, leaves the range of `usize`.
#[verifier::external_body]
pub(crate) fn cache_new(capacity: usize) -> (cache: LruCache<Wigner3jCacheKey, u64>)
    requires
        capacity <= MAX_CACHE_CAPACITY,
    ensures
        cache_entries(cache) == Seq::<CacheEntry>::empty(),
        cache_capacity(cache) == capacity,
{
    LruCache::new(capacity)
}

/// `LruCache::get`: the value under `key`, if there is one; its entry is then
/// the most recently used.
#[verifier::external_body]
pub(crate) fn cache_get(
    cache: &mut LruCache<Wigner3jCacheKey, u64>,
    key: Wigner3jCacheKey,
) -> (value: Option<u64>)
    ensures
        value == lookup(cache_entries(*old(cache)), key),
        cache_entries(*final(cache)) == after_use(cache_entries(*old(cache)), key),
        cache_capacity(*final(cache)) == cache_capacity(*old(cache)),
{
    cache.get(&key).copied()
}

/// `LruCache::put`: keeps `value` under `key` as the most recently used
/// entry. An earlier value under the key is replaced; otherwise a cache of
/// capacity zero stays empty, and a full one drops its least recently used
/// entry.
#[verifier::external_body]
pub(crate) fn cache_put(
    cache: &mut LruCache<Wigner3jCacheKey, u64>,
    key: Wigner3jCacheKey,
    value: u64,
)
    ensures
        cache_entries(*final(cache)) == after_put(
            cache_entries(*old(cache)),
            cache_capacity(*old(cache)),
            key,
            value,
        ),
        cache_capacity(*final(cache)) == cache_capacity(*old(cache)),
{
    cache.put(key, value);
}

/// `LruCache::clear`: removes every entry; the capacity stays.
#[verifier::external_body]
pub(crate) fn cache_clear(cache: &mut LruCache<Wigner3jCacheKey, u64>)
    ensures
        cache_entries(*final(cache)) == Seq::<CacheEntry>::empty(),
        cache_capacity(*final(cache)) == cache_capacity(*old(cache)),
{
    cache.clear()
}

} // verus!
