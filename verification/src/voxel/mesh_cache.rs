//! The CPU-side cache of meshed leaves, a least-recently-used cache of the `lru` crate.
//!
//! A leaf is found by its packed key; what is kept for it is the generation of the
//! request that meshed it and the transition sides it was meshed with.
use std::num::NonZeroUsize;

use lru::LruCache;
use vstd::prelude::*;

verus! {

/// `lru::LruCache`, carried as an opaque value.
#[verifier::external_type_specification]
#[verifier::external_body]
#[verifier::reject_recursive_types(K)]
#[verifier::reject_recursive_types(V)]
#[verifier::reject_recursive_types(S)]
pub struct ExLruCache<K, V, S>(LruCache<K, V, S>);

/// The hasher that `lru` picks by default, carried as an opaque value.
#[verifier::external_type_specification]
#[verifier::external_body]
pub struct ExDefaultHasher(lru::DefaultHasher);

/// What a cache holds, the most recently used entry first.
pub uninterp spec fn cache_entries(cache: LruCache<u128, (u64, u8)>) -> Seq<(u128, (u64, u8))>;

/// How many entries a cache holds at most.
pub uninterp spec fn cache_limit(cache: LruCache<u128, (u64, u8)>) -> nat;

/// Some entry has this key.
pub open spec fn has_key(entries: Seq<(u128, (u64, u8))>, key: u128) -> bool {
    exists|i: int| 0 <= i < entries.len() && (#[trigger] entries[i]).0 == key
}

/// The entries that have another key, in their order.
pub open spec fn without_key(
    entries: Seq<(u128, (u64, u8))>,
    key: u128,
) -> Seq<(u128, (u64, u8))> {
    entries.filter(|e: (u128, (u64, u8))| e.0 != key)
}

/// The entries after `key` was put with `value`: it becomes the most recently used, its
/// former entry goes, and where there was none and no room, the least recently used goes.
pub open spec fn after_put(
    entries: Seq<(u128, (u64, u8))>,
    limit: nat,
    key: u128,
    value: (u64, u8),
) -> Seq<(u128, (u64, u8))> {
    let rest = if has_key(entries, key) {
        without_key(entries, key)
    } else if entries.len() == limit {
        entries.drop_last()
    } else {
        entries
    };
    seq![(key, value)] + rest
}

/// No two entries share a key.
pub open spec fn distinct_keys(entries: Seq<(u128, (u64, u8))>) -> bool {
    forall|i: int, j: int|
        0 <= i < j < entries.len() ==> (#[trigger] entries[i]).0 != (#[trigger] entries[j]).0
}

/// `LruCache::new`: an empty cache with room for `limit` entries, which it allocates.
#[verifier::external_body]
pub(crate) fn cache_new(limit: usize) -> (cache: LruCache<u128, (u64, u8)>)
    requires
        0 < limit <= 4096,
    ensures
        cache_entries(cache) == Seq::<(u128, (u64, u8))>::empty(),
        cache_limit(cache) == limit,
{
    LruCache::new(NonZeroUsize::new(limit).unwrap())
}

/// `LruCache::put`: the entry becomes the most recently used, and the value that the key
/// had is handed back. The entry that leaves a full cache is dropped, not handed back.
#[verifier::external_body]
pub(crate) fn cache_put(
    cache: &mut LruCache<u128, (u64, u8)>,
    key: u128,
    value: (u64, u8),
) -> (former: Option<(u64, u8)>)
    ensures
        cache_entries(*final(cache)) == after_put(
            cache_entries(*old(cache)),
            cache_limit(*old(cache)),
            key,
            value,
        ),
        cache_limit(*final(cache)) == cache_limit(*old(cache)),
        former is Some <==> has_key(cache_entries(*old(cache)), key),
        former is Some ==> cache_entries(*old(cache)).contains((key, former->0)),
{
    cache.put(key, value)
}

/// `LruCache::peek`: the value of a key, the order of use left as it is.
#[verifier::external_body]
pub(crate) fn cache_peek(cache: &LruCache<u128, (u64, u8)>, key: u128) -> (value: Option<
    (u64, u8),
>)
    ensures
        value is Some <==> has_key(cache_entries(*cache), key),
        value is Some ==> cache_entries(*cache).contains((key, value->0)),
{
    cache.peek(&key).copied()
}

/// `LruCache::contains`: whether the key has an entry, the order of use left as it is.
#[verifier::external_body]
pub(crate) fn cache_contains(cache: &LruCache<u128, (u64, u8)>, key: u128) -> (found: bool)
    ensures
        found <==> has_key(cache_entries(*cache), key),
{
    cache.contains(&key)
}

/// `LruCache::pop`: takes the entry of a key out, if there is one.
#[verifier::external_body]
pub(crate) fn cache_pop(cache: &mut LruCache<u128, (u64, u8)>, key: u128) -> (former: Option<
    (u64, u8),
>)
    ensures
        cache_entries(*final(cache)) == without_key(cache_entries(*old(cache)), key),
        cache_limit(*final(cache)) == cache_limit(*old(cache)),
        former is Some <==> has_key(cache_entries(*old(cache)), key),
        former is Some ==> cache_entries(*old(cache)).contains((key, former->0)),
{
    cache.pop(&key)
}

/// `LruCache::clear`: takes every entry out.
#[verifier::external_body]
pub(crate) fn cache_clear(cache: &mut LruCache<u128, (u64, u8)>)
    ensures
        cache_entries(*final(cache)) == Seq::<(u128, (u64, u8))>::empty(),
        cache_limit(*final(cache)) == cache_limit(*old(cache)),
{
    cache.clear()
}

/// `LruCache::len`: the number of entries.
#[verifier::external_body]
pub(crate) fn cache_len(cache: &LruCache<u128, (u64, u8)>) -> (n: usize)
    ensures
        n == cache_entries(*cache).len(),
{
    cache.len()
}

/// Taking a key out keeps the keys distinct and every other entry.
pub proof fn without_key_keeps(entries: Seq<(u128, (u64, u8))>, key: u128)
    requires
        distinct_keys(entries),
    ensures
        distinct_keys(without_key(entries, key)),
        !has_key(without_key(entries, key), key),
        without_key(entries, key).len() <= entries.len(),
        has_key(entries, key) ==> without_key(entries, key).len() < entries.len(),
        forall|e: (u128, (u64, u8))|
            without_key(entries, key).contains(e) <==> (entries.contains(e) && e.0 != key),
    decreases entries.len(),
{
    reveal(Seq::filter);
    let kept = without_key(entries, key);
    if entries.len() > 0 {
        let front = entries.drop_last();
        let last = entries.last();
        without_key_keeps(front, key);
        let front_kept = without_key(front, key);
        assert(distinct_keys(front));
        if last.0 != key {
            assert(kept == front_kept.push(last));
            assert forall|i: int, j: int| 0 <= i < j < kept.len() implies kept[i].0 != kept[j].0 by {
                if j == front_kept.len() {
                    assert(front_kept.contains(front_kept[i]));
                    assert(front.contains(front_kept[i]));
                    let m = choose|m: int| 0 <= m < front.len() && front[m] == front_kept[i];
                    assert(entries[m].0 != entries[entries.len() - 1].0);
                }
            }
        } else {
            assert(kept == front_kept);
        }
        assert forall|e: (u128, (u64, u8))| kept.contains(e) <==> (entries.contains(e) && e.0
            != key) by {
            if entries.contains(e) && e.0 != key {
                let m = choose|m: int| 0 <= m < entries.len() && entries[m] == e;
                if m < front.len() {
                    assert(front[m] == e);
                    assert(front_kept.contains(e));
                    let n = choose|n: int| 0 <= n < front_kept.len() && front_kept[n] == e;
                    assert(kept[n] == e);
                } else {
                    assert(kept[kept.len() - 1] == e);
                }
            }
            if kept.contains(e) {
                let n = choose|n: int| 0 <= n < kept.len() && kept[n] == e;
                if last.0 != key && n == kept.len() - 1 {
                    assert(entries[entries.len() - 1] == e);
                } else {
                    assert(front_kept[n] == e);
                    assert(front.contains(e));
                    let m = choose|m: int| 0 <= m < front.len() && front[m] == e;
                    assert(entries[m] == e);
                }
            }
        }
        if has_key(kept, key) {
            let n = choose|n: int| 0 <= n < kept.len() && (#[trigger] kept[n]).0 == key;
            assert(kept.contains(kept[n]));
        }
        if has_key(entries, key) && last.0 != key {
            let m = choose|m: int| 0 <= m < entries.len() && (#[trigger] entries[m]).0 == key;
            assert(front[m].0 == key);
        }
    }
}

/// Putting an entry keeps the keys distinct and the cache within its limit, and the key
/// has the new value afterwards.
pub proof fn after_put_keeps(
    entries: Seq<(u128, (u64, u8))>,
    limit: nat,
    key: u128,
    value: (u64, u8),
)
    requires
        distinct_keys(entries),
        entries.len() <= limit,
        limit > 0,
    ensures
        distinct_keys(after_put(entries, limit, key, value)),
        after_put(entries, limit, key, value).len() <= limit,
        after_put(entries, limit, key, value).contains((key, value)),
        has_key(after_put(entries, limit, key, value), key),
{
    let after = after_put(entries, limit, key, value);
    without_key_keeps(entries, key);
    assert(after[0] == (key, value));
    assert forall|j: int| 1 <= j < after.len() implies (#[trigger] after[j]).0 != key by {
        if has_key(entries, key) {
            assert(after[j] == without_key(entries, key)[j - 1]);
        } else {
            assert(after[j] == entries[j - 1]);
        }
    }
    assert forall|i: int, j: int| 0 <= i < j < after.len() implies (#[trigger] after[i]).0 != (
    #[trigger] after[j]).0 by {
        if i > 0 {
            if has_key(entries, key) {
                assert(after[i] == without_key(entries, key)[i - 1]);
                assert(after[j] == without_key(entries, key)[j - 1]);
            } else {
                assert(after[i] == entries[i - 1]);
                assert(after[j] == entries[j - 1]);
            }
        }
    }
}

/// What was put in last comes first, and the others keep their order behind it: a former entry of
/// the key goes, and where the cache is full of others the one that was used the longest ago.
pub proof fn oldest_entry_goes(
    entries: Seq<(u128, (u64, u8))>,
    limit: nat,
    key: u128,
    value: (u64, u8),
    n: int,
)
    requires
        distinct_keys(entries),
        entries.len() <= limit,
        0 <= n < entries.len(),
    ensures
        after_put(entries, limit, key, value)[0] == (key, value),
        entries[n].0 != key && (n < entries.len() - 1 || entries.len() < limit || has_key(
            entries,
            key,
        )) ==> after_put(entries, limit, key, value).contains(entries[n]),
        !has_key(entries, key) && n < limit - 1 ==> after_put(entries, limit, key, value)[n + 1]
            == entries[n],
        !has_key(entries, key) && entries.len() == limit ==> after_put(
            entries,
            limit,
            key,
            value,
        ).len() == limit,
        !has_key(entries, key) && entries.len() == limit && n == limit - 1 ==> !after_put(
            entries,
            limit,
            key,
            value,
        ).contains(entries[n]),
{
    let after = after_put(entries, limit, key, value);
    without_key_keeps(entries, key);
    if has_key(entries, key) {
        let rest = without_key(entries, key);
        if entries[n].0 != key {
            assert(entries.contains(entries[n]));
            assert(rest.contains(entries[n]));
            let k = choose|k: int| 0 <= k < rest.len() && rest[k] == entries[n];
            assert(after[k + 1] == entries[n]);
        }
    } else {
        if n < entries.len() - 1 || entries.len() < limit {
            assert(after[n + 1] == entries[n]);
        }
        if entries.len() == limit && n == limit - 1 && after.contains(entries[n]) {
            let k = choose|k: int| 0 <= k < after.len() && after[k] == entries[n];
            assert(entries[n].0 != key);
            assert(after[k] == entries[k - 1]);
            assert(entries[k - 1].0 != entries[n].0);
        }
    }
}

} // verus!
