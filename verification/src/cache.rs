//! The cache of decoded chunks, an `lru::LruCache`.

use vstd::prelude::*;
use lru::LruCache;

verus! {

/// `lru::LruCache`: a map of bounded size that forgets its least recently used
/// entry.
#[verifier::external_type_specification]
#[verifier::external_body]
#[verifier::reject_recursive_types(K)]
#[verifier::reject_recursive_types(V)]
#[verifier::reject_recursive_types(S)]
pub struct ExLruCache<K, V, S>(lru::LruCache<K, V, S>);

/// `lru::DefaultHasher`: the hasher that a cache has when none is named.
#[verifier::external_type_specification]
#[verifier::external_body]
pub struct ExDefaultHasher(lru::DefaultHasher);

/// What a cache holds: each key with its page, the most recently used first.
pub uninterp spec fn cached_pages(cache: LruCache<usize, Vec<u8>>) -> Seq<(usize, Seq<u8>)>;

/// How many entries a cache can hold.
pub uninterp spec fn cache_capacity(cache: LruCache<usize, Vec<u8>>) -> nat;

/// The entries of `entries` under other keys, in the same order.
pub open spec fn without(entries: Seq<(usize, Seq<u8>)>, key: usize) -> Seq<(usize, Seq<u8>)>
    decreases entries.len(),
{
    if entries.len() == 0 {
        entries
    } else {
        let rest = without(entries.drop_last(), key);
        if entries.last().0 == key {
            rest
        } else {
            rest.push(entries.last())
        }
    }
}

/// Whether some entry has the key.
pub open spec fn has_key(entries: Seq<(usize, Seq<u8>)>, key: usize) -> bool {
    exists|i: int| 0 <= i < entries.len() && (#[trigger] entries[i]).0 == key
}

/// `LruCache::new` makes an empty cache for at most `capacity` entries.
///
/// Room for all of them is set aside at once, so a capacity for which that
/// much memory cannot be named at all is left out.
#[verifier::external_body]
pub(crate) fn cache_new(capacity: usize) -> (cache: LruCache<usize, Vec<u8>>)
    requires
        1 <= capacity <= usize::MAX / 128,
    ensures
        cached_pages(cache) == Seq::<(usize, Seq<u8>)>::empty(),
        cache_capacity(cache) == capacity,
{
    LruCache::new(std::num::NonZeroUsize::new(capacity).unwrap())
}

/// `LruCache::get` looks a key up and makes its entry the most recently used
/// one. A copy of the page is handed out.
#[verifier::external_body]
pub(crate) fn cache_get(cache: &mut LruCache<usize, Vec<u8>>, key: usize) -> (r: Option<Vec<u8>>)
    ensures
        cache_capacity(*final(cache)) == cache_capacity(*old(cache)),
        r is Some <==> has_key(cached_pages(*old(cache)), key),
        r is None ==> cached_pages(*final(cache)) == cached_pages(*old(cache)),
        r matches Some(page) ==> {
            &&& cached_pages(*old(cache)).contains((key, page@))
            &&& cached_pages(*final(cache)) == seq![(key, page@)] + without(
                cached_pages(*old(cache)),
                key,
            )
        },
{
    cache.get(&key).cloned()
}

/// `LruCache::put` makes the entry for `key` the most recently used one. A new
/// key in a full cache replaces the entry that was used least recently.
#[verifier::external_body]
pub(crate) fn cache_put(cache: &mut LruCache<usize, Vec<u8>>, key: usize, page: Vec<u8>)
    ensures
        cache_capacity(*final(cache)) == cache_capacity(*old(cache)),
        has_key(cached_pages(*old(cache)), key) ==> cached_pages(*final(cache)) == seq![
            (key, page@),
        ] + without(cached_pages(*old(cache)), key),
        !has_key(cached_pages(*old(cache)), key) && cached_pages(*old(cache)).len()
            == cache_capacity(*old(cache)) ==> cached_pages(*final(cache)) == seq![(key, page@)]
            + cached_pages(*old(cache)).drop_last(),
        !has_key(cached_pages(*old(cache)), key) && cached_pages(*old(cache)).len()
            != cache_capacity(*old(cache)) ==> cached_pages(*final(cache)) == seq![(key, page@)]
            + cached_pages(*old(cache)),
{
    cache.put(key, page);
}

/// `LruCache::len` counts the entries.
#[verifier::external_body]
pub(crate) fn cache_len(cache: &LruCache<usize, Vec<u8>>) -> (n: usize)
    ensures
        n == cached_pages(*cache).len(),
{
    cache.len()
}

/// Dropping the entries of one key keeps the others, and is shorter if there
/// was one.
pub proof fn lemma_without(entries: Seq<(usize, Seq<u8>)>, key: usize)
    ensures
        without(entries, key).len() <= entries.len(),
        has_key(entries, key) ==> without(entries, key).len() < entries.len(),
        forall|e: (usize, Seq<u8>)|
            without(entries, key).contains(e) ==> #[trigger] entries.contains(e),
    decreases entries.len(),
{
    if entries.len() > 0 {
        let before = entries.drop_last();
        lemma_without(before, key);
        let rest = without(before, key);
        assert forall|e: (usize, Seq<u8>)| without(entries, key).contains(e) implies entries.contains(e) by {
            let i = choose|i: int|
                0 <= i < without(entries, key).len() && without(entries, key)[i] == e;
            if entries.last().0 != key && i == rest.len() {
                assert(entries[entries.len() - 1] == e);
            } else {
                assert(rest[i] == e);
                assert(rest.contains(e));
                assert(before.contains(e));
                let j = choose|j: int| 0 <= j < before.len() && before[j] == e;
                assert(entries[j] == e);
            }
        }
        if has_key(entries, key) && entries.last().0 != key {
            let i = choose|i: int| 0 <= i < entries.len() && (#[trigger] entries[i]).0 == key;
            assert(before[i].0 == key);
        }
    }
}

} // verus!
