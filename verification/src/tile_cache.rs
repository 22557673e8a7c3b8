//! The least-recently-used cache of downloaded terrain tiles, kept in an
//! `lru::LruCache`.
use vstd::prelude::*;
use lru::LruCache;

verus! {

/// A cache key: the coordinates `(x, y, z)` of a tile.
pub type TileKey = (u32, u32, u32);

/// Buildings and trees of a vector tile, as the bit patterns of the `f32`
/// components of their GPU vertices.
#[derive(Clone, Debug)]
pub struct VectorTileData {
    /// Building vertices: position (3 components), then color (3 components).
    pub mesh: Vec<[u32; 6]>,
    /// Tree instances: position (3), color (3), scale (1).
    pub trees: Vec<[u32; 7]>,
}

/// Everything cached for one tile: its RGBA heightmap and color image, and its
/// vector tile when one could be built.
#[derive(Clone, Debug)]
pub struct CacheEntry {
    pub heightmap: Vec<u8>,
    pub color: Vec<u8>,
    pub vector: Option<VectorTileData>,
}

#[verifier::external_type_specification]
#[verifier::external_body]
#[verifier::reject_recursive_types(K)]
#[verifier::reject_recursive_types(V)]
#[verifier::reject_recursive_types(S)]
pub struct ExLruCache<K, V, S>(LruCache<K, V, S>);

#[verifier::external_type_specification]
#[verifier::external_body]
pub struct ExLruDefaultHasher(lru::DefaultHasher);

/// The entries of a cache, most recently used first.
pub uninterp spec fn cache_contents(c: LruCache<TileKey, CacheEntry>) -> Seq<(TileKey, CacheEntry)>;

/// The number of entries a cache holds at most.
pub uninterp spec fn cache_capacity(c: LruCache<TileKey, CacheEntry>) -> nat;

/// The keys of a sequence of cache entries.
pub open spec fn entry_keys(s: Seq<(TileKey, CacheEntry)>) -> Seq<TileKey> {
    s.map_values(|e: (TileKey, CacheEntry)| e.0)
}

/// Whether the entry sequence `s` has an entry for `k`.
pub open spec fn has_key(s: Seq<(TileKey, CacheEntry)>, k: TileKey) -> bool {
    exists|i: int| 0 <= i < s.len() && s[i].0 == k
}

/// The position of the entry for `k` in `s` (meaningful when `has_key(s, k)`).
pub open spec fn key_index(s: Seq<(TileKey, CacheEntry)>, k: TileKey) -> int {
    choose|i: int| 0 <= i < s.len() && s[i].0 == k
}

/// The value stored for `k` in `s` (meaningful when `has_key(s, k)`).
pub open spec fn value_of(s: Seq<(TileKey, CacheEntry)>, k: TileKey) -> CacheEntry {
    s[key_index(s, k)].1
}

/// No key occurs twice, and the cache holds at most `cap` entries.
pub open spec fn entries_wf(s: Seq<(TileKey, CacheEntry)>, cap: nat) -> bool {
    &&& cap >= 1
    &&& s.len() <= cap
    &&& forall|i: int, j: int| 0 <= i < j < s.len() ==> s[i].0 != s[j].0
}

/// The entries after a lookup of `k`: a present entry moves to the front.
pub open spec fn after_get(s: Seq<(TileKey, CacheEntry)>, k: TileKey) -> Seq<(TileKey, CacheEntry)> {
    if has_key(s, k) {
        seq![s[key_index(s, k)]] + s.remove(key_index(s, k))
    } else {
        s
    }
}

/// The entries after storing `v` under `k` in a cache of capacity `cap`: the entry
/// goes to the front, replacing the old entry for `k`; when `k` is new and the
/// cache is full, the least recently used entry is dropped.
pub open spec fn after_put(s: Seq<(TileKey, CacheEntry)>, cap: nat, k: TileKey, v: CacheEntry) -> Seq<(TileKey, CacheEntry)> {
    if has_key(s, k) {
        seq![(k, v)] + s.remove(key_index(s, k))
    } else if s.len() == cap {
        seq![(k, v)] + s.drop_last()
    } else {
        seq![(k, v)] + s
    }
}

/// Calls `LruCache::new`: an empty cache that holds at most `cap` entries.
#[verifier::external_body]
pub(crate) fn cache_new(cap: usize) -> (c: LruCache<TileKey, CacheEntry>)
    requires
        cap >= 1,
    ensures
        cache_contents(c) == Seq::<(TileKey, CacheEntry)>::empty(),
        cache_capacity(c) == cap,
{
    LruCache::new(std::num::NonZeroUsize::new(cap).unwrap())
}

/// Calls `LruCache::get`: returns the value stored for `k`, if any, and makes
/// that entry the most recently used one.
#[verifier::external_body]
pub(crate) fn cache_get<'a>(c: &'a mut LruCache<TileKey, CacheEntry>, k: &TileKey) -> (r: Option<&'a CacheEntry>)
    requires
        entries_wf(cache_contents(*old(c)), cache_capacity(*old(c))),
    ensures
        cache_contents(*final(c)) == after_get(cache_contents(*old(c)), *k),
        cache_capacity(*final(c)) == cache_capacity(*old(c)),
        entries_wf(cache_contents(*final(c)), cache_capacity(*final(c))),
        r is Some <==> has_key(cache_contents(*old(c)), *k),
        r matches Some(v) ==> *v == value_of(cache_contents(*old(c)), *k),
{
    c.get(k)
}

/// Calls `LruCache::put`: stores `v` under `k` as the most recently used entry,
/// evicting the least recently used entry when a new key finds the cache full.
/// Returns the value `k` had before, if any.
#[verifier::external_body]
pub(crate) fn cache_put(c: &mut LruCache<TileKey, CacheEntry>, k: TileKey, v: CacheEntry) -> (r: Option<CacheEntry>)
    requires
        entries_wf(cache_contents(*old(c)), cache_capacity(*old(c))),
    ensures
        cache_contents(*final(c)) == after_put(cache_contents(*old(c)), cache_capacity(*old(c)), k, v),
        cache_capacity(*final(c)) == cache_capacity(*old(c)),
        entries_wf(cache_contents(*final(c)), cache_capacity(*final(c))),
        r is Some <==> has_key(cache_contents(*old(c)), k),
        r matches Some(old_v) ==> old_v == value_of(cache_contents(*old(c)), k),
{
    c.put(k, v)
}

/// Calls `LruCache::clear`: removes every entry.
#[verifier::external_body]
pub(crate) fn cache_clear(c: &mut LruCache<TileKey, CacheEntry>)
    ensures
        cache_contents(*final(c)) == Seq::<(TileKey, CacheEntry)>::empty(),
        cache_capacity(*final(c)) == cache_capacity(*old(c)),
{
    c.clear()
}

} // verus!

verus! {

/// Where the `m`-th entry after moving entry `i` to the front was before.
pub open spec fn moved_from(i: int, m: int) -> int {
    if m == 0 {
        i
    } else if m - 1 < i {
        m - 1
    } else {
        m
    }
}

/// A lookup keeps the cache well formed and holding the same keys with the same values.
pub proof fn lemma_after_get(s: Seq<(TileKey, CacheEntry)>, cap: nat, k: TileKey)
    requires
        entries_wf(s, cap),
    ensures
        entries_wf(after_get(s, k), cap),
        forall|k2: TileKey| #[trigger] has_key(after_get(s, k), k2) == has_key(s, k2),
        forall|k2: TileKey| has_key(s, k2) ==> #[trigger] value_of(after_get(s, k), k2) == value_of(s, k2),
{
    if has_key(s, k) {
        let i = key_index(s, k);
        let t = after_get(s, k);
        assert(t.len() == s.len());
        assert forall|m: int| 0 <= m < t.len() implies #[trigger] t[m] == s[moved_from(i, m)] && 0 <= moved_from(i, m) < s.len() by {
        }
        assert forall|a: int, b: int| 0 <= a < b < t.len() implies t[a].0 != t[b].0 by {
            assert(t[a] == s[moved_from(i, a)]);
            assert(t[b] == s[moved_from(i, b)]);
            assert(moved_from(i, a) != moved_from(i, b));
        }
        assert forall|k2: TileKey| #[trigger] has_key(t, k2) == has_key(s, k2) by {
            if has_key(s, k2) {
                let j = key_index(s, k2);
                let m = if j == i { 0 } else if j < i { j + 1 } else { j };
                assert(t[m] == s[moved_from(i, m)]);
                assert(t[m].0 == k2);
            }
            if has_key(t, k2) {
                let m = key_index(t, k2);
                assert(t[m] == s[moved_from(i, m)]);
            }
        }
        assert forall|k2: TileKey| has_key(s, k2) implies #[trigger] value_of(t, k2) == value_of(s, k2) by {
            let j = key_index(s, k2);
            assert(has_key(t, k2) == has_key(s, k2));
            let m = key_index(t, k2);
            assert(t[m] == s[moved_from(i, m)]);
            assert(moved_from(i, m) == j);
        }
    }
}

/// Storing an entry keeps the cache well formed.
pub proof fn lemma_after_put_wf(s: Seq<(TileKey, CacheEntry)>, cap: nat, k: TileKey, v: CacheEntry)
    requires
        entries_wf(s, cap),
    ensures
        entries_wf(after_put(s, cap, k, v), cap),
        has_key(after_put(s, cap, k, v), k),
        value_of(after_put(s, cap, k, v), k) == v,
{
    let t = after_put(s, cap, k, v);
    if has_key(s, k) {
        let i = key_index(s, k);
        assert forall|a: int, b: int| 0 <= a < b < t.len() implies t[a].0 != t[b].0 by {
            if a > 0 {
                assert(t[a] == s[moved_from(i, a)]);
            }
            assert(t[b] == s[moved_from(i, b)]);
        }
    } else {
        assert forall|a: int, b: int| 0 <= a < b < t.len() implies t[a].0 != t[b].0 by {
            if a > 0 {
                assert(t[a] == s[a - 1]);
            }
            assert(t[b] == s[b - 1]);
            assert(s[b - 1].0 != k);
        }
    }
    assert(t[0].0 == k);
    let m = key_index(t, k);
    assert(t[m].0 == k);
    assert(m == 0);
}

} // verus!
