use vstd::prelude::*;

use ic_stable_structures::StableBTreeMap;
use ic_stable_structures::VectorMemory;

verus! {

/// The raw chunk payloads of all files, keyed by (file id, chunk index) and
/// ordered by key, so that a range scan over a fixed file id yields that
/// file's chunks in index order.
///
/// The store is carried by `ic_stable_structures::StableBTreeMap`, an ordered
/// map over a host-provided memory region; its behaviour is taken on trust
/// through the contracts below, which state ordinary ordered-map semantics
/// over the abstract contents `chunk_store_map`.
#[verifier::external_body]
pub struct ChunkStore {
    btree: StableBTreeMap<(u64, u64), Vec<u8>, VectorMemory>,
}

/// The abstract contents of a chunk store: which payload stands under which
/// (file id, chunk index) key.
pub uninterp spec fn chunk_store_map(s: ChunkStore) -> Map<(u64, u64), Seq<u8>>;

impl View for ChunkStore {
    type V = Map<(u64, u64), Seq<u8>>;

    open spec fn view(&self) -> Map<(u64, u64), Seq<u8>> {
        chunk_store_map(*self)
    }
}

impl ChunkStore {
    /// Relies on `StableBTreeMap::init` on a freshly allocated in-memory
    /// region, which is empty, so the resulting map is empty.  Durability of
    /// the region across restarts is the host's concern, not the store's.
    #[verifier::external_body]
    pub fn new() -> (r: ChunkStore)
        ensures
            forall|k: (u64, u64)| !chunk_store_map(r).contains_key(k),
    {
        ChunkStore { btree: StableBTreeMap::init(VectorMemory::default()) }
    }

    /// Relies on `StableBTreeMap::insert`: the entry is added or replaced,
    /// every other entry is untouched, and the previous value comes back.
    #[verifier::external_body]
    pub fn insert(&mut self, key: (u64, u64), value: Vec<u8>) -> (r: Option<Vec<u8>>)
        ensures
            chunk_store_map(*final(self)) == chunk_store_map(*old(self)).insert(key, value@),
            match r {
                Some(prev) => chunk_store_map(*old(self)).contains_key(key) && prev@
                    == chunk_store_map(*old(self))[key],
                None => !chunk_store_map(*old(self)).contains_key(key),
            },
    {
        self.btree.insert(key, value)
    }

    /// Relies on `StableBTreeMap::get`: the payload stored under the key, if
    /// any, deserialized into an owned vector.
    #[verifier::external_body]
    pub fn get(&self, key: &(u64, u64)) -> (r: Option<Vec<u8>>)
        ensures
            match r {
                Some(v) => chunk_store_map(*self).contains_key(*key) && v@ == chunk_store_map(
                    *self,
                )[*key],
                None => !chunk_store_map(*self).contains_key(*key),
            },
    {
        self.btree.get(key)
    }

    /// Relies on `StableBTreeMap::contains_key`.
    #[verifier::external_body]
    pub fn contains_key(&self, key: &(u64, u64)) -> (r: bool)
        ensures
            r == chunk_store_map(*self).contains_key(*key),
    {
        self.btree.contains_key(key)
    }

    /// Relies on `StableBTreeMap::remove`: the entry under the key is gone,
    /// every other entry is untouched, and the removed value comes back.
    #[verifier::external_body]
    pub fn remove(&mut self, key: &(u64, u64)) -> (r: Option<Vec<u8>>)
        ensures
            chunk_store_map(*final(self)) == chunk_store_map(*old(self)).remove(*key),
            match r {
                Some(prev) => chunk_store_map(*old(self)).contains_key(*key) && prev@
                    == chunk_store_map(*old(self))[*key],
                None => !chunk_store_map(*old(self)).contains_key(*key),
            },
    {
        self.btree.remove(key)
    }

    /// Relies on `StableBTreeMap::range` over the inclusive key range
    /// ((file_id, lo), (file_id, hi)): a B-tree range scan visits exactly the
    /// stored keys of that range, in ascending key order.  Returns the chunk
    /// indices of the visited keys.
    #[verifier::external_body]
    pub fn chunk_ids_in_range(&self, file_id: u64, lo: u64, hi: u64) -> (r: Vec<u64>)
        ensures
            forall|i: int, j: int| 0 <= i < j < r@.len() ==> r@[i] < r@[j],
            forall|c: u64| #[trigger]
                r@.contains(c) <==> (lo <= c <= hi && chunk_store_map(*self).contains_key(
                    (file_id, c),
                )),
    {
        self.btree.range((file_id, lo)..=(file_id, hi)).map(|e| e.key().1).collect()
    }
}

// ---------------------------------------------------------------------------
// What a complete chunk range means.
// ---------------------------------------------------------------------------

/// Whether every chunk index below `num_chunks` is present for `file_id`.
pub open spec fn all_chunks_present(
    chunks: Map<(u64, u64), Seq<u8>>,
    file_id: u64,
    num_chunks: u64,
) -> bool {
    forall|c: u64| c < num_chunks ==> chunks.contains_key((file_id, c))
}

/// In a strictly increasing sequence, the element at position `i` is at
/// least `i`.
proof fn lemma_strict_ge_at(s: Seq<u64>, i: int)
    requires
        forall|x: int, y: int| 0 <= x < y < s.len() ==> s[x] < s[y],
        0 <= i < s.len(),
    ensures
        s[i] >= i,
    decreases i,
{
    if i > 0 {
        lemma_strict_ge_at(s, i - 1);
    }
}

/// A strictly increasing sequence of `n` values below `n` is exactly
/// 0, 1, ..., n-1, so it contains every index below `n`.
pub proof fn lemma_chunk_ids_complete(s: Seq<u64>, n: u64)
    requires
        forall|x: int, y: int| 0 <= x < y < s.len() ==> s[x] < s[y],
        forall|i: int| 0 <= i < s.len() ==> s[i] < n,
        s.len() == n,
    ensures
        forall|c: u64| c < n ==> s.contains(c),
{
    assert forall|i: int| 0 <= i < s.len() implies s[i] == i by {
        lemma_strict_ge_at(s, i);
        lemma_strict_le_at(s, n, i);
    }
    assert forall|c: u64| c < n implies s.contains(c) by {
        assert(s[c as int] == c);
    }
}

/// In a strictly increasing sequence of values below `n` with `n` elements,
/// the element at position `i` is at most `i`.
proof fn lemma_strict_le_at(s: Seq<u64>, n: u64, i: int)
    requires
        forall|x: int, y: int| 0 <= x < y < s.len() ==> s[x] < s[y],
        forall|j: int| 0 <= j < s.len() ==> s[j] < n,
        s.len() == n,
        0 <= i < s.len(),
    ensures
        s[i] <= i,
    decreases s.len() - i,
{
    if i < s.len() - 1 {
        lemma_strict_le_at(s, n, i + 1);
    }
}

/// A strictly increasing sequence of values below `n` has at most `n`
/// elements.
pub proof fn lemma_chunk_ids_len(s: Seq<u64>, n: u64)
    requires
        forall|x: int, y: int| 0 <= x < y < s.len() ==> s[x] < s[y],
        forall|i: int| 0 <= i < s.len() ==> s[i] < n,
    ensures
        s.len() <= n,
{
    if s.len() > n {
        lemma_strict_ge_at(s, n as int);
    }
}

/// A strictly increasing sequence of values below `n` that contains every
/// value below `n` has at least `n` elements.
proof fn lemma_all_present_len(s: Seq<u64>, n: u64)
    requires
        forall|x: int, y: int| 0 <= x < y < s.len() ==> s[x] < s[y],
        forall|i: int| 0 <= i < s.len() ==> s[i] < n,
        forall|c: u64| c < n ==> s.contains(c),
    ensures
        s.len() >= n,
    decreases n,
{
    if n > 0 {
        let nm = (n - 1) as u64;
        assert(s.contains(nm));
        let i = choose|i: int| 0 <= i < s.len() && s[i] == nm;
        assert(i == s.len() - 1) by {
            if i < s.len() - 1 {
                assert(s[s.len() - 1] > s[i]);
                assert(s[s.len() - 1] < n);
            }
        }
        let d = s.drop_last();
        assert forall|x: int, y: int| 0 <= x < y < d.len() implies d[x] < d[y] by {
            assert(d[x] == s[x] && d[y] == s[y]);
        }
        assert forall|j: int| 0 <= j < d.len() implies d[j] < nm by {
            assert(d[j] == s[j]);
            assert(s[j] < s[s.len() - 1]);
        }
        assert forall|c: u64| c < nm implies d.contains(c) by {
            assert(s.contains(c));
            let k = choose|k: int| 0 <= k < s.len() && s[k] == c;
            assert(k < s.len() - 1) by {
                assert(s[s.len() - 1] == nm);
            }
            assert(d[k] == c);
        }
        lemma_all_present_len(d, nm);
    }
}

/// A strictly increasing sequence of values below `n` with fewer than `n`
/// elements misses some value below `n`.
pub proof fn lemma_chunk_ids_missing(s: Seq<u64>, n: u64)
    requires
        forall|x: int, y: int| 0 <= x < y < s.len() ==> s[x] < s[y],
        forall|i: int| 0 <= i < s.len() ==> s[i] < n,
        s.len() < n,
    ensures
        exists|c: u64| c < n && !s.contains(c),
{
    if forall|c: u64| c < n ==> s.contains(c) {
        lemma_all_present_len(s, n);
    }
}

} // verus!
