//! The durable chunk store.
//!
//! Chunk payloads are keyed by `(item id, chunk index)` and live in a
//! `StableBTreeMap` of the `ic-stable-structures` crate, which persists them in
//! a stable memory.  The store is opaque to verification: its contents are
//! named by the uninterpreted function [`chunk_map`], and a small set of
//! trusted wrappers states what each call does to that map, going by the
//! crate's source.

use crate::{ChunkId, ItemId};
use vstd::prelude::*;

verus! {

/// The durable mapping from `(item id, chunk index)` to a byte payload.
///
/// The tree lives in its own region of a managed memory, so that it shares
/// the host's stable memory with other consumers — the upgrade blob among
/// them — without overlapping.
#[verifier::external_body]
pub struct ChunkStore {
    map: ic_stable_structures::StableBTreeMap<
        (ItemId, ChunkId),
        Vec<u8>,
        ic_stable_structures::memory_manager::VirtualMemory<
            ic_stable_structures::DefaultMemoryImpl,
        >,
    >,
}

/// What the store holds: its key-payload map.
pub uninterp spec fn chunk_map(s: ChunkStore) -> Map<(ItemId, ChunkId), Seq<u8>>;

impl View for ChunkStore {
    type V = Map<(ItemId, ChunkId), Seq<u8>>;

    open spec fn view(&self) -> Map<(ItemId, ChunkId), Seq<u8>> {
        chunk_map(*self)
    }
}

/// The keys of the chunks stored for one item.
pub open spec fn chunk_keys(m: Map<(ItemId, ChunkId), Seq<u8>>, item_id: ItemId) -> Set<
    (ItemId, ChunkId),
> {
    m.dom().filter(|k: (ItemId, ChunkId)| k.0 == item_id)
}

/// The number of chunks stored for one item.
pub open spec fn stored_chunks(m: Map<(ItemId, ChunkId), Seq<u8>>, item_id: ItemId) -> nat {
    chunk_keys(m, item_id).len()
}

impl ChunkStore {
    /// Relies on `StableBTreeMap::new` of `ic-stable-structures`, which
    /// writes a fresh, empty tree whatever its memory held, and on
    /// `MemoryManager::init` and `MemoryManager::get`, which carve the
    /// store's own region out of the host memory.
    #[verifier::external_body]
    pub fn new() -> (store: ChunkStore)
        ensures
            forall|k: (ItemId, ChunkId)| !(#[trigger] store@.contains_key(k)),
    {
        let manager = ic_stable_structures::memory_manager::MemoryManager::init(
            ic_stable_structures::DefaultMemoryImpl::default(),
        );
        let region = manager.get(ic_stable_structures::memory_manager::MemoryId::new(1));
        ChunkStore { map: ic_stable_structures::StableBTreeMap::new(region) }
    }

    /// Relies on `StableBTreeMap::init` of `ic-stable-structures`, which
    /// loads the tree its memory already holds — or creates an empty one —
    /// and on `MemoryManager::init`/`get` for the store's region.  Nothing
    /// can be said of the loaded contents beyond their finiteness: the tree
    /// holds finitely many entries (its length is a single counter).
    #[verifier::external_body]
    pub fn load() -> (store: ChunkStore)
        ensures
            store@.dom().finite(),
    {
        let manager = ic_stable_structures::memory_manager::MemoryManager::init(
            ic_stable_structures::DefaultMemoryImpl::default(),
        );
        let region = manager.get(ic_stable_structures::memory_manager::MemoryId::new(1));
        ChunkStore { map: ic_stable_structures::StableBTreeMap::init(region) }
    }

    /// Relies on `StableBTreeMap::insert` of `ic-stable-structures`: binds the key
    /// to the payload, replacing any previous payload.
    #[verifier::external_body]
    pub fn insert(&mut self, key: (ItemId, ChunkId), value: Vec<u8>)
        ensures
            chunk_map(*final(self)) == chunk_map(*old(self)).insert(key, value@),
    {
        self.map.insert(key, value);
    }

    /// Relies on `StableBTreeMap::get` of `ic-stable-structures`: returns the
    /// payload bound to the key, if any.
    #[verifier::external_body]
    pub fn get(&self, key: &(ItemId, ChunkId)) -> (r: Option<Vec<u8>>)
        ensures
            match r {
                Some(v) => chunk_map(*self).contains_key(*key) && v@ == chunk_map(*self)[*key],
                None => !chunk_map(*self).contains_key(*key),
            },
    {
        self.map.get(key)
    }

    /// Relies on `StableBTreeMap::contains_key` of `ic-stable-structures`.
    #[verifier::external_body]
    pub fn contains_key(&self, key: &(ItemId, ChunkId)) -> (r: bool)
        ensures
            r == chunk_map(*self).contains_key(*key),
    {
        self.map.contains_key(key)
    }

    /// Relies on `StableBTreeMap::remove` of `ic-stable-structures`: unbinds the key.
    #[verifier::external_body]
    pub fn remove(&mut self, key: &(ItemId, ChunkId))
        ensures
            chunk_map(*final(self)) == chunk_map(*old(self)).remove(*key),
    {
        self.map.remove(key);
    }

    /// Relies on `StableBTreeMap::range` of `ic-stable-structures`: iterating the
    /// inclusive key range `(item_id, 0) ..= (item_id, u64::MAX)` visits
    /// exactly the entries whose item component equals `item_id`, since keys
    /// order lexicographically; counting them gives the number of chunks
    /// stored for the item.
    #[verifier::external_body]
    pub fn count_chunks_of(&self, item_id: ItemId) -> (r: u64)
        ensures
            r as nat == stored_chunks(chunk_map(*self), item_id),
    {
        self.map.range((item_id, 0u64)..=(item_id, u64::MAX)).count() as u64
    }
}

/// Binding one key adds at most that key to an item's chunk keys.
pub proof fn lemma_stored_insert(
    m: Map<(ItemId, ChunkId), Seq<u8>>,
    key: (ItemId, ChunkId),
    v: Seq<u8>,
    item_id: ItemId,
)
    requires
        m.dom().finite(),
    ensures
        key.0 == item_id ==> chunk_keys(m.insert(key, v), item_id) == chunk_keys(
            m,
            item_id,
        ).insert(key),
        key.0 != item_id ==> chunk_keys(m.insert(key, v), item_id) == chunk_keys(m, item_id),
        stored_chunks(m.insert(key, v), item_id) == stored_chunks(m, item_id) + (
        if key.0 == item_id && !m.contains_key(key) {
            1int
        } else {
            0int
        }),
{
    broadcast use vstd::set::group_set_axioms, vstd::map::group_map_axioms;

    m.dom().lemma_len_filter(|k: (ItemId, ChunkId)| k.0 == item_id);
    if key.0 == item_id {
        assert(chunk_keys(m.insert(key, v), item_id) =~= chunk_keys(m, item_id).insert(key));
        assert(chunk_keys(m, item_id).contains(key) == m.contains_key(key));
    } else {
        assert(chunk_keys(m.insert(key, v), item_id) =~= chunk_keys(m, item_id));
    }
}

/// The chunk keys of an item up to an index bound.
pub open spec fn keys_below(item_id: ItemId, n: ChunkId) -> Set<(ItemId, ChunkId)> {
    Set::new(|k: (ItemId, ChunkId)| k.0 == item_id && k.1 < n)
}

/// There are exactly `n` possible chunk keys below the bound `n`.
pub proof fn lemma_keys_below_len(item_id: ItemId, n: ChunkId)
    ensures
        keys_below(item_id, n).finite(),
        keys_below(item_id, n).len() == n,
    decreases n,
{
    broadcast use vstd::set::group_set_axioms;

    if n == 0 {
        assert(keys_below(item_id, 0) =~= Set::<(ItemId, ChunkId)>::empty());
    } else {
        lemma_keys_below_len(item_id, (n - 1) as u64);
        assert(keys_below(item_id, n) =~= keys_below(item_id, (n - 1) as u64).insert(
            (item_id, (n - 1) as u64),
        ));
        assert(!keys_below(item_id, (n - 1) as u64).contains((item_id, (n - 1) as u64)));
    }
}

/// If an item's chunk indices all lie below `n` and `n` of them are stored,
/// then every index below `n` is stored.
pub proof fn lemma_complete_chunks(m: Map<(ItemId, ChunkId), Seq<u8>>, item_id: ItemId, n: ChunkId)
    requires
        m.dom().finite(),
        forall|k: (ItemId, ChunkId)|
            #[trigger] m.contains_key(k) && k.0 == item_id ==> k.1 < n,
        stored_chunks(m, item_id) == n,
    ensures
        forall|c: ChunkId| c < n ==> #[trigger] m.contains_key((item_id, c)),
{
    broadcast use vstd::set::group_set_axioms;

    let a = chunk_keys(m, item_id);
    let b = keys_below(item_id, n);
    m.dom().lemma_len_filter(|k: (ItemId, ChunkId)| k.0 == item_id);
    lemma_keys_below_len(item_id, n);
    assert(a.subset_of(b));
    assert forall|c: ChunkId| c < n implies #[trigger] m.contains_key((item_id, c)) by {
        if !m.contains_key((item_id, c)) {
            let x = (item_id, c);
            assert(b.contains(x) && !a.contains(x));
            assert(a.subset_of(b.remove(x)));
            vstd::set::axiom_set_remove_len(b, x);
            vstd::set_lib::lemma_len_subset(a, b.remove(x));
        }
    }
}

/// The total length of the chunks of an item with indices below `n`; an
/// absent index contributes nothing.
pub open spec fn chunks_size_sum(
    m: Map<(ItemId, ChunkId), Seq<u8>>,
    item_id: ItemId,
    n: int,
) -> int
    decreases n,
{
    if n <= 0 {
        0
    } else {
        chunks_size_sum(m, item_id, n - 1) + (if m.contains_key((item_id, (n - 1) as u64)) {
            m[(item_id, (n - 1) as u64)].len() as int
        } else {
            0
        })
    }
}

/// A value clamped to the range of `u64`.
pub open spec fn clamp_u64(x: int) -> u64 {
    if x > u64::MAX {
        u64::MAX
    } else if x < 0 {
        0
    } else {
        x as u64
    }
}

/// The chunk sum never falls.
pub proof fn lemma_sum_nonneg(m: Map<(ItemId, ChunkId), Seq<u8>>, item_id: ItemId, n: int)
    ensures
        chunks_size_sum(m, item_id, n) >= 0,
    decreases n,
{
    if n > 0 {
        lemma_sum_nonneg(m, item_id, n - 1);
    }
}

/// Binding a key outside an item's index range leaves its chunk sum alone.
pub proof fn lemma_sum_insert_frame(
    m: Map<(ItemId, ChunkId), Seq<u8>>,
    key: (ItemId, ChunkId),
    v: Seq<u8>,
    item_id: ItemId,
    n: int,
)
    requires
        key.0 != item_id || key.1 >= n,
    ensures
        chunks_size_sum(m.insert(key, v), item_id, n) == chunks_size_sum(m, item_id, n),
    decreases n,
{
    if n > 0 {
        lemma_sum_insert_frame(m, key, v, item_id, n - 1);
    }
}

/// The chunk map left after discarding every chunk of one item.
pub open spec fn chunks_without(
    m: Map<(ItemId, ChunkId), Seq<u8>>,
    item_id: ItemId,
) -> Map<(ItemId, ChunkId), Seq<u8>> {
    Map::new(
        |k: (ItemId, ChunkId)| m.contains_key(k) && k.0 != item_id,
        |k: (ItemId, ChunkId)| m[k],
    )
}

/// Two chunk maps that agree on an item's keys give it the same chunk sum.
pub proof fn lemma_sum_agree(
    m1: Map<(ItemId, ChunkId), Seq<u8>>,
    m2: Map<(ItemId, ChunkId), Seq<u8>>,
    item_id: ItemId,
    n: int,
)
    requires
        forall|c: ChunkId| #[trigger]
            m2.contains_key((item_id, c)) == m1.contains_key((item_id, c)),
        forall|c: ChunkId| #[trigger]
            m1.contains_key((item_id, c)) ==> m2[(item_id, c)] == m1[(item_id, c)],
    ensures
        chunks_size_sum(m2, item_id, n) == chunks_size_sum(m1, item_id, n),
    decreases n,
{
    if n > 0 {
        lemma_sum_agree(m1, m2, item_id, n - 1);
        assert(m2.contains_key((item_id, (n - 1) as u64)) == m1.contains_key(
            (item_id, (n - 1) as u64),
        ));
    }
}

/// Two chunk maps that agree on an item's keys store the same number of its
/// chunks.
pub proof fn lemma_stored_agree(
    m1: Map<(ItemId, ChunkId), Seq<u8>>,
    m2: Map<(ItemId, ChunkId), Seq<u8>>,
    item_id: ItemId,
)
    requires
        forall|c: ChunkId| #[trigger]
            m2.contains_key((item_id, c)) == m1.contains_key((item_id, c)),
    ensures
        stored_chunks(m2, item_id) == stored_chunks(m1, item_id),
{
    assert(chunk_keys(m2, item_id) =~= chunk_keys(m1, item_id)) by {
        assert forall|k: (ItemId, ChunkId)| #[trigger]
            chunk_keys(m2, item_id).contains(k) == chunk_keys(m1, item_id).contains(k) by {
            if k.0 == item_id {
                assert(m2.contains_key((item_id, k.1)) == m1.contains_key((item_id, k.1)));
                assert(k == (item_id, k.1));
            }
        }
    }
}

} // verus!
