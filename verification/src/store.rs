//! In-memory stores backing the engine's state.
//!
//! Every store is an association vector with unique keys, viewed in
//! specifications as a `Map`.  The item store additionally keeps its records
//! sorted by id — ids are handed out by a monotone counter, so a fresh record
//! is always appended at the end — which fixes the iteration order that the
//! listing operations expose.

use crate::item::{ItemMetadata, ItemModel};
use crate::ItemId;
use vstd::prelude::*;

verus! {

/// True when the records of `s` are strictly sorted by id.
pub open spec fn ids_sorted(s: Seq<ItemModel>) -> bool {
    forall|i: int, j: int| 0 <= i < j < s.len() ==> s[i].id < s[j].id
}

/// True when some record of `s` has id `id`.
pub open spec fn contains_id(s: Seq<ItemModel>, id: ItemId) -> bool {
    exists|i: int| 0 <= i < s.len() && s[i].id == id
}

/// The index of the record of `s` with id `id`.
pub open spec fn idx_of(s: Seq<ItemModel>, id: ItemId) -> int {
    choose|i: int| 0 <= i < s.len() && s[i].id == id
}

/// The map from ids to records that an id-keyed record sequence denotes.
pub open spec fn seq_to_map(s: Seq<ItemModel>) -> Map<ItemId, ItemModel> {
    Map::new(|id: ItemId| contains_id(s, id), |id: ItemId| s[idx_of(s, id)])
}

/// In a sorted sequence, an id determines its index.
pub proof fn lemma_idx_unique(s: Seq<ItemModel>, i: int)
    requires
        ids_sorted(s),
        0 <= i < s.len(),
    ensures
        idx_of(s, s[i].id) == i,
        seq_to_map(s).contains_key(s[i].id),
        seq_to_map(s)[s[i].id] == s[i],
{
    let id = s[i].id;
    assert(contains_id(s, id));
    let j = idx_of(s, id);
    if j < i {
        assert(s[j].id < s[i].id);
    } else if j > i {
        assert(s[i].id < s[j].id);
    }
}

/// Appending a record with a fresh maximal id inserts it into the map view.
pub proof fn lemma_push_map(s: Seq<ItemModel>, item: ItemModel)
    requires
        ids_sorted(s),
        !contains_id(s, item.id),
        forall|i: int| 0 <= i < s.len() ==> s[i].id < item.id,
    ensures
        ids_sorted(s.push(item)),
        seq_to_map(s.push(item)) =~= seq_to_map(s).insert(item.id, item),
{
    let s2 = s.push(item);
    assert forall|i: int, j: int| 0 <= i < j < s2.len() implies s2[i].id < s2[j].id by {
        if j < s.len() {
        } else {
            assert(s2[i] == s[i]);
        }
    }
    assert forall|k: ItemId| #[trigger] contains_id(s2, k) implies contains_id(s, k) || k
        == item.id by {
        let i = choose|i: int| 0 <= i < s2.len() && s2[i].id == k;
        if i < s.len() {
            assert(s[i].id == k);
        }
    }
    assert forall|k: ItemId| contains_id(s, k) implies #[trigger] contains_id(s2, k) by {
        let i = choose|i: int| 0 <= i < s.len() && s[i].id == k;
        assert(s2[i].id == k);
    }
    assert(contains_id(s2, item.id)) by {
        assert(s2[s.len() as int].id == item.id);
    }
    assert forall|k: ItemId| #[trigger] contains_id(s2, k) implies seq_to_map(s2)[k] == seq_to_map(
        s,
    ).insert(item.id, item)[k] by {
        if k == item.id {
            lemma_idx_unique(s2, s.len() as int);
        } else {
            let i = choose|i: int| 0 <= i < s.len() && s[i].id == k;
            lemma_idx_unique(s, i);
            lemma_idx_unique(s2, i);
        }
    }
}

/// Replacing the record at an index updates the map view at its id.
pub proof fn lemma_update_map(s: Seq<ItemModel>, i: int, item: ItemModel)
    requires
        ids_sorted(s),
        0 <= i < s.len(),
        item.id == s[i].id,
    ensures
        ids_sorted(s.update(i, item)),
        seq_to_map(s.update(i, item)) =~= seq_to_map(s).insert(item.id, item),
{
    let s2 = s.update(i, item);
    assert forall|p: int, q: int| 0 <= p < q < s2.len() implies s2[p].id < s2[q].id by {
        assert(s2[p].id == s[p].id && s2[q].id == s[q].id);
    }
    assert forall|k: ItemId| #[trigger] contains_id(s2, k) == contains_id(s, k) by {
        if contains_id(s2, k) {
            let p = choose|p: int| 0 <= p < s2.len() && s2[p].id == k;
            assert(s[p].id == k);
        }
        if contains_id(s, k) {
            let p = choose|p: int| 0 <= p < s.len() && s[p].id == k;
            assert(s2[p].id == k);
        }
    }
    assert forall|k: ItemId| #[trigger] contains_id(s2, k) implies seq_to_map(s2)[k] == seq_to_map(
        s,
    ).insert(item.id, item)[k] by {
        if k == item.id {
            lemma_idx_unique(s2, i);
            lemma_idx_unique(s, i);
        } else {
            let p = choose|p: int| 0 <= p < s.len() && s[p].id == k;
            assert(p != i);
            lemma_idx_unique(s, p);
            lemma_idx_unique(s2, p);
        }
    }
}

/// Removing the record at an index removes its id from the map view.
pub proof fn lemma_remove_map(s: Seq<ItemModel>, i: int)
    requires
        ids_sorted(s),
        0 <= i < s.len(),
    ensures
        ids_sorted(s.remove(i)),
        seq_to_map(s.remove(i)) =~= seq_to_map(s).remove(s[i].id),
{
    let id = s[i].id;
    let s2 = s.remove(i);
    assert forall|p: int, q: int| 0 <= p < q < s2.len() implies s2[p].id < s2[q].id by {
        let p1 = if p < i {
            p
        } else {
            p + 1
        };
        let q1 = if q < i {
            q
        } else {
            q + 1
        };
        assert(s2[p] == s[p1] && s2[q] == s[q1]);
    }
    assert forall|k: ItemId| #[trigger] contains_id(s2, k) implies contains_id(s, k) && k != id by {
        let p = choose|p: int| 0 <= p < s2.len() && s2[p].id == k;
        let p1 = if p < i {
            p
        } else {
            p + 1
        };
        assert(s[p1].id == k);
        lemma_idx_unique(s, p1);
        if k == id {
            lemma_idx_unique(s, i);
        }
    }
    assert forall|k: ItemId| contains_id(s, k) && k != id implies #[trigger] contains_id(
        s2,
        k,
    ) by {
        let p = choose|p: int| 0 <= p < s.len() && s[p].id == k;
        assert(p != i);
        let p2 = if p < i {
            p
        } else {
            p - 1
        };
        assert(s2[p2].id == k);
    }
    assert forall|k: ItemId| #[trigger] contains_id(s2, k) implies seq_to_map(s2)[k] == seq_to_map(
        s,
    ).remove(id)[k] by {
        let p = choose|p: int| 0 <= p < s2.len() && s2[p].id == k;
        let p1 = if p < i {
            p
        } else {
            p + 1
        };
        assert(s[p1].id == k);
        lemma_idx_unique(s2, p);
        lemma_idx_unique(s, p1);
    }
}

/// The id-keyed store of item records, sorted by id.
pub struct ItemStore {
    vec: Vec<ItemMetadata>,
}

impl View for ItemStore {
    type V = Map<ItemId, ItemModel>;

    closed spec fn view(&self) -> Map<ItemId, ItemModel> {
        seq_to_map(self.models())
    }
}

impl ItemStore {
    /// The records of the store in ascending id order.
    pub closed spec fn models(&self) -> Seq<ItemModel> {
        self.vec@.map_values(|it: ItemMetadata| it@)
    }

    /// Well-formedness: records strictly sorted by id.
    pub closed spec fn inv(&self) -> bool {
        ids_sorted(self.models())
    }

    /// The map view is the one the record sequence denotes.
    pub proof fn lemma_view(&self)
        ensures
            self@ == seq_to_map(self.models()),
            self.inv() ==> ids_sorted(self.models()),
    {
    }

    /// An empty store.
    pub fn new() -> (r: ItemStore)
        ensures
            r.inv(),
            r@ =~= Map::<ItemId, ItemModel>::empty(),
            r.models() =~= Seq::<ItemModel>::empty(),
    {
        let r = ItemStore { vec: Vec::new() };
        proof {
            assert(r.models() =~= Seq::<ItemModel>::empty());
            assert forall|k: ItemId| !(#[trigger] r@.contains_key(k)) by {
                assert(!contains_id(r.models(), k));
            }
        }
        r
    }

    /// The number of records.
    pub fn len(&self) -> (n: usize)
        ensures
            n == self.models().len(),
    {
        self.vec.len()
    }

    /// The record at a position, in ascending id order.
    pub fn get_at(&self, i: usize) -> (r: &ItemMetadata)
        requires
            self.inv(),
            i < self.models().len(),
        ensures
            r@ == self.models()[i as int],
            self@.contains_key(r@.id),
            self@[r@.id] == r@,
    {
        proof {
            lemma_idx_unique(self.models(), i as int);
        }
        &self.vec[i]
    }

    /// Looks a record up by id.
    pub fn get(&self, id: &ItemId) -> (r: Option<&ItemMetadata>)
        requires
            self.inv(),
        ensures
            match r {
                Some(it) => self@.contains_key(*id) && it@ == self@[*id] && it@.id == *id,
                None => !self@.contains_key(*id),
            },
    {
        let n = self.vec.len();
        let mut i: usize = 0;
        while i < n
            invariant
                self.inv(),
                n == self.models().len(),
                i <= n,
                forall|j: int| 0 <= j < i ==> self.models()[j].id != *id,
            decreases n - i,
        {
            if self.vec[i].id == *id {
                proof {
                    lemma_idx_unique(self.models(), i as int);
                }
                return Some(&self.vec[i]);
            }
            i = i + 1;
        }
        proof {
            assert(!contains_id(self.models(), *id));
        }
        None
    }

    /// True when a record with this id exists.
    pub fn contains_key(&self, id: &ItemId) -> (r: bool)
        requires
            self.inv(),
        ensures
            r == self@.contains_key(*id),
    {
        self.get(id).is_some()
    }

    /// Inserts or replaces the record with the given id.
    ///
    /// A record with a fresh id may only be appended with an id above every
    /// existing one — ids come from a monotone counter, so this is the only
    /// fresh insertion the engine ever performs.
    pub fn insert(&mut self, id: ItemId, item: ItemMetadata)
        requires
            old(self).inv(),
            item@.id == id,
            old(self)@.contains_key(id) || (forall|k: ItemId|
                #[trigger] old(self)@.contains_key(k) ==> k < id),
        ensures
            final(self).inv(),
            final(self)@ == old(self)@.insert(id, item@),
            old(self)@.contains_key(id) ==> final(self).models() == old(self).models().update(
                idx_of(old(self).models(), id),
                item@,
            ),
            !old(self)@.contains_key(id) ==> final(self).models() == old(self).models().push(item@),
    {
        let ghost s = self.models();
        let n = self.vec.len();
        let mut i: usize = 0;
        while i < n
            invariant
                n == s.len(),
                s == self.models(),
                ids_sorted(s),
                i <= n,
                forall|j: int| 0 <= j < i ==> s[j].id != id,
            decreases n - i,
        {
            if self.vec[i].id == id {
                proof {
                    assert(s[i as int] == self.vec@[i as int]@);
                    lemma_idx_unique(s, i as int);
                    lemma_update_map(s, i as int, item@);
                }
                self.vec.set(i, item);
                proof {
                    assert(self.models() =~= s.update(i as int, item@));
                }
                return ;
            }
            i = i + 1;
        }
        proof {
            assert(!contains_id(s, id));
            assert forall|p: int| 0 <= p < s.len() implies s[p].id < id by {
                lemma_idx_unique(s, p);
                assert(old(self)@.contains_key(s[p].id));
            }
            lemma_push_map(s, item@);
        }
        self.vec.push(item);
        proof {
            assert(self.models() =~= s.push(item@));
        }
    }

    /// Removes the record with the given id, if present.
    pub fn remove(&mut self, id: &ItemId)
        requires
            old(self).inv(),
        ensures
            final(self).inv(),
            final(self)@ == old(self)@.remove(*id),
            old(self)@.contains_key(*id) ==> final(self).models() == old(self).models().remove(
                idx_of(old(self).models(), *id),
            ),
            !old(self)@.contains_key(*id) ==> final(self).models() == old(self).models(),
    {
        let ghost s = self.models();
        let n = self.vec.len();
        let mut i: usize = 0;
        while i < n
            invariant
                n == s.len(),
                s == self.models(),
                ids_sorted(s),
                i <= n,
                forall|j: int| 0 <= j < i ==> s[j].id != *id,
            decreases n - i,
        {
            if self.vec[i].id == *id {
                proof {
                    assert(s[i as int] == self.vec@[i as int]@);
                    lemma_idx_unique(s, i as int);
                    lemma_remove_map(s, i as int);
                }
                self.vec.remove(i);
                proof {
                    assert(self.models() =~= s.remove(i as int));
                }
                return ;
            }
            i = i + 1;
        }
        proof {
            assert(!contains_id(s, *id));
            assert(self@ =~= old(self)@.remove(*id));
        }
    }
}

/// True when some pair of `s` has key `k`.
pub open spec fn pair_contains<K, V>(s: Seq<(K, V)>, k: K) -> bool {
    exists|i: int| 0 <= i < s.len() && s[i].0 == k
}

/// The index of the pair of `s` with key `k`.
pub open spec fn pair_idx<K, V>(s: Seq<(K, V)>, k: K) -> int {
    choose|i: int| 0 <= i < s.len() && s[i].0 == k
}

/// The map that a key-value pair sequence denotes.
pub open spec fn pair_map<K, V>(s: Seq<(K, V)>) -> Map<K, V> {
    Map::new(|k: K| pair_contains(s, k), |k: K| s[pair_idx(s, k)].1)
}

/// True when no two pairs of `s` share a key.
pub open spec fn pair_unique<K, V>(s: Seq<(K, V)>) -> bool {
    forall|i: int, j: int| 0 <= i < j < s.len() ==> s[i].0 != s[j].0
}

/// With unique keys, a key determines its index.
pub proof fn lemma_pair_idx<K, V>(s: Seq<(K, V)>, i: int)
    requires
        pair_unique(s),
        0 <= i < s.len(),
    ensures
        pair_idx(s, s[i].0) == i,
        pair_map(s).contains_key(s[i].0),
        pair_map(s)[s[i].0] == s[i].1,
{
    assert(pair_contains(s, s[i].0));
    let j = pair_idx(s, s[i].0);
    assert(0 <= j < s.len() && s[j].0 == s[i].0);
    if i != j {
        if i < j {
            assert(s[i].0 != s[j].0);
        } else {
            assert(s[j].0 != s[i].0);
        }
    }
}

/// Appending a pair with a fresh key inserts it into the map.
pub proof fn lemma_pair_push<K, V>(s: Seq<(K, V)>, e: (K, V))
    requires
        pair_unique(s),
        !pair_contains(s, e.0),
    ensures
        pair_unique(s.push(e)),
        pair_map(s.push(e)) =~= pair_map(s).insert(e.0, e.1),
{
    let s2 = s.push(e);
    assert forall|i: int, j: int| 0 <= i < j < s2.len() implies s2[i].0 != s2[j].0 by {
        if j < s.len() {
        } else {
            assert(s2[i] == s[i]);
            assert(pair_contains(s, s[i].0));
        }
    }
    assert(s2[s.len() as int] == e);
    assert forall|k: K| #[trigger] pair_contains(s2, k) implies pair_contains(s, k) || k == e.0 by {
        let i = choose|i: int| 0 <= i < s2.len() && s2[i].0 == k;
        if i < s.len() {
            assert(s[i].0 == k);
        }
    }
    assert forall|k: K| pair_contains(s, k) implies #[trigger] pair_contains(s2, k) by {
        let i = choose|i: int| 0 <= i < s.len() && s[i].0 == k;
        assert(s2[i].0 == k);
    }
    assert(pair_contains(s2, e.0));
    assert forall|k: K| #[trigger] pair_contains(s2, k) implies pair_map(s2)[k] == pair_map(
        s,
    ).insert(e.0, e.1)[k] by {
        if k == e.0 {
            lemma_pair_idx(s2, s.len() as int);
        } else {
            let i = choose|i: int| 0 <= i < s.len() && s[i].0 == k;
            lemma_pair_idx(s, i);
            lemma_pair_idx(s2, i);
        }
    }
}

/// Replacing the value at an index updates the map at its key.
pub proof fn lemma_pair_update<K, V>(s: Seq<(K, V)>, i: int, v: V)
    requires
        pair_unique(s),
        0 <= i < s.len(),
    ensures
        pair_unique(s.update(i, (s[i].0, v))),
        pair_map(s.update(i, (s[i].0, v))) =~= pair_map(s).insert(s[i].0, v),
{
    let s2 = s.update(i, (s[i].0, v));
    assert forall|p: int, q: int| 0 <= p < q < s2.len() implies s2[p].0 != s2[q].0 by {
        assert(s2[p].0 == s[p].0 && s2[q].0 == s[q].0);
    }
    assert forall|k: K| #[trigger] pair_contains(s2, k) == pair_contains(s, k) by {
        if pair_contains(s2, k) {
            let p = choose|p: int| 0 <= p < s2.len() && s2[p].0 == k;
            assert(s[p].0 == k);
        }
        if pair_contains(s, k) {
            let p = choose|p: int| 0 <= p < s.len() && s[p].0 == k;
            assert(s2[p].0 == k);
        }
    }
    assert forall|k: K| #[trigger] pair_contains(s2, k) implies pair_map(s2)[k] == pair_map(
        s,
    ).insert(s[i].0, v)[k] by {
        if k == s[i].0 {
            lemma_pair_idx(s2, i);
            lemma_pair_idx(s, i);
        } else {
            let p = choose|p: int| 0 <= p < s.len() && s[p].0 == k;
            assert(p != i);
            lemma_pair_idx(s, p);
            lemma_pair_idx(s2, p);
        }
    }
}

/// Removing the pair at an index removes its key from the map.
pub proof fn lemma_pair_remove<K, V>(s: Seq<(K, V)>, i: int)
    requires
        pair_unique(s),
        0 <= i < s.len(),
    ensures
        pair_unique(s.remove(i)),
        pair_map(s.remove(i)) =~= pair_map(s).remove(s[i].0),
{
    let k0 = s[i].0;
    let s2 = s.remove(i);
    assert forall|p: int, q: int| 0 <= p < q < s2.len() implies s2[p].0 != s2[q].0 by {
        let p1 = if p < i {
            p
        } else {
            p + 1
        };
        let q1 = if q < i {
            q
        } else {
            q + 1
        };
        assert(s2[p] == s[p1] && s2[q] == s[q1]);
    }
    assert forall|k: K| #[trigger] pair_contains(s2, k) implies pair_contains(s, k) && k != k0 by {
        let p = choose|p: int| 0 <= p < s2.len() && s2[p].0 == k;
        let p1 = if p < i {
            p
        } else {
            p + 1
        };
        assert(s[p1].0 == k);
        if k == k0 {
            assert(s[p1].0 == s[i].0 && p1 != i);
            lemma_pair_idx(s, p1);
            lemma_pair_idx(s, i);
        }
    }
    assert forall|k: K| pair_contains(s, k) && k != k0 implies #[trigger] pair_contains(
        s2,
        k,
    ) by {
        let p = choose|p: int| 0 <= p < s.len() && s[p].0 == k;
        assert(p != i);
        let p2 = if p < i {
            p
        } else {
            p - 1
        };
        assert(s2[p2].0 == k);
    }
    assert forall|k: K| #[trigger] pair_contains(s2, k) implies pair_map(s2)[k] == pair_map(
        s,
    ).remove(k0)[k] by {
        let p = choose|p: int| 0 <= p < s2.len() && s2[p].0 == k;
        let p1 = if p < i {
            p
        } else {
            p + 1
        };
        assert(s[p1].0 == k);
        lemma_pair_idx(s2, p);
        lemma_pair_idx(s, p1);
    }
}

/// Every element of a filtered pair sequence comes from the original, and
/// with unique keys the filter keeps keys unique.
pub proof fn lemma_pair_filter_unique<K, V>(s: Seq<(K, V)>, pred: spec_fn((K, V)) -> bool)
    requires
        pair_unique(s),
    ensures
        pair_unique(s.filter(pred)),
        forall|i: int|
            0 <= i < s.filter(pred).len() ==> exists|q: int|
                0 <= q < s.len() && s[q] == #[trigger] s.filter(pred)[i],
    decreases s.len(),
{
    reveal(Seq::filter);
    let f = s.filter(pred);
    if s.len() == 0 {
    } else {
        let d = s.drop_last();
        let last = s.last();
        assert(pair_unique(d));
        lemma_pair_filter_unique(d, pred);
        let fd = d.filter(pred);
        assert forall|i: int|
            0 <= i < f.len() implies exists|q: int| 0 <= q < s.len() && s[q] == #[trigger] f[i] by {
            if pred(last) && i == f.len() - 1 {
                assert(s[s.len() - 1] == f[i]);
            } else {
                assert(f[i] == fd[i]);
                let q = choose|q: int| 0 <= q < d.len() && d[q] == fd[i];
                assert(s[q] == f[i]);
            }
        }
        if pred(last) {
            assert(f == fd.push(last));
            assert forall|i: int, j: int| 0 <= i < j < f.len() implies f[i].0 != f[j].0 by {
                if j == f.len() - 1 {
                    let q = choose|q: int| 0 <= q < d.len() && d[q] == fd[i];
                    assert(f[i] == fd[i]);
                    assert(s[q] == f[i]);
                    if s[q].0 == last.0 {
                        assert(s[q].0 == s[s.len() - 1].0 && q < s.len() - 1);
                    }
                }
            }
        } else {
            assert(f == fd);
        }
    }
}

/// Filtering pairs restricts the map to the kept pairs.
pub proof fn lemma_pair_filter<K, V>(s: Seq<(K, V)>, pred: spec_fn((K, V)) -> bool)
    requires
        pair_unique(s),
    ensures
        pair_unique(s.filter(pred)),
        pair_map(s.filter(pred)) =~= Map::new(
            |k: K| pair_contains(s, k) && pred((k, pair_map(s)[k])),
            |k: K| pair_map(s)[k],
        ),
{
    broadcast use vstd::seq_lib::group_filter_ensures;

    let f = s.filter(pred);
    lemma_pair_filter_unique(s, pred);
    assert forall|k: K| #[trigger] pair_contains(f, k) implies pair_contains(s, k) && pred(
        (k, pair_map(s)[k]),
    ) && pair_map(f)[k] == pair_map(s)[k] by {
        let i = choose|i: int| 0 <= i < f.len() && f[i].0 == k;
        let q = choose|q: int| 0 <= q < s.len() && s[q] == f[i];
        lemma_pair_idx(s, q);
        lemma_pair_idx(f, i);
        assert(pred(f[i]));
    }
    assert forall|k: K|
        pair_contains(s, k) && pred((k, pair_map(s)[k])) implies #[trigger] pair_contains(
        f,
        k,
    ) by {
        let q = choose|q: int| 0 <= q < s.len() && s[q].0 == k;
        lemma_pair_idx(s, q);
        assert(s[q] == (k, pair_map(s)[k]));
        assert(pred(s[q]));
        assert(f.contains(s[q]));
        let i = choose|i: int| 0 <= i < f.len() && f[i] == s[q];
        assert(f[i].0 == k);
    }
}

/// Mapping the values of pairs keeps keys unique and maps the values of the map.
pub proof fn lemma_pair_map_values<K, V, W>(s: Seq<(K, V)>, g: spec_fn(V) -> W)
    requires
        pair_unique(s),
    ensures
        pair_unique(s.map_values(|e: (K, V)| (e.0, g(e.1)))),
        pair_map(s.map_values(|e: (K, V)| (e.0, g(e.1)))) =~= Map::new(
            |k: K| pair_contains(s, k),
            |k: K| g(pair_map(s)[k]),
        ),
        forall|k: K|
            pair_contains(s.map_values(|e: (K, V)| (e.0, g(e.1))), k) == #[trigger] pair_contains(
                s,
                k,
            ),
{
    let s2 = s.map_values(|e: (K, V)| (e.0, g(e.1)));
    assert(s2.len() == s.len());
    assert forall|i: int| 0 <= i < s.len() implies s2[i].0 == s[i].0 && s2[i].1 == g(s[i].1) by {}
    assert forall|k: K| #[trigger] pair_contains(s2, k) == pair_contains(s, k) by {
        if pair_contains(s2, k) {
            let i = choose|i: int| 0 <= i < s2.len() && s2[i].0 == k;
            assert(s[i].0 == k);
        }
        if pair_contains(s, k) {
            let i = choose|i: int| 0 <= i < s.len() && s[i].0 == k;
            assert(s2[i].0 == k);
        }
    }
    assert forall|k: K| #[trigger] pair_contains(s2, k) implies pair_map(s2)[k] == g(
        pair_map(s)[k],
    ) by {
        let i = choose|i: int| 0 <= i < s.len() && s[i].0 == k;
        lemma_pair_idx(s, i);
        lemma_pair_idx(s2, i);
    }
}

} // verus!
