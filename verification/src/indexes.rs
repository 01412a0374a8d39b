//! Key-value indexes of the state: aliases, per-principal id lists, users.

use crate::item::clone_string;
use crate::principal::PrincipalId;
use crate::store::{lemma_pair_filter, lemma_pair_idx, lemma_pair_push, lemma_pair_remove,
    lemma_pair_update, pair_contains, pair_map, pair_unique};
use crate::users::{User, UserModel};
use crate::ItemId;
use vstd::prelude::*;

verus! {

/// The ids left after striking `id` from a list.
pub open spec fn ids_without(ids: Seq<ItemId>, id: ItemId) -> Seq<ItemId> {
    ids.filter(|x: ItemId| x != id)
}

/// Removes every occurrence of `id` from a vector of ids.
pub fn filter_out_id(v: &Vec<ItemId>, id: ItemId) -> (r: Vec<ItemId>)
    ensures
        r@ == ids_without(v@, id),
{
    let mut r: Vec<ItemId> = Vec::new();
    let n = v.len();
    let mut i: usize = 0;
    proof {
        reveal(Seq::filter);
        assert(v@.take(0) =~= Seq::<ItemId>::empty());
        assert(r@ == ids_without(v@.take(0), id));
    }
    while i < n
        invariant
            n == v@.len(),
            i <= n,
            r@ == ids_without(v@.take(i as int), id),
        decreases n - i,
    {
        proof {
            lemma_ids_without_step(v@, id, i as int);
        }
        if v[i] != id {
            r.push(v[i]);
        }
        i = i + 1;
    }
    proof {
        assert(v@.take(n as int) =~= v@);
    }
    r
}

/// Filtering one more element extends the filtered prefix.
pub proof fn lemma_ids_without_step(s: Seq<ItemId>, id: ItemId, i: int)
    requires
        0 <= i < s.len(),
    ensures
        ids_without(s.take(i + 1), id) == (if s[i] != id {
            ids_without(s.take(i), id).push(s[i])
        } else {
            ids_without(s.take(i), id)
        }),
{
    reveal(Seq::filter);
    assert(s.take(i + 1).drop_last() =~= s.take(i));
    assert(s.take(i + 1).last() == s[i]);
}

/// Copies a vector of ids.
pub fn clone_ids(v: &Vec<ItemId>) -> (r: Vec<ItemId>)
    ensures
        r@ == v@,
{
    let mut r: Vec<ItemId> = Vec::new();
    let n = v.len();
    let mut i: usize = 0;
    while i < n
        invariant
            n == v@.len(),
            i <= n,
            r@ == v@.take(i as int),
        decreases n - i,
    {
        r.push(v[i]);
        assert(r@ =~= v@.take(i as int + 1));
        i = i + 1;
    }
    assert(r@ =~= v@);
    r
}

/// True when a vector contains an id.
pub fn ids_contain(v: &Vec<ItemId>, id: ItemId) -> (r: bool)
    ensures
        r == v@.contains(id),
{
    let n = v.len();
    let mut i: usize = 0;
    while i < n
        invariant
            n == v@.len(),
            i <= n,
            forall|j: int| 0 <= j < i ==> v@[j] != id,
        decreases n - i,
    {
        if v[i] == id {
            return true;
        }
        i = i + 1;
    }
    false
}

/// An index from alias strings to item ids.
pub struct StringIdMap {
    vec: Vec<(String, ItemId)>,
}

impl View for StringIdMap {
    type V = Map<Seq<char>, ItemId>;

    closed spec fn view(&self) -> Map<Seq<char>, ItemId> {
        pair_map(self.entries())
    }
}

/// The map left after discarding every alias that points at `id`.
pub open spec fn without_value(m: Map<Seq<char>, ItemId>, id: ItemId) -> Map<Seq<char>, ItemId> {
    Map::new(|a: Seq<char>| m.contains_key(a) && m[a] != id, |a: Seq<char>| m[a])
}

impl StringIdMap {
    /// The alias-id pairs of the index.
    pub closed spec fn entries(&self) -> Seq<(Seq<char>, ItemId)> {
        self.vec@.map_values(|e: (String, ItemId)| (e.0@, e.1))
    }

    /// Well-formedness: alias strings are unique.
    pub closed spec fn inv(&self) -> bool {
        pair_unique(self.entries())
    }

    /// An empty index.
    pub fn new() -> (r: StringIdMap)
        ensures
            r.inv(),
            r@ =~= Map::<Seq<char>, ItemId>::empty(),
    {
        let r = StringIdMap { vec: Vec::new() };
        proof {
            assert(r.entries() =~= Seq::<(Seq<char>, ItemId)>::empty());
            assert forall|k: Seq<char>| !(#[trigger] r@.contains_key(k)) by {
                assert(!pair_contains(r.entries(), k));
            }
        }
        r
    }

    /// True when the index holds no alias.
    pub fn is_empty(&self) -> (r: bool)
        requires
            self.inv(),
        ensures
            r == (self@ == Map::<Seq<char>, ItemId>::empty()),
    {
        let e = self.vec.len() == 0;
        proof {
            if e {
                assert(self@ =~= Map::<Seq<char>, ItemId>::empty());
            } else {
                lemma_pair_idx(self.entries(), 0);
                assert(self@.contains_key(self.entries()[0].0));
            }
        }
        e
    }

    /// Looks an alias up.
    pub fn get(&self, a: &String) -> (r: Option<&ItemId>)
        requires
            self.inv(),
        ensures
            match r {
                Some(id) => self@.contains_key(a@) && self@[a@] == *id,
                None => !self@.contains_key(a@),
            },
    {
        let ghost s = self.entries();
        let n = self.vec.len();
        let mut i: usize = 0;
        while i < n
            invariant
                n == s.len(),
                s == self.entries(),
                i <= n,
                forall|j: int| 0 <= j < i ==> s[j].0 != a@,
            decreases n - i,
        {
            if self.vec[i].0 == *a {
                proof {
                    assert(s[i as int].0 == a@);
                    lemma_pair_idx(s, i as int);
                }
                return Some(&self.vec[i].1);
            }
            i = i + 1;
        }
        proof {
            assert(!pair_contains(s, a@));
        }
        None
    }

    /// Binds an alias to an id, replacing any previous binding of the alias.
    pub fn insert(&mut self, a: String, id: ItemId)
        requires
            old(self).inv(),
        ensures
            final(self).inv(),
            final(self)@ == old(self)@.insert(a@, id),
    {
        let ghost s = self.entries();
        let n = self.vec.len();
        let mut i: usize = 0;
        while i < n
            invariant
                n == s.len(),
                s == self.entries(),
                pair_unique(s),
                i <= n,
                forall|j: int| 0 <= j < i ==> s[j].0 != a@,
            decreases n - i,
        {
            if self.vec[i].0 == *&a {
                proof {
                    assert(s[i as int].0 == a@);
                    lemma_pair_update(s, i as int, id);
                    assert((s[i as int].0, id) == (a@, id));
                }
                self.vec.set(i, (a, id));
                proof {
                    assert(self.entries() =~= s.update(i as int, (a@, id)));
                }
                return ;
            }
            i = i + 1;
        }
        proof {
            assert(!pair_contains(s, a@));
            lemma_pair_push(s, (a@, id));
        }
        self.vec.push((a, id));
        proof {
            assert(self.entries() =~= s.push((a@, id)));
        }
    }

    /// Unbinds an alias, if bound.
    pub fn remove(&mut self, a: &String)
        requires
            old(self).inv(),
        ensures
            final(self).inv(),
            final(self)@ == old(self)@.remove(a@),
    {
        let ghost s = self.entries();
        let n = self.vec.len();
        let mut i: usize = 0;
        while i < n
            invariant
                n == s.len(),
                s == self.entries(),
                pair_unique(s),
                i <= n,
                forall|j: int| 0 <= j < i ==> s[j].0 != a@,
            decreases n - i,
        {
            if self.vec[i].0 == *a {
                proof {
                    assert(s[i as int].0 == a@);
                    lemma_pair_remove(s, i as int);
                }
                self.vec.remove(i);
                proof {
                    assert(self.entries() =~= s.remove(i as int));
                }
                return ;
            }
            i = i + 1;
        }
        proof {
            assert(!pair_contains(s, a@));
            assert(self@ =~= old(self)@.remove(a@));
        }
    }

    /// The number of aliases.
    pub fn len(&self) -> (n: usize)
        ensures
            n == self.entries().len(),
    {
        self.vec.len()
    }

    /// The entry at a position.
    pub fn entry_at(&self, i: usize) -> (r: (&String, &ItemId))
        requires
            self.inv(),
            i < self.entries().len(),
        ensures
            (r.0@, *r.1) == self.entries()[i as int],
            self@.contains_key(r.0@),
            self@[r.0@] == *r.1,
    {
        proof {
            lemma_pair_idx(self.entries(), i as int);
        }
        (&self.vec[i].0, &self.vec[i].1)
    }

    /// Finds some alias bound to `id`.
    pub fn find_key_of(&self, id: ItemId) -> (r: Option<&String>)
        requires
            self.inv(),
        ensures
            match r {
                Some(a) => self@.contains_key(a@) && self@[a@] == id,
                None => forall|a: Seq<char>| #[trigger] self@.contains_key(a) ==> self@[a] != id,
            },
    {
        let ghost s = self.entries();
        let n = self.vec.len();
        let mut i: usize = 0;
        while i < n
            invariant
                n == s.len(),
                s == self.entries(),
                i <= n,
                forall|j: int| 0 <= j < i ==> s[j].1 != id,
            decreases n - i,
        {
            if self.vec[i].1 == id {
                proof {
                    lemma_pair_idx(s, i as int);
                }
                return Some(&self.vec[i].0);
            }
            i = i + 1;
        }
        proof {
            assert forall|a: Seq<char>| #[trigger] self@.contains_key(a) implies self@[a] != id by {
                let j = choose|j: int| 0 <= j < s.len() && s[j].0 == a;
                lemma_pair_idx(s, j);
            }
        }
        None
    }

    /// Discards every alias bound to `id`.
    pub fn remove_value(&mut self, id: ItemId)
        requires
            old(self).inv(),
        ensures
            final(self).inv(),
            final(self)@ == without_value(old(self)@, id),
    {
        let ghost s = self.entries();
        let ghost gpred = |e: (Seq<char>, ItemId)| e.1 != id;
        let mut out: Vec<(String, ItemId)> = Vec::new();
        let n = self.vec.len();
        let mut i: usize = 0;
        proof {
            reveal(Seq::filter);
            assert(s.take(0) =~= Seq::<(Seq<char>, ItemId)>::empty());
        }
        while i < n
            invariant
                n == s.len(),
                s == self.entries(),
                i <= n,
                out@.map_values(|e: (String, ItemId)| (e.0@, e.1)) == s.take(i as int).filter(
                    gpred,
                ),
            decreases n - i,
        {
            proof {
                reveal(Seq::filter);
                assert(s.take(i as int + 1).drop_last() =~= s.take(i as int));
                assert(s.take(i as int + 1).last() == s[i as int]);
            }
            if self.vec[i].1 != id {
                let a = clone_string(&self.vec[i].0);
                let v = self.vec[i].1;
                out.push((a, v));
                proof {
                    assert(out@.map_values(|e: (String, ItemId)| (e.0@, e.1)) =~= s.take(
                        i as int,
                    ).filter(gpred).push((s[i as int].0, s[i as int].1)));
                    assert((s[i as int].0, s[i as int].1) == s[i as int]);
                }
            }
            i = i + 1;
        }
        proof {
            assert(s.take(n as int) =~= s);
            lemma_pair_filter(s, gpred);
        }
        self.vec = out;
        proof {
            assert(self@ =~= without_value(pair_map(s), id));
        }
    }
}

/// An index from principals to lists of item ids: the ownership and the share
/// index both have this shape.
pub struct PrincipalIdsMap {
    vec: Vec<(PrincipalId, Vec<ItemId>)>,
}

impl View for PrincipalIdsMap {
    type V = Map<Seq<u8>, Seq<ItemId>>;

    closed spec fn view(&self) -> Map<Seq<u8>, Seq<ItemId>> {
        pair_map(self.entries())
    }
}

/// The map left after striking `id` from every list and dropping the
/// principals whose list becomes empty.
pub open spec fn purged(m: Map<Seq<u8>, Seq<ItemId>>, id: ItemId) -> Map<Seq<u8>, Seq<ItemId>> {
    Map::new(
        |p: Seq<u8>| m.contains_key(p) && ids_without(m[p], id).len() > 0,
        |p: Seq<u8>| ids_without(m[p], id),
    )
}

impl PrincipalIdsMap {
    /// The principal-ids pairs of the index.
    pub closed spec fn entries(&self) -> Seq<(Seq<u8>, Seq<ItemId>)> {
        self.vec@.map_values(|e: (PrincipalId, Vec<ItemId>)| (e.0@, e.1@))
    }

    /// Well-formedness: principals are unique, and no principal is recorded
    /// with an empty list — an entry exists only while it carries ids.
    pub closed spec fn inv(&self) -> bool {
        &&& pair_unique(self.entries())
        &&& forall|j: int| 0 <= j < self.entries().len() ==> #[trigger] self.entries()[j].1.len()
            > 0
    }

    /// An empty index.
    pub fn new() -> (r: PrincipalIdsMap)
        ensures
            r.inv(),
            r@ =~= Map::<Seq<u8>, Seq<ItemId>>::empty(),
    {
        let r = PrincipalIdsMap { vec: Vec::new() };
        proof {
            assert(r.entries() =~= Seq::<(Seq<u8>, Seq<ItemId>)>::empty());
            assert forall|k: Seq<u8>| !(#[trigger] r@.contains_key(k)) by {
                assert(!pair_contains(r.entries(), k));
            }
        }
        r
    }

    /// The list of ids recorded for a principal.
    pub fn get(&self, p: &PrincipalId) -> (r: Option<&Vec<ItemId>>)
        requires
            self.inv(),
        ensures
            match r {
                Some(ids) => self@.contains_key(p@) && self@[p@] == ids@,
                None => !self@.contains_key(p@),
            },
    {
        let ghost s = self.entries();
        let n = self.vec.len();
        let mut i: usize = 0;
        while i < n
            invariant
                n == s.len(),
                s == self.entries(),
                i <= n,
                forall|j: int| 0 <= j < i ==> s[j].0 != p@,
            decreases n - i,
        {
            if self.vec[i].0 == *p {
                proof {
                    assert(s[i as int].0 == p@);
                    lemma_pair_idx(s, i as int);
                }
                return Some(&self.vec[i].1);
            }
            i = i + 1;
        }
        proof {
            assert(!pair_contains(s, p@));
        }
        None
    }

    /// Appends an id to a principal's list, creating the list if absent.
    pub fn add_id(&mut self, p: &PrincipalId, id: ItemId)
        requires
            old(self).inv(),
        ensures
            final(self).inv(),
            final(self)@ == old(self)@.insert(
                p@,
                (if old(self)@.contains_key(p@) {
                    old(self)@[p@]
                } else {
                    Seq::<ItemId>::empty()
                }).push(id),
            ),
    {
        let ghost s = self.entries();
        let n = self.vec.len();
        let mut i: usize = 0;
        while i < n
            invariant
                n == s.len(),
                s == self.entries(),
                pair_unique(s),
                i <= n,
                forall|j: int| 0 <= j < i ==> s[j].0 != p@,
            decreases n - i,
        {
            if self.vec[i].0 == *p {
                proof {
                    assert(s[i as int].0 == p@);
                    lemma_pair_idx(s, i as int);
                    lemma_pair_update(s, i as int, s[i as int].1.push(id));
                }
                let mut ids = clone_ids(&self.vec[i].1);
                ids.push(id);
                let key = self.vec[i].0.clone();
                self.vec.set(i, (key, ids));
                proof {
                    assert(self.entries() =~= s.update(i as int, (s[i as int].0, s[i as int].1.push(id))));
                }
                return ;
            }
            i = i + 1;
        }
        proof {
            assert(!pair_contains(s, p@));
            lemma_pair_push(s, (p@, Seq::<ItemId>::empty().push(id)));
        }
        let mut ids: Vec<ItemId> = Vec::new();
        ids.push(id);
        let key = p.clone();
        self.vec.push((key, ids));
        proof {
            assert(ids@ =~= Seq::<ItemId>::empty().push(id));
            assert(self.entries() =~= s.push((p@, Seq::<ItemId>::empty().push(id))));
        }
    }

    /// True when `id` is recorded for `p`.
    pub fn has_id(&self, p: &PrincipalId, id: ItemId) -> (r: bool)
        requires
            self.inv(),
        ensures
            r == (self@.contains_key(p@) && self@[p@].contains(id)),
    {
        match self.get(p) {
            Some(ids) => ids_contain(ids, id),
            None => false,
        }
    }

    /// Strikes `id` from `p`'s list; drops the list if it becomes empty.
    ///
    /// Returns whether the id was present.
    pub fn remove_id(&mut self, p: &PrincipalId, id: ItemId) -> (removed: bool)
        requires
            old(self).inv(),
        ensures
            final(self).inv(),
            removed == (old(self)@.contains_key(p@) && old(self)@[p@].contains(id)),
            !removed ==> final(self)@ == old(self)@,
            removed ==> final(self)@ == (if ids_without(old(self)@[p@], id).len() == 0 {
                old(self)@.remove(p@)
            } else {
                old(self)@.insert(p@, ids_without(old(self)@[p@], id))
            }),
    {
        let ghost s = self.entries();
        let n = self.vec.len();
        let mut i: usize = 0;
        while i < n
            invariant
                n == s.len(),
                s == self.entries(),
                pair_unique(s),
                i <= n,
                forall|j: int| 0 <= j < i ==> s[j].0 != p@,
            decreases n - i,
        {
            if self.vec[i].0 == *p {
                proof {
                    assert(s[i as int].0 == p@);
                    lemma_pair_idx(s, i as int);
                }
                let had = ids_contain(&self.vec[i].1, id);
                if !had {
                    return false;
                }
                let filtered = filter_out_id(&self.vec[i].1, id);
                proof {
                    lemma_filter_drops(s[i as int].1, id);
                }
                if filtered.len() == 0 {
                    proof {
                        lemma_pair_remove(s, i as int);
                    }
                    self.vec.remove(i);
                    proof {
                        assert(self.entries() =~= s.remove(i as int));
                    }
                } else {
                    proof {
                        lemma_pair_update(s, i as int, filtered@);
                    }
                    let key = self.vec[i].0.clone();
                    self.vec.set(i, (key, filtered));
                    proof {
                        assert(self.entries() =~= s.update(i as int, (s[i as int].0, ids_without(
                        s[i as int].1, id))));
                    }
                }
                return had;
            }
            i = i + 1;
        }
        proof {
            assert(!pair_contains(s, p@));
        }
        false
    }

    /// Strikes `id` from every list, dropping lists that become empty.
    pub fn purge_id(&mut self, id: ItemId)
        requires
            old(self).inv(),
        ensures
            final(self).inv(),
            final(self)@ == purged(old(self)@, id),
    {
        let ghost s = self.entries();
        let ghost gv = |ids: Seq<ItemId>| ids_without(ids, id);
        let ghost gmap = |e: (Seq<u8>, Seq<ItemId>)| (e.0, gv(e.1));
        let ghost gpred = |e: (Seq<u8>, Seq<ItemId>)| e.1.len() > 0;
        let mut out: Vec<(PrincipalId, Vec<ItemId>)> = Vec::new();
        let n = self.vec.len();
        let mut i: usize = 0;
        proof {
            reveal(Seq::filter);
            assert(s.take(0).map_values(gmap) =~= Seq::<(Seq<u8>, Seq<ItemId>)>::empty());
        }
        while i < n
            invariant
                n == s.len(),
                s == self.entries(),
                i <= n,
                out@.map_values(|e: (PrincipalId, Vec<ItemId>)| (e.0@, e.1@)) == s.take(
                    i as int,
                ).map_values(gmap).filter(gpred),
            decreases n - i,
        {
            proof {
                reveal(Seq::filter);
                assert(s.take(i as int + 1).map_values(gmap).drop_last() =~= s.take(
                    i as int,
                ).map_values(gmap));
                assert(s.take(i as int + 1).map_values(gmap).last() == gmap(s[i as int]));
            }
            let filtered = filter_out_id(&self.vec[i].1, id);
            if filtered.len() > 0 {
                let key = self.vec[i].0.clone();
                out.push((key, filtered));
                proof {
                    assert(out@.map_values(|e: (PrincipalId, Vec<ItemId>)| (e.0@, e.1@)) =~= s.take(
                        i as int,
                    ).map_values(gmap).filter(gpred).push(gmap(s[i as int])));
                }
            }
            i = i + 1;
        }
        proof {
            assert(s.take(n as int) =~= s);
        }
        self.vec = out;
        proof {
            let m = pair_map(s);
            let mv = s.map_values(gmap);
            crate::store::lemma_pair_map_values(s, gv);
            assert(s.map_values(|e: (Seq<u8>, Seq<ItemId>)| (e.0, gv(e.1))) =~= mv);
            lemma_pair_filter(mv, gpred);
            let pmv = pair_map(mv);
            assert forall|p: Seq<u8>| #[trigger]
                self@.contains_key(p) == purged(m, id).contains_key(p) by {
                assert(self@.contains_key(p) == (pair_contains(mv, p) && gpred((p, pmv[p]))));
                if pair_contains(s, p) {
                    assert(pmv[p] == gv(m[p]));
                }
            }
            assert forall|p: Seq<u8>| #[trigger] self@.contains_key(p) implies self@[p] == purged(
                m,
                id,
            )[p] by {
                assert(self@[p] == pmv[p]);
                assert(pmv[p] == gv(m[p]));
            }
            assert(self@ =~= purged(m, id));
        }
    }

    /// The number of principal entries.
    pub fn len(&self) -> (n: usize)
        ensures
            n == self.entries().len(),
    {
        self.vec.len()
    }

    /// The entry at a position.
    pub fn entry_at(&self, i: usize) -> (r: (&PrincipalId, &Vec<ItemId>))
        requires
            self.inv(),
            i < self.entries().len(),
        ensures
            (r.0@, r.1@) == self.entries()[i as int],
            self@.contains_key(r.0@),
            self@[r.0@] == r.1@,
    {
        proof {
            lemma_pair_idx(self.entries(), i as int);
        }
        (&self.vec[i].0, &self.vec[i].1)
    }
}

/// A list that does not contain `x` is unchanged by filtering `x` out.
pub proof fn lemma_filter_no_change(s: Seq<ItemId>, id: ItemId)
    requires
        !s.contains(id),
    ensures
        ids_without(s, id) =~= s,
    decreases s.len(),
{
    reveal(Seq::filter);
    if s.len() > 0 {
        let d = s.drop_last();
        assert(!d.contains(id)) by {
            if d.contains(id) {
                let j = choose|j: int| 0 <= j < d.len() && d[j] == id;
                assert(s[j] == id);
            }
        }
        lemma_filter_no_change(d, id);
        assert(s.last() != id) by {
            assert(s[s.len() - 1] == s.last());
        }
        assert(ids_without(s, id) == ids_without(d, id).push(s.last()));
        assert(ids_without(d, id).push(s.last()) =~= d.push(s.last()));
        assert(d.push(s.last()) =~= s);
    }
}

/// A list that contains `x` shrinks when `x` is filtered out.
pub proof fn lemma_filter_drops(s: Seq<ItemId>, id: ItemId)
    requires
        s.contains(id),
    ensures
        ids_without(s, id).len() < s.len(),
        !ids_without(s, id).contains(id),
    decreases s.len(),
{
    reveal(Seq::filter);
    let f = ids_without(s, id);
    let d = s.drop_last();
    let fd = ids_without(d, id);
    if s.last() == id {
        assert(f == fd);
        if d.contains(id) {
            lemma_filter_drops(d, id);
        } else {
            lemma_filter_no_change(d, id);
            assert(fd =~= d);
            assert(!f.contains(id)) by {
                if f.contains(id) {
                    let j = choose|j: int| 0 <= j < f.len() && f[j] == id;
                    assert(d[j] == id);
                }
            }
        }
    } else {
        assert(d.contains(id)) by {
            let j = choose|j: int| 0 <= j < s.len() && s[j] == id;
            assert(j < s.len() - 1);
            assert(d[j] == id);
        }
        lemma_filter_drops(d, id);
        assert(f == fd.push(s.last()));
        assert(!f.contains(id)) by {
            if f.contains(id) {
                let j = choose|j: int| 0 <= j < f.len() && f[j] == id;
                if j == f.len() - 1 {
                    assert(f[j] == s.last());
                } else {
                    assert(f[j] == fd[j]);
                    assert(fd.contains(id));
                }
            }
        }
    }
}

/// The registry of users, keyed by principal.
pub struct UserStore {
    vec: Vec<(PrincipalId, User)>,
}

impl View for UserStore {
    type V = Map<Seq<u8>, UserModel>;

    closed spec fn view(&self) -> Map<Seq<u8>, UserModel> {
        pair_map(self.entries())
    }
}

impl UserStore {
    /// The principal-user pairs of the registry.
    pub closed spec fn entries(&self) -> Seq<(Seq<u8>, UserModel)> {
        self.vec@.map_values(|e: (PrincipalId, User)| (e.0@, e.1@))
    }

    /// Well-formedness: principals are unique.
    pub closed spec fn inv(&self) -> bool {
        pair_unique(self.entries())
    }

    /// An empty registry.
    pub fn new() -> (r: UserStore)
        ensures
            r.inv(),
            r@ =~= Map::<Seq<u8>, UserModel>::empty(),
    {
        let r = UserStore { vec: Vec::new() };
        proof {
            assert(r.entries() =~= Seq::<(Seq<u8>, UserModel)>::empty());
            assert forall|k: Seq<u8>| !(#[trigger] r@.contains_key(k)) by {
                assert(!pair_contains(r.entries(), k));
            }
        }
        r
    }

    /// Looks a user up by principal.
    pub fn get(&self, p: &PrincipalId) -> (r: Option<&User>)
        requires
            self.inv(),
        ensures
            match r {
                Some(u) => self@.contains_key(p@) && self@[p@] == u@,
                None => !self@.contains_key(p@),
            },
    {
        let ghost s = self.entries();
        let n = self.vec.len();
        let mut i: usize = 0;
        while i < n
            invariant
                n == s.len(),
                s == self.entries(),
                i <= n,
                forall|j: int| 0 <= j < i ==> s[j].0 != p@,
            decreases n - i,
        {
            if self.vec[i].0 == *p {
                proof {
                    assert(s[i as int].0 == p@);
                    lemma_pair_idx(s, i as int);
                }
                return Some(&self.vec[i].1);
            }
            i = i + 1;
        }
        proof {
            assert(!pair_contains(s, p@));
        }
        None
    }

    /// Registers or replaces the user bound to a principal.
    pub fn insert(&mut self, p: &PrincipalId, u: User)
        requires
            old(self).inv(),
        ensures
            final(self).inv(),
            final(self)@ == old(self)@.insert(p@, u@),
    {
        let ghost s = self.entries();
        let n = self.vec.len();
        let mut i: usize = 0;
        while i < n
            invariant
                n == s.len(),
                s == self.entries(),
                pair_unique(s),
                i <= n,
                forall|j: int| 0 <= j < i ==> s[j].0 != p@,
            decreases n - i,
        {
            if self.vec[i].0 == *p {
                proof {
                    assert(s[i as int].0 == p@);
                    lemma_pair_update(s, i as int, u@);
                }
                let key = self.vec[i].0.clone();
                let ghost uv = u@;
                self.vec.set(i, (key, u));
                proof {
                    assert(self.entries() =~= s.update(i as int, (s[i as int].0, uv)));
                }
                return ;
            }
            i = i + 1;
        }
        proof {
            assert(!pair_contains(s, p@));
            lemma_pair_push(s, (p@, u@));
        }
        let key = p.clone();
        let ghost uv = u@;
        self.vec.push((key, u));
        proof {
            assert(self.entries() =~= s.push((p@, uv)));
        }
    }

    /// True when some registered user carries this username.
    pub fn exists_username(&self, name: &String) -> (r: bool)
        requires
            self.inv(),
        ensures
            r == (exists|p: Seq<u8>|
                #[trigger] self@.contains_key(p) && self@[p].username == name@),
    {
        let ghost s = self.entries();
        let n = self.vec.len();
        let mut i: usize = 0;
        while i < n
            invariant
                n == s.len(),
                s == self.entries(),
                pair_unique(s),
                i <= n,
                forall|j: int| 0 <= j < i ==> s[j].1.username != name@,
            decreases n - i,
        {
            if self.vec[i].1.username == *name {
                proof {
                    assert(s[i as int].1 == self.vec@[i as int].1@);
                    lemma_pair_idx(s, i as int);
                    assert(self@.contains_key(s[i as int].0) && self@[s[i as int].0].username
                        == name@);
                }
                return true;
            }
            i = i + 1;
        }
        proof {
            assert forall|p: Seq<u8>|
                #[trigger] self@.contains_key(p) implies self@[p].username != name@ by {
                let j = choose|j: int| 0 <= j < s.len() && s[j].0 == p;
                lemma_pair_idx(s, j);
            }
        }
        false
    }

    /// The number of registered users.
    pub fn len(&self) -> (n: usize)
        ensures
            n == self.entries().len(),
    {
        self.vec.len()
    }

    /// The entry at a position.
    pub fn entry_at(&self, i: usize) -> (r: (&PrincipalId, &User))
        requires
            self.inv(),
            i < self.entries().len(),
        ensures
            (r.0@, r.1@) == self.entries()[i as int],
            self@.contains_key(r.0@),
            self@[r.0@] == r.1@,
    {
        proof {
            lemma_pair_idx(self.entries(), i as int);
        }
        (&self.vec[i].0, &self.vec[i].1)
    }
}

} // verus!
