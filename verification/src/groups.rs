//! Request groups: folders whose children were requested together.

use crate::indexes::{clone_ids, ids_without};
use crate::item::clone_string;
use crate::principal::PrincipalId;
use crate::store::{lemma_pair_idx, lemma_pair_map_values, lemma_pair_push, lemma_pair_remove,
    pair_contains, pair_map, pair_unique};
use crate::ItemId;
use vstd::prelude::*;

verus! {

/// The ghost model of a request group.
#[verifier::ext_equal]
pub ghost struct GroupModel {
    pub group_id: ItemId,
    pub name: Seq<char>,
    pub files: Seq<ItemId>,
    pub requester: Seq<u8>,
    pub created_at: u64,
}

/// A group of files requested together; its id is the id of the folder that
/// materializes the group.
#[derive(Debug)]
pub struct RequestGroup {
    pub group_id: ItemId,
    pub name: String,
    pub files: Vec<ItemId>,
    pub requester: PrincipalId,
    pub created_at: u64,
}

impl View for RequestGroup {
    type V = GroupModel;

    open spec fn view(&self) -> GroupModel {
        GroupModel {
            group_id: self.group_id,
            name: self.name@,
            files: self.files@,
            requester: self.requester@,
            created_at: self.created_at,
        }
    }
}

impl Clone for RequestGroup {
    fn clone(&self) -> (r: RequestGroup)
        ensures
            r@ == self@,
    {
        let r = RequestGroup {
            group_id: self.group_id,
            name: clone_string(&self.name),
            files: clone_ids(&self.files),
            requester: self.requester.clone(),
            created_at: self.created_at,
        };
        proof {
            assert(r@ =~= self@);
        }
        r
    }
}

/// A group with `id` struck from its file list.
pub open spec fn group_without_file(g: GroupModel, id: ItemId) -> GroupModel {
    GroupModel { files: ids_without(g.files, id), ..g }
}

/// The store of request groups, keyed by group folder id.
pub struct GroupStore {
    vec: Vec<(ItemId, RequestGroup)>,
}

impl View for GroupStore {
    type V = Map<ItemId, GroupModel>;

    closed spec fn view(&self) -> Map<ItemId, GroupModel> {
        pair_map(self.entries())
    }
}

impl GroupStore {
    /// The id-group pairs of the store, in insertion order.
    pub closed spec fn entries(&self) -> Seq<(ItemId, GroupModel)> {
        self.vec@.map_values(|e: (ItemId, RequestGroup)| (e.0, e.1@))
    }

    /// Well-formedness: group ids are unique.
    pub closed spec fn inv(&self) -> bool {
        pair_unique(self.entries())
    }

    /// An empty store.
    pub fn new() -> (r: GroupStore)
        ensures
            r.inv(),
            r@ =~= Map::<ItemId, GroupModel>::empty(),
            r.entries() =~= Seq::<(ItemId, GroupModel)>::empty(),
    {
        let r = GroupStore { vec: Vec::new() };
        proof {
            assert(r.entries() =~= Seq::<(ItemId, GroupModel)>::empty());
            assert forall|k: ItemId| !(#[trigger] r@.contains_key(k)) by {
                assert(!pair_contains(r.entries(), k));
            }
        }
        r
    }

    /// Looks a group up by id.
    pub fn get(&self, id: &ItemId) -> (r: Option<&RequestGroup>)
        requires
            self.inv(),
        ensures
            match r {
                Some(g) => self@.contains_key(*id) && self@[*id] == g@,
                None => !self@.contains_key(*id),
            },
    {
        let ghost s = self.entries();
        let n = self.vec.len();
        let mut i: usize = 0;
        while i < n
            invariant
                n == s.len(),
                s == self.entries(),
                i <= n,
                forall|j: int| 0 <= j < i ==> s[j].0 != *id,
            decreases n - i,
        {
            if self.vec[i].0 == *id {
                proof {
                    lemma_pair_idx(s, i as int);
                }
                return Some(&self.vec[i].1);
            }
            i = i + 1;
        }
        proof {
            assert(!pair_contains(s, *id));
        }
        None
    }

    /// Records a group under an id, replacing any previous record.
    pub fn insert(&mut self, id: ItemId, group: RequestGroup)
        requires
            old(self).inv(),
        ensures
            final(self).inv(),
            final(self)@ == old(self)@.insert(id, group@),
    {
        let ghost s = self.entries();
        let ghost gv = group@;
        let n = self.vec.len();
        let mut i: usize = 0;
        while i < n
            invariant
                n == s.len(),
                s == self.entries(),
                pair_unique(s),
                i <= n,
                forall|j: int| 0 <= j < i ==> s[j].0 != id,
            decreases n - i,
        {
            if self.vec[i].0 == id {
                proof {
                    crate::store::lemma_pair_update(s, i as int, gv);
                }
                self.vec.set(i, (id, group));
                proof {
                    assert(self.entries() =~= s.update(i as int, (id, gv)));
                }
                return ;
            }
            i = i + 1;
        }
        proof {
            assert(!pair_contains(s, id));
            lemma_pair_push(s, (id, gv));
        }
        self.vec.push((id, group));
        proof {
            assert(self.entries() =~= s.push((id, gv)));
        }
    }

    /// Forgets the group with the given id, if recorded.
    pub fn remove(&mut self, id: &ItemId)
        requires
            old(self).inv(),
        ensures
            final(self).inv(),
            final(self)@ == old(self)@.remove(*id),
    {
        let ghost s = self.entries();
        let n = self.vec.len();
        let mut i: usize = 0;
        while i < n
            invariant
                n == s.len(),
                s == self.entries(),
                pair_unique(s),
                i <= n,
                forall|j: int| 0 <= j < i ==> s[j].0 != *id,
            decreases n - i,
        {
            if self.vec[i].0 == *id {
                proof {
                    lemma_pair_remove(s, i as int);
                }
                self.vec.remove(i);
                proof {
                    assert(self.entries() =~= s.remove(i as int));
                }
                return ;
            }
            i = i + 1;
        }
        proof {
            assert(!pair_contains(s, *id));
            assert(self@ =~= old(self)@.remove(*id));
        }
    }

    /// Strikes an item id from every group's file list.
    pub fn purge_file_id(&mut self, id: ItemId)
        requires
            old(self).inv(),
        ensures
            final(self).inv(),
            final(self)@ == Map::new(
                |k: ItemId| old(self)@.contains_key(k),
                |k: ItemId| group_without_file(old(self)@[k], id),
            ),
    {
        let ghost s = self.entries();
        let ghost gv = |g: GroupModel| group_without_file(g, id);
        let ghost gmap = |e: (ItemId, GroupModel)| (e.0, gv(e.1));
        let n = self.vec.len();
        let mut out: Vec<(ItemId, RequestGroup)> = Vec::new();
        let mut i: usize = 0;
        proof {
            assert(s.take(0).map_values(gmap) =~= Seq::<(ItemId, GroupModel)>::empty());
        }
        while i < n
            invariant
                n == s.len(),
                s == self.entries(),
                i <= n,
                out@.map_values(|e: (ItemId, RequestGroup)| (e.0, e.1@)) == s.take(
                    i as int,
                ).map_values(gmap),
            decreases n - i,
        {
            let filtered = crate::indexes::filter_out_id(&self.vec[i].1.files, id);
            let g = &self.vec[i].1;
            let ng = RequestGroup {
                group_id: g.group_id,
                name: clone_string(&g.name),
                files: filtered,
                requester: g.requester.clone(),
                created_at: g.created_at,
            };
            let k = self.vec[i].0;
            out.push((k, ng));
            proof {
                assert(s.take(i as int + 1).map_values(gmap) =~= s.take(i as int).map_values(
                    gmap,
                ).push(gmap(s[i as int])));
                assert((k, ng@) == gmap(s[i as int]));
                assert(out@.map_values(|e: (ItemId, RequestGroup)| (e.0, e.1@)) =~= s.take(
                    i as int,
                ).map_values(gmap).push((k, ng@)));
            }
            i = i + 1;
        }
        proof {
            assert(s.take(n as int) =~= s);
        }
        self.vec = out;
        proof {
            lemma_pair_map_values(s, gv);
            assert(s.map_values(|e: (ItemId, GroupModel)| (e.0, gv(e.1))) =~= s.map_values(gmap));
            assert forall|k: ItemId| #[trigger]
                self@.contains_key(k) == old(self)@.contains_key(k) by {}
            assert(self@ =~= Map::new(
                |k: ItemId| old(self)@.contains_key(k),
                |k: ItemId| group_without_file(old(self)@[k], id),
            ));
        }
    }

    /// The number of groups.
    pub fn len(&self) -> (n: usize)
        ensures
            n == self.entries().len(),
    {
        self.vec.len()
    }

    /// The key at a position, in insertion order.
    pub fn key_at(&self, i: usize) -> (r: ItemId)
        requires
            i < self.entries().len(),
        ensures
            r == self.entries()[i as int].0,
    {
        self.vec[i].0
    }

    /// The group at a position, in insertion order.
    pub fn get_at(&self, i: usize) -> (r: &RequestGroup)
        requires
            self.inv(),
            i < self.entries().len(),
        ensures
            r@ == self.entries()[i as int].1,
            self@.contains_key(self.entries()[i as int].0),
            self@[self.entries()[i as int].0] == r@,
    {
        proof {
            lemma_pair_idx(self.entries(), i as int);
        }
        &self.vec[i].1
    }
}

/// An index from a group folder id to the ids of the files in the group.
pub struct IdIdsMap {
    vec: Vec<(ItemId, Vec<ItemId>)>,
}

impl View for IdIdsMap {
    type V = Map<ItemId, Seq<ItemId>>;

    closed spec fn view(&self) -> Map<ItemId, Seq<ItemId>> {
        pair_map(self.entries())
    }
}

impl IdIdsMap {
    /// The pairs of the index.
    pub closed spec fn entries(&self) -> Seq<(ItemId, Seq<ItemId>)> {
        self.vec@.map_values(|e: (ItemId, Vec<ItemId>)| (e.0, e.1@))
    }

    /// Well-formedness: keys are unique.
    pub closed spec fn inv(&self) -> bool {
        pair_unique(self.entries())
    }

    /// An empty index.
    pub fn new() -> (r: IdIdsMap)
        ensures
            r.inv(),
            r@ =~= Map::<ItemId, Seq<ItemId>>::empty(),
    {
        let r = IdIdsMap { vec: Vec::new() };
        proof {
            assert(r.entries() =~= Seq::<(ItemId, Seq<ItemId>)>::empty());
            assert forall|k: ItemId| !(#[trigger] r@.contains_key(k)) by {
                assert(!pair_contains(r.entries(), k));
            }
        }
        r
    }

    /// Records a list under a key, replacing any previous list.
    pub fn insert(&mut self, id: ItemId, ids: Vec<ItemId>)
        requires
            old(self).inv(),
        ensures
            final(self).inv(),
            final(self)@ == old(self)@.insert(id, ids@),
    {
        let ghost s = self.entries();
        let ghost iv = ids@;
        let n = self.vec.len();
        let mut i: usize = 0;
        while i < n
            invariant
                n == s.len(),
                s == self.entries(),
                pair_unique(s),
                i <= n,
                forall|j: int| 0 <= j < i ==> s[j].0 != id,
            decreases n - i,
        {
            if self.vec[i].0 == id {
                proof {
                    crate::store::lemma_pair_update(s, i as int, iv);
                }
                self.vec.set(i, (id, ids));
                proof {
                    assert(self.entries() =~= s.update(i as int, (id, iv)));
                }
                return ;
            }
            i = i + 1;
        }
        proof {
            assert(!pair_contains(s, id));
            lemma_pair_push(s, (id, iv));
        }
        self.vec.push((id, ids));
        proof {
            assert(self.entries() =~= s.push((id, iv)));
        }
    }

    /// Forgets the list recorded under a key, if any.
    pub fn remove(&mut self, id: &ItemId)
        requires
            old(self).inv(),
        ensures
            final(self).inv(),
            final(self)@ == old(self)@.remove(*id),
    {
        let ghost s = self.entries();
        let n = self.vec.len();
        let mut i: usize = 0;
        while i < n
            invariant
                n == s.len(),
                s == self.entries(),
                pair_unique(s),
                i <= n,
                forall|j: int| 0 <= j < i ==> s[j].0 != *id,
            decreases n - i,
        {
            if self.vec[i].0 == *id {
                proof {
                    lemma_pair_remove(s, i as int);
                }
                self.vec.remove(i);
                proof {
                    assert(self.entries() =~= s.remove(i as int));
                }
                return ;
            }
            i = i + 1;
        }
        proof {
            assert(!pair_contains(s, *id));
            assert(self@ =~= old(self)@.remove(*id));
        }
    }
}

} // verus!
