//! The engine's state and its well-formedness invariant.
//!
//! Every public operation takes the state explicitly, by shared or mutable
//! reference; there is no ambient store.  The contracts of the operations
//! speak of [`StateModel`], the mathematical view of the state, and preserve
//! [`State::wf`], the conjunction of the stores' own invariants with the
//! cross-store invariants of the engine.

use crate::aliases::AliasGenerator;
use crate::chunks::{chunk_map, chunks_size_sum, clamp_u64, stored_chunks, ChunkStore};
use crate::groups::{GroupModel, GroupStore, IdIdsMap};
use crate::indexes::{PrincipalIdsMap, StringIdMap, UserStore};
use crate::item::{ItemModel, ItemType};
use crate::store::ItemStore;
use crate::templates::{TemplateModel, TemplateStore};
use crate::tree::{parent_ok, tree_acyclic};
use crate::users::UserModel;
use crate::{ChunkId, ItemId};
use vstd::prelude::*;

verus! {

/// The mathematical view of the engine's state.
#[verifier::ext_equal]
pub ghost struct StateModel {
    pub item_id_counter: u64,
    pub users: Map<Seq<u8>, UserModel>,
    pub items: Map<ItemId, ItemModel>,
    pub file_alias_index: Map<Seq<char>, ItemId>,
    pub item_owners: Map<Seq<u8>, Seq<ItemId>>,
    pub item_shares: Map<Seq<u8>, Seq<ItemId>>,
    pub file_contents: Map<(ItemId, ChunkId), Seq<u8>>,
    pub request_groups: Map<ItemId, GroupModel>,
    pub group_alias_index: Map<Seq<char>, ItemId>,
    pub group_files: Map<ItemId, Seq<ItemId>>,
    pub user_templates: Map<(Seq<u8>, Seq<char>), TemplateModel>,
}

/// The document store: the item tree, the chunk store, and the indexes
/// around them.
pub struct State {
    pub item_id_counter: u64,
    pub users: UserStore,
    pub items: ItemStore,
    pub file_alias_index: StringIdMap,
    pub item_owners: PrincipalIdsMap,
    pub item_shares: PrincipalIdsMap,
    pub file_contents: ChunkStore,
    pub alias_generator: AliasGenerator,
    pub request_groups: GroupStore,
    pub group_alias_index: StringIdMap,
    pub group_files: IdIdsMap,
    pub user_templates: TemplateStore,
}

impl View for State {
    type V = StateModel;

    open spec fn view(&self) -> StateModel {
        StateModel {
            item_id_counter: self.item_id_counter,
            users: self.users@,
            items: self.items@,
            file_alias_index: self.file_alias_index@,
            item_owners: self.item_owners@,
            item_shares: self.item_shares@,
            file_contents: chunk_map(self.file_contents),
            request_groups: self.request_groups@,
            group_alias_index: self.group_alias_index@,
            group_files: self.group_files@,
            user_templates: self.user_templates@,
        }
    }
}

/// The per-item field discipline: folders carry no content descriptors, and
/// a file's descriptors are set together, with at least one declared chunk.
pub open spec fn fields_ok(it: ItemModel) -> bool {
    match it.item_type {
        ItemType::Folder => it.content_type is None && it.size is None && it.num_chunks is None,
        ItemType::File => (it.content_type is Some <==> it.num_chunks is Some) && (it.content_type
            is Some <==> it.size is Some) && (match it.num_chunks {
            Option::Some(n) => n >= 1,
            Option::None => true,
        }),
    }
}

/// A stored chunk key names an existing file, already begun, within its
/// declared chunk count.
pub open spec fn chunk_key_ok(items: Map<ItemId, ItemModel>, k: (ItemId, ChunkId)) -> bool {
    &&& items.contains_key(k.0)
    &&& items[k.0].item_type == ItemType::File
    &&& items[k.0].content_type is Some
    &&& match items[k.0].num_chunks {
        Option::Some(n) => k.1 < n,
        Option::None => false,
    }
}

/// Once every declared chunk of a file is stored, its recorded size is the
/// clamped sum of the stored chunk lengths.
pub open spec fn completed_size_ok(
    items: Map<ItemId, ItemModel>,
    fc: Map<(ItemId, ChunkId), Seq<u8>>,
    id: ItemId,
) -> bool {
    items.contains_key(id) && items[id].item_type == ItemType::File ==> match items[id].num_chunks {
        Option::Some(n) => stored_chunks(fc, id) == n ==> items[id].size == Option::Some(
            clamp_u64(chunks_size_sum(fc, id, n as int)),
        ),
        Option::None => true,
    }
}

/// An alias names an existing file whose upload has not yet begun.
pub open spec fn alias_ok(
    items: Map<ItemId, ItemModel>,
    fa: Map<Seq<char>, ItemId>,
    a: Seq<char>,
) -> bool {
    &&& items.contains_key(fa[a])
    &&& items[fa[a]].item_type == ItemType::File
    &&& items[fa[a]].content_type is None
}

/// The item tree's own invariant: ids are below the counter and name their
/// record, parents are existing folders, and the tree is acyclic.
pub open spec fn items_wf(items: Map<ItemId, ItemModel>, counter: u64) -> bool {
    &&& items.dom().finite()
    &&& forall|id: ItemId| #[trigger]
        items.contains_key(id) ==> id < counter && items[id].id == id && parent_ok(items, id)
            && fields_ok(items[id])
    &&& tree_acyclic(items)
}

/// The chunk store's invariant against the item tree.
pub open spec fn chunks_wf(
    items: Map<ItemId, ItemModel>,
    fc: Map<(ItemId, ChunkId), Seq<u8>>,
) -> bool {
    &&& fc.dom().finite()
    &&& forall|k: (ItemId, ChunkId)| #[trigger] fc.contains_key(k) ==> chunk_key_ok(items, k)
    &&& forall|id: ItemId| #[trigger]
        items.contains_key(id) && items[id].content_type is Some ==> fc.contains_key((id, 0))
    &&& forall|id: ItemId| #[trigger] completed_size_ok(items, fc, id)
}

/// The alias index's invariant against the item tree.
pub open spec fn aliases_wf(items: Map<ItemId, ItemModel>, fa: Map<Seq<char>, ItemId>) -> bool {
    &&& forall|a: Seq<char>| #[trigger] fa.contains_key(a) ==> alias_ok(items, fa, a)
    &&& forall|a1: Seq<char>, a2: Seq<char>|
        #[trigger] fa.contains_key(a1) && #[trigger] fa.contains_key(a2) && fa[a1] == fa[a2]
            ==> a1 == a2
}

/// The cross-store invariant of the engine, over the mathematical view.
pub open spec fn model_wf(m: StateModel) -> bool {
    &&& items_wf(m.items, m.item_id_counter)
    &&& chunks_wf(m.items, m.file_contents)
    &&& aliases_wf(m.items, m.file_alias_index)
}

impl State {
    /// Well-formedness: each store's own invariant, and the engine's
    /// cross-store invariant.
    pub open spec fn wf(&self) -> bool {
        &&& self.users.inv()
        &&& self.items.inv()
        &&& self.file_alias_index.inv()
        &&& self.item_owners.inv()
        &&& self.item_shares.inv()
        &&& self.request_groups.inv()
        &&& self.group_alias_index.inv()
        &&& self.group_files.inv()
        &&& self.user_templates.inv()
        &&& model_wf(self@)
    }

    /// Draws a fresh item id; ids are handed out consecutively.
    pub fn generate_item_id(&mut self) -> (id: ItemId)
        requires
            old(self).item_id_counter < u64::MAX,
        ensures
            id == old(self).item_id_counter,
            final(self).item_id_counter == old(self).item_id_counter + 1,
            *final(self) == (State { item_id_counter: (old(self).item_id_counter + 1) as u64, ..*old(self) }),
            final(self)@ == (StateModel {
                item_id_counter: (old(self).item_id_counter + 1) as u64,
                ..old(self)@
            }),
            old(self).wf() ==> final(self).wf(),
    {
        let item_id = self.item_id_counter;
        self.item_id_counter = self.item_id_counter + 1;
        proof {
            assert(self@ =~= (StateModel { item_id_counter: (item_id + 1) as u64, ..old(self)@ }));
            if old(self).wf() {
                let m1 = old(self)@;
                let m2 = self@;
                assert(m2.items == m1.items && m2.file_contents == m1.file_contents
                    && m2.file_alias_index == m1.file_alias_index);
                assert forall|id: ItemId| #[trigger] m2.items.contains_key(id) implies id
                    < m2.item_id_counter && m2.items[id].id == id && parent_ok(m2.items, id)
                    && fields_ok(m2.items[id]) by {
                    assert(m1.items.contains_key(id));
                }
                assert(model_wf(m2));
            }
        }
        item_id
    }

    /// Reseeds the alias generator from a host-supplied value.
    ///
    /// Aliases are bearer capabilities, so their sequence must not be
    /// predictable: a host seeds the generator with an unpredictable value
    /// (its clock, at the least) before handing out aliases.  The seed has
    /// no bearing on the mathematical view of the state.
    pub fn reseed_alias_generator(&mut self, seed: u64)
        ensures
            final(self)@ == old(self)@,
            old(self).wf() ==> final(self).wf(),
            final(self).users == old(self).users,
            final(self).items == old(self).items,
            final(self).file_alias_index == old(self).file_alias_index,
            final(self).item_owners == old(self).item_owners,
            final(self).item_shares == old(self).item_shares,
            final(self).file_contents == old(self).file_contents,
            final(self).request_groups == old(self).request_groups,
            final(self).group_alias_index == old(self).group_alias_index,
            final(self).group_files == old(self).group_files,
            final(self).user_templates == old(self).user_templates,
            final(self).item_id_counter == old(self).item_id_counter,
    {
        self.alias_generator = AliasGenerator::new(seed);
        proof {
            assert(self@ =~= old(self)@);
        }
    }

    /// The number of chunks stored for an item.
    pub fn num_chunks_uploaded(&self, item_id: ItemId) -> (r: u64)
        ensures
            r as nat == stored_chunks(self@.file_contents, item_id),
    {
        self.file_contents.count_chunks_of(item_id)
    }
}

impl Default for State {
    /// A fresh, empty store.
    fn default() -> (r: State)
        ensures
            r.wf(),
            r@.item_id_counter == 0,
            r@.users =~= Map::<Seq<u8>, UserModel>::empty(),
            r@.items =~= Map::<ItemId, ItemModel>::empty(),
            r@.file_alias_index =~= Map::<Seq<char>, ItemId>::empty(),
            r@.item_owners =~= Map::<Seq<u8>, Seq<ItemId>>::empty(),
            r@.item_shares =~= Map::<Seq<u8>, Seq<ItemId>>::empty(),
            r@.file_contents =~= Map::<(ItemId, ChunkId), Seq<u8>>::empty(),
            r@.request_groups =~= Map::<ItemId, GroupModel>::empty(),
            r@.group_alias_index =~= Map::<Seq<char>, ItemId>::empty(),
            r@.group_files =~= Map::<ItemId, Seq<ItemId>>::empty(),
            r@.user_templates =~= Map::<(Seq<u8>, Seq<char>), TemplateModel>::empty(),
    {
        let fc = ChunkStore::new();
        proof {
            assert(fc@ =~= Map::<(ItemId, ChunkId), Seq<u8>>::empty());
        }
        let r = State {
            item_id_counter: 0,
            users: UserStore::new(),
            items: ItemStore::new(),
            file_alias_index: StringIdMap::new(),
            item_owners: PrincipalIdsMap::new(),
            item_shares: PrincipalIdsMap::new(),
            file_contents: fc,
            alias_generator: init_alias_generator(),
            request_groups: GroupStore::new(),
            group_alias_index: StringIdMap::new(),
            group_files: IdIdsMap::new(),
            user_templates: TemplateStore::new(),
        };
        proof {
            assert(r@.items.dom() =~= Set::<ItemId>::empty());
            assert(r@.file_contents =~= Map::<(ItemId, ChunkId), Seq<u8>>::empty());
            assert(r@.file_contents.dom() =~= Set::<(ItemId, ChunkId)>::empty());
        }
        r
    }
}

impl State {
    /// A store whose chunk payloads are loaded from the durable memory,
    /// with every metadata index empty.
    ///
    /// This is the starting point for a host that restores its metadata
    /// snapshot after a restart: the chunks survive in their own stable
    /// region and are attached as they are, so nothing can be said of them
    /// here beyond finiteness — in particular, this state is well formed
    /// only once the restored metadata matches the surviving chunks.
    pub fn restored() -> (r: State)
        ensures
            r.users.inv(),
            r.items.inv(),
            r.file_alias_index.inv(),
            r.item_owners.inv(),
            r.item_shares.inv(),
            r.request_groups.inv(),
            r.group_alias_index.inv(),
            r.group_files.inv(),
            r.user_templates.inv(),
            r@.item_id_counter == 0,
            r@.users =~= Map::<Seq<u8>, UserModel>::empty(),
            r@.items =~= Map::<ItemId, ItemModel>::empty(),
            r@.file_alias_index =~= Map::<Seq<char>, ItemId>::empty(),
            r@.item_owners =~= Map::<Seq<u8>, Seq<ItemId>>::empty(),
            r@.item_shares =~= Map::<Seq<u8>, Seq<ItemId>>::empty(),
            r@.request_groups =~= Map::<ItemId, GroupModel>::empty(),
            r@.group_alias_index =~= Map::<Seq<char>, ItemId>::empty(),
            r@.group_files =~= Map::<ItemId, Seq<ItemId>>::empty(),
            r@.user_templates =~= Map::<(Seq<u8>, Seq<char>), TemplateModel>::empty(),
            r@.file_contents.dom().finite(),
    {
        let fc = ChunkStore::load();
        let r = State {
            item_id_counter: 0,
            users: UserStore::new(),
            items: ItemStore::new(),
            file_alias_index: StringIdMap::new(),
            item_owners: PrincipalIdsMap::new(),
            item_shares: PrincipalIdsMap::new(),
            file_contents: fc,
            alias_generator: init_alias_generator(),
            request_groups: GroupStore::new(),
            group_alias_index: StringIdMap::new(),
            group_files: IdIdsMap::new(),
            user_templates: TemplateStore::new(),
        };
        proof {
            assert(r@.items.dom() =~= Set::<ItemId>::empty());
        }
        r
    }
}

/// A generator for the alias strings of this store, deterministically seeded;
/// a host reseeds it through [`State::reseed_alias_generator`] before handing
/// out aliases.
pub fn init_alias_generator() -> (r: AliasGenerator) {
    AliasGenerator::new(0)
}

/// Draws the next alias string of the store.
pub fn generate_alias(state: &mut State) -> (r: String)
    ensures
        r@.len() == 16,
        final(state).item_id_counter == old(state).item_id_counter,
        final(state)@ == old(state)@,
        old(state).wf() ==> final(state).wf(),
{
    let a = state.alias_generator.next_alias();
    proof {
        assert(state@ =~= old(state)@);
    }
    a
}

/// Adding a fresh leaf item keeps the item tree well formed.
pub proof fn lemma_items_wf_add_leaf(
    items: Map<ItemId, ItemModel>,
    counter: u64,
    counter2: u64,
    item: ItemModel,
)
    requires
        items_wf(items, counter),
        counter <= item.id < counter2,
        fields_ok(item),
        match item.parent_id {
            Option::None => true,
            Option::Some(p) => items.contains_key(p) && items[p].item_type == ItemType::Folder,
        },
    ensures
        items_wf(items.insert(item.id, item), counter2),
        !items.contains_key(item.id),
    decreases 0int,
{
    broadcast use vstd::set::group_set_axioms, vstd::map::group_map_axioms;

    let m2 = items.insert(item.id, item);
    assert(!items.contains_key(item.id));
    assert forall|id: ItemId| #[trigger] m2.contains_key(id) implies id < counter2 && m2[id].id
        == id && crate::tree::parent_ok(m2, id) && fields_ok(m2[id]) by {
        if id == item.id {
        } else {
            assert(items.contains_key(id));
        }
    }
    crate::tree::lemma_tree_insert_leaf(items, item.id, item);
}

/// Rewriting an item's record without moving or retyping it keeps the item
/// tree well formed.
pub proof fn lemma_items_wf_update(
    items: Map<ItemId, ItemModel>,
    counter: u64,
    id: ItemId,
    item2: ItemModel,
)
    requires
        items_wf(items, counter),
        items.contains_key(id),
        item2.id == id,
        item2.parent_id == items[id].parent_id,
        item2.item_type == items[id].item_type,
        fields_ok(item2),
    ensures
        items_wf(items.insert(id, item2), counter),
{
    broadcast use vstd::set::group_set_axioms, vstd::map::group_map_axioms;

    let m2 = items.insert(id, item2);
    assert(m2.dom() =~= items.dom());
    assert forall|x: ItemId| #[trigger] m2.contains_key(x) implies x < counter && m2[x].id == x
        && crate::tree::parent_ok(m2, x) && fields_ok(m2[x]) by {
        assert(items.contains_key(x));
    }
    crate::tree::lemma_tree_same_shape(items, m2);
}

/// Removing an item that is nobody's parent keeps the item tree well formed.
pub proof fn lemma_items_wf_remove(items: Map<ItemId, ItemModel>, counter: u64, del: ItemId)
    requires
        items_wf(items, counter),
        forall|x: ItemId|
            #[trigger] items.contains_key(x) && x != del ==> items[x].parent_id != Option::Some(
                del,
            ),
    ensures
        items_wf(items.remove(del), counter),
{
    broadcast use vstd::set::group_set_axioms, vstd::map::group_map_axioms;

    let m2 = items.remove(del);
    assert forall|x: ItemId| #[trigger] m2.contains_key(x) implies x < counter && m2[x].id == x
        && crate::tree::parent_ok(m2, x) && fields_ok(m2[x]) by {
        assert(items.contains_key(x));
        assert(items[x].parent_id != Option::Some(del));
    }
    crate::tree::lemma_tree_remove(items, del);
}

/// Growing the item tree by items without content keeps the chunk store's
/// invariant.
pub proof fn lemma_chunks_wf_extend(
    items1: Map<ItemId, ItemModel>,
    items2: Map<ItemId, ItemModel>,
    fc: Map<(ItemId, ChunkId), Seq<u8>>,
)
    requires
        chunks_wf(items1, fc),
        forall|id: ItemId| #[trigger]
            items1.contains_key(id) ==> items2.contains_key(id) && items2[id] == items1[id],
        forall|id: ItemId|
            #[trigger] items2.contains_key(id) && !items1.contains_key(id)
                ==> items2[id].content_type is None && items2[id].num_chunks is None,
    ensures
        chunks_wf(items2, fc),
{
    assert forall|k: (ItemId, ChunkId)| #[trigger] fc.contains_key(k) implies chunk_key_ok(
        items2,
        k,
    ) by {
        assert(chunk_key_ok(items1, k));
    }
    assert forall|id: ItemId| #[trigger]
        items2.contains_key(id) && items2[id].content_type is Some implies fc.contains_key(
        (id, 0),
    ) by {
        if items1.contains_key(id) {
            assert(items1[id].content_type is Some);
        }
    }
    assert forall|id: ItemId| #[trigger] completed_size_ok(items2, fc, id) by {
        assert(completed_size_ok(items1, fc, id));
        if items2.contains_key(id) && !items1.contains_key(id) {
            assert(items2[id].content_type is None);
        }
    }
}

/// Rewriting items without touching their content descriptors keeps the
/// chunk store's invariant.
pub proof fn lemma_chunks_wf_same_content(
    items1: Map<ItemId, ItemModel>,
    items2: Map<ItemId, ItemModel>,
    fc: Map<(ItemId, ChunkId), Seq<u8>>,
)
    requires
        chunks_wf(items1, fc),
        items1.dom() == items2.dom(),
        forall|id: ItemId| #[trigger]
            items1.contains_key(id) ==> items2[id].item_type == items1[id].item_type
                && items2[id].content_type == items1[id].content_type && items2[id].num_chunks
                == items1[id].num_chunks && items2[id].size == items1[id].size,
    ensures
        chunks_wf(items2, fc),
{
    assert forall|k: (ItemId, ChunkId)| #[trigger] fc.contains_key(k) implies chunk_key_ok(
        items2,
        k,
    ) by {
        assert(chunk_key_ok(items1, k));
        assert(items2.contains_key(k.0) == items1.contains_key(k.0));
    }
    assert forall|id: ItemId| #[trigger]
        items2.contains_key(id) && items2[id].content_type is Some implies fc.contains_key(
        (id, 0),
    ) by {
        assert(items1.contains_key(id) && items1[id].content_type is Some);
    }
    assert forall|id: ItemId| #[trigger] completed_size_ok(items2, fc, id) by {
        assert(completed_size_ok(items1, fc, id));
        assert(items2.contains_key(id) == items1.contains_key(id));
    }
}

/// Growing the item tree keeps the alias index's invariant.
pub proof fn lemma_aliases_wf_extend(
    items1: Map<ItemId, ItemModel>,
    items2: Map<ItemId, ItemModel>,
    fa: Map<Seq<char>, ItemId>,
)
    requires
        aliases_wf(items1, fa),
        forall|id: ItemId| #[trigger]
            items1.contains_key(id) ==> items2.contains_key(id) && items2[id] == items1[id],
    ensures
        aliases_wf(items2, fa),
{
    assert forall|a: Seq<char>| #[trigger] fa.contains_key(a) implies alias_ok(items2, fa, a) by {
        assert(alias_ok(items1, fa, a));
    }
}

/// Rewriting items while keeping their kind and upload state keeps the alias
/// index's invariant.
pub proof fn lemma_aliases_wf_same(
    items1: Map<ItemId, ItemModel>,
    items2: Map<ItemId, ItemModel>,
    fa: Map<Seq<char>, ItemId>,
)
    requires
        aliases_wf(items1, fa),
        items1.dom() == items2.dom(),
        forall|id: ItemId| #[trigger]
            items1.contains_key(id) ==> items2[id].item_type == items1[id].item_type && (
            items2[id].content_type is None) == (items1[id].content_type is None),
    ensures
        aliases_wf(items2, fa),
{
    assert forall|a: Seq<char>| #[trigger] fa.contains_key(a) implies alias_ok(items2, fa, a) by {
        assert(alias_ok(items1, fa, a));
        assert(items2.contains_key(fa[a]) == items1.contains_key(fa[a]));
    }
}

/// Once every declared chunk of a file is stored — in whatever order the
/// chunks arrived — the recorded size is the sum of the stored chunk
/// lengths, exactly whenever that sum fits in a `u64`.
pub proof fn lemma_complete_file_size(s: State, id: ItemId)
    requires
        s.wf(),
        s@.items.contains_key(id),
        s@.items[id].item_type == ItemType::File,
        s@.items[id].num_chunks is Some,
        stored_chunks(s@.file_contents, id) == s@.items[id].num_chunks.unwrap(),
    ensures
        s@.items[id].size == Option::Some(
            clamp_u64(
                chunks_size_sum(
                    s@.file_contents,
                    id,
                    s@.items[id].num_chunks.unwrap() as int,
                ),
            ),
        ),
        chunks_size_sum(s@.file_contents, id, s@.items[id].num_chunks.unwrap() as int)
            <= u64::MAX ==> s@.items[id].size == Option::Some(
            chunks_size_sum(s@.file_contents, id, s@.items[id].num_chunks.unwrap() as int) as u64,
        ),
{
    assert(completed_size_ok(s@.items, s@.file_contents, id));
    crate::chunks::lemma_sum_nonneg(s@.file_contents, id, s@.items[id].num_chunks.unwrap() as int);
}

} // verus!
