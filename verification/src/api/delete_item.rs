//! Deleting items, with all their dependent records.

use crate::api_types::ItemError;
use crate::chunks::chunks_without;
use crate::groups::group_without_file;
use crate::indexes::{purged, without_value};
use crate::item::{ItemModel, ItemType};
use crate::principal::PrincipalId;
use crate::state::{aliases_wf, chunks_wf, model_wf, State, StateModel};
use crate::{ChunkId, ItemId};
use vstd::prelude::*;

verus! {

/// True when some item of the tree has this parent.
pub open spec fn has_child(m: Map<ItemId, ItemModel>, id: ItemId) -> bool {
    exists|c: ItemId| #[trigger] m.contains_key(c) && m[c].parent_id == Option::Some(id)
}

/// The ownership index after the owner of a deleted item loses it.
pub open spec fn owners_after_delete(
    owners: Map<Seq<u8>, Seq<ItemId>>,
    owner: Seq<u8>,
    id: ItemId,
) -> Map<Seq<u8>, Seq<ItemId>> {
    if owners.contains_key(owner) && owners[owner].contains(id) {
        if crate::indexes::ids_without(owners[owner], id).len() == 0 {
            owners.remove(owner)
        } else {
            owners.insert(owner, crate::indexes::ids_without(owners[owner], id))
        }
    } else {
        owners
    }
}

/// The request groups after a deleted item leaves every file list and its
/// own group entry, if it was a group folder, is dropped.
pub open spec fn groups_after_delete(
    groups: Map<ItemId, crate::groups::GroupModel>,
    id: ItemId,
) -> Map<ItemId, crate::groups::GroupModel> {
    Map::new(
        |k: ItemId| groups.contains_key(k),
        |k: ItemId| group_without_file(groups[k], id),
    ).remove(id)
}

/// The state after an item and all its dependent records are gone.
pub open spec fn state_after_delete(m: StateModel, id: ItemId) -> StateModel {
    StateModel {
        items: m.items.remove(id),
        file_contents: chunks_without(m.file_contents, id),
        item_owners: owners_after_delete(m.item_owners, m.items[id].owner, id),
        item_shares: purged(m.item_shares, id),
        file_alias_index: without_value(m.file_alias_index, id),
        request_groups: groups_after_delete(m.request_groups, id),
        group_files: m.group_files.remove(id),
        group_alias_index: without_value(m.group_alias_index, id),
        ..m
    }
}

/// Deletes an item the caller owns.  A folder must be empty; a file loses
/// its chunks; the item leaves the ownership index, every share list, the
/// alias indexes and the request groups.
pub fn delete_item(state: &mut State, caller: &PrincipalId, item_id_to_delete: ItemId) -> (r:
    Result<(), ItemError>)
    requires
        old(state).wf(),
    ensures
        final(state).wf(),
        r is Err ==> final(state)@ == old(state)@,
        !old(state)@.items.contains_key(item_id_to_delete) ==> r == Result::<(), ItemError>::Err(
            ItemError::NotFound,
        ),
        old(state)@.items.contains_key(item_id_to_delete)
            && old(state)@.items[item_id_to_delete].owner != caller@ ==> r == Result::<
            (),
            ItemError,
        >::Err(ItemError::PermissionDenied),
        old(state)@.items.contains_key(item_id_to_delete)
            && old(state)@.items[item_id_to_delete].owner == caller@ ==> {
            &&& (old(state)@.items[item_id_to_delete].item_type == ItemType::Folder && has_child(
                old(state)@.items,
                item_id_to_delete,
            ) ==> r == Result::<(), ItemError>::Err(ItemError::FolderNotEmpty))
            &&& ((old(state)@.items[item_id_to_delete].item_type == ItemType::File || !has_child(
                old(state)@.items,
                item_id_to_delete,
            )) ==> r is Ok && final(state)@ == state_after_delete(old(state)@, item_id_to_delete))
        },
{
    let ghost m1 = state@;
    let id = item_id_to_delete;
    let (is_file, num_chunks_opt) = match state.items.get(&id) {
        Some(it) => {
            if !(it.owner_principal == *caller) {
                return Err(ItemError::PermissionDenied);
            }
            (matches!(it.item_type, ItemType::File), it.num_chunks)
        },
        None => {
            return Err(ItemError::NotFound);
        },
    };
    if !is_file {
        // A folder may be deleted only when no item names it as parent.
        let n = state.items.len();
        let mut i: usize = 0;
        while i < n
            invariant
                state.wf(),
                m1 == state@,
                n == state.items.models().len(),
                i <= n,
                forall|j: int|
                    0 <= j < i ==> state.items.models()[j].parent_id != Option::Some(id),
            decreases n - i,
        {
            let it = state.items.get_at(i);
            match it.parent_id {
                Some(p) => {
                    if p == id {
                        proof {
                            assert(has_child(m1.items, id)) by {
                                assert(m1.items.contains_key(it@.id) && m1.items[it@.id].parent_id
                                    == Option::Some(id));
                            }
                        }
                        return Err(ItemError::FolderNotEmpty);
                    }
                },
                None => {},
            }
            i = i + 1;
        }
        proof {
            // The scan covered every item: none has the folder as parent.
            state.items.lemma_view();
            assert forall|c: ItemId| #[trigger]
                m1.items.contains_key(c) implies m1.items[c].parent_id != Option::Some(id) by {
                let s = state.items.models();
                assert(crate::store::contains_id(s, c));
                let j = crate::store::idx_of(s, c);
                assert(0 <= j < s.len() && s[j].id == c);
                crate::store::lemma_idx_unique(s, j);
                assert(s[j] == m1.items[c]);
            }
            assert(!has_child(m1.items, id));
        }
    } else {
        proof {
            // A file is nobody's parent: parents are folders.
            assert forall|c: ItemId| #[trigger]
                m1.items.contains_key(c) implies m1.items[c].parent_id != Option::Some(id) by {
                if m1.items[c].parent_id == Option::Some(id) {
                    assert(crate::tree::parent_ok(m1.items, c));
                }
            }
        }
    }
    // Remove the record itself.
    proof {
        crate::state::lemma_items_wf_remove(m1.items, m1.item_id_counter, id);
    }
    state.items.remove(&id);
    // Remove the chunks of a file, all of which lie below its declared count.
    let ghost items_now = state.items;
    match num_chunks_opt {
        Some(num_chunks) => {
            let mut chunk_id: u64 = 0;
            proof {
                assert(state@.file_contents =~= Map::new(
                    |k: (ItemId, ChunkId)| m1.file_contents.contains_key(k) && !(k.0 == id && k.1
                        < 0),
                    |k: (ItemId, ChunkId)| m1.file_contents[k],
                ));
            }
            while chunk_id < num_chunks
                invariant
                    chunk_id <= num_chunks,
                    state.items == items_now,
                    state.item_owners == old(state).item_owners,
                    state.item_shares == old(state).item_shares,
                    state.file_alias_index == old(state).file_alias_index,
                    state.request_groups == old(state).request_groups,
                    state.group_files == old(state).group_files,
                    state.group_alias_index == old(state).group_alias_index,
                    state.user_templates == old(state).user_templates,
                    state.users == old(state).users,
                    state.item_id_counter == old(state).item_id_counter,
                    state@.file_contents == Map::new(
                        |k: (ItemId, ChunkId)| m1.file_contents.contains_key(k) && !(k.0 == id
                            && k.1 < chunk_id),
                        |k: (ItemId, ChunkId)| m1.file_contents[k],
                    ),
                decreases num_chunks - chunk_id,
            {
                let ghost fc_before = state@.file_contents;
                state.file_contents.remove(&(id, chunk_id));
                proof {
                    assert(state@.file_contents =~= Map::new(
                        |k: (ItemId, ChunkId)| m1.file_contents.contains_key(k) && !(k.0 == id
                            && k.1 < chunk_id + 1),
                        |k: (ItemId, ChunkId)| m1.file_contents[k],
                    ));
                }
                chunk_id = chunk_id + 1;
            }
            proof {
                // Every chunk of the file sits below its declared count, so
                // the sweep removed them all.
                assert(state@.file_contents =~= chunks_without(m1.file_contents, id)) by {
                    assert forall|k: (ItemId, ChunkId)| #[trigger]
                        m1.file_contents.contains_key(k) && k.0 == id implies k.1 < num_chunks by {
                        assert(crate::state::chunk_key_ok(m1.items, k));
                    }
                }
            }
        },
        None => {
            proof {
                // An item without a declared count has no chunks at all.
                assert(state@.file_contents =~= chunks_without(m1.file_contents, id)) by {
                    assert forall|k: (ItemId, ChunkId)| #[trigger]
                        m1.file_contents.contains_key(k) implies k.0 != id by {
                        assert(crate::state::chunk_key_ok(m1.items, k));
                        if k.0 == id {
                            assert(m1.items[id].num_chunks is Some);
                        }
                    }
                }
            }
        },
    }
    // Strike the item from its owner's list, every share list, the alias
    // indexes, and the request groups.
    let _removed = state.item_owners.remove_id(caller, id);
    state.item_shares.purge_id(id);
    state.file_alias_index.remove_value(id);
    state.request_groups.purge_file_id(id);
    state.request_groups.remove(&id);
    state.group_files.remove(&id);
    state.group_alias_index.remove_value(id);
    proof {
        let m2 = state@;
        let ms = state_after_delete(m1, id);
        assert(m1.items[id].owner == caller@);
        assert(m2.items == ms.items && m2.file_contents == ms.file_contents);
        assert(m2.item_owners =~= ms.item_owners);
        assert(m2.item_shares == ms.item_shares);
        assert(m2.file_alias_index == ms.file_alias_index);
        assert(m2.request_groups =~= ms.request_groups);
        assert(m2.group_files == ms.group_files);
        assert(m2.group_alias_index == ms.group_alias_index);
        assert(m2 =~= ms);
        // Well-formedness of the shrunken state.
        assert(chunks_wf(m2.items, m2.file_contents)) by {
            assert(m2.file_contents.dom().finite()) by {
                assert(m2.file_contents.dom() =~= m1.file_contents.dom().filter(
                    |k: (ItemId, ChunkId)| k.0 != id,
                ));
                m1.file_contents.dom().lemma_len_filter(|k: (ItemId, ChunkId)| k.0 != id);
            }
            assert forall|k: (ItemId, ChunkId)| #[trigger]
                m2.file_contents.contains_key(k) implies crate::state::chunk_key_ok(
                m2.items,
                k,
            ) by {
                assert(crate::state::chunk_key_ok(m1.items, k));
            }
            assert forall|x: ItemId| #[trigger]
                m2.items.contains_key(x) && m2.items[x].content_type is Some
                implies m2.file_contents.contains_key((x, 0)) by {
                assert(m1.items.contains_key(x) && m1.items[x].content_type is Some);
            }
            assert forall|x: ItemId| #[trigger]
                crate::state::completed_size_ok(m2.items, m2.file_contents, x) by {
                assert(crate::state::completed_size_ok(m1.items, m1.file_contents, x));
                if m2.items.contains_key(x) {
                    assert(x != id);
                    assert forall|c: ChunkId| #[trigger]
                        m2.file_contents.contains_key((x, c)) == m1.file_contents.contains_key(
                        (x, c),
                    ) by {}
                    crate::chunks::lemma_stored_agree(m1.file_contents, m2.file_contents, x);
                    match m1.items[x].num_chunks {
                        Option::Some(nx) => {
                            crate::chunks::lemma_sum_agree(
                                m1.file_contents,
                                m2.file_contents,
                                x,
                                nx as int,
                            );
                        },
                        Option::None => {},
                    }
                }
            }
        }
        assert(aliases_wf(m2.items, m2.file_alias_index)) by {
            assert forall|a: Seq<char>| #[trigger]
                m2.file_alias_index.contains_key(a) implies crate::state::alias_ok(
                m2.items,
                m2.file_alias_index,
                a,
            ) by {
                assert(m1.file_alias_index.contains_key(a));
                assert(crate::state::alias_ok(m1.items, m1.file_alias_index, a));
            }
        }
        assert(model_wf(m2));
    }
    Ok(())
}

} // verus!
