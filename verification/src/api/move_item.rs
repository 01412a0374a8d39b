//! Moving items within the tree.

use crate::api_types::ItemError;
use crate::item::{clone_opt_string, ItemMetadata, ItemModel, ItemType};
use crate::principal::PrincipalId;
use crate::state::{items_wf, model_wf, State, StateModel};
use crate::tree::{chain_len, chain_nodes, chain_ok, lemma_chain_mono, lemma_chain_nodes,
    lemma_chain_parents};
use crate::ItemId;
use vstd::prelude::*;

verus! {

/// The ancestor-or-self set of an item: the nodes of its parent chain,
/// itself included.
pub open spec fn ancestors_of(m: Map<ItemId, ItemModel>, p: ItemId) -> Set<ItemId> {
    chain_nodes(m, Option::Some(p), m.dom().len() + 1)
}

/// True when the move would make `item_id` its own ancestor: the destination
/// is the moved folder itself or one of its descendants.
pub open spec fn move_makes_cycle(
    m: Map<ItemId, ItemModel>,
    item_id: ItemId,
    new_parent_id: Option<ItemId>,
) -> bool {
    match new_parent_id {
        Option::None => false,
        Option::Some(p) => m[item_id].item_type == ItemType::Folder && ancestors_of(m, p).contains(
            item_id,
        ),
    }
}

/// True when the caller may move this item here: the caller owns the item
/// and, if a destination is named, it is a folder the caller also owns.
pub open spec fn can_move(
    m: StateModel,
    caller: Seq<u8>,
    item_id: ItemId,
    new_parent_id: Option<ItemId>,
) -> bool {
    &&& m.items.contains_key(item_id)
    &&& m.items[item_id].owner == caller
    &&& match new_parent_id {
        Option::None => true,
        Option::Some(p) => m.items.contains_key(p) && m.items[p].item_type == ItemType::Folder
            && m.items[p].owner == caller,
    }
}

/// Moves an item to the root or under another folder of the caller's; a move
/// that would make a folder its own descendant is rejected.
pub fn move_item(
    state: &mut State,
    caller: &PrincipalId,
    item_id: ItemId,
    new_parent_id: Option<ItemId>,
    now: u64,
) -> (r: Result<(), ItemError>)
    requires
        old(state).wf(),
    ensures
        final(state).wf(),
        r is Err ==> final(state)@ == old(state)@,
        !old(state)@.items.contains_key(item_id) ==> r == Result::<(), ItemError>::Err(
            ItemError::NotFound,
        ),
        old(state)@.items.contains_key(item_id) && old(state)@.items[item_id].owner != caller@
            ==> r == Result::<(), ItemError>::Err(ItemError::PermissionDenied),
        old(state)@.items.contains_key(item_id) && old(state)@.items[item_id].owner == caller@
            ==> match new_parent_id {
            Option::None => true,
            Option::Some(p) => {
                &&& (!old(state)@.items.contains_key(p) ==> r == Result::<(), ItemError>::Err(
                    ItemError::NotFound,
                ))
                &&& (old(state)@.items.contains_key(p) && old(state)@.items[p].item_type
                    != ItemType::Folder ==> r == Result::<(), ItemError>::Err(ItemError::NotAFolder))
                &&& (old(state)@.items.contains_key(p) && old(state)@.items[p].item_type
                    == ItemType::Folder && old(state)@.items[p].owner != caller@ ==> r == Result::<
                    (),
                    ItemError,
                >::Err(ItemError::PermissionDenied))
            },
        },
        can_move(old(state)@, caller@, item_id, new_parent_id) ==> {
            &&& (move_makes_cycle(old(state)@.items, item_id, new_parent_id) ==> r == Result::<
                (),
                ItemError,
            >::Err(ItemError::CycleDetected))
            &&& (!move_makes_cycle(old(state)@.items, item_id, new_parent_id) ==> r is Ok)
        },
        r is Ok ==> final(state)@ == (StateModel {
            items: old(state)@.items.insert(
                item_id,
                ItemModel {
                    parent_id: new_parent_id,
                    modified_at: now,
                    ..old(state)@.items[item_id]
                },
            ),
            ..old(state)@
        }),
{
    let ghost m1 = state@;
    let ghost mi = state@.items;
    let ghost fuel = mi.dom().len() + 1;
    let item_is_folder = match state.items.get(&item_id) {
        Some(it) => {
            if !(it.owner_principal == *caller) {
                return Err(ItemError::PermissionDenied);
            }
            matches!(it.item_type, ItemType::Folder)
        },
        None => {
            return Err(ItemError::NotFound);
        },
    };
    match new_parent_id {
        Some(p_id) => {
            let start = match state.items.get(&p_id) {
                Some(parent_item) => {
                    if !matches!(parent_item.item_type, ItemType::Folder) {
                        return Err(ItemError::NotAFolder);
                    }
                    if !(parent_item.owner_principal == *caller) {
                        return Err(ItemError::PermissionDenied);
                    }
                    parent_item.parent_id
                },
                None => {
                    return Err(ItemError::NotFound);
                },
            };
            if item_is_folder {
                proof {
                    assert(chain_ok(mi, Option::Some(p_id), fuel));
                    lemma_chain_mono(mi, start, (fuel - 1) as nat, fuel);
                }
                if p_id == item_id {
                    proof {
                        assert(ancestors_of(mi, p_id).contains(item_id));
                    }
                    return Err(ItemError::CycleDetected);
                }
                let ghost target_in = ancestors_of(mi, p_id).contains(item_id);
                let mut cur: Option<ItemId> = start;
                proof {
                    lemma_chain_mono(mi, start, (fuel - 1) as nat, fuel);
                    assert(target_in == chain_nodes(mi, cur, fuel).contains(item_id)) by {
                        assert(ancestors_of(mi, p_id) == chain_nodes(
                            mi,
                            start,
                            (fuel - 1) as nat,
                        ).insert(p_id));
                    }
                }
                loop
                    invariant
                        chain_ok(mi, cur, fuel),
                        target_in == chain_nodes(mi, cur, fuel).contains(item_id),
                        mi == state@.items,
                        m1 == state@,
                        state.wf(),
                        fuel == mi.dom().len() + 1,
                    decreases chain_len(mi, cur, fuel),
                {
                    match cur {
                        Some(aid) => {
                            proof {
                                assert(chain_nodes(mi, cur, fuel).contains(aid));
                            }
                            if aid == item_id {
                                return Err(ItemError::CycleDetected);
                            }
                            let next = match state.items.get(&aid) {
                                Some(a_item) => a_item.parent_id,
                                None => None,
                            };
                            proof {
                                lemma_chain_mono(mi, next, (fuel - 1) as nat, fuel);
                                assert(chain_nodes(mi, cur, fuel) == chain_nodes(
                                    mi,
                                    next,
                                    (fuel - 1) as nat,
                                ).insert(aid));
                                assert(chain_len(mi, cur, fuel) == 1 + chain_len(
                                    mi,
                                    next,
                                    (fuel - 1) as nat,
                                ));
                            }
                            cur = next;
                        },
                        None => {
                            proof {
                                assert(!target_in);
                            }
                            break ;
                        },
                    }
                }
            } else {
                // A file heads no chain: every ancestor of the destination is
                // a folder, so the file cannot appear among them.
                proof {
                    assert(chain_ok(mi, Option::Some(p_id), fuel));
                    lemma_chain_nodes(mi, Option::Some(p_id), fuel);
                    lemma_chain_parents(mi, Option::Some(p_id), fuel);
                    if ancestors_of(mi, p_id).contains(item_id) {
                        if Option::Some(item_id) == Option::<ItemId>::Some(p_id) {
                            assert(mi[p_id].item_type == ItemType::Folder);
                        } else {
                            let z = choose|z: ItemId| #[trigger]
                                chain_nodes(mi, Option::Some(p_id), fuel).contains(z)
                                    && mi[z].parent_id == Option::Some(item_id);
                            assert(mi.contains_key(z));
                            assert(crate::tree::parent_ok(mi, z));
                        }
                        assert(false);
                    }
                }
            }
        },
        None => {},
    }
    // All checks passed: reattach the item.
    let item = match state.items.get(&item_id) {
        Some(it) => it,
        None => {
            proof {
                assert(false);
            }
            return Err(ItemError::NotFound);
        },
    };
    let updated = ItemMetadata {
        id: item.id,
        name: crate::item::clone_string(&item.name),
        item_type: item.item_type,
        parent_id: new_parent_id,
        owner_principal: item.owner_principal.clone(),
        created_at: item.created_at,
        modified_at: now,
        content_type: clone_opt_string(&item.content_type),
        size: item.size,
        num_chunks: item.num_chunks,
    };
    let ghost updated_model = updated@;
    proof {
        assert(updated_model =~= (ItemModel {
            parent_id: new_parent_id,
            modified_at: now,
            ..m1.items[item_id]
        }));
        let items2 = mi.insert(item_id, updated_model);
        match new_parent_id {
            Option::None => {},
            Option::Some(p) => {
                assert(!chain_nodes(mi, Option::Some(p), fuel).contains(item_id));
                assert(p != item_id) by {
                    assert(chain_nodes(mi, Option::Some(p), fuel).contains(p));
                }
            },
        }
        crate::tree::lemma_tree_reparent(mi, item_id, updated_model);
        assert forall|x: ItemId| #[trigger] items2.contains_key(x) implies x
            < m1.item_id_counter && items2[x].id == x && crate::tree::parent_ok(items2, x)
            && crate::state::fields_ok(items2[x]) by {
            assert(mi.contains_key(x));
        }
        assert(items_wf(items2, m1.item_id_counter));
    }
    state.items.insert(item_id, updated);
    proof {
        let m2 = state@;
        assert(m2 =~= (StateModel { items: m1.items.insert(item_id, updated_model), ..m1 }));
        assert(m2.items.dom() =~= m1.items.dom());
        crate::state::lemma_chunks_wf_same_content(m1.items, m2.items, m2.file_contents);
        crate::state::lemma_aliases_wf_same(m1.items, m2.items, m2.file_alias_index);
        assert(model_wf(m2));
    }
    Ok(())
}

} // verus!
