//! Requesting a file: a pending item reachable through a fresh alias.

use crate::item::{ItemMetadata, ItemModel, ItemType};
use crate::principal::PrincipalId;
use crate::state::{generate_alias, model_wf, State, StateModel};
use crate::ItemId;
use vstd::prelude::*;

verus! {

/// The record of a fresh pending file, stamped with the caller-supplied time.
pub open spec fn pending_file_model(
    m: StateModel,
    caller: Seq<u8>,
    name: Seq<char>,
    parent_id: Option<ItemId>,
    now: u64,
) -> ItemModel {
    ItemModel {
        id: m.item_id_counter,
        name: name,
        item_type: ItemType::File,
        parent_id: parent_id,
        owner: caller,
        created_at: now,
        modified_at: now,
        content_type: Option::None,
        size: Option::None,
        num_chunks: Option::None,
    }
}

/// Creates a pending file item for the caller and binds a fresh alias to it.
/// A parent that does not exist or is not a folder yields the empty string,
/// and nothing changes.
pub fn request_file(
    caller: &PrincipalId,
    request_name: String,
    parent_id: Option<ItemId>,
    state: &mut State,
    now: u64,
) -> (alias: String)
    requires
        old(state).wf(),
        old(state)@.item_id_counter < u64::MAX,
    ensures
        final(state).wf(),
        match parent_id {
            Option::None => true,
            Option::Some(p) => !(old(state)@.items.contains_key(p)
                && old(state)@.items[p].item_type == ItemType::Folder) ==> alias@
                == Seq::<char>::empty() && final(state)@ == old(state)@,
        },
        (match parent_id {
            Option::None => true,
            Option::Some(p) => old(state)@.items.contains_key(p) && old(state)@.items[p].item_type
                == ItemType::Folder,
        }) ==> {
            let item = pending_file_model(old(state)@, caller@, request_name@, parent_id, now);
            &&& alias@.len() == 16
            &&& final(state)@ == (StateModel {
                item_id_counter: (old(state)@.item_id_counter + 1) as u64,
                items: old(state)@.items.insert(item.id, item),
                file_alias_index: old(state)@.file_alias_index.insert(alias@, item.id),
                item_owners: old(state)@.item_owners.insert(
                    caller@,
                    (if old(state)@.item_owners.contains_key(caller@) {
                        old(state)@.item_owners[caller@]
                    } else {
                        Seq::<ItemId>::empty()
                    }).push(item.id),
                ),
                ..old(state)@
            })
        },
{
    match parent_id {
        Some(p) => {
            match state.items.get(&p) {
                Some(parent_item) => {
                    if !matches!(parent_item.item_type, ItemType::Folder) {
                        let r = String::new();
                        return r;
                    }
                },
                None => {
                    let r = String::new();
                    return r;
                },
            }
        },
        None => {},
    }
    let ghost m1 = state@;
    let alias = generate_alias(state);
    let item_id = state.generate_item_id();
    let item_metadata = ItemMetadata {
        id: item_id,
        name: request_name,
        item_type: ItemType::File,
        parent_id: parent_id,
        owner_principal: caller.clone(),
        created_at: now,
        modified_at: now,
        content_type: None,
        size: None,
        num_chunks: None,
    };
    let ghost item = item_metadata@;
    proof {
        assert(item == pending_file_model(m1, caller@, request_name@, parent_id, now));
        assert forall|k: ItemId| #[trigger] state@.items.contains_key(k) implies k < item_id by {}
        crate::state::lemma_items_wf_add_leaf(
            m1.items,
            m1.item_id_counter,
            (m1.item_id_counter + 1) as u64,
            item,
        );
    }
    state.items.insert(item_id, item_metadata);
    let alias_copy = crate::item::clone_string(&alias);
    state.file_alias_index.insert(alias_copy, item_id);
    state.item_owners.add_id(caller, item_id);
    proof {
        let m2 = state@;
        assert(m2 =~= (StateModel {
            item_id_counter: (m1.item_id_counter + 1) as u64,
            items: m1.items.insert(item.id, item),
            file_alias_index: m1.file_alias_index.insert(alias@, item.id),
            item_owners: m1.item_owners.insert(
                caller@,
                (if m1.item_owners.contains_key(caller@) {
                    m1.item_owners[caller@]
                } else {
                    Seq::<ItemId>::empty()
                }).push(item.id),
            ),
            ..m1
        }));
        assert forall|id: ItemId| #[trigger]
            m1.items.contains_key(id) implies m2.items.contains_key(id) && m2.items[id]
            == m1.items[id] by {}
        crate::state::lemma_chunks_wf_extend(m1.items, m2.items, m2.file_contents);
        // Every alias still points at an existing pending file, and no two
        // aliases share a target: the fresh item's id is new.
        assert forall|a: Seq<char>| #[trigger]
            m2.file_alias_index.contains_key(a) implies crate::state::alias_ok(
            m2.items,
            m2.file_alias_index,
            a,
        ) by {
            if a == alias@ {
            } else {
                assert(m1.file_alias_index.contains_key(a));
                assert(crate::state::alias_ok(m1.items, m1.file_alias_index, a));
            }
        }
        assert forall|a1: Seq<char>, a2: Seq<char>|
            #[trigger] m2.file_alias_index.contains_key(a1)
                && #[trigger] m2.file_alias_index.contains_key(a2) && m2.file_alias_index[a1]
                == m2.file_alias_index[a2] implies a1 == a2 by {
            if a1 != alias@ && a2 != alias@ {
                assert(m1.file_alias_index.contains_key(a1)
                    && m1.file_alias_index.contains_key(a2));
            } else if a1 == alias@ && a2 != alias@ {
                assert(m1.file_alias_index.contains_key(a2));
                assert(crate::state::alias_ok(m1.items, m1.file_alias_index, a2));
                assert(m1.file_alias_index[a2] < m1.item_id_counter);
            } else if a2 == alias@ && a1 != alias@ {
                assert(m1.file_alias_index.contains_key(a1));
                assert(crate::state::alias_ok(m1.items, m1.file_alias_index, a1));
                assert(m1.file_alias_index[a1] < m1.item_id_counter);
            }
        }
        assert(model_wf(m2));
    }
    alias
}

} // verus!
