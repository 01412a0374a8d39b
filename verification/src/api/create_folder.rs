//! Creating folders.

use crate::api_types::ItemError;
use crate::item::{public_of, ItemMetadata, ItemModel, ItemType, PublicItemMetadata};
use crate::principal::PrincipalId;
use crate::state::{model_wf, State, StateModel};
use crate::ItemId;
use vstd::prelude::*;

verus! {

/// Whether this caller may create a child under this parent: the parent, if
/// named, must exist, be a folder, and be owned by the caller.
pub open spec fn can_create_under(
    m: StateModel,
    caller: Seq<u8>,
    parent_id: Option<ItemId>,
) -> bool {
    match parent_id {
        Option::None => true,
        Option::Some(p) => m.items.contains_key(p) && m.items[p].item_type == ItemType::Folder
            && m.items[p].owner == caller,
    }
}

/// The record of a fresh folder, stamped with the caller-supplied time.
pub open spec fn new_folder_model(
    m: StateModel,
    caller: Seq<u8>,
    name: Seq<char>,
    parent_id: Option<ItemId>,
    now: u64,
) -> ItemModel {
    ItemModel {
        id: m.item_id_counter,
        name: name,
        item_type: ItemType::Folder,
        parent_id: parent_id,
        owner: caller,
        created_at: now,
        modified_at: now,
        content_type: Option::None,
        size: Option::None,
        num_chunks: Option::None,
    }
}

/// Creates a folder owned by the caller, at the root or under one of the
/// caller's folders; `now` is the host's current time, stamped on the new
/// record.
pub fn create_folder(
    state: &mut State,
    caller: &PrincipalId,
    name: String,
    parent_id: Option<ItemId>,
    now: u64,
) -> (r: Result<PublicItemMetadata, ItemError>)
    requires
        old(state).wf(),
        old(state)@.item_id_counter < u64::MAX,
    ensures
        final(state).wf(),
        r is Err ==> final(state)@ == old(state)@,
        match parent_id {
            Option::None => r is Ok,
            Option::Some(p) => {
                &&& (!old(state)@.items.contains_key(p) ==> r == Result::<
                    PublicItemMetadata,
                    ItemError,
                >::Err(ItemError::NotFound))
                &&& (old(state)@.items.contains_key(p) && old(state)@.items[p].item_type
                    != ItemType::Folder ==> r == Result::<PublicItemMetadata, ItemError>::Err(
                    ItemError::NotAFolder,
                ))
                &&& (old(state)@.items.contains_key(p) && old(state)@.items[p].item_type
                    == ItemType::Folder && old(state)@.items[p].owner != caller@ ==> r == Result::<
                    PublicItemMetadata,
                    ItemError,
                >::Err(ItemError::PermissionDenied))
                &&& (can_create_under(old(state)@, caller@, parent_id) ==> r is Ok)
            },
        },
        r matches Result::Ok(pi) ==> {
            let item = new_folder_model(old(state)@, caller@, name@, parent_id, now);
            &&& pi@ == public_of(item)
            &&& final(state)@ == (StateModel {
                item_id_counter: (old(state)@.item_id_counter + 1) as u64,
                items: old(state)@.items.insert(item.id, item),
                item_owners: old(state)@.item_owners.insert(
                    caller@,
                    (if old(state)@.item_owners.contains_key(caller@) {
                        old(state)@.item_owners[caller@]
                    } else {
                        Seq::<ItemId>::empty()
                    }).push(item.id),
                ),
                ..old(state)@
            })
        },
{
    match parent_id {
        Some(p_id) => {
            match state.items.get(&p_id) {
                Some(parent_item) => {
                    if !matches!(parent_item.item_type, ItemType::Folder) {
                        return Err(ItemError::NotAFolder);
                    }
                    if !(parent_item.owner_principal == *caller) {
                        return Err(ItemError::PermissionDenied);
                    }
                },
                None => {
                    return Err(ItemError::NotFound);
                },
            }
        },
        None => {},
    }
    let ghost m1 = state@;
    let item_id = state.generate_item_id();
    let folder_metadata = ItemMetadata {
        id: item_id,
        name: name,
        item_type: ItemType::Folder,
        parent_id: parent_id,
        owner_principal: caller.clone(),
        created_at: now,
        modified_at: now,
        content_type: None,
        size: None,
        num_chunks: None,
    };
    let ghost item = folder_metadata@;
    let result = folder_metadata.to_public();
    proof {
        assert(item == new_folder_model(m1, caller@, name@, parent_id, now));
        assert forall|k: ItemId| #[trigger] state@.items.contains_key(k) implies k < item_id by {}
        crate::state::lemma_items_wf_add_leaf(
            m1.items,
            m1.item_id_counter,
            (m1.item_id_counter + 1) as u64,
            item,
        );
    }
    state.items.insert(item_id, folder_metadata);
    state.item_owners.add_id(caller, item_id);
    proof {
        let m2 = state@;
        assert(m2 =~= (StateModel {
            item_id_counter: (m1.item_id_counter + 1) as u64,
            items: m1.items.insert(item.id, item),
            item_owners: m1.item_owners.insert(
                caller@,
                (if m1.item_owners.contains_key(caller@) {
                    m1.item_owners[caller@]
                } else {
                    Seq::<ItemId>::empty()
                }).push(item.id),
            ),
            ..m1
        }));
        assert forall|id: ItemId| #[trigger]
            m1.items.contains_key(id) implies m2.items.contains_key(id) && m2.items[id]
            == m1.items[id] by {}
        crate::state::lemma_chunks_wf_extend(m1.items, m2.items, m2.file_contents);
        crate::state::lemma_aliases_wf_extend(m1.items, m2.items, m2.file_alias_index);
        assert(model_wf(m2));
    }
    Ok(result)
}

} // verus!
