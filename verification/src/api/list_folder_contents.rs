//! Listing the contents of a folder, or of the root.

use crate::api_types::ItemError;
use crate::item::{public_of, ItemModel, ItemType, PublicItemMetadata, PublicItemModel};
use crate::principal::PrincipalId;
use crate::state::{State, StateModel};
use crate::ItemId;
use vstd::prelude::*;

verus! {

/// True when the item is shared with this caller.
pub open spec fn shared_with(m: StateModel, caller: Seq<u8>, id: ItemId) -> bool {
    m.item_shares.contains_key(caller) && m.item_shares[caller].contains(id)
}

/// True when the caller may see this item: it owns it or has it shared.
pub open spec fn visible_to(m: StateModel, caller: Seq<u8>, it: ItemModel) -> bool {
    it.owner == caller || shared_with(m, caller, it.id)
}

/// The listing of one tree level, in ascending id order: the items whose
/// parent is the target and that the caller may see.
pub open spec fn listing_view(
    m: StateModel,
    records: Seq<ItemModel>,
    caller: Seq<u8>,
    folder_id: Option<ItemId>,
) -> Seq<PublicItemModel> {
    records.filter(
        |it: ItemModel| it.parent_id == folder_id && visible_to(m, caller, it),
    ).map_values(|it: ItemModel| public_of(it))
}

/// Lists the children of a folder the caller owns or has shared, or the
/// caller's visible root items when no folder is named.
pub fn list_folder_contents(state: &State, caller: &PrincipalId, folder_id: Option<ItemId>) -> (r:
    Result<Vec<PublicItemMetadata>, ItemError>)
    requires
        state.wf(),
    ensures
        match folder_id {
            Option::None => r is Ok,
            Option::Some(f) => {
                &&& (!state@.items.contains_key(f) ==> r == Result::<
                    Vec<PublicItemMetadata>,
                    ItemError,
                >::Err(ItemError::NotFound))
                &&& (state@.items.contains_key(f) && state@.items[f].item_type != ItemType::Folder
                    ==> r == Result::<Vec<PublicItemMetadata>, ItemError>::Err(
                    ItemError::NotAFolder,
                ))
                &&& (state@.items.contains_key(f) && state@.items[f].item_type == ItemType::Folder
                    && !(state@.items[f].owner == caller@ || shared_with(state@, caller@, f)) ==> r
                    == Result::<Vec<PublicItemMetadata>, ItemError>::Err(
                    ItemError::PermissionDenied,
                ))
                &&& (state@.items.contains_key(f) && state@.items[f].item_type == ItemType::Folder
                    && (state@.items[f].owner == caller@ || shared_with(state@, caller@, f)) ==> r
                    is Ok)
            },
        },
        r matches Result::Ok(v) ==> v@.map_values(|p: PublicItemMetadata| p@) == listing_view(
            state@,
            state.items.models(),
            caller@,
            folder_id,
        ),
{
    let ghost m = state@;
    match folder_id {
        Some(f_id) => {
            match state.items.get(&f_id) {
                Some(folder_item) => {
                    if !matches!(folder_item.item_type, ItemType::Folder) {
                        return Err(ItemError::NotAFolder);
                    }
                    let is_owner = folder_item.owner_principal == *caller;
                    let is_shared = state.item_shares.has_id(caller, f_id);
                    if !is_owner && !is_shared {
                        return Err(ItemError::PermissionDenied);
                    }
                },
                None => {
                    return Err(ItemError::NotFound);
                },
            }
        },
        None => {},
    }
    let ghost records = state.items.models();
    let ghost gpred = |it: ItemModel| it.parent_id == folder_id && visible_to(m, caller@, it);
    let ghost gmap = |it: ItemModel| public_of(it);
    let mut contents: Vec<PublicItemMetadata> = Vec::new();
    let n = state.items.len();
    let mut i: usize = 0;
    proof {
        reveal(Seq::filter);
        assert(records.take(0) =~= Seq::<ItemModel>::empty());
        assert(contents@.map_values(|p: PublicItemMetadata| p@) =~= records.take(0).filter(
            gpred,
        ).map_values(gmap));
    }
    while i < n
        invariant
            state.wf(),
            m == state@,
            records == state.items.models(),
            n == records.len(),
            i <= n,
            contents@.map_values(|p: PublicItemMetadata| p@) == records.take(i as int).filter(
                gpred,
            ).map_values(gmap),
        decreases n - i,
    {
        proof {
            reveal(Seq::filter);
            assert(records.take(i as int + 1).drop_last() =~= records.take(i as int));
            assert(records.take(i as int + 1).last() == records[i as int]);
        }
        let item_meta = state.items.get_at(i);
        let parent_match = match (item_meta.parent_id, folder_id) {
            (Some(a), Some(b)) => a == b,
            (None, None) => true,
            _ => false,
        };
        if parent_match {
            let is_owner = item_meta.owner_principal == *caller;
            let is_shared = state.item_shares.has_id(caller, item_meta.id);
            if is_owner || is_shared {
                contents.push(item_meta.to_public());
                proof {
                    assert(gpred(records[i as int]));
                    assert(contents@.map_values(|p: PublicItemMetadata| p@) =~= records.take(
                        i as int,
                    ).filter(gpred).map_values(gmap).push(gmap(records[i as int])));
                    assert(records.take(i as int + 1).filter(gpred).map_values(gmap)
                        =~= records.take(i as int).filter(gpred).map_values(gmap).push(
                        gmap(records[i as int]),
                    ));
                }
            } else {
                proof {
                    assert(!gpred(records[i as int]));
                }
            }
        } else {
            proof {
                assert(!gpred(records[i as int]));
            }
        }
        i = i + 1;
    }
    proof {
        assert(records.take(n as int) =~= records);
    }
    Ok(contents)
}

/// The caller-visible record of one item: its owner and its share
/// recipients may read its metadata.
pub fn get_item_metadata_by_id(state: &State, caller: &PrincipalId, item_id: ItemId) -> (r: Result<
    PublicItemMetadata,
    ItemError,
>)
    requires
        state.wf(),
    ensures
        !state@.items.contains_key(item_id) ==> r == Result::<PublicItemMetadata, ItemError>::Err(
            ItemError::NotFound,
        ),
        state@.items.contains_key(item_id) && !visible_to(state@, caller@, state@.items[item_id])
            ==> r == Result::<PublicItemMetadata, ItemError>::Err(ItemError::PermissionDenied),
        state@.items.contains_key(item_id) && visible_to(state@, caller@, state@.items[item_id])
            ==> (r matches Result::Ok(pi) && pi@ == public_of(state@.items[item_id])),
{
    let item = match state.items.get(&item_id) {
        Some(it) => it,
        None => {
            return Err(ItemError::NotFound);
        },
    };
    let is_owner = item.owner_principal == *caller;
    let is_shared = state.item_shares.has_id(caller, item_id);
    if is_owner || is_shared {
        Ok(item.to_public())
    } else {
        Err(ItemError::PermissionDenied)
    }
}

} // verus!
