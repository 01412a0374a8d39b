//! Listing a caller's pending requests, and the derived status of a file.

use crate::api_types::{FileStatus, ItemError};
use crate::chunks::stored_chunks;
use crate::item::{public_of, ItemModel, ItemType, PublicItemMetadata, PublicItemModel};
use crate::principal::PrincipalId;
use crate::state::{State, StateModel};
use crate::ItemId;
use vstd::prelude::*;

verus! {

/// The alias bound to an item, when one is; the alias index binds at most
/// one alias to each item.
pub open spec fn alias_of(fa: Map<Seq<char>, ItemId>, id: ItemId) -> Seq<char> {
    if exists|a: Seq<char>| #[trigger] fa.contains_key(a) && fa[a] == id {
        choose|a: Seq<char>| #[trigger] fa.contains_key(a) && fa[a] == id
    } else {
        Seq::empty()
    }
}

/// The caller's file items still awaiting their first chunk, in ascending
/// id order.
pub open spec fn pending_view(
    m: StateModel,
    records: Seq<ItemModel>,
    caller: Seq<u8>,
) -> Seq<PublicItemModel> {
    records.filter(
        |it: ItemModel| it.owner == caller && it.item_type == ItemType::File && it.content_type
            is None,
    ).map_values(|it: ItemModel| public_of(it))
}

/// Lists the caller's pending file requests.
pub fn get_requests(state: &State, caller: &PrincipalId) -> (r: Vec<PublicItemMetadata>)
    requires
        state.wf(),
    ensures
        r@.map_values(|p: PublicItemMetadata| p@) == pending_view(
            state@,
            state.items.models(),
            caller@,
        ),
{
    let ghost m = state@;
    let ghost records = state.items.models();
    let ghost gpred = |it: ItemModel| it.owner == caller@ && it.item_type == ItemType::File
        && it.content_type is None;
    let ghost gmap = |it: ItemModel| public_of(it);
    let mut out: Vec<PublicItemMetadata> = Vec::new();
    let n = state.items.len();
    let mut i: usize = 0;
    proof {
        reveal(Seq::filter);
        assert(records.take(0) =~= Seq::<ItemModel>::empty());
        assert(out@.map_values(|p: PublicItemMetadata| p@) =~= records.take(0).filter(
            gpred,
        ).map_values(gmap));
    }
    while i < n
        invariant
            state.wf(),
            records == state.items.models(),
            n == records.len(),
            i <= n,
            out@.map_values(|p: PublicItemMetadata| p@) == records.take(i as int).filter(
                gpred,
            ).map_values(gmap),
        decreases n - i,
    {
        proof {
            reveal(Seq::filter);
            assert(records.take(i as int + 1).drop_last() =~= records.take(i as int));
            assert(records.take(i as int + 1).last() == records[i as int]);
        }
        let it = state.items.get_at(i);
        let is_pending = it.owner_principal == *caller && matches!(it.item_type, ItemType::File)
            && it.content_type.is_none();
        if is_pending {
            out.push(it.to_public());
            proof {
                assert(gpred(records[i as int]));
                assert(out@.map_values(|p: PublicItemMetadata| p@) =~= records.take(
                    i as int,
                ).filter(gpred).map_values(gmap).push(gmap(records[i as int])));
                assert(records.take(i as int + 1).filter(gpred).map_values(gmap) =~= records.take(
                    i as int,
                ).filter(gpred).map_values(gmap).push(gmap(records[i as int])));
            }
        } else {
            proof {
                assert(!gpred(records[i as int]));
            }
        }
        i = i + 1;
    }
    proof {
        assert(records.take(n as int) =~= records);
    }
    out
}

/// The derived upload status of a file item: pending before the first chunk,
/// partially uploaded before the last, uploaded after it.
pub fn get_file_status(state: &State, file_id: ItemId) -> (r: Result<FileStatus, ItemError>)
    requires
        state.wf(),
    ensures
        !state@.items.contains_key(file_id) ==> r == Result::<FileStatus, ItemError>::Err(
            ItemError::NotFound,
        ),
        state@.items.contains_key(file_id) && state@.items[file_id].item_type != ItemType::File
            ==> r == Result::<FileStatus, ItemError>::Err(ItemError::NotAFile),
        state@.items.contains_key(file_id) && state@.items[file_id].item_type == ItemType::File
            ==> {
            let it = state@.items[file_id];
            match it.num_chunks {
                Option::None => (r matches Result::Ok(st) && (st matches FileStatus::Pending {
                    alias,
                    requested_at,
                } && alias@ == alias_of(state@.file_alias_index, file_id) && requested_at
                    == it.created_at)),
                Option::Some(n) => {
                    &&& (stored_chunks(state@.file_contents, file_id) < n ==> r == Result::<
                        FileStatus,
                        ItemError,
                    >::Ok(FileStatus::PartiallyUploaded))
                    &&& (stored_chunks(state@.file_contents, file_id) >= n ==> (r
                        matches Result::Ok(st) && (st matches FileStatus::Uploaded { uploaded_at }
                        && uploaded_at == it.modified_at)))
                },
            }
        },
{
    let it = match state.items.get(&file_id) {
        Some(it) => it,
        None => {
            return Err(ItemError::NotFound);
        },
    };
    if !matches!(it.item_type, ItemType::File) {
        return Err(ItemError::NotAFile);
    }
    match it.num_chunks {
        None => {
            let alias = match state.file_alias_index.find_key_of(file_id) {
                Some(a) => {
                    proof {
                        assert(state@.file_alias_index.contains_key(a@)
                            && state@.file_alias_index[a@] == file_id);
                        let w = choose|x: Seq<char>| #[trigger]
                            state@.file_alias_index.contains_key(x)
                                && state@.file_alias_index[x] == file_id;
                        assert(alias_of(state@.file_alias_index, file_id) == w);
                        assert(a@ == w);
                    }
                    crate::item::clone_string(a)
                },
                None => {
                    proof {
                        assert(alias_of(state@.file_alias_index, file_id) =~= Seq::<
                            char,
                        >::empty()) by {
                            if exists|a: Seq<char>| #[trigger]
                                state@.file_alias_index.contains_key(a)
                                    && state@.file_alias_index[a] == file_id {
                                let w = choose|a: Seq<char>| #[trigger]
                                    state@.file_alias_index.contains_key(a)
                                        && state@.file_alias_index[a] == file_id;
                            }
                        }
                    }
                    String::new()
                },
            };
            Ok(FileStatus::Pending { alias, requested_at: it.created_at })
        },
        Some(n) => {
            let uploaded = state.num_chunks_uploaded(file_id);
            if uploaded < n {
                Ok(FileStatus::PartiallyUploaded)
            } else {
                Ok(FileStatus::Uploaded { uploaded_at: it.modified_at })
            }
        },
    }
}

} // verus!
