//! Sharing items with other principals, and reading shares back.

use crate::api_types::{FileSharingResponse, ItemError};
use crate::chunks::stored_chunks;
use crate::indexes::ids_without;
use crate::item::{clone_opt_string, public_of, ItemMetadata, ItemModel, ItemType,
    PublicItemMetadata, PublicItemModel};
use crate::principal::PrincipalId;
use crate::state::{model_wf, State, StateModel};
use crate::users::{PublicUser, PublicUserModel, UserModel};
use crate::ItemId;
use vstd::prelude::*;

verus! {

/// True when a file item has not yet received every declared chunk.
pub open spec fn file_incomplete(m: StateModel, id: ItemId) -> bool {
    m.items[id].item_type == ItemType::File && match m.items[id].num_chunks {
        Option::None => true,
        Option::Some(n) => stored_chunks(m.file_contents, id) < n,
    }
}

/// Once every declared chunk of a file is stored, the file is no longer
/// pending or partial: by [`share_item`]'s contract, the very share call
/// that was refused with `PendingError` before the final chunk landed is
/// granted after it.
pub proof fn lemma_share_after_completion(m: StateModel, id: ItemId)
    requires
        m.items.contains_key(id),
        m.items[id].num_chunks is Some,
        stored_chunks(m.file_contents, id) >= m.items[id].num_chunks.unwrap(),
    ensures
        !file_incomplete(m, id),
{
}

/// The item's record with a refreshed modification time.
pub open spec fn touched(it: ItemModel, now: u64) -> ItemModel {
    ItemModel { modified_at: now, ..it }
}

/// Grants a recipient access to an item the caller owns.  A file may be
/// shared only once every declared chunk has arrived; a folder always.
/// Sharing twice is idempotent.
pub fn share_item(
    state: &mut State,
    caller: &PrincipalId,
    sharing_with: &PrincipalId,
    item_id: ItemId,
    now: u64,
) -> (r: FileSharingResponse)
    requires
        old(state).wf(),
    ensures
        final(state).wf(),
        !(old(state)@.items.contains_key(item_id) && old(state)@.items[item_id].owner == caller@)
            ==> r == FileSharingResponse::PermissionError && final(state)@ == old(state)@,
        old(state)@.items.contains_key(item_id) && old(state)@.items[item_id].owner == caller@
            && file_incomplete(old(state)@, item_id) ==> r == FileSharingResponse::PendingError
            && final(state)@ == old(state)@,
        old(state)@.items.contains_key(item_id) && old(state)@.items[item_id].owner == caller@
            && !file_incomplete(old(state)@, item_id) ==> r == FileSharingResponse::Done && {
            if old(state)@.item_shares.contains_key(sharing_with@)
                && old(state)@.item_shares[sharing_with@].contains(item_id) {
                final(state)@ == old(state)@
            } else {
                final(state)@ == (StateModel {
                    item_shares: old(state)@.item_shares.insert(
                        sharing_with@,
                        (if old(state)@.item_shares.contains_key(sharing_with@) {
                            old(state)@.item_shares[sharing_with@]
                        } else {
                            Seq::<ItemId>::empty()
                        }).push(item_id),
                    ),
                    items: old(state)@.items.insert(
                        item_id,
                        touched(old(state)@.items[item_id], now),
                    ),
                    ..old(state)@
                })
            }
        },
{
    let ghost m1 = state@;
    let is_file = match state.items.get(&item_id) {
        Some(it) => {
            if !(it.owner_principal == *caller) {
                return FileSharingResponse::PermissionError;
            }
            matches!(it.item_type, ItemType::File)
        },
        None => {
            return FileSharingResponse::PermissionError;
        },
    };
    if is_file {
        let total = match state.items.get(&item_id) {
            Some(it) => match it.num_chunks {
                Some(n) => n,
                None => {
                    return FileSharingResponse::PendingError;
                },
            },
            None => {
                return FileSharingResponse::PendingError;
            },
        };
        let uploaded = state.num_chunks_uploaded(item_id);
        if uploaded < total {
            return FileSharingResponse::PendingError;
        }
    }
    if state.item_shares.has_id(sharing_with, item_id) {
        return FileSharingResponse::Done;
    }
    state.item_shares.add_id(sharing_with, item_id);
    // Refresh the item's modification time.
    let touched_item = match state.items.get(&item_id) {
        Some(it) => {
            ItemMetadata {
                id: it.id,
                name: crate::item::clone_string(&it.name),
                item_type: it.item_type,
                parent_id: it.parent_id,
                owner_principal: it.owner_principal.clone(),
                created_at: it.created_at,
                modified_at: now,
                content_type: clone_opt_string(&it.content_type),
                size: it.size,
                num_chunks: it.num_chunks,
            }
        },
        None => {
            proof {
                assert(false);
            }
            return FileSharingResponse::PermissionError;
        },
    };
    let ghost tm = touched_item@;
    proof {
        assert(tm =~= touched(m1.items[item_id], now));
        crate::state::lemma_items_wf_update(m1.items, m1.item_id_counter, item_id, tm);
    }
    state.items.insert(item_id, touched_item);
    proof {
        let m2 = state@;
        assert(m2 =~= (StateModel {
            item_shares: m1.item_shares.insert(
                sharing_with@,
                (if m1.item_shares.contains_key(sharing_with@) {
                    m1.item_shares[sharing_with@]
                } else {
                    Seq::<ItemId>::empty()
                }).push(item_id),
            ),
            items: m1.items.insert(item_id, tm),
            ..m1
        }));
        assert(m2.items.dom() =~= m1.items.dom());
        crate::state::lemma_chunks_wf_same_content(m1.items, m2.items, m2.file_contents);
        crate::state::lemma_aliases_wf_same(m1.items, m2.items, m2.file_alias_index);
        assert(model_wf(m2));
    }
    FileSharingResponse::Done
}

/// Withdraws a share the caller granted.  Fails when the caller does not own
/// the item or the recipient did not have it.
pub fn revoke_share(
    state: &mut State,
    caller: &PrincipalId,
    sharing_with: &PrincipalId,
    item_id: ItemId,
    now: u64,
) -> (r: FileSharingResponse)
    requires
        old(state).wf(),
    ensures
        final(state).wf(),
        !(old(state)@.items.contains_key(item_id) && old(state)@.items[item_id].owner == caller@)
            ==> r == FileSharingResponse::PermissionError && final(state)@ == old(state)@,
        old(state)@.items.contains_key(item_id) && old(state)@.items[item_id].owner == caller@
            && !(old(state)@.item_shares.contains_key(sharing_with@)
            && old(state)@.item_shares[sharing_with@].contains(item_id)) ==> r
            == FileSharingResponse::PermissionError && final(state)@ == old(state)@,
        old(state)@.items.contains_key(item_id) && old(state)@.items[item_id].owner == caller@
            && old(state)@.item_shares.contains_key(sharing_with@)
            && old(state)@.item_shares[sharing_with@].contains(item_id) ==> r
            == FileSharingResponse::Done && final(state)@ == (StateModel {
            item_shares: (if ids_without(old(state)@.item_shares[sharing_with@], item_id).len()
                == 0 {
                old(state)@.item_shares.remove(sharing_with@)
            } else {
                old(state)@.item_shares.insert(
                    sharing_with@,
                    ids_without(old(state)@.item_shares[sharing_with@], item_id),
                )
            }),
            items: old(state)@.items.insert(item_id, touched(old(state)@.items[item_id], now)),
            ..old(state)@
        }),
{
    let ghost m1 = state@;
    match state.items.get(&item_id) {
        Some(it) => {
            if !(it.owner_principal == *caller) {
                return FileSharingResponse::PermissionError;
            }
        },
        None => {
            return FileSharingResponse::PermissionError;
        },
    }
    let removed = state.item_shares.remove_id(sharing_with, item_id);
    if !removed {
        proof {
            assert(state@ =~= m1);
        }
        return FileSharingResponse::PermissionError;
    }
    // Refresh the item's modification time.
    let touched_item = match state.items.get(&item_id) {
        Some(it) => {
            ItemMetadata {
                id: it.id,
                name: crate::item::clone_string(&it.name),
                item_type: it.item_type,
                parent_id: it.parent_id,
                owner_principal: it.owner_principal.clone(),
                created_at: it.created_at,
                modified_at: now,
                content_type: clone_opt_string(&it.content_type),
                size: it.size,
                num_chunks: it.num_chunks,
            }
        },
        None => {
            proof {
                assert(false);
            }
            return FileSharingResponse::PermissionError;
        },
    };
    let ghost tm = touched_item@;
    proof {
        assert(tm =~= touched(m1.items[item_id], now));
        crate::state::lemma_items_wf_update(m1.items, m1.item_id_counter, item_id, tm);
    }
    state.items.insert(item_id, touched_item);
    proof {
        let m2 = state@;
        assert(m2 =~= (StateModel {
            item_shares: (if ids_without(m1.item_shares[sharing_with@], item_id).len() == 0 {
                m1.item_shares.remove(sharing_with@)
            } else {
                m1.item_shares.insert(
                    sharing_with@,
                    ids_without(m1.item_shares[sharing_with@], item_id),
                )
            }),
            items: m1.items.insert(item_id, tm),
            ..m1
        }));
        assert(m2.items.dom() =~= m1.items.dom());
        crate::state::lemma_chunks_wf_same_content(m1.items, m2.items, m2.file_contents);
        crate::state::lemma_aliases_wf_same(m1.items, m2.items, m2.file_alias_index);
        assert(model_wf(m2));
    }
    FileSharingResponse::Done
}

/// The live items shared with a caller: dead ids are dropped silently.
pub open spec fn shared_items_view(m: StateModel, caller: Seq<u8>) -> Seq<PublicItemModel> {
    (if m.item_shares.contains_key(caller) {
        m.item_shares[caller]
    } else {
        Seq::<ItemId>::empty()
    }).filter(|i: ItemId| m.items.contains_key(i)).map_values(
        |i: ItemId| public_of(m.items[i]),
    )
}

/// Resolves the caller's share list to the live items' metadata.
pub fn get_items_shared_with_me(state: &State, caller: &PrincipalId) -> (r: Vec<
    PublicItemMetadata,
>)
    requires
        state.wf(),
    ensures
        r@.map_values(|p: PublicItemMetadata| p@) == shared_items_view(state@, caller@),
{
    let ghost m = state@;
    let mut out: Vec<PublicItemMetadata> = Vec::new();
    let ids = match state.item_shares.get(caller) {
        Some(v) => v,
        None => {
            proof {
                reveal(Seq::filter);
                assert(out@.map_values(|p: PublicItemMetadata| p@) =~= shared_items_view(
                    m,
                    caller@,
                ));
            }
            return out;
        },
    };
    let ghost gids = m.item_shares[caller@];
    let ghost gpred = |i: ItemId| m.items.contains_key(i);
    let ghost gmap = |i: ItemId| public_of(m.items[i]);
    let n = ids.len();
    let mut i: usize = 0;
    proof {
        reveal(Seq::filter);
        assert(gids.take(0) =~= Seq::<ItemId>::empty());
        assert(out@.map_values(|p: PublicItemMetadata| p@) =~= gids.take(0).filter(
            gpred,
        ).map_values(gmap));
    }
    while i < n
        invariant
            state.wf(),
            m == state@,
            n == gids.len(),
            gids == m.item_shares[caller@],
            m.item_shares.contains_key(caller@),
            ids@ == gids,
            i <= n,
            out@.map_values(|p: PublicItemMetadata| p@) == gids.take(i as int).filter(
                gpred,
            ).map_values(gmap),
        decreases n - i,
    {
        proof {
            reveal(Seq::filter);
            assert(gids.take(i as int + 1).drop_last() =~= gids.take(i as int));
            assert(gids.take(i as int + 1).last() == gids[i as int]);
        }
        match state.items.get(&ids[i]) {
            Some(it) => {
                out.push(it.to_public());
                proof {
                    assert(gpred(gids[i as int]));
                    assert(out@.map_values(|p: PublicItemMetadata| p@) =~= gids.take(
                        i as int,
                    ).filter(gpred).map_values(gmap).push(gmap(gids[i as int])));
                    assert(gids.take(i as int + 1).filter(gpred).map_values(gmap) =~= gids.take(
                        i as int,
                    ).filter(gpred).map_values(gmap).push(gmap(gids[i as int])));
                }
            },
            None => {
                proof {
                    assert(!gpred(gids[i as int]));
                }
            },
        }
        i = i + 1;
    }
    proof {
        assert(gids.take(n as int) =~= gids);
    }
    out
}

/// The registered recipients whose share list carries this item, drawn from
/// the share index in its own order.
pub open spec fn sharers_view(
    entries: Seq<(Seq<u8>, Seq<ItemId>)>,
    users: Map<Seq<u8>, UserModel>,
    item_id: ItemId,
) -> Seq<PublicUserModel> {
    entries.filter(
        |e: (Seq<u8>, Seq<ItemId>)| e.1.contains(item_id) && users.contains_key(e.0),
    ).map_values(
        |e: (Seq<u8>, Seq<ItemId>)|
            PublicUserModel {
                username: users[e.0].username,
                public_key: users[e.0].public_key,
                ic_principal: e.0,
            },
    )
}

/// The registered users an item is shared with.
pub fn get_allowed_users(state: &State, item_id: ItemId) -> (r: Vec<PublicUser>)
    requires
        state.wf(),
    ensures
        r@.map_values(|u: PublicUser| u@) == sharers_view(
            state.item_shares.entries(),
            state@.users,
            item_id,
        ),
{
    let ghost entries = state.item_shares.entries();
    let ghost gusers = state@.users;
    let ghost gpred = |e: (Seq<u8>, Seq<ItemId>)| e.1.contains(item_id) && gusers.contains_key(
        e.0,
    );
    let ghost gmap = |e: (Seq<u8>, Seq<ItemId>)|
        PublicUserModel {
            username: gusers[e.0].username,
            public_key: gusers[e.0].public_key,
            ic_principal: e.0,
        };
    let mut out: Vec<PublicUser> = Vec::new();
    let n = state.item_shares.len();
    let mut i: usize = 0;
    proof {
        reveal(Seq::filter);
        assert(entries.take(0) =~= Seq::<(Seq<u8>, Seq<ItemId>)>::empty());
        assert(out@.map_values(|u: PublicUser| u@) =~= entries.take(0).filter(gpred).map_values(
            gmap,
        ));
    }
    while i < n
        invariant
            state.wf(),
            entries == state.item_shares.entries(),
            gusers == state@.users,
            n == entries.len(),
            i <= n,
            out@.map_values(|u: PublicUser| u@) == entries.take(i as int).filter(
                gpred,
            ).map_values(gmap),
        decreases n - i,
    {
        proof {
            reveal(Seq::filter);
            assert(entries.take(i as int + 1).drop_last() =~= entries.take(i as int));
            assert(entries.take(i as int + 1).last() == entries[i as int]);
        }
        let (p, ids) = state.item_shares.entry_at(i);
        if crate::indexes::ids_contain(ids, item_id) {
            match state.users.get(p) {
                Some(u) => {
                    let pu = crate::api_types::make_public_user(&u.username, &u.public_key, p);
                    out.push(pu);
                    proof {
                        assert(gpred(entries[i as int]));
                        assert(pu@ =~= gmap(entries[i as int]));
                        assert(out@.map_values(|u: PublicUser| u@) =~= entries.take(
                            i as int,
                        ).filter(gpred).map_values(gmap).push(gmap(entries[i as int])));
                        assert(entries.take(i as int + 1).filter(gpred).map_values(gmap)
                            =~= entries.take(i as int).filter(gpred).map_values(gmap).push(
                            gmap(entries[i as int]),
                        ));
                    }
                },
                None => {
                    proof {
                        assert(!gpred(entries[i as int]));
                    }
                },
            }
        } else {
            proof {
                assert(!gpred(entries[i as int]));
            }
        }
        i = i + 1;
    }
    proof {
        assert(entries.take(n as int) =~= entries);
    }
    out
}

/// The registered recipients of an item, failing when the item is unknown.
pub fn get_item_sharers(item_id: ItemId, state: &State) -> (r: Result<Vec<PublicUser>, ItemError>)
    requires
        state.wf(),
    ensures
        !state@.items.contains_key(item_id) ==> r == Result::<Vec<PublicUser>, ItemError>::Err(
            ItemError::NotFound,
        ),
        state@.items.contains_key(item_id) ==> (r matches Result::Ok(v) && v@.map_values(
            |u: PublicUser| u@,
        ) == sharers_view(state.item_shares.entries(), state@.users, item_id)),
{
    if !state.items.contains_key(&item_id) {
        return Err(ItemError::NotFound);
    }
    Ok(get_allowed_users(state, item_id))
}

} // verus!
