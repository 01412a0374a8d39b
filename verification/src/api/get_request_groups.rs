//! Listing a caller's request groups.

use crate::api_types::PublicRequestGroupLegacy;
use crate::groups::GroupModel;
use crate::item::{public_of, PublicItemMetadata, PublicItemModel};
use crate::principal::PrincipalId;
use crate::state::{State, StateModel};
use crate::ItemId;
use vstd::prelude::*;

verus! {

/// The ghost model of a listed request group.
#[verifier::ext_equal]
pub ghost struct PublicGroupModelLegacy {
    pub group_id: ItemId,
    pub name: Seq<char>,
    pub files: Seq<PublicItemModel>,
    pub created_at: u64,
}

impl View for PublicRequestGroupLegacy {
    type V = PublicGroupModelLegacy;

    open spec fn view(&self) -> PublicGroupModelLegacy {
        PublicGroupModelLegacy {
            group_id: self.group_id,
            name: self.name@,
            files: self.files@.map_values(|p: PublicItemMetadata| p@),
            created_at: self.created_at,
        }
    }
}

/// The still-existing items among a list of ids, as public records.
pub open spec fn live_files_view(m: StateModel, files: Seq<ItemId>) -> Seq<PublicItemModel> {
    files.filter(|i: ItemId| m.items.contains_key(i)).map_values(
        |i: ItemId| public_of(m.items[i]),
    )
}

/// The caller's groups, in the order they were recorded.
pub open spec fn groups_view(
    entries: Seq<(ItemId, GroupModel)>,
    m: StateModel,
    caller: Seq<u8>,
) -> Seq<PublicGroupModelLegacy> {
    entries.filter(|e: (ItemId, GroupModel)| e.1.requester == caller).map_values(
        |e: (ItemId, GroupModel)|
            PublicGroupModelLegacy {
                group_id: e.0,
                name: e.1.name,
                files: live_files_view(m, e.1.files),
                created_at: e.1.created_at,
            },
    )
}

/// Resolves a list of item ids to the live items' public records.
fn live_items(state: &State, ids: &Vec<ItemId>) -> (r: Vec<PublicItemMetadata>)
    requires
        state.wf(),
    ensures
        r@.map_values(|p: PublicItemMetadata| p@) == live_files_view(state@, ids@),
{
    let ghost m = state@;
    let ghost gids = ids@;
    let ghost gpred = |i: ItemId| m.items.contains_key(i);
    let ghost gmap = |i: ItemId| public_of(m.items[i]);
    let mut out: Vec<PublicItemMetadata> = Vec::new();
    let n = ids.len();
    let mut i: usize = 0;
    proof {
        reveal(Seq::filter);
        assert(gids.take(0) =~= Seq::<ItemId>::empty());
        assert(out@.map_values(|p: PublicItemMetadata| p@) =~= gids.take(0).filter(
            gpred,
        ).map_values(gmap));
    }
    while i < n
        invariant
            state.wf(),
            m == state@,
            gids == ids@,
            n == gids.len(),
            i <= n,
            out@.map_values(|p: PublicItemMetadata| p@) == gids.take(i as int).filter(
                gpred,
            ).map_values(gmap),
        decreases n - i,
    {
        proof {
            reveal(Seq::filter);
            assert(gids.take(i as int + 1).drop_last() =~= gids.take(i as int));
            assert(gids.take(i as int + 1).last() == gids[i as int]);
        }
        match state.items.get(&ids[i]) {
            Some(it) => {
                out.push(it.to_public());
                proof {
                    assert(gpred(gids[i as int]));
                    assert(out@.map_values(|p: PublicItemMetadata| p@) =~= gids.take(
                        i as int,
                    ).filter(gpred).map_values(gmap).push(gmap(gids[i as int])));
                    assert(gids.take(i as int + 1).filter(gpred).map_values(gmap) =~= gids.take(
                        i as int,
                    ).filter(gpred).map_values(gmap).push(gmap(gids[i as int])));
                }
            },
            None => {
                proof {
                    assert(!gpred(gids[i as int]));
                }
            },
        }
        i = i + 1;
    }
    proof {
        assert(gids.take(n as int) =~= gids);
    }
    out
}

/// Lists the groups the caller requested, resolving their member files to
/// live records.
pub fn get_request_groups(state: &State, caller: &PrincipalId) -> (r: Vec<
    PublicRequestGroupLegacy,
>)
    requires
        state.wf(),
    ensures
        r@.map_values(|g: PublicRequestGroupLegacy| g@) == groups_view(
            state.request_groups.entries(),
            state@,
            caller@,
        ),
{
    let ghost m = state@;
    let ghost entries = state.request_groups.entries();
    let ghost gpred = |e: (ItemId, GroupModel)| e.1.requester == caller@;
    let ghost gmap = |e: (ItemId, GroupModel)|
        PublicGroupModelLegacy {
            group_id: e.0,
            name: e.1.name,
            files: live_files_view(m, e.1.files),
            created_at: e.1.created_at,
        };
    let mut out: Vec<PublicRequestGroupLegacy> = Vec::new();
    let n = state.request_groups.len();
    let mut i: usize = 0;
    proof {
        reveal(Seq::filter);
        assert(entries.take(0) =~= Seq::<(ItemId, GroupModel)>::empty());
        assert(out@.map_values(|g: PublicRequestGroupLegacy| g@) =~= entries.take(0).filter(
            gpred,
        ).map_values(gmap));
    }
    while i < n
        invariant
            state.wf(),
            m == state@,
            entries == state.request_groups.entries(),
            n == entries.len(),
            i <= n,
            out@.map_values(|g: PublicRequestGroupLegacy| g@) == entries.take(i as int).filter(
                gpred,
            ).map_values(gmap),
        decreases n - i,
    {
        proof {
            reveal(Seq::filter);
            assert(entries.take(i as int + 1).drop_last() =~= entries.take(i as int));
            assert(entries.take(i as int + 1).last() == entries[i as int]);
        }
        let key = state.request_groups.key_at(i);
        let group = state.request_groups.get_at(i);
        if group.requester == *caller {
            let files_metadata = live_items(state, &group.files);
            let entry = PublicRequestGroupLegacy {
                group_id: key,
                name: crate::item::clone_string(&group.name),
                files: files_metadata,
                created_at: group.created_at,
            };
            let ghost ev = entry@;
            out.push(entry);
            proof {
                assert(gpred(entries[i as int]));
                assert(ev =~= gmap(entries[i as int]));
                assert(out@.map_values(|g: PublicRequestGroupLegacy| g@) =~= entries.take(
                    i as int,
                ).filter(gpred).map_values(gmap).push(gmap(entries[i as int])));
                assert(entries.take(i as int + 1).filter(gpred).map_values(gmap) =~= entries.take(
                    i as int,
                ).filter(gpred).map_values(gmap).push(gmap(entries[i as int])));
            }
        } else {
            proof {
                assert(!gpred(entries[i as int]));
            }
        }
        i = i + 1;
    }
    proof {
        assert(entries.take(n as int) =~= entries);
    }
    out
}

} // verus!
