//! Resolving an upload alias without touching the state.

use crate::api_types::{AliasInfoForUpload, GetAliasInfoError};
use crate::principal::PrincipalId;
use crate::state::State;
use vstd::prelude::*;

verus! {

/// Resolves an alias to its pending item and the requester's profile.
pub fn get_alias_info(state: &State, alias: String) -> (r: Result<
    AliasInfoForUpload,
    GetAliasInfoError,
>)
    requires
        state.wf(),
    ensures
        !state@.file_alias_index.contains_key(alias@) ==> r == Result::<
            AliasInfoForUpload,
            GetAliasInfoError,
        >::Err(GetAliasInfoError::NotFound),
        state@.file_alias_index.contains_key(alias@) && !state@.users.contains_key(
            state@.items[state@.file_alias_index[alias@]].owner,
        ) ==> r == Result::<AliasInfoForUpload, GetAliasInfoError>::Err(GetAliasInfoError::NotFound),
        state@.file_alias_index.contains_key(alias@) && state@.users.contains_key(
            state@.items[state@.file_alias_index[alias@]].owner,
        ) ==> (r matches Result::Ok(info) && {
            let id = state@.file_alias_index[alias@];
            let it = state@.items[id];
            &&& info.item_id == id
            &&& info.file_name@ == it.name
            &&& info.user.username@ == state@.users[it.owner].username
            &&& info.user.public_key@ == state@.users[it.owner].public_key
            &&& info.user.ic_principal@ == it.owner
        }),
{
    let item_id = match state.file_alias_index.get(&alias) {
        Some(id) => *id,
        None => {
            return Err(GetAliasInfoError::NotFound);
        },
    };
    let item_metadata = match state.items.get(&item_id) {
        Some(it) => it,
        None => {
            proof {
                assert(crate::state::alias_ok(state@.items, state@.file_alias_index, alias@));
                assert(false);
            }
            return Err(GetAliasInfoError::NotFound);
        },
    };
    proof {
        assert(crate::state::alias_ok(state@.items, state@.file_alias_index, alias@));
    }
    let owner_info = match state.users.get(&item_metadata.owner_principal) {
        Some(u) => u,
        None => {
            return Err(GetAliasInfoError::NotFound);
        },
    };
    let user = crate::api_types::make_public_user(
        &owner_info.username,
        &owner_info.public_key,
        &item_metadata.owner_principal,
    );
    Ok(
        AliasInfoForUpload {
            item_id: item_metadata.id,
            file_name: crate::item::clone_string(&item_metadata.name),
            user: user,
        },
    )
}

} // verus!
