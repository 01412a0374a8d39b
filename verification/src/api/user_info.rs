//! Registering users and checking usernames.

use crate::api_types::WhoamiResponse;
use crate::principal::PrincipalId;
use crate::state::{State, StateModel};
use crate::users::User;
use vstd::prelude::*;

verus! {

/// Registers or replaces the user bound to a caller identity.
pub fn set_user_info(state: &mut State, caller: &PrincipalId, user: User)
    requires
        old(state).wf(),
    ensures
        final(state).wf(),
        final(state)@ == (StateModel {
            users: old(state)@.users.insert(caller@, user@),
            ..old(state)@
        }),
{
    let ghost m1 = state@;
    let ghost uv = user@;
    state.users.insert(caller, user);
    proof {
        assert(state@ =~= (StateModel { users: m1.users.insert(caller@, uv), ..m1 }));
    }
}

/// True when some registered user already carries this username.
pub fn username_exists(state: &State, username: String) -> (r: bool)
    requires
        state.wf(),
    ensures
        r == (exists|p: Seq<u8>|
            #[trigger] state@.users.contains_key(p) && state@.users[p].username == username@),
{
    let r = state.users.exists_username(&username);
    proof {
        if r {
            let w = choose|p: Seq<u8>| #[trigger]
                state.users@.contains_key(p) && state.users@[p].username == username@;
            assert(state@.users.contains_key(w) && state@.users[w].username == username@);
        }
        if exists|p: Seq<u8>| #[trigger]
            state@.users.contains_key(p) && state@.users[p].username == username@ {
            let w = choose|p: Seq<u8>| #[trigger]
                state@.users.contains_key(p) && state@.users[p].username == username@;
            assert(state.users@.contains_key(w) && state.users@[w].username == username@);
        }
    }
    r
}

/// Who the caller is: its registered profile, or unknown.
pub fn who_am_i(state: &State, caller: &PrincipalId) -> (r: WhoamiResponse)
    requires
        state.wf(),
    ensures
        !state@.users.contains_key(caller@) ==> r is UnknownUser,
        state@.users.contains_key(caller@) ==> (r matches WhoamiResponse::KnownUser(u)
            && u.username@ == state@.users[caller@].username && u.public_key@
            == state@.users[caller@].public_key && u.ic_principal@ == caller@),
{
    match state.users.get(caller) {
        Some(user) => WhoamiResponse::KnownUser(
            crate::api_types::make_public_user(&user.username, &user.public_key, caller),
        ),
        None => WhoamiResponse::UnknownUser,
    }
}

} // verus!
