//! Saved request templates: per-owner CRUD.

use crate::api_types::GetAliasInfoError;
use crate::principal::PrincipalId;
use crate::state::{State, StateModel};
use crate::templates::{templates_of, TemplateLegacy, TemplateModel};
use vstd::prelude::*;

verus! {

/// Saves a template under the caller's name for it, replacing any previous
/// one of the same name.
pub fn save_template(
    state: &mut State,
    caller: &PrincipalId,
    name: String,
    file_names: Vec<String>,
) -> (r: Result<(), GetAliasInfoError>)
    requires
        old(state).wf(),
    ensures
        final(state).wf(),
        r is Ok,
        final(state)@ == (StateModel {
            user_templates: old(state)@.user_templates.insert(
                (caller@, name@),
                TemplateModel {
                    name: name@,
                    file_names: crate::item::strings_view(file_names@),
                },
            ),
            ..old(state)@
        }),
{
    let ghost m1 = state@;
    let t = TemplateLegacy { name, file_names };
    let ghost tv = t@;
    state.user_templates.save(caller, t);
    proof {
        assert(state@ =~= (StateModel {
            user_templates: m1.user_templates.insert((caller@, tv.name), tv),
            ..m1
        }));
    }
    Ok(())
}

/// The templates the caller has saved, in the order they were first saved.
pub fn get_user_templates(state: &State, caller: &PrincipalId) -> (r: Vec<TemplateLegacy>)
    requires
        state.wf(),
    ensures
        r@.map_values(|t: TemplateLegacy| t@) == templates_of(
            state.user_templates.entries(),
            caller@,
        ),
{
    state.user_templates.list_for(caller)
}

/// Looks a template of the caller's up by name.
pub fn get_template(state: &State, caller: &PrincipalId, name: String) -> (r: Result<
    TemplateLegacy,
    GetAliasInfoError,
>)
    requires
        state.wf(),
    ensures
        !state@.user_templates.contains_key((caller@, name@)) ==> r == Result::<
            TemplateLegacy,
            GetAliasInfoError,
        >::Err(GetAliasInfoError::NotFound),
        state@.user_templates.contains_key((caller@, name@)) ==> (r matches Result::Ok(t) && t@
            == state@.user_templates[(caller@, name@)]),
{
    match state.user_templates.get(caller, &name) {
        Some(t) => Ok(t.clone()),
        None => Err(GetAliasInfoError::NotFound),
    }
}

/// Deletes a template of the caller's by name.
pub fn delete_template(state: &mut State, caller: &PrincipalId, name: String) -> (r: Result<
    (),
    GetAliasInfoError,
>)
    requires
        old(state).wf(),
    ensures
        final(state).wf(),
        !old(state)@.user_templates.contains_key((caller@, name@)) ==> r == Result::<
            (),
            GetAliasInfoError,
        >::Err(GetAliasInfoError::NotFound) && final(state)@ == old(state)@,
        old(state)@.user_templates.contains_key((caller@, name@)) ==> r is Ok && final(state)@
            == (StateModel {
            user_templates: old(state)@.user_templates.remove((caller@, name@)),
            ..old(state)@
        }),
{
    let ghost m1 = state@;
    let removed = state.user_templates.delete(caller, &name);
    proof {
        if !removed {
            assert(state@ =~= m1);
        } else {
            assert(state@ =~= (StateModel {
                user_templates: m1.user_templates.remove((caller@, name@)),
                ..m1
            }));
        }
    }
    if removed {
        Ok(())
    } else {
        Err(GetAliasInfoError::NotFound)
    }
}

} // verus!
