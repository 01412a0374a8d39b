//! Renaming items.

use crate::api_types::ItemError;
use crate::item::{clone_opt_string, ItemMetadata, ItemModel, ItemType};
use crate::principal::PrincipalId;
use crate::state::{model_wf, State, StateModel};
use crate::ItemId;
use vstd::prelude::*;

verus! {

/// True when a character carries the Unicode white-space property — the
/// characters that `str::trim` removes.
pub open spec fn whitespace_char(c: char) -> bool {
    ||| c == '\u{0009}'
    ||| c == '\u{000A}'
    ||| c == '\u{000B}'
    ||| c == '\u{000C}'
    ||| c == '\u{000D}'
    ||| c == '\u{0020}'
    ||| c == '\u{0085}'
    ||| c == '\u{00A0}'
    ||| c == '\u{1680}'
    ||| c == '\u{2000}'
    ||| c == '\u{2001}'
    ||| c == '\u{2002}'
    ||| c == '\u{2003}'
    ||| c == '\u{2004}'
    ||| c == '\u{2005}'
    ||| c == '\u{2006}'
    ||| c == '\u{2007}'
    ||| c == '\u{2008}'
    ||| c == '\u{2009}'
    ||| c == '\u{200A}'
    ||| c == '\u{2028}'
    ||| c == '\u{2029}'
    ||| c == '\u{202F}'
    ||| c == '\u{205F}'
    ||| c == '\u{3000}'
}

/// True when a name is empty or whitespace only, i.e. trims to nothing.
pub open spec fn blank_name(name: Seq<char>) -> bool {
    forall|i: int| 0 <= i < name.len() ==> whitespace_char(name[i])
}

/// True when a character counts as whitespace for name validation.
fn is_space(c: char) -> (r: bool)
    ensures
        r == whitespace_char(c),
{
    c == '\u{0009}' || c == '\u{000A}' || c == '\u{000B}' || c == '\u{000C}' || c == '\u{000D}'
        || c == '\u{0020}' || c == '\u{0085}' || c == '\u{00A0}' || c == '\u{1680}' || c
        == '\u{2000}' || c == '\u{2001}' || c == '\u{2002}' || c == '\u{2003}' || c == '\u{2004}'
        || c == '\u{2005}' || c == '\u{2006}' || c == '\u{2007}' || c == '\u{2008}' || c
        == '\u{2009}' || c == '\u{200A}' || c == '\u{2028}' || c == '\u{2029}' || c == '\u{202F}'
        || c == '\u{205F}' || c == '\u{3000}'
}

/// True when the name consists of whitespace alone.
fn name_is_blank(name: &String) -> (r: bool)
    ensures
        r == blank_name(name@),
{
    let chars = name.as_str();
    let n = chars.unicode_len();
    let mut i: usize = 0;
    while i < n
        invariant
            n == name@.len(),
            i <= n,
            forall|j: int| 0 <= j < i ==> whitespace_char(name@[j]),
        decreases n - i,
    {
        let c = chars.get_char(i);
        if !is_space(c) {
            return false;
        }
        i = i + 1;
    }
    true
}

/// Renames an item the caller owns, stamping `now` as its modification
/// time; blank names are rejected.
pub fn rename_item(
    state: &mut State,
    caller: &PrincipalId,
    item_id: ItemId,
    new_name: String,
    now: u64,
) -> (r: Result<(), ItemError>)
    requires
        old(state).wf(),
    ensures
        final(state).wf(),
        r is Err ==> final(state)@ == old(state)@,
        !old(state)@.items.contains_key(item_id) ==> r == Result::<(), ItemError>::Err(
            ItemError::NotFound,
        ),
        old(state)@.items.contains_key(item_id) && old(state)@.items[item_id].owner != caller@
            ==> r == Result::<(), ItemError>::Err(ItemError::PermissionDenied),
        old(state)@.items.contains_key(item_id) && old(state)@.items[item_id].owner == caller@
            && blank_name(new_name@) ==> r == Result::<(), ItemError>::Err(ItemError::InvalidName),
        old(state)@.items.contains_key(item_id) && old(state)@.items[item_id].owner == caller@
            && !blank_name(new_name@) ==> r is Ok && final(state)@ == (StateModel {
            items: old(state)@.items.insert(
                item_id,
                ItemModel { name: new_name@, modified_at: now, ..old(state)@.items[item_id] },
            ),
            ..old(state)@
        }),
{
    let ghost m1 = state@;
    let item = match state.items.get(&item_id) {
        Some(it) => it,
        None => {
            return Err(ItemError::NotFound);
        },
    };
    if !(item.owner_principal == *caller) {
        return Err(ItemError::PermissionDenied);
    }
    if name_is_blank(&new_name) {
        return Err(ItemError::InvalidName);
    }
    let updated = ItemMetadata {
        id: item.id,
        name: new_name,
        item_type: item.item_type,
        parent_id: item.parent_id,
        owner_principal: item.owner_principal.clone(),
        created_at: item.created_at,
        modified_at: now,
        content_type: clone_opt_string(&item.content_type),
        size: item.size,
        num_chunks: item.num_chunks,
    };
    let ghost updated_model = updated@;
    proof {
        assert(updated_model =~= (ItemModel {
            name: updated_model.name,
            modified_at: now,
            ..m1.items[item_id]
        }));
        crate::state::lemma_items_wf_update(m1.items, m1.item_id_counter, item_id, updated_model);
    }
    state.items.insert(item_id, updated);
    proof {
        let m2 = state@;
        assert(m2 =~= (StateModel { items: m1.items.insert(item_id, updated_model), ..m1 }));
        assert(m2.items.dom() =~= m1.items.dom());
        crate::state::lemma_chunks_wf_same_content(m1.items, m2.items, m2.file_contents);
        crate::state::lemma_aliases_wf_same(m1.items, m2.items, m2.file_alias_index);
        assert(model_wf(m2));
    }
    Ok(())
}

} // verus!
