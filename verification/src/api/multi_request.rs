//! Requesting a group of files under one fresh folder.

use crate::api_types::{MultiRequestInputLegacy, MultiRequestResponseLegacy};
use crate::groups::{GroupModel, RequestGroup};
use crate::item::{clone_string, ItemModel, ItemType};
use crate::principal::PrincipalId;
use crate::state::{model_wf, State, StateModel};
use crate::templates::TemplateModel;
use crate::ItemId;
use vstd::prelude::*;

verus! {

/// The ids `base .. base + count`, in order.
pub open spec fn id_range(base: ItemId, count: int) -> Seq<ItemId> {
    Seq::new(count as nat, |i: int| (base + i) as ItemId)
}

/// The record of one requested member file of a group.
pub open spec fn member_file_model(
    id: ItemId,
    name: Seq<char>,
    group_id: ItemId,
    caller: Seq<u8>,
    now: u64,
) -> ItemModel {
    ItemModel {
        id: id,
        name: name,
        item_type: ItemType::File,
        parent_id: Option::Some(group_id),
        owner: caller,
        created_at: now,
        modified_at: now,
        content_type: Option::None,
        size: Option::None,
        num_chunks: Option::None,
    }
}

/// Creates one folder and one pending file per requested name under it,
/// binds an alias to the group and one to each file, and records the group.
pub fn multi_request(
    caller: &PrincipalId,
    input: MultiRequestInputLegacy,
    state: &mut State,
    now: u64,
) -> (r: MultiRequestResponseLegacy)
    requires
        old(state).wf(),
        old(state)@.item_id_counter + 1 + input.file_names@.len() <= u64::MAX,
    ensures
        final(state).wf(),
        r.group_id == old(state)@.item_id_counter,
        r.group_alias@.len() == 16,
        final(state)@.item_id_counter == old(state)@.item_id_counter + 1
            + input.file_names@.len(),
        // The group folder and each member file exist, and nothing else was
        // touched in the tree.
        final(state)@.items.contains_key(r.group_id) && final(state)@.items[r.group_id]
            == crate::api::create_folder::new_folder_model(
            old(state)@,
            caller@,
            input.group_name@,
            Option::None,
            now,
        ),
        forall|i: int|
            0 <= i < input.file_names@.len() ==> final(state)@.items.contains_key(
                (r.group_id + 1 + i) as ItemId,
            ) && final(state)@.items[(r.group_id + 1 + i) as ItemId] == member_file_model(
                (r.group_id + 1 + i) as ItemId,
                #[trigger] input.file_names@[i]@,
                r.group_id,
                caller@,
                now,
            ),
        forall|id: ItemId| #[trigger]
            old(state)@.items.contains_key(id) ==> final(state)@.items.contains_key(id)
                && final(state)@.items[id] == old(state)@.items[id],
        forall|id: ItemId| #[trigger]
            final(state)@.items.contains_key(id) ==> old(state)@.items.contains_key(id) || (
            r.group_id <= id <= r.group_id + input.file_names@.len()),
        // The group's records.
        final(state)@.request_groups == old(state)@.request_groups.insert(
            r.group_id,
            GroupModel {
                group_id: r.group_id,
                name: input.group_name@,
                files: id_range((r.group_id + 1) as ItemId, input.file_names@.len() as int),
                requester: caller@,
                created_at: now,
            },
        ),
        final(state)@.group_files == old(state)@.group_files.insert(
            r.group_id,
            id_range((r.group_id + 1) as ItemId, input.file_names@.len() as int),
        ),
        final(state)@.group_alias_index == old(state)@.group_alias_index.insert(
            r.group_alias@,
            r.group_id,
        ),
        // The caller owns the folder and every member, in order.
        final(state)@.item_owners == old(state)@.item_owners.insert(
            caller@,
            (if old(state)@.item_owners.contains_key(caller@) {
                old(state)@.item_owners[caller@]
            } else {
                Seq::<ItemId>::empty()
            }) + id_range(r.group_id, input.file_names@.len() + 1 as int),
        ),
        // Each member file has some alias bound to it; alias strings are
        // drawn from the generator, so only their targets are pinned.
        forall|a: Seq<char>| #[trigger]
            final(state)@.file_alias_index.contains_key(a)
                ==> (old(state)@.file_alias_index.contains_key(a)
                && old(state)@.file_alias_index[a] == final(state)@.file_alias_index[a]) || (
            r.group_id + 1 <= final(state)@.file_alias_index[a] <= r.group_id
                + input.file_names@.len()),
        final(state)@.file_contents == old(state)@.file_contents,
        final(state)@.item_shares == old(state)@.item_shares,
        final(state)@.users == old(state)@.users,
        input.save_as_template ==> final(state)@.user_templates
            == old(state)@.user_templates.insert(
            (caller@, input.group_name@),
            TemplateModel {
                name: input.group_name@,
                file_names: crate::item::strings_view(input.file_names@),
            },
        ),
        !input.save_as_template ==> final(state)@.user_templates == old(state)@.user_templates,
{
    let ghost m1 = state@;
    let group_folder_result = crate::api::create_folder::create_folder(
        state,
        caller,
        clone_string(&input.group_name),
        None,
        now,
    );
    let group_folder_id = match group_folder_result {
        Ok(meta) => meta.id,
        Err(_) => {
            proof {
                assert(false);
            }
            0
        },
    };
    let ghost base_list = if m1.item_owners.contains_key(caller@) {
        m1.item_owners[caller@]
    } else {
        Seq::<ItemId>::empty()
    };
    let group_alias = crate::state::generate_alias(state);
    let group_alias_copy = clone_string(&group_alias);
    state.group_alias_index.insert(group_alias_copy, group_folder_id);
    let ghost m_start = state@;
    proof {
        assert(m_start.items == m1.items.insert(
            group_folder_id,
            crate::api::create_folder::new_folder_model(m1, caller@, input.group_name@,
            Option::None, now),
        ));
        assert(m_start.item_owners == m1.item_owners.insert(
            caller@,
            base_list.push(group_folder_id),
        ));
        assert(base_list.push(group_folder_id) =~= base_list + id_range(group_folder_id, 1));
    }
    let mut requested_ids: Vec<ItemId> = Vec::new();
    let total = input.file_names.len();
    let mut i: usize = 0;
    while i < total
        invariant
            state.wf(),
            total == input.file_names@.len(),
            i <= total,
            group_folder_id == m1.item_id_counter,
            group_folder_id + 1 + total <= u64::MAX,
            state@.item_id_counter == group_folder_id + 1 + i,
            requested_ids@ == id_range((group_folder_id + 1) as ItemId, i as int),
            state@.items.contains_key(group_folder_id) && state@.items[group_folder_id]
                == crate::api::create_folder::new_folder_model(
                m1,
                caller@,
                input.group_name@,
                Option::None,
                now,
            ),
            forall|j: int|
                0 <= j < i ==> state@.items.contains_key((group_folder_id + 1 + j) as ItemId)
                    && state@.items[(group_folder_id + 1 + j) as ItemId] == member_file_model(
                    (group_folder_id + 1 + j) as ItemId,
                    #[trigger] input.file_names@[j]@,
                    group_folder_id,
                    caller@,
                    now,
                ),
            forall|id: ItemId| #[trigger]
                m1.items.contains_key(id) ==> state@.items.contains_key(id) && state@.items[id]
                    == m1.items[id],
            forall|id: ItemId| #[trigger]
                state@.items.contains_key(id) ==> m1.items.contains_key(id) || (group_folder_id
                    <= id <= group_folder_id + i),
            state@.item_owners == m1.item_owners.insert(
                caller@,
                base_list + id_range(group_folder_id, i + 1),
            ),
            forall|a: Seq<char>| #[trigger]
                state@.file_alias_index.contains_key(a) ==> (m1.file_alias_index.contains_key(a)
                    && m1.file_alias_index[a] == state@.file_alias_index[a]) || (group_folder_id
                    + 1 <= state@.file_alias_index[a] <= group_folder_id + i),
            state@.file_contents == m1.file_contents,
            state@.item_shares == m1.item_shares,
            state@.users == m1.users,
            state@.request_groups == m1.request_groups,
            state@.group_files == m1.group_files,
            state@.group_alias_index == m1.group_alias_index.insert(
                group_alias@,
                group_folder_id,
            ),
            state@.user_templates == m1.user_templates,
        decreases total - i,
    {
        let ghost m_before = state@;
        let item_id = state.item_id_counter;
        let file_alias = crate::api::request_file::request_file(
            caller,
            clone_string(&input.file_names[i]),
            Some(group_folder_id),
            state,
            now,
        );
        requested_ids.push(item_id);
        proof {
            assert(state@.items == m_before.items.insert(
                item_id,
                crate::api::request_file::pending_file_model(
                    m_before,
                    caller@,
                    input.file_names@[i as int]@,
                    Option::Some(group_folder_id),
                    now,
                ),
            ));
            assert(state@.items[(group_folder_id + 1 + i) as ItemId] == member_file_model(
                (group_folder_id + 1 + i) as ItemId,
                input.file_names@[i as int]@,
                group_folder_id,
                caller@,
                now,
            ));
            assert(requested_ids@ =~= id_range((group_folder_id + 1) as ItemId, i as int + 1));
            assert(state@.item_owners == m_before.item_owners.insert(
                caller@,
                (base_list + id_range(group_folder_id, i + 1)).push(item_id),
            ));
            assert((base_list + id_range(group_folder_id, i + 1)).push(item_id) =~= base_list
                + id_range(group_folder_id, i + 2));
        }
        i = i + 1;
    }
    let request_group_entry = RequestGroup {
        group_id: group_folder_id,
        name: clone_string(&input.group_name),
        files: crate::indexes::clone_ids(&requested_ids),
        requester: caller.clone(),
        created_at: now,
    };
    let ghost gm = request_group_entry@;
    state.request_groups.insert(group_folder_id, request_group_entry);
    state.group_files.insert(group_folder_id, requested_ids);
    if input.save_as_template {
        let _ = crate::api::template::save_template(
            state,
            caller,
            input.group_name,
            input.file_names,
        );
    }
    proof {
        assert(gm =~= (GroupModel {
            group_id: group_folder_id,
            name: input.group_name@,
            files: id_range((group_folder_id + 1) as ItemId, total as int),
            requester: caller@,
            created_at: now,
        }));
        assert(model_wf(state@)) by {
            assert(state@.items == (StateModel { ..state@ }).items);
            assert(crate::state::items_wf(state@.items, state@.item_id_counter));
            assert(crate::state::chunks_wf(state@.items, state@.file_contents));
            assert(crate::state::aliases_wf(state@.items, state@.file_alias_index));
        }
    }
    MultiRequestResponseLegacy { group_id: group_folder_id, group_alias: group_alias }
}

} // verus!
