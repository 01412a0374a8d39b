//! Resolving a group alias to its folder and pending member files.

use crate::api::get_requests::alias_of;
use crate::api_types::{FileInfoForUpload, GetAliasInfoError, GroupInfoForUploadResponse};
use crate::item::{ItemModel, ItemType};
use crate::state::{State, StateModel};
use crate::ItemId;
use vstd::prelude::*;

verus! {

/// The ghost model of one member file offered for upload.
#[verifier::ext_equal]
pub ghost struct FileInfoModel {
    pub item_id: ItemId,
    pub file_name: Seq<char>,
    pub alias: Seq<char>,
}

impl View for FileInfoForUpload {
    type V = FileInfoModel;

    open spec fn view(&self) -> FileInfoModel {
        FileInfoModel { item_id: self.item_id, file_name: self.file_name@, alias: self.alias@ }
    }
}

/// The member files of a group folder, in ascending id order, each with the
/// alias bound to it — or no characters, when none is.
pub open spec fn group_children_view(
    m: StateModel,
    records: Seq<ItemModel>,
    group_id: ItemId,
) -> Seq<FileInfoModel> {
    records.filter(
        |it: ItemModel| it.parent_id == Option::Some(group_id) && it.item_type == ItemType::File,
    ).map_values(
        |it: ItemModel|
            FileInfoModel {
                item_id: it.id,
                file_name: it.name,
                alias: alias_of(m.file_alias_index, it.id),
            },
    )
}

/// Resolves a group alias to the group folder, its requester, and its member
/// files with their upload aliases.
pub fn get_group_by_alias(state: &State, alias: String) -> (r: Result<
    GroupInfoForUploadResponse,
    GetAliasInfoError,
>)
    requires
        state.wf(),
    ensures
        !state@.group_alias_index.contains_key(alias@) ==> r == Result::<
            GroupInfoForUploadResponse,
            GetAliasInfoError,
        >::Err(GetAliasInfoError::NotFound),
        state@.group_alias_index.contains_key(alias@) ==> {
            let gid = state@.group_alias_index[alias@];
            &&& (!(state@.items.contains_key(gid) && state@.items[gid].item_type
                == ItemType::Folder && state@.users.contains_key(state@.items[gid].owner)) ==> r
                == Result::<GroupInfoForUploadResponse, GetAliasInfoError>::Err(
                GetAliasInfoError::NotFound,
            ))
            &&& (state@.items.contains_key(gid) && state@.items[gid].item_type == ItemType::Folder
                && state@.users.contains_key(state@.items[gid].owner) ==> (r matches Result::Ok(
                info,
            ) && {
                let it = state@.items[gid];
                &&& info.group_id == gid
                &&& info.group_name@ == it.name
                &&& info.requester.username@ == state@.users[it.owner].username
                &&& info.requester.public_key@ == state@.users[it.owner].public_key
                &&& info.requester.ic_principal@ == it.owner
                &&& info.files@.map_values(|f: FileInfoForUpload| f@) == group_children_view(
                    state@,
                    state.items.models(),
                    gid,
                )
            }))
        },
{
    let ghost m = state@;
    let group_folder_id = match state.group_alias_index.get(&alias) {
        Some(id) => *id,
        None => {
            return Err(GetAliasInfoError::NotFound);
        },
    };
    let group_meta = match state.items.get(&group_folder_id) {
        Some(it) => it,
        None => {
            return Err(GetAliasInfoError::NotFound);
        },
    };
    if !matches!(group_meta.item_type, ItemType::Folder) {
        return Err(GetAliasInfoError::NotFound);
    }
    let requester_info = match state.users.get(&group_meta.owner_principal) {
        Some(u) => u,
        None => {
            return Err(GetAliasInfoError::NotFound);
        },
    };
    let requester = crate::api_types::make_public_user(
        &requester_info.username,
        &requester_info.public_key,
        &group_meta.owner_principal,
    );
    let ghost records = state.items.models();
    let ghost gpred = |it: ItemModel| it.parent_id == Option::Some(group_folder_id)
        && it.item_type == ItemType::File;
    let ghost gmap = |it: ItemModel|
        FileInfoModel {
            item_id: it.id,
            file_name: it.name,
            alias: alias_of(m.file_alias_index, it.id),
        };
    let mut files: Vec<FileInfoForUpload> = Vec::new();
    let n = state.items.len();
    let mut i: usize = 0;
    proof {
        reveal(Seq::filter);
        assert(records.take(0) =~= Seq::<ItemModel>::empty());
        assert(files@.map_values(|f: FileInfoForUpload| f@) =~= records.take(0).filter(
            gpred,
        ).map_values(gmap));
    }
    while i < n
        invariant
            state.wf(),
            m == state@,
            records == state.items.models(),
            n == records.len(),
            i <= n,
            files@.map_values(|f: FileInfoForUpload| f@) == records.take(i as int).filter(
                gpred,
            ).map_values(gmap),
        decreases n - i,
    {
        proof {
            reveal(Seq::filter);
            assert(records.take(i as int + 1).drop_last() =~= records.take(i as int));
            assert(records.take(i as int + 1).last() == records[i as int]);
        }
        let it = state.items.get_at(i);
        let parent_matches = match it.parent_id {
            Some(p) => p == group_folder_id,
            None => false,
        };
        if parent_matches && matches!(it.item_type, ItemType::File) {
            let individual_alias = match state.file_alias_index.find_key_of(it.id) {
                Some(a) => {
                    proof {
                        let w = choose|x: Seq<char>| #[trigger]
                            m.file_alias_index.contains_key(x) && m.file_alias_index[x] == it@.id;
                        assert(alias_of(m.file_alias_index, it@.id) == w);
                        assert(a@ == w);
                    }
                    crate::item::clone_string(a)
                },
                None => {
                    proof {
                        assert(alias_of(m.file_alias_index, it@.id) =~= Seq::<char>::empty()) by {
                            if exists|x: Seq<char>| #[trigger]
                                m.file_alias_index.contains_key(x) && m.file_alias_index[x]
                                    == it@.id {
                                let w = choose|x: Seq<char>| #[trigger]
                                    m.file_alias_index.contains_key(x) && m.file_alias_index[x]
                                        == it@.id;
                            }
                        }
                    }
                    String::new()
                },
            };
            let entry = FileInfoForUpload {
                item_id: it.id,
                file_name: crate::item::clone_string(&it.name),
                alias: individual_alias,
            };
            let ghost ev = entry@;
            files.push(entry);
            proof {
                assert(gpred(records[i as int]));
                assert(ev =~= gmap(records[i as int]));
                assert(files@.map_values(|f: FileInfoForUpload| f@) =~= records.take(
                    i as int,
                ).filter(gpred).map_values(gmap).push(gmap(records[i as int])));
                assert(records.take(i as int + 1).filter(gpred).map_values(gmap) =~= records.take(
                    i as int,
                ).filter(gpred).map_values(gmap).push(gmap(records[i as int])));
            }
        } else {
            proof {
                assert(!gpred(records[i as int]));
            }
        }
        i = i + 1;
    }
    proof {
        assert(records.take(n as int) =~= records);
    }
    Ok(
        GroupInfoForUploadResponse {
            group_id: group_folder_id,
            group_name: crate::item::clone_string(&group_meta.name),
            files: files,
            requester: requester,
        },
    )
}

} // verus!
