//! The engine's public operations.

pub mod create_folder;
pub mod delete_item;
pub mod download_file;
pub mod get_alias_info;
pub mod get_group_by_alias;
pub mod get_request_groups;
pub mod get_requests;
pub mod list_folder_contents;
pub mod move_item;
pub mod multi_request;
pub mod rename_item;
pub mod request_file;
pub mod share_item;
pub mod template;
pub mod upload_file;
pub mod upload_file_atomic;
pub mod user_info;

pub use create_folder::create_folder;
pub use delete_item::delete_item;
pub use download_file::download_file;
pub use get_alias_info::get_alias_info;
pub use get_group_by_alias::get_group_by_alias;
pub use get_request_groups::get_request_groups;
pub use get_requests::{get_file_status, get_requests};
pub use list_folder_contents::{get_item_metadata_by_id, list_folder_contents};
pub use move_item::move_item;
pub use multi_request::multi_request;
pub use rename_item::rename_item;
pub use request_file::request_file;
pub use share_item::{get_allowed_users, get_item_sharers, get_items_shared_with_me, revoke_share,
    share_item};
pub use template::{delete_template, get_template, get_user_templates, save_template};
pub use upload_file::upload_file;
pub use upload_file_atomic::upload_file_atomic;
pub use user_info::{set_user_info, username_exists, who_am_i};

use crate::api_types::{ItemError, UploadChunkContinueRequest, UploadFileError};
use crate::chunks::{chunks_size_sum, clamp_u64, lemma_complete_chunks, lemma_stored_insert,
    lemma_sum_insert_frame, lemma_sum_nonneg, stored_chunks};
use crate::item::{clone_opt_string, ItemMetadata, ItemModel, ItemType};
use crate::state::{model_wf, State, StateModel};
use crate::{ChunkId, ItemId};
use vstd::prelude::*;

verus! {

/// Forwards a caller-supplied upload to [`upload_file`]: same result, same
/// state effects.
pub fn upload_content_to_item(
    item_id: ItemId,
    contents: Vec<u8>,
    file_type: String,
    num_chunks: u64,
    state: &mut State,
    now: u64,
) -> (r: Result<(), UploadFileError>)
    requires
        old(state).wf(),
        num_chunks >= 1,
    ensures
        final(state).wf(),
        r is Err ==> final(state)@ == old(state)@,
        !(old(state)@.items.contains_key(item_id) && old(state)@.items[item_id].item_type
            == ItemType::File) ==> r == Result::<(), UploadFileError>::Err(
            UploadFileError::NotRequested,
        ),
        old(state)@.items.contains_key(item_id) && old(state)@.items[item_id].item_type
            == ItemType::File && old(state)@.items[item_id].content_type is Some ==> r == Result::<
            (),
            UploadFileError,
        >::Err(UploadFileError::AlreadyUploaded),
        old(state)@.items.contains_key(item_id) && old(state)@.items[item_id].item_type
            == ItemType::File && old(state)@.items[item_id].content_type is None ==> r is Ok
            && final(state)@ == (StateModel {
            items: old(state)@.items.insert(
                item_id,
                crate::api::upload_file::begun_file_model(
                    old(state)@.items[item_id],
                    file_type@,
                    contents.len() as u64,
                    num_chunks,
                    now,
                ),
            ),
            file_contents: old(state)@.file_contents.insert((item_id, 0), contents@),
            file_alias_index: crate::indexes::without_value(
                old(state)@.file_alias_index,
                item_id,
            ),
            ..old(state)@
        }),
{
    crate::api::upload_file::upload_file(item_id, contents, file_type, num_chunks, state, now)
}

/// The size a file records after one more chunk arrives: the exact clamped
/// sum of all stored chunks once every declared chunk is present, and a
/// clamped running total before that.
pub open spec fn continued_size(m: StateModel, id: ItemId, n: u64, chunk_len: int) -> u64 {
    let fc2 = m.file_contents;
    if stored_chunks(fc2, id) == n {
        clamp_u64(chunks_size_sum(fc2, id, n as int))
    } else {
        clamp_u64(
            (match m.items[id].size {
                Option::Some(s) => s as int,
                Option::None => 0,
            }) + chunk_len,
        )
    }
}

/// Stores one more chunk of a file whose upload has begun.  An index at or
/// beyond the declared count is rejected; re-uploading an index overwrites
/// it.  When the last missing chunk arrives, the size is recomputed as the
/// exact sum of all stored chunk lengths.
pub fn upload_file_continue(request: UploadChunkContinueRequest, state: &mut State, now: u64) -> (
    r: Result<(), ItemError>)
    requires
        old(state).wf(),
    ensures
        final(state).wf(),
        r is Err ==> final(state)@ == old(state)@,
        !old(state)@.items.contains_key(request.item_id) ==> r == Result::<(), ItemError>::Err(
            ItemError::NotFound,
        ),
        old(state)@.items.contains_key(request.item_id)
            && old(state)@.items[request.item_id].item_type != ItemType::File ==> r == Result::<
            (),
            ItemError,
        >::Err(ItemError::NotAFile),
        old(state)@.items.contains_key(request.item_id)
            && old(state)@.items[request.item_id].item_type == ItemType::File ==> match old(
            state,
        )@.items[request.item_id].num_chunks {
            Option::None => r == Result::<(), ItemError>::Err(ItemError::InvalidChunk),
            Option::Some(n) => {
                &&& (request.chunk_id >= n ==> r == Result::<(), ItemError>::Err(
                    ItemError::InvalidChunk,
                ))
                &&& (request.chunk_id < n ==> r is Ok && {
                    let mid = (StateModel {
                        file_contents: old(state)@.file_contents.insert(
                            (request.item_id, request.chunk_id),
                            request.contents@,
                        ),
                        ..old(state)@
                    });
                    final(state)@ == (StateModel {
                        items: old(state)@.items.insert(
                            request.item_id,
                            ItemModel {
                                size: Option::Some(
                                    continued_size(
                                        mid,
                                        request.item_id,
                                        n,
                                        request.contents@.len() as int,
                                    ),
                                ),
                                modified_at: now,
                                ..old(state)@.items[request.item_id]
                            },
                        ),
                        file_contents: mid.file_contents,
                        ..old(state)@
                    })
                })
            },
        },
{
    let ghost m1 = state@;
    let item_id = request.item_id;
    let chunk_id = request.chunk_id;
    let total_num_chunks = match state.items.get(&item_id) {
        Some(it) => {
            if !matches!(it.item_type, ItemType::File) {
                return Err(ItemError::NotAFile);
            }
            match it.num_chunks {
                Some(n) => n,
                None => {
                    return Err(ItemError::InvalidChunk);
                },
            }
        },
        None => {
            return Err(ItemError::NotFound);
        },
    };
    if chunk_id >= total_num_chunks {
        return Err(ItemError::InvalidChunk);
    }
    let n = total_num_chunks;
    let current_chunk_len = request.contents.len();
    let ghost contents_view = request.contents@;
    state.file_contents.insert((item_id, chunk_id), request.contents);
    let ghost mid = state@;
    proof {
        assert(mid =~= (StateModel {
            file_contents: m1.file_contents.insert((item_id, chunk_id), contents_view),
            ..m1
        }));
        lemma_stored_insert(m1.file_contents, (item_id, chunk_id), contents_view, item_id);
    }
    let num_now = state.num_chunks_uploaded(item_id);
    let final_size: u64;
    if num_now == n {
        // Every declared chunk is present: recompute the size as the exact
        // sum of the stored chunk lengths.
        proof {
            assert forall|k: (ItemId, ChunkId)|
                #[trigger] mid.file_contents.contains_key(k) && k.0 == item_id implies k.1
                < n by {
                if k != (item_id, chunk_id) {
                    assert(crate::state::chunk_key_ok(m1.items, k));
                }
            }
            assert(mid.file_contents.dom().finite()) by {
                assert(mid.file_contents.dom() =~= m1.file_contents.dom().insert(
                    (item_id, chunk_id),
                ));
            }
            lemma_complete_chunks(mid.file_contents, item_id, n);
        }
        let mut total: u64 = 0;
        let mut i: u64 = 0;
        while i < n
            invariant
                i <= n,
                mid == state@,
                total == clamp_u64(chunks_size_sum(mid.file_contents, item_id, i as int)),
                forall|c: ChunkId| c < n ==> #[trigger] mid.file_contents.contains_key(
                    (item_id, c),
                ),
            decreases n - i,
        {
            let chunk = match state.file_contents.get(&(item_id, i)) {
                Some(data) => data,
                None => {
                    proof {
                        assert(false);
                    }
                    return Err(ItemError::InvalidChunk);
                },
            };
            let len64 = chunk.len() as u64;
            proof {
                lemma_sum_nonneg(mid.file_contents, item_id, i as int);
                assert(chunks_size_sum(mid.file_contents, item_id, i as int + 1)
                    == chunks_size_sum(mid.file_contents, item_id, i as int) + chunk@.len());
            }
            if total > u64::MAX - len64 {
                total = u64::MAX;
            } else {
                total = total + len64;
            }
            i = i + 1;
        }
        final_size = total;
        proof {
            assert(stored_chunks(mid.file_contents, item_id) == n);
            assert(final_size == continued_size(mid, item_id, n, contents_view.len() as int));
        }
    } else {
        let old_size = match state.items.get(&item_id) {
            Some(it) => match it.size {
                Some(s) => s,
                None => 0,
            },
            None => 0,
        };
        let len64 = current_chunk_len as u64;
        if old_size > u64::MAX - len64 {
            final_size = u64::MAX;
        } else {
            final_size = old_size + len64;
        }
        proof {
            assert(final_size == continued_size(mid, item_id, n, contents_view.len() as int));
        }
    }
    // Record the new size and refresh the modification time.
    let updated = match state.items.get(&item_id) {
        Some(it) => {
            ItemMetadata {
                id: it.id,
                name: crate::item::clone_string(&it.name),
                item_type: it.item_type,
                parent_id: it.parent_id,
                owner_principal: it.owner_principal.clone(),
                created_at: it.created_at,
                modified_at: now,
                content_type: clone_opt_string(&it.content_type),
                size: Some(final_size),
                num_chunks: it.num_chunks,
            }
        },
        None => {
            proof {
                assert(false);
            }
            return Err(ItemError::NotFound);
        },
    };
    let ghost um = updated@;
    proof {
        assert(um =~= (ItemModel {
            size: Option::Some(final_size),
            modified_at: now,
            ..m1.items[item_id]
        }));
        crate::state::lemma_items_wf_update(m1.items, m1.item_id_counter, item_id, um);
    }
    state.items.insert(item_id, updated);
    proof {
        let m2 = state@;
        assert(m2 =~= (StateModel {
            items: m1.items.insert(item_id, um),
            file_contents: mid.file_contents,
            ..m1
        }));
        assert(m2.items.dom() =~= m1.items.dom());
        assert(crate::state::chunks_wf(m2.items, m2.file_contents)) by {
            assert(m2.file_contents.dom().finite()) by {
                assert(m2.file_contents.dom() =~= m1.file_contents.dom().insert(
                    (item_id, chunk_id),
                ));
            }
            assert forall|k: (ItemId, ChunkId)| #[trigger]
                m2.file_contents.contains_key(k) implies crate::state::chunk_key_ok(
                m2.items,
                k,
            ) by {
                if k != (item_id, chunk_id) {
                    assert(m1.file_contents.contains_key(k));
                    assert(crate::state::chunk_key_ok(m1.items, k));
                }
            }
            assert forall|x: ItemId| #[trigger]
                m2.items.contains_key(x) && m2.items[x].content_type is Some
                implies m2.file_contents.contains_key((x, 0)) by {
                assert(m1.items.contains_key(x) && m1.items[x].content_type is Some);
                assert(m1.file_contents.contains_key((x, 0)));
            }
            assert forall|x: ItemId| #[trigger]
                crate::state::completed_size_ok(m2.items, m2.file_contents, x) by {
                assert(crate::state::completed_size_ok(m1.items, m1.file_contents, x));
                if x == item_id {
                    assert(m2.items[item_id].size == Option::Some(
                        continued_size(mid, item_id, n, contents_view.len() as int),
                    ));
                } else if m2.items.contains_key(x) {
                    match m1.items[x].num_chunks {
                        Option::Some(nx) => {
                            lemma_stored_insert(
                                m1.file_contents,
                                (item_id, chunk_id),
                                contents_view,
                                x,
                            );
                            lemma_sum_insert_frame(
                                m1.file_contents,
                                (item_id, chunk_id),
                                contents_view,
                                x,
                                nx as int,
                            );
                        },
                        Option::None => {},
                    }
                }
            }
        }
        assert(crate::state::aliases_wf(m2.items, m2.file_alias_index)) by {
            assert forall|a: Seq<char>| #[trigger]
                m2.file_alias_index.contains_key(a) implies crate::state::alias_ok(
                m2.items,
                m2.file_alias_index,
                a,
            ) by {
                assert(crate::state::alias_ok(m1.items, m1.file_alias_index, a));
                if m1.file_alias_index[a] == item_id {
                    assert(m1.items[item_id].content_type is None);
                    assert(m1.items[item_id].num_chunks is None);
                }
            }
        }
        assert(model_wf(m2));
    }
    Ok(())
}

} // verus!
