//! Beginning an upload into a requested item.

use crate::api_types::UploadFileError;
use crate::chunks::{chunks_size_sum, clamp_u64, lemma_stored_insert, lemma_sum_insert_frame,
    stored_chunks};
use crate::indexes::without_value;
use crate::item::{ItemMetadata, ItemModel, ItemType};
use crate::state::{model_wf, State, StateModel};
use crate::{ChunkId, ItemId};
use vstd::prelude::*;

verus! {

/// The record of a file whose upload has just begun.
pub open spec fn begun_file_model(
    it: ItemModel,
    file_type: Seq<char>,
    size: u64,
    num_chunks: u64,
    now: u64,
) -> ItemModel {
    ItemModel {
        content_type: Option::Some(file_type),
        num_chunks: Option::Some(num_chunks),
        size: Option::Some(size),
        modified_at: now,
        ..it
    }
}

/// Begins the upload of a requested file: sets its content descriptors,
/// stores chunk zero, and withdraws the alias that led to it.
pub fn upload_file(
    item_id: ItemId,
    contents: Vec<u8>,
    file_type: String,
    num_chunks: u64,
    state: &mut State,
    now: u64,
) -> (r: Result<(), UploadFileError>)
    requires
        old(state).wf(),
        num_chunks >= 1,
    ensures
        final(state).wf(),
        r is Err ==> final(state)@ == old(state)@,
        !(old(state)@.items.contains_key(item_id) && old(state)@.items[item_id].item_type
            == ItemType::File) ==> r == Result::<(), UploadFileError>::Err(
            UploadFileError::NotRequested,
        ),
        old(state)@.items.contains_key(item_id) && old(state)@.items[item_id].item_type
            == ItemType::File && old(state)@.items[item_id].content_type is Some ==> r == Result::<
            (),
            UploadFileError,
        >::Err(UploadFileError::AlreadyUploaded),
        old(state)@.items.contains_key(item_id) && old(state)@.items[item_id].item_type
            == ItemType::File && old(state)@.items[item_id].content_type is None ==> r is Ok
            && final(state)@ == (StateModel {
            items: old(state)@.items.insert(
                item_id,
                begun_file_model(
                    old(state)@.items[item_id],
                    file_type@,
                    contents.len() as u64,
                    num_chunks,
                    now,
                ),
            ),
            file_contents: old(state)@.file_contents.insert((item_id, 0), contents@),
            file_alias_index: without_value(old(state)@.file_alias_index, item_id),
            ..old(state)@
        }),
{
    let ghost m1 = state@;
    let item = match state.items.get(&item_id) {
        Some(it) => it,
        None => {
            return Err(UploadFileError::NotRequested);
        },
    };
    if !matches!(item.item_type, ItemType::File) {
        return Err(UploadFileError::NotRequested);
    }
    if item.content_type.is_some() {
        if state.file_contents.contains_key(&(item_id, 0)) {
            return Err(UploadFileError::AlreadyUploaded);
        }
        // A begun file always holds its chunk zero.
        proof {
            assert(m1.file_contents.contains_key((item_id, 0)));
            assert(false);
        }
        return Err(UploadFileError::AlreadyUploaded);
    }
    let size = contents.len() as u64;
    let updated = ItemMetadata {
        id: item.id,
        name: crate::item::clone_string(&item.name),
        item_type: item.item_type,
        parent_id: item.parent_id,
        owner_principal: item.owner_principal.clone(),
        created_at: item.created_at,
        modified_at: now,
        content_type: Some(file_type),
        size: Some(size),
        num_chunks: Some(num_chunks),
    };
    let ghost um = updated@;
    let ghost contents_view = contents@;
    proof {
        assert(um =~= begun_file_model(m1.items[item_id], um.content_type.unwrap(), size,
        num_chunks, now));
        crate::state::lemma_items_wf_update(m1.items, m1.item_id_counter, item_id, um);
    }
    state.items.insert(item_id, updated);
    state.file_contents.insert((item_id, 0), contents);
    state.file_alias_index.remove_value(item_id);
    proof {
        let m2 = state@;
        assert(m2 =~= (StateModel {
            items: m1.items.insert(item_id, um),
            file_contents: m1.file_contents.insert((item_id, 0), contents_view),
            file_alias_index: without_value(m1.file_alias_index, item_id),
            ..m1
        }));
        assert(m2.items.dom() =~= m1.items.dom());
        // A pending file stores no chunk yet.
        assert forall|c: ChunkId| !(#[trigger] m1.file_contents.contains_key((item_id, c))) by {
            if m1.file_contents.contains_key((item_id, c)) {
                assert(crate::state::chunk_key_ok(m1.items, (item_id, c)));
            }
        }
        assert(crate::state::chunks_wf(m2.items, m2.file_contents)) by {
            assert(m2.file_contents.dom() =~= m1.file_contents.dom().insert((item_id, 0)));
            assert forall|k: (ItemId, ChunkId)| #[trigger]
                m2.file_contents.contains_key(k) implies crate::state::chunk_key_ok(
                m2.items,
                k,
            ) by {
                if k != (item_id, 0u64) {
                    assert(m1.file_contents.contains_key(k));
                    assert(crate::state::chunk_key_ok(m1.items, k));
                    assert(k.0 != item_id);
                }
            }
            assert forall|x: ItemId| #[trigger]
                m2.items.contains_key(x) && m2.items[x].content_type is Some
                implies m2.file_contents.contains_key((x, 0)) by {
                if x != item_id {
                    assert(m1.items[x].content_type is Some);
                }
            }
            assert forall|x: ItemId| #[trigger]
                crate::state::completed_size_ok(m2.items, m2.file_contents, x) by {
                assert(crate::state::completed_size_ok(m1.items, m1.file_contents, x));
                if x == item_id {
                    lemma_stored_insert(m1.file_contents, (item_id, 0), contents_view, item_id);
                    assert(stored_chunks(m1.file_contents, item_id) == 0) by {
                        assert(crate::chunks::chunk_keys(m1.file_contents, item_id) =~= Set::<
                            (ItemId, ChunkId),
                        >::empty()) by {
                            assert forall|k: (ItemId, ChunkId)|
                                !(#[trigger] crate::chunks::chunk_keys(
                                    m1.file_contents,
                                    item_id,
                                ).contains(k)) by {
                                if m1.file_contents.contains_key(k) && k.0 == item_id {
                                    assert(k == (item_id, k.1));
                                    assert(m1.file_contents.contains_key((item_id, k.1)));
                                }
                            }
                        }
                    }
                    assert(stored_chunks(m2.file_contents, item_id) == 1);
                    if num_chunks == 1 {
                        assert(chunks_size_sum(m2.file_contents, item_id, 0) == 0);
                        assert(m2.file_contents.contains_key((item_id, 0u64)));
                        assert(chunks_size_sum(m2.file_contents, item_id, 1)
                            == contents_view.len());
                        assert(m2.items[item_id].size == Option::Some(
                            clamp_u64(chunks_size_sum(m2.file_contents, item_id, 1)),
                        ));
                    }
                } else if m2.items.contains_key(x) {
                    match m1.items[x].num_chunks {
                        Option::Some(nx) => {
                            lemma_stored_insert(m1.file_contents, (item_id, 0), contents_view, x);
                            lemma_sum_insert_frame(
                                m1.file_contents,
                                (item_id, 0),
                                contents_view,
                                x,
                                nx as int,
                            );
                        },
                        Option::None => {},
                    }
                }
            }
        }
        assert(crate::state::aliases_wf(m2.items, m2.file_alias_index)) by {
            assert forall|a: Seq<char>| #[trigger]
                m2.file_alias_index.contains_key(a) implies crate::state::alias_ok(
                m2.items,
                m2.file_alias_index,
                a,
            ) by {
                assert(m1.file_alias_index.contains_key(a));
                assert(crate::state::alias_ok(m1.items, m1.file_alias_index, a));
                assert(m2.file_alias_index[a] != item_id);
            }
        }
        assert(model_wf(m2));
    }
    Ok(())
}

} // verus!
