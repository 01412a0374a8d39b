//! Uploading a file in one call, chunk zero included.

use crate::api_types::UploadFileAtomicDirectRequest;
use crate::chunks::{chunks_size_sum, clamp_u64, lemma_stored_insert, lemma_sum_insert_frame,
    stored_chunks};
use crate::item::{ItemMetadata, ItemModel, ItemType};
use crate::principal::PrincipalId;
use crate::state::{model_wf, State, StateModel};
use crate::{ChunkId, ItemId};
use vstd::prelude::*;

verus! {

/// The record of a file created with its first chunk already supplied.
pub open spec fn atomic_file_model(
    m: StateModel,
    caller: Seq<u8>,
    name: Seq<char>,
    file_type: Seq<char>,
    size: u64,
    num_chunks: u64,
    parent_id: Option<ItemId>,
    now: u64,
) -> ItemModel {
    ItemModel {
        id: m.item_id_counter,
        name: name,
        item_type: ItemType::File,
        parent_id: parent_id,
        owner: caller,
        created_at: now,
        modified_at: now,
        content_type: Option::Some(file_type),
        size: Option::Some(size),
        num_chunks: Option::Some(num_chunks),
    }
}

/// Creates a file item in one call, already holding chunk zero; the alias
/// stage is skipped entirely.
pub fn upload_file_atomic(
    caller: &PrincipalId,
    request: UploadFileAtomicDirectRequest,
    state: &mut State,
    now: u64,
) -> (item_id: ItemId)
    requires
        old(state).wf(),
        old(state)@.item_id_counter < u64::MAX,
        request.num_chunks >= 1,
        match request.parent_id {
            Option::None => true,
            Option::Some(p) => old(state)@.items.contains_key(p) && old(state)@.items[p].item_type
                == ItemType::Folder,
        },
    ensures
        final(state).wf(),
        item_id == old(state)@.item_id_counter,
        final(state)@ == (StateModel {
            item_id_counter: (old(state)@.item_id_counter + 1) as u64,
            items: old(state)@.items.insert(
                item_id,
                atomic_file_model(
                    old(state)@,
                    caller@,
                    request.name@,
                    request.file_type@,
                    request.content.len() as u64,
                    request.num_chunks,
                    request.parent_id,
                    now,
                ),
            ),
            file_contents: old(state)@.file_contents.insert((item_id, 0), request.content@),
            item_owners: old(state)@.item_owners.insert(
                caller@,
                (if old(state)@.item_owners.contains_key(caller@) {
                    old(state)@.item_owners[caller@]
                } else {
                    Seq::<ItemId>::empty()
                }).push(item_id),
            ),
            ..old(state)@
        }),
{
    let ghost m1 = state@;
    let item_id = state.generate_item_id();
    let size = request.content.len() as u64;
    let new_item_metadata = ItemMetadata {
        id: item_id,
        name: request.name,
        item_type: ItemType::File,
        parent_id: request.parent_id,
        owner_principal: caller.clone(),
        created_at: now,
        modified_at: now,
        content_type: Some(request.file_type),
        size: Some(size),
        num_chunks: Some(request.num_chunks),
    };
    let ghost item = new_item_metadata@;
    let ghost contents_view = request.content@;
    proof {
        assert(item =~= atomic_file_model(
            m1,
            caller@,
            item.name,
            item.content_type.unwrap(),
            size,
            request.num_chunks,
            request.parent_id,
            now,
        ));
        assert forall|k: ItemId| #[trigger] state@.items.contains_key(k) implies k < item_id by {}
        crate::state::lemma_items_wf_add_leaf(
            m1.items,
            m1.item_id_counter,
            (m1.item_id_counter + 1) as u64,
            item,
        );
    }
    state.items.insert(item_id, new_item_metadata);
    state.file_contents.insert((item_id, 0), request.content);
    state.item_owners.add_id(caller, item_id);
    proof {
        let m2 = state@;
        assert(m2 =~= (StateModel {
            item_id_counter: (m1.item_id_counter + 1) as u64,
            items: m1.items.insert(item_id, item),
            file_contents: m1.file_contents.insert((item_id, 0), contents_view),
            item_owners: m1.item_owners.insert(
                caller@,
                (if m1.item_owners.contains_key(caller@) {
                    m1.item_owners[caller@]
                } else {
                    Seq::<ItemId>::empty()
                }).push(item_id),
            ),
            ..m1
        }));
        // The fresh id stores no chunk yet: every stored key names an
        // existing item, and the fresh id is new.
        assert forall|c: ChunkId| !(#[trigger] m1.file_contents.contains_key((item_id, c))) by {
            if m1.file_contents.contains_key((item_id, c)) {
                assert(crate::state::chunk_key_ok(m1.items, (item_id, c)));
                assert(m1.items.contains_key(item_id));
            }
        }
        assert(crate::state::chunks_wf(m2.items, m2.file_contents)) by {
            assert(m2.file_contents.dom() =~= m1.file_contents.dom().insert((item_id, 0)));
            assert forall|k: (ItemId, ChunkId)| #[trigger]
                m2.file_contents.contains_key(k) implies crate::state::chunk_key_ok(
                m2.items,
                k,
            ) by {
                if k != (item_id, 0u64) {
                    assert(m1.file_contents.contains_key(k));
                    assert(crate::state::chunk_key_ok(m1.items, k));
                    assert(k.0 != item_id);
                }
            }
            assert forall|x: ItemId| #[trigger]
                m2.items.contains_key(x) && m2.items[x].content_type is Some
                implies m2.file_contents.contains_key((x, 0)) by {
                if x != item_id {
                    assert(m1.items.contains_key(x) && m1.items[x].content_type is Some);
                }
            }
            assert forall|x: ItemId| #[trigger]
                crate::state::completed_size_ok(m2.items, m2.file_contents, x) by {
                assert(crate::state::completed_size_ok(m1.items, m1.file_contents, x));
                if x == item_id {
                    lemma_stored_insert(m1.file_contents, (item_id, 0), contents_view, item_id);
                    assert(stored_chunks(m1.file_contents, item_id) == 0) by {
                        assert(crate::chunks::chunk_keys(m1.file_contents, item_id) =~= Set::<
                            (ItemId, ChunkId),
                        >::empty()) by {
                            assert forall|k: (ItemId, ChunkId)|
                                !(#[trigger] crate::chunks::chunk_keys(
                                    m1.file_contents,
                                    item_id,
                                ).contains(k)) by {
                                if m1.file_contents.contains_key(k) && k.0 == item_id {
                                    assert(k == (item_id, k.1));
                                    assert(m1.file_contents.contains_key((item_id, k.1)));
                                }
                            }
                        }
                    }
                    assert(stored_chunks(m2.file_contents, item_id) == 1);
                    if request.num_chunks == 1 {
                        assert(chunks_size_sum(m2.file_contents, item_id, 0) == 0);
                        assert(m2.file_contents.contains_key((item_id, 0u64)));
                        assert(chunks_size_sum(m2.file_contents, item_id, 1)
                            == contents_view.len());
                    }
                } else if m2.items.contains_key(x) {
                    assert(m1.items.contains_key(x) && m2.items[x] == m1.items[x]);
                    match m1.items[x].num_chunks {
                        Option::Some(nx) => {
                            lemma_stored_insert(m1.file_contents, (item_id, 0), contents_view, x);
                            lemma_sum_insert_frame(
                                m1.file_contents,
                                (item_id, 0),
                                contents_view,
                                x,
                                nx as int,
                            );
                        },
                        Option::None => {},
                    }
                }
            }
        }
        assert(crate::state::aliases_wf(m2.items, m2.file_alias_index)) by {
            assert forall|a: Seq<char>| #[trigger]
                m2.file_alias_index.contains_key(a) implies crate::state::alias_ok(
                m2.items,
                m2.file_alias_index,
                a,
            ) by {
                assert(crate::state::alias_ok(m1.items, m1.file_alias_index, a));
                assert(m1.items.contains_key(m1.file_alias_index[a]));
            }
        }
        assert(model_wf(m2));
    }
    item_id
}

} // verus!
