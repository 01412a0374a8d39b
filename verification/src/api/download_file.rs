//! Downloading one chunk of a completed file.

use crate::api_types::{DownloadChunkResponse, FoundFileChunk};
use crate::chunks::{lemma_complete_chunks, stored_chunks};
use crate::item::ItemType;
use crate::principal::PrincipalId;
use crate::state::{State, StateModel};
use crate::{ChunkId, ItemId};
use vstd::prelude::*;

verus! {

/// True when a file item holds every one of its declared chunks.
pub open spec fn fully_uploaded(m: StateModel, id: ItemId) -> bool {
    match m.items[id].num_chunks {
        Option::Some(n) => m.items[id].content_type is Some && stored_chunks(m.file_contents, id)
            >= n,
        Option::None => false,
    }
}

/// Hands out one chunk of a file the caller owns or has shared, once every
/// declared chunk has arrived.
pub fn download_file(s: &State, item_id: ItemId, chunk_id: u64, caller: &PrincipalId) -> (r:
    DownloadChunkResponse)
    requires
        s.wf(),
    ensures
        !s@.items.contains_key(item_id) ==> r == DownloadChunkResponse::NotFoundItem,
        s@.items.contains_key(item_id) && !(s@.items[item_id].owner == caller@
            || crate::api::list_folder_contents::shared_with(s@, caller@, item_id)) ==> r
            == DownloadChunkResponse::PermissionError,
        s@.items.contains_key(item_id) && (s@.items[item_id].owner == caller@
            || crate::api::list_folder_contents::shared_with(s@, caller@, item_id)) ==> {
            &&& (s@.items[item_id].item_type == ItemType::Folder ==> r
                == DownloadChunkResponse::NotAFile)
            &&& (s@.items[item_id].item_type == ItemType::File && !fully_uploaded(s@, item_id)
                ==> r == DownloadChunkResponse::NotUploadedFile)
            &&& (s@.items[item_id].item_type == ItemType::File && fully_uploaded(s@, item_id)
                ==> {
                let n = s@.items[item_id].num_chunks.unwrap();
                &&& (chunk_id >= n ==> r == DownloadChunkResponse::ChunkNotFound)
                &&& (chunk_id < n ==> (r matches DownloadChunkResponse::FoundFileChunk(d)
                    && d.contents@ == s@.file_contents[(item_id, chunk_id)] && d.file_type@
                    == s@.items[item_id].content_type.unwrap() && d.num_chunks == n))
            })
        },
{
    let ghost m = s@;
    let item = match s.items.get(&item_id) {
        Some(it) => it,
        None => {
            return DownloadChunkResponse::NotFoundItem;
        },
    };
    let is_owner = item.owner_principal == *caller;
    let is_shared = s.item_shares.has_id(caller, item_id);
    if !is_owner && !is_shared {
        return DownloadChunkResponse::PermissionError;
    }
    if matches!(item.item_type, ItemType::Folder) {
        return DownloadChunkResponse::NotAFile;
    }
    let (content_type, total) = match (&item.content_type, item.num_chunks) {
        (Some(ct), Some(n)) => (ct, n),
        _ => {
            return DownloadChunkResponse::NotUploadedFile;
        },
    };
    if s.num_chunks_uploaded(item_id) < total {
        return DownloadChunkResponse::NotUploadedFile;
    }
    if chunk_id >= total {
        return DownloadChunkResponse::ChunkNotFound;
    }
    proof {
        // Every declared index is present: the stored count equals the
        // declared count, and all stored indices lie below it.
        assert forall|k: (ItemId, ChunkId)|
            #[trigger] m.file_contents.contains_key(k) && k.0 == item_id implies k.1 < total by {
            assert(crate::state::chunk_key_ok(m.items, k));
        }
        assert(stored_chunks(m.file_contents, item_id) <= total) by {
            assert(crate::chunks::chunk_keys(m.file_contents, item_id).subset_of(
                crate::chunks::keys_below(item_id, total),
            ));
            crate::chunks::lemma_keys_below_len(item_id, total);
            m.file_contents.dom().lemma_len_filter(|k: (ItemId, ChunkId)| k.0 == item_id);
            vstd::set_lib::lemma_len_subset(
                crate::chunks::chunk_keys(m.file_contents, item_id),
                crate::chunks::keys_below(item_id, total),
            );
        }
        lemma_complete_chunks(m.file_contents, item_id, total);
    }
    match s.file_contents.get(&(item_id, chunk_id)) {
        Some(contents) => DownloadChunkResponse::FoundFileChunk(
            FoundFileChunk {
                contents: contents,
                file_type: crate::item::clone_string(content_type),
                num_chunks: total,
            },
        ),
        None => {
            proof {
                assert(false);
            }
            DownloadChunkResponse::ChunkNotFound
        },
    }
}

} // verus!
