use docutrack::api::{get_alias_info, get_file_status, get_requests, request_file, set_user_info,
    upload_content_to_item, upload_file, upload_file_atomic, upload_file_continue};
use docutrack::api_types::{FileStatus, ItemError, UploadChunkContinueRequest,
    UploadFileAtomicDirectRequest, UploadFileError};
use docutrack::get_time;
use docutrack::item::{ItemMetadata, ItemType};
use docutrack::principal::PrincipalId;
use docutrack::state::State;
use docutrack::users::User;

#[test]
fn chunked_upload() {
    let mut state = State::default();
    let caller = PrincipalId::anonymous();
    set_user_info(
        &mut state,
        &caller,
        User { username: "John".to_string(), public_key: vec![1, 2, 3] },
    );

    let item_id = upload_file_atomic(
        &caller,
        UploadFileAtomicDirectRequest {
            name: "chunked_file.dat".to_string(),
            content: vec![1u8, 2u8, 3u8],
            file_type: "application/octet-stream".to_string(),
            num_chunks: 3,
            parent_id: None,
        },
        &mut state,
    get_time());

    upload_file_continue(
        UploadChunkContinueRequest { item_id, chunk_id: 1, contents: vec![4u8, 5u8, 6u8] },
        &mut state,
    get_time())
    .unwrap();
    upload_file_continue(
        UploadChunkContinueRequest { item_id, chunk_id: 2, contents: vec![7u8, 8u8, 9u8, 10u8] },
        &mut state,
    get_time())
    .unwrap();

    let item_after_chunk2 = state.items.get(&item_id).unwrap();
    assert_eq!(item_after_chunk2.size, Some(10));
    assert_eq!(state.num_chunks_uploaded(item_id), 3);
}

#[test]
fn stored_file_in_state() {
    let mut state = State::default();
    let caller = PrincipalId::anonymous();

    set_user_info(
        &mut state,
        &caller,
        User { username: "John".to_string(), public_key: vec![1, 2, 3] },
    );

    let alias = request_file(&caller, "test_request.jpg".to_string(), None, &mut state, get_time());
    let item_id = *state.file_alias_index.get(&alias).unwrap();

    assert!(!state.file_alias_index.is_empty());
    assert_eq!(state.file_alias_index.get(&alias), Some(&item_id));

    let upload_result =
        upload_file(item_id, vec![1, 2, 3, 4, 5], "image/jpeg".to_string(), 1, &mut state, get_time());
    assert!(upload_result.is_ok());

    let stored_item = state.items.get(&item_id).expect("Item not found after upload");
    assert_eq!(stored_item.id, item_id);
    assert_eq!(stored_item.name, "test_request.jpg");
    assert_eq!(stored_item.item_type, ItemType::File);
    assert_eq!(stored_item.owner_principal, caller);
    assert_eq!(stored_item.content_type, Some("image/jpeg".to_string()));
    assert_eq!(stored_item.size, Some(5));
    assert_eq!(stored_item.num_chunks, Some(1));
    assert!(stored_item.modified_at >= stored_item.created_at);

    assert_eq!(state.file_contents.get(&(item_id, 0)), Some(vec![1, 2, 3, 4, 5]));

    assert!(state.file_alias_index.get(&alias).is_none());
}

#[test]
fn stores_file_in_state() {
    let mut state = State::default();
    let caller = PrincipalId::anonymous();

    set_user_info(
        &mut state,
        &caller,
        User { username: "John".to_string(), public_key: vec![1, 2, 3] },
    );

    let item_id = upload_file_atomic(
        &caller,
        UploadFileAtomicDirectRequest {
            name: "file_name.txt".to_string(),
            content: vec![1, 2, 3, 4, 5],
            file_type: "text/plain".to_string(),
            num_chunks: 1,
            parent_id: None,
        },
        &mut state,
    get_time());

    let stored_item = state.items.get(&item_id).expect("Item not found");
    assert_eq!(stored_item.id, item_id);
    assert_eq!(stored_item.name, "file_name.txt");
    assert_eq!(stored_item.content_type, Some("text/plain".to_string()));
    assert_eq!(stored_item.size, Some(5));

    assert_eq!(state.file_contents.get(&(item_id, 0)), Some(vec![1u8, 2u8, 3u8, 4u8, 5u8]));
    assert!(state.file_alias_index.is_empty());
    assert_eq!(state.item_owners.get(&caller), Some(&vec![item_id]));
}

#[test]
fn requesting_a_file_updates_items_and_owners() {
    let mut state = State::default();
    let caller = PrincipalId::anonymous();
    let parent_folder_id: Option<u64> = None;

    set_user_info(
        &mut state,
        &caller,
        User { username: "John".to_string(), public_key: vec![1, 2, 3] },
    );

    let alias = request_file(&caller, "test_request.pdf".to_string(), parent_folder_id, &mut state, get_time());
    let generated_item_id = 0;

    let expected_item_metadata = ItemMetadata {
        id: generated_item_id,
        name: "test_request.pdf".to_string(),
        item_type: ItemType::File,
        parent_id: parent_folder_id,
        owner_principal: caller.clone(),
        created_at: get_time(),
        modified_at: get_time(),
        content_type: None,
        size: None,
        num_chunks: None,
    };

    assert_eq!(state.items.get(&generated_item_id), Some(&expected_item_metadata));

    assert_eq!(state.file_alias_index.get(&alias), Some(&generated_item_id));

    assert_eq!(state.item_owners.get(&caller), Some(&vec![generated_item_id]));
}

#[test]
fn item_id_is_incrementing() {
    let mut state = State::default();
    let caller = PrincipalId::anonymous();
    set_user_info(
        &mut state,
        &caller,
        User { username: "John".to_string(), public_key: vec![1, 2, 3] },
    );

    request_file(&caller, "request1".to_string(), None, &mut state, get_time());
    assert_eq!(state.item_id_counter, 1);

    request_file(&caller, "request2".to_string(), None, &mut state, get_time());
    assert_eq!(state.item_id_counter, 2);

    assert_eq!(state.item_owners.get(&caller), Some(&vec![0, 1]));
}

#[test]
fn request_then_upload_scenario() {
    // Request "doc.pdf" at the root, upload one chunk "abc" through the
    // alias, and watch the alias die with the upload.
    let mut state = State::default();
    let caller = PrincipalId::anonymous();
    set_user_info(
        &mut state,
        &caller,
        User { username: "John".to_string(), public_key: vec![1, 2, 3] },
    );

    let alias = request_file(&caller, "doc.pdf".to_string(), None, &mut state, get_time());
    let info = get_alias_info(&state, alias.clone()).unwrap();
    assert_eq!(info.file_name, "doc.pdf");
    let item_id = info.item_id;

    // Before the upload, the item is reported pending under its alias.
    match get_file_status(&state, item_id).unwrap() {
        FileStatus::Pending { alias: a, requested_at } => {
            assert_eq!(a, alias);
            assert_eq!(requested_at, get_time());
        },
        _ => panic!("expected a pending status"),
    }
    let pending = get_requests(&state, &caller);
    assert_eq!(pending.len(), 1);
    assert_eq!(pending[0].id, item_id);

    upload_file(item_id, vec![b'a', b'b', b'c'], "application/pdf".to_string(), 1, &mut state, get_time())
        .unwrap();

    let it = state.items.get(&item_id).unwrap();
    assert_eq!(it.content_type, Some("application/pdf".to_string()));
    assert_eq!(it.size, Some(3));
    // The alias no longer resolves.
    assert!(state.file_alias_index.get(&alias).is_none());
    assert!(get_alias_info(&state, alias).is_err());
    match get_file_status(&state, item_id).unwrap() {
        FileStatus::Uploaded { uploaded_at } => assert_eq!(uploaded_at, get_time()),
        _ => panic!("expected an uploaded status"),
    }
}

#[test]
fn atomic_then_continue_scenario() {
    // Upload three declared chunks of 3, 3 and 4 bytes: the final size is
    // their exact sum and all three chunks are counted.
    let mut state = State::default();
    let caller = PrincipalId::anonymous();
    let item_id = upload_file_atomic(
        &caller,
        UploadFileAtomicDirectRequest {
            name: "triple.bin".to_string(),
            content: vec![1, 2, 3],
            file_type: "application/octet-stream".to_string(),
            num_chunks: 3,
            parent_id: None,
        },
        &mut state,
    get_time());
    upload_file_continue(
        UploadChunkContinueRequest { item_id, chunk_id: 1, contents: vec![4, 5, 6] },
        &mut state,
    get_time())
    .unwrap();
    match get_file_status(&state, item_id).unwrap() {
        FileStatus::PartiallyUploaded => {},
        _ => panic!("expected a partially uploaded status"),
    }
    upload_file_continue(
        UploadChunkContinueRequest { item_id, chunk_id: 2, contents: vec![7, 8, 9, 10] },
        &mut state,
    get_time())
    .unwrap();

    assert_eq!(state.items.get(&item_id).unwrap().size, Some(10));
    assert_eq!(state.num_chunks_uploaded(item_id), 3);
}

#[test]
fn continue_rejects_invalid_chunks() {
    let mut state = State::default();
    let caller = PrincipalId::anonymous();
    let item_id = upload_file_atomic(
        &caller,
        UploadFileAtomicDirectRequest {
            name: "two.bin".to_string(),
            content: vec![1],
            file_type: "application/octet-stream".to_string(),
            num_chunks: 2,
            parent_id: None,
        },
        &mut state,
    get_time());

    // Any index at or beyond the declared count is refused.
    for bad in [2u64, 3, 100, u64::MAX] {
        let r = upload_file_continue(
            UploadChunkContinueRequest { item_id, chunk_id: bad, contents: vec![0] },
            &mut state,
        get_time());
        assert_eq!(r.unwrap_err(), ItemError::InvalidChunk);
    }
    // An unknown item and a pending item are refused too.
    let r = upload_file_continue(
        UploadChunkContinueRequest { item_id: 999, chunk_id: 0, contents: vec![0] },
        &mut state,
    get_time());
    assert_eq!(r.unwrap_err(), ItemError::NotFound);
    let pending = request_file(&caller, "p.txt".to_string(), None, &mut state, get_time());
    let pending_id = *state.file_alias_index.get(&pending).unwrap();
    let r = upload_file_continue(
        UploadChunkContinueRequest { item_id: pending_id, chunk_id: 0, contents: vec![0] },
        &mut state,
    get_time());
    assert_eq!(r.unwrap_err(), ItemError::InvalidChunk);
    // A valid index still lands.
    assert!(upload_file_continue(
        UploadChunkContinueRequest { item_id, chunk_id: 1, contents: vec![9, 9] },
        &mut state,
    get_time())
    .is_ok());
    assert_eq!(state.items.get(&item_id).unwrap().size, Some(3));
}

#[test]
fn continue_overwrite_recomputes_size() {
    // Re-uploading an already stored index overwrites it, and the size is
    // recomputed from the stored chunks rather than accumulated.
    let mut state = State::default();
    let caller = PrincipalId::anonymous();
    let item_id = upload_file_atomic(
        &caller,
        UploadFileAtomicDirectRequest {
            name: "ow.bin".to_string(),
            content: vec![1, 2],
            file_type: "application/octet-stream".to_string(),
            num_chunks: 2,
            parent_id: None,
        },
        &mut state,
    get_time());
    upload_file_continue(
        UploadChunkContinueRequest { item_id, chunk_id: 1, contents: vec![3, 4, 5] },
        &mut state,
    get_time())
    .unwrap();
    assert_eq!(state.items.get(&item_id).unwrap().size, Some(5));
    // Overwrite chunk 1 with a longer payload: the size is the exact new sum.
    upload_file_continue(
        UploadChunkContinueRequest { item_id, chunk_id: 1, contents: vec![3, 4, 5, 6, 7] },
        &mut state,
    get_time())
    .unwrap();
    assert_eq!(state.items.get(&item_id).unwrap().size, Some(7));
    assert_eq!(state.num_chunks_uploaded(item_id), 2);
}

#[test]
fn upload_file_error_variants() {
    let mut state = State::default();
    let caller = PrincipalId::anonymous();

    // Unknown items are not requested.
    let r = upload_file(999, vec![1], "t".to_string(), 1, &mut state, get_time());
    assert_eq!(r.unwrap_err(), UploadFileError::NotRequested);

    // A begun upload cannot begin again.
    let item_id = upload_file_atomic(
        &caller,
        UploadFileAtomicDirectRequest {
            name: "done.txt".to_string(),
            content: vec![1],
            file_type: "text/plain".to_string(),
            num_chunks: 1,
            parent_id: None,
        },
        &mut state,
    get_time());
    let r = upload_content_to_item(item_id, vec![2], "text/plain".to_string(), 1, &mut state, get_time());
    assert_eq!(r.unwrap_err(), UploadFileError::AlreadyUploaded);
}

#[test]
fn continue_rejects_folders() {
    let mut state = State::default();
    let caller = PrincipalId::anonymous();
    let folder = docutrack::api::create_folder(&mut state, &caller, "f".to_string(), None, get_time())
        .unwrap()
        .id;
    let r = upload_file_continue(
        UploadChunkContinueRequest { item_id: folder, chunk_id: 0, contents: vec![1] },
        &mut state,
    get_time());
    assert_eq!(r.unwrap_err(), ItemError::NotAFile);
    assert_eq!(get_file_status(&state, folder).unwrap_err(), ItemError::NotAFile);
}
