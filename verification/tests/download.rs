use docutrack::api::{download_file, set_user_info};
use docutrack::api_types::DownloadChunkResponse;
use docutrack::get_time;
use docutrack::item::{ItemMetadata, ItemType};
use docutrack::principal::PrincipalId;
use docutrack::state::State;
use docutrack::users::User;
use docutrack::ItemId;

fn setup_uploaded_file(
    state: &mut State,
    owner: &PrincipalId,
    name: &str,
    content_type: &str,
    chunks_data: Vec<Vec<u8>>,
) -> ItemId {
    let item_id = state.generate_item_id();
    let current_time = get_time();
    let total_size: u64 = chunks_data.iter().map(|c| c.len() as u64).sum();

    state.items.insert(
        item_id,
        ItemMetadata {
            id: item_id,
            name: name.to_string(),
            item_type: ItemType::File,
            parent_id: None,
            owner_principal: owner.clone(),
            created_at: current_time,
            modified_at: current_time,
            content_type: Some(content_type.to_string()),
            size: Some(total_size),
            num_chunks: Some(chunks_data.len() as u64),
        },
    );
    state.item_owners.add_id(owner, item_id);
    for (i, chunk_data) in chunks_data.iter().enumerate() {
        state.file_contents.insert((item_id, i as u64), chunk_data.clone());
    }
    item_id
}

fn create_pending_file_item(state: &mut State, owner: &PrincipalId, name: &str) -> ItemId {
    let item_id = state.generate_item_id();
    let current_time = get_time();
    state.items.insert(
        item_id,
        ItemMetadata {
            id: item_id,
            name: name.to_string(),
            item_type: ItemType::File,
            parent_id: None,
            owner_principal: owner.clone(),
            created_at: current_time,
            modified_at: current_time,
            content_type: None,
            size: None,
            num_chunks: None,
        },
    );
    state.item_owners.add_id(owner, item_id);
    state.file_alias_index.insert(format!("{}-alias", name), item_id);
    item_id
}

#[test]
fn download_owned_file_correctly() {
    let mut state = State::default();
    let owner = PrincipalId::anonymous();
    set_user_info(
        &mut state,
        &owner,
        User { username: "Owner".to_string(), public_key: vec![] },
    );

    let file_id = setup_uploaded_file(
        &mut state,
        &owner,
        "owned.txt",
        "text/plain",
        vec![vec![1, 2, 3], vec![4, 5]],
    );

    let result_chunk0 = download_file(&state, file_id, 0, &owner);
    match result_chunk0 {
        DownloadChunkResponse::FoundFileChunk(data) => {
            assert_eq!(data.contents, vec![1, 2, 3]);
            assert_eq!(data.file_type, "text/plain");
            assert_eq!(data.num_chunks, 2);
        },
        _ => panic!("Expected FoundFileChunk for chunk 0"),
    }

    let result_chunk1 = download_file(&state, file_id, 1, &owner);
    match result_chunk1 {
        DownloadChunkResponse::FoundFileChunk(data) => {
            assert_eq!(data.contents, vec![4, 5]);
        },
        _ => panic!("Expected FoundFileChunk for chunk 1"),
    }
}

#[test]
fn download_shared_file_correctly() {
    let mut state = State::default();
    let owner = PrincipalId::from_slice(&[1]);
    let recipient = PrincipalId::from_slice(&[2]);
    set_user_info(
        &mut state,
        &owner,
        User { username: "Owner".to_string(), public_key: vec![] },
    );
    set_user_info(
        &mut state,
        &recipient,
        User { username: "Recipient".to_string(), public_key: vec![] },
    );

    let file_id = setup_uploaded_file(
        &mut state,
        &owner,
        "shared.dat",
        "application/octet-stream",
        vec![vec![10, 20]],
    );
    state.item_shares.add_id(&recipient, file_id);

    let result = download_file(&state, file_id, 0, &recipient);
    match result {
        DownloadChunkResponse::FoundFileChunk(data) => {
            assert_eq!(data.contents, vec![10, 20]);
            assert_eq!(data.file_type, "application/octet-stream");
        },
        _ => panic!("Expected FoundFileChunk for shared file"),
    }
}

#[test]
fn download_file_not_uploaded() {
    let mut state = State::default();
    let owner = PrincipalId::anonymous();
    set_user_info(
        &mut state,
        &owner,
        User { username: "Owner".to_string(), public_key: vec![] },
    );
    let pending_file_id = create_pending_file_item(&mut state, &owner, "pending.doc");
    let result = download_file(&state, pending_file_id, 0, &owner);
    assert_eq!(result, DownloadChunkResponse::NotUploadedFile);
}

#[test]
fn download_file_permission_error_not_owner_or_shared() {
    let mut state = State::default();
    let owner = PrincipalId::from_slice(&[1]);
    let other_user = PrincipalId::from_slice(&[2]);
    set_user_info(
        &mut state,
        &owner,
        User { username: "Owner".to_string(), public_key: vec![] },
    );
    set_user_info(
        &mut state,
        &other_user,
        User { username: "Other".to_string(), public_key: vec![] },
    );
    let file_id = setup_uploaded_file(&mut state, &owner, "private.doc", "text/plain",
        vec![vec![1]]);
    let result = download_file(&state, file_id, 0, &other_user);
    assert_eq!(result, DownloadChunkResponse::PermissionError);
}

#[test]
fn download_folder_error() {
    let mut state = State::default();
    let owner = PrincipalId::anonymous();
    set_user_info(
        &mut state,
        &owner,
        User { username: "Owner".to_string(), public_key: vec![] },
    );
    let folder_id = state.generate_item_id();
    state.items.insert(
        folder_id,
        ItemMetadata {
            id: folder_id,
            name: "MyFolder".to_string(),
            item_type: ItemType::Folder,
            parent_id: None,
            owner_principal: owner.clone(),
            created_at: get_time(),
            modified_at: get_time(),
            content_type: None,
            size: None,
            num_chunks: None,
        },
    );
    state.item_owners.add_id(&owner, folder_id);
    let result = download_file(&state, folder_id, 0, &owner);
    assert_eq!(result, DownloadChunkResponse::NotAFile);
}

#[test]
fn download_chunk_not_found() {
    let mut state = State::default();
    let owner = PrincipalId::anonymous();
    set_user_info(
        &mut state,
        &owner,
        User { username: "Owner".to_string(), public_key: vec![] },
    );
    let file_id = setup_uploaded_file(
        &mut state,
        &owner,
        "single_chunk.txt",
        "text/plain",
        vec![vec![1, 2, 3]],
    );

    let result = download_file(&state, file_id, 1, &owner);
    assert_eq!(result, DownloadChunkResponse::ChunkNotFound);
}

#[test]
fn download_unknown_item() {
    let state = State::default();
    let caller = PrincipalId::anonymous();
    assert_eq!(download_file(&state, 42, 0, &caller), DownloadChunkResponse::NotFoundItem);
}
