use docutrack::api::{get_item_metadata_by_id, get_item_sharers, get_items_shared_with_me,
    revoke_share, set_user_info, share_item, upload_file_continue, who_am_i};
use docutrack::api_types::{FileSharingResponse, UploadChunkContinueRequest};
use docutrack::get_time;
use docutrack::item::{ItemMetadata, ItemType};
use docutrack::principal::PrincipalId;
use docutrack::state::State;
use docutrack::users::User;
use docutrack::ItemId;

fn create_dummy_shareable_item(
    state: &mut State,
    owner: &PrincipalId,
    name: &str,
    item_type: ItemType,
    is_fully_uploaded: bool,
) -> ItemId {
    let item_id = state.generate_item_id();
    let current_time = get_time();
    let (content_type, size, num_chunks) = if item_type == ItemType::File && is_fully_uploaded {
        (Some("application/pdf".to_string()), Some(1024_u64), Some(1_u64))
    } else if item_type == ItemType::File && !is_fully_uploaded {
        (Some("application/pdf".to_string()), Some(512_u64), Some(2_u64))
    } else {
        (None, None, None)
    };

    state.items.insert(
        item_id,
        ItemMetadata {
            id: item_id,
            name: name.to_string(),
            item_type,
            parent_id: None,
            owner_principal: owner.clone(),
            created_at: current_time,
            modified_at: current_time,
            content_type,
            size,
            num_chunks,
        },
    );
    state.item_owners.add_id(owner, item_id);
    if item_type == ItemType::File && is_fully_uploaded {
        state.file_contents.insert((item_id, 0), vec![0; 1024]);
    } else if item_type == ItemType::File && !is_fully_uploaded && num_chunks == Some(2) {
        state.file_contents.insert((item_id, 0), vec![0; 512]);
    }
    item_id
}

#[test]
fn share_item_test() {
    let mut state = State::default();
    let owner = PrincipalId::anonymous();
    let share_recipient = PrincipalId::from_slice(&[0, 1, 2]);

    set_user_info(
        &mut state,
        &owner,
        User { username: "Owner".to_string(), public_key: vec![] },
    );
    set_user_info(
        &mut state,
        &share_recipient,
        User { username: "Recipient".to_string(), public_key: vec![] },
    );

    let file_item_id =
        create_dummy_shareable_item(&mut state, &owner, "share_me.pdf", ItemType::File, true);
    let folder_item_id =
        create_dummy_shareable_item(&mut state, &owner, "SharedFolder", ItemType::Folder, true);

    let share_file_result = share_item(&mut state, &owner, &share_recipient, file_item_id, get_time());
    assert_eq!(share_file_result, FileSharingResponse::Done);
    assert!(state.item_shares.get(&share_recipient).unwrap().contains(&file_item_id));

    let share_folder_result = share_item(&mut state, &owner, &share_recipient, folder_item_id, get_time());
    assert_eq!(share_folder_result, FileSharingResponse::Done);
    assert!(state.item_shares.get(&share_recipient).unwrap().contains(&folder_item_id));

    let shared_with_recipient = get_items_shared_with_me(&state, &share_recipient);
    assert_eq!(shared_with_recipient.len(), 2);
}

#[test]
fn get_item_sharers_test() {
    let mut state = State::default();
    let owner = PrincipalId::from_slice(&[1]);
    let recipient1 = PrincipalId::from_slice(&[2]);
    let recipient2 = PrincipalId::from_slice(&[3]);
    let non_recipient = PrincipalId::from_slice(&[4]);

    set_user_info(
        &mut state,
        &owner,
        User { username: "Owner".into(), public_key: vec![] },
    );
    set_user_info(
        &mut state,
        &recipient1,
        User { username: "Rec1".into(), public_key: vec![] },
    );
    set_user_info(
        &mut state,
        &recipient2,
        User { username: "Rec2".into(), public_key: vec![] },
    );
    set_user_info(
        &mut state,
        &non_recipient,
        User { username: "NonRec".into(), public_key: vec![] },
    );

    let item_id = create_dummy_shareable_item(&mut state, &owner, "item.dat", ItemType::File, true);

    share_item(&mut state, &owner, &recipient1, item_id, get_time());
    share_item(&mut state, &owner, &recipient2, item_id, get_time());

    let sharers_result = get_item_sharers(item_id, &state);
    assert!(sharers_result.is_ok());
    let sharers = sharers_result.unwrap();
    assert_eq!(sharers.len(), 2);
    assert!(sharers.iter().any(|u| u.ic_principal == recipient1 && u.username == "Rec1"));
    assert!(sharers.iter().any(|u| u.ic_principal == recipient2 && u.username == "Rec2"));
    assert!(!sharers.iter().any(|u| u.ic_principal == owner));
    assert!(!sharers.iter().any(|u| u.ic_principal == non_recipient));

    let non_existent_item_sharers = get_item_sharers(999, &state);
    assert!(non_existent_item_sharers.is_err());
    assert_eq!(non_existent_item_sharers.unwrap_err().message(), "Item not found.");
}

#[test]
fn share_item_permission_error_not_owner() {
    let mut state = State::default();
    let owner = PrincipalId::from_slice(&[1]);
    let non_owner_caller = PrincipalId::from_slice(&[2]);
    let share_recipient = PrincipalId::from_slice(&[3]);

    set_user_info(
        &mut state,
        &owner,
        User { username: "Owner".to_string(), public_key: vec![] },
    );
    set_user_info(
        &mut state,
        &non_owner_caller,
        User { username: "NonOwner".to_string(), public_key: vec![] },
    );
    set_user_info(
        &mut state,
        &share_recipient,
        User { username: "Recipient".to_string(), public_key: vec![] },
    );

    let item_id =
        create_dummy_shareable_item(&mut state, &owner, "secret.txt", ItemType::File, true);

    let result = share_item(&mut state, &non_owner_caller, &share_recipient, item_id, get_time());
    assert_eq!(result, FileSharingResponse::PermissionError);
}

#[test]
fn share_pending_file_item_error() {
    let mut state = State::default();
    let owner = PrincipalId::anonymous();
    let recipient = PrincipalId::from_slice(&[1]);
    set_user_info(
        &mut state,
        &owner,
        User { username: "Owner".into(), public_key: vec![] },
    );
    set_user_info(
        &mut state,
        &recipient,
        User { username: "Recipient".into(), public_key: vec![] },
    );

    let item_id = state.generate_item_id();
    state.items.insert(
        item_id,
        ItemMetadata {
            id: item_id,
            name: "pending.dat".to_string(),
            item_type: ItemType::File,
            parent_id: None,
            owner_principal: owner.clone(),
            created_at: get_time(),
            modified_at: get_time(),
            content_type: None,
            size: None,
            num_chunks: None,
        },
    );
    state.item_owners.add_id(&owner, item_id);

    let result = share_item(&mut state, &owner, &recipient, item_id, get_time());
    assert_eq!(result, FileSharingResponse::PendingError);
}

#[test]
fn share_partially_uploaded_file_item_error() {
    let mut state = State::default();
    let owner = PrincipalId::anonymous();
    let recipient = PrincipalId::from_slice(&[1]);
    set_user_info(
        &mut state,
        &owner,
        User { username: "Owner".into(), public_key: vec![] },
    );
    set_user_info(
        &mut state,
        &recipient,
        User { username: "Recipient".into(), public_key: vec![] },
    );

    let item_id =
        create_dummy_shareable_item(&mut state, &owner, "partial.dat", ItemType::File, false);

    let result = share_item(&mut state, &owner, &recipient, item_id, get_time());
    assert_eq!(result, FileSharingResponse::PendingError);
}

#[test]
fn share_succeeds_after_final_chunk() {
    // A partially uploaded file cannot be shared; once the final chunk
    // lands, the identical call succeeds.
    let mut state = State::default();
    let owner = PrincipalId::anonymous();
    let recipient = PrincipalId::from_slice(&[1]);
    let item_id =
        create_dummy_shareable_item(&mut state, &owner, "late.dat", ItemType::File, false);

    assert_eq!(share_item(&mut state, &owner, &recipient, item_id, get_time()),
        FileSharingResponse::PendingError);
    upload_file_continue(
        UploadChunkContinueRequest { item_id, chunk_id: 1, contents: vec![7; 16] },
        &mut state,
    get_time())
    .unwrap();
    assert_eq!(share_item(&mut state, &owner, &recipient, item_id, get_time()), FileSharingResponse::Done);
    assert!(state.item_shares.get(&recipient).unwrap().contains(&item_id));
}

#[test]
fn revoke_share_test() {
    let mut state = State::default();
    let owner = PrincipalId::anonymous();
    let share_recipient = PrincipalId::from_slice(&[0, 1, 2]);

    set_user_info(
        &mut state,
        &owner,
        User { username: "Owner".to_string(), public_key: vec![] },
    );
    set_user_info(
        &mut state,
        &share_recipient,
        User { username: "Recipient".to_string(), public_key: vec![] },
    );

    let item_id =
        create_dummy_shareable_item(&mut state, &owner, "revoke_me.txt", ItemType::File, true);
    share_item(&mut state, &owner, &share_recipient, item_id, get_time());
    assert!(state.item_shares.get(&share_recipient).unwrap().contains(&item_id));
    let original_modified_at = state.items.get(&item_id).unwrap().modified_at;

    let revoke_result = revoke_share(&mut state, &owner, &share_recipient, item_id, get_time());
    assert_eq!(revoke_result, FileSharingResponse::Done);
    assert!(state
        .item_shares
        .get(&share_recipient)
        .map_or(true, |items| !items.contains(&item_id)));

    let new_modified_at = state.items.get(&item_id).unwrap().modified_at;
    assert!(new_modified_at >= original_modified_at);
}

#[test]
fn revoke_share_requires_an_existing_share() {
    let mut state = State::default();
    let owner = PrincipalId::anonymous();
    let recipient = PrincipalId::from_slice(&[1]);
    let item_id = create_dummy_shareable_item(&mut state, &owner, "x.txt", ItemType::File, true);

    // Revoking a share that was never granted is a permission error.
    assert_eq!(revoke_share(&mut state, &owner, &recipient, item_id, get_time()),
        FileSharingResponse::PermissionError);
    // Sharing twice stays idempotent, and one revoke clears it.
    share_item(&mut state, &owner, &recipient, item_id, get_time());
    share_item(&mut state, &owner, &recipient, item_id, get_time());
    assert_eq!(state.item_shares.get(&recipient).unwrap().len(), 1);
    assert_eq!(revoke_share(&mut state, &owner, &recipient, item_id, get_time()), FileSharingResponse::Done);
    assert!(state.item_shares.get(&recipient).is_none());
}

#[test]
fn share_file_share_item_test() {
    let mut state = State::default();
    let owner = PrincipalId::anonymous();
    let share_recipient = PrincipalId::from_slice(&[0, 1, 2]);

    set_user_info(
        &mut state,
        &owner,
        User { username: "Owner".to_string(), public_key: vec![] },
    );
    set_user_info(
        &mut state,
        &share_recipient,
        User { username: "Recipient".to_string(), public_key: vec![] },
    );

    let file_item_id =
        create_dummy_shareable_item(&mut state, &owner, "share_me.pdf", ItemType::File, true);
    let folder_item_id =
        create_dummy_shareable_item(&mut state, &owner, "SharedFolder", ItemType::Folder, true);

    let share_file_result = share_item(&mut state, &owner, &share_recipient, file_item_id, get_time());
    assert_eq!(share_file_result, FileSharingResponse::Done);
    assert!(state.item_shares.get(&share_recipient).unwrap().contains(&file_item_id));

    let share_folder_result = share_item(&mut state, &owner, &share_recipient, folder_item_id, get_time());
    assert_eq!(share_folder_result, FileSharingResponse::Done);
    assert!(state.item_shares.get(&share_recipient).unwrap().contains(&folder_item_id));

    let shared_with_recipient = get_items_shared_with_me(&state, &share_recipient);
    assert_eq!(shared_with_recipient.len(), 2);
    assert!(shared_with_recipient
        .iter()
        .any(|item| item.id == file_item_id && item.name == "share_me.pdf"));
    assert!(shared_with_recipient
        .iter()
        .any(|item| item.id == folder_item_id && item.name == "SharedFolder"));
}

#[test]
fn share_file_share_item_permission_error_not_owner() {
    let mut state = State::default();
    let owner = PrincipalId::from_slice(&[1]);
    let non_owner_caller = PrincipalId::from_slice(&[2]);
    let share_recipient = PrincipalId::from_slice(&[3]);

    set_user_info(
        &mut state,
        &owner,
        User { username: "Owner".to_string(), public_key: vec![] },
    );
    set_user_info(
        &mut state,
        &non_owner_caller,
        User { username: "NonOwner".to_string(), public_key: vec![] },
    );
    set_user_info(
        &mut state,
        &share_recipient,
        User { username: "Recipient".to_string(), public_key: vec![] },
    );

    let item_id =
        create_dummy_shareable_item(&mut state, &owner, "secret.txt", ItemType::File, true);

    let result = share_item(&mut state, &non_owner_caller, &share_recipient, item_id, get_time());
    assert_eq!(result, FileSharingResponse::PermissionError);
}

#[test]
fn share_file_share_pending_file_item_error() {
    let mut state = State::default();
    let owner = PrincipalId::anonymous();
    let recipient = PrincipalId::from_slice(&[1]);
    set_user_info(
        &mut state,
        &owner,
        User { username: "Owner".into(), public_key: vec![] },
    );
    set_user_info(
        &mut state,
        &recipient,
        User { username: "Recipient".into(), public_key: vec![] },
    );

    let item_id = state.generate_item_id();
    state.items.insert(
        item_id,
        ItemMetadata {
            id: item_id,
            name: "pending.dat".to_string(),
            item_type: ItemType::File,
            parent_id: None,
            owner_principal: owner.clone(),
            created_at: get_time(),
            modified_at: get_time(),
            content_type: None,
            size: None,
            num_chunks: None,
        },
    );
    state.item_owners.add_id(&owner, item_id);

    let result = share_item(&mut state, &owner, &recipient, item_id, get_time());
    assert_eq!(result, FileSharingResponse::PendingError);
}

#[test]
fn share_file_revoke_share_test() {
    let mut state = State::default();
    let owner = PrincipalId::anonymous();
    let share_recipient = PrincipalId::from_slice(&[0, 1, 2]);

    set_user_info(
        &mut state,
        &owner,
        User { username: "Owner".to_string(), public_key: vec![] },
    );
    set_user_info(
        &mut state,
        &share_recipient,
        User { username: "Recipient".to_string(), public_key: vec![] },
    );

    let item_id =
        create_dummy_shareable_item(&mut state, &owner, "revoke_me.txt", ItemType::File, true);

    share_item(&mut state, &owner, &share_recipient, item_id, get_time());
    assert!(state.item_shares.get(&share_recipient).unwrap().contains(&item_id));

    let revoke_result = revoke_share(&mut state, &owner, &share_recipient, item_id, get_time());
    assert_eq!(revoke_result, FileSharingResponse::Done);
    assert!(state
        .item_shares
        .get(&share_recipient)
        .map_or(true, |items| items.is_empty()));
}

#[test]
fn item_metadata_visible_to_owner_and_recipients() {
    let mut state = State::default();
    let owner = PrincipalId::anonymous();
    let recipient = PrincipalId::from_slice(&[6]);
    let stranger = PrincipalId::from_slice(&[7]);
    let item_id = create_dummy_shareable_item(&mut state, &owner, "m.txt", ItemType::File, true);
    share_item(&mut state, &owner, &recipient, item_id, get_time());

    assert_eq!(get_item_metadata_by_id(&state, &owner, item_id).unwrap().id, item_id);
    assert_eq!(get_item_metadata_by_id(&state, &recipient, item_id).unwrap().name, "m.txt");
    assert_eq!(
        get_item_metadata_by_id(&state, &stranger, item_id).unwrap_err(),
        docutrack::api_types::ItemError::PermissionDenied
    );
    assert_eq!(
        get_item_metadata_by_id(&state, &owner, 999).unwrap_err(),
        docutrack::api_types::ItemError::NotFound
    );
}

#[test]
fn who_am_i_reports_registration() {
    let mut state = State::default();
    let caller = PrincipalId::anonymous();
    match who_am_i(&state, &caller) {
        docutrack::api_types::WhoamiResponse::UnknownUser => {},
        _ => panic!("expected an unknown user"),
    }
    set_user_info(
        &mut state,
        &caller,
        User { username: "John".to_string(), public_key: vec![9] },
    );
    match who_am_i(&state, &caller) {
        docutrack::api_types::WhoamiResponse::KnownUser(u) => {
            assert_eq!(u.username, "John");
            assert_eq!(u.public_key, vec![9]);
            assert_eq!(u.ic_principal, caller);
        },
        _ => panic!("expected a known user"),
    }
}
