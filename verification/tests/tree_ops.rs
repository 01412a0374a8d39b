use docutrack::api::{create_folder, delete_item, list_folder_contents, move_item, rename_item,
    set_user_info};
use docutrack::api_types::ItemError;
use docutrack::get_time;
use docutrack::item::{ItemMetadata, ItemType};
use docutrack::principal::PrincipalId;
use docutrack::state::State;
use docutrack::users::User;
use docutrack::ItemId;

fn create_dummy_item_for_delete_tests(
    state: &mut State,
    owner: &PrincipalId,
    name: &str,
    item_type: ItemType,
    parent_id: Option<ItemId>,
    num_chunks_opt: Option<u64>,
) -> ItemId {
    let item_id = state.generate_item_id();
    let current_time = get_time();
    let item_metadata = ItemMetadata {
        id: item_id,
        name: name.to_string(),
        item_type,
        parent_id,
        owner_principal: owner.clone(),
        created_at: current_time,
        modified_at: current_time,
        content_type: if item_type == ItemType::File {
            Some("application/octet-stream".to_string())
        } else {
            None
        },
        size: if item_type == ItemType::File {
            Some(num_chunks_opt.unwrap_or(0) * 10)
        } else {
            None
        },
        num_chunks: num_chunks_opt,
    };
    state.items.insert(item_id, item_metadata);
    state.item_owners.add_id(owner, item_id);

    if item_type == ItemType::File {
        if let Some(num_chunks) = num_chunks_opt {
            for i in 0..num_chunks {
                state.file_contents.insert((item_id, i), vec![i as u8; 10]);
            }
        }
    }
    item_id
}

#[test]
fn delete_item_delete_file_item_test() {
    let mut state = State::default();
    let caller = PrincipalId::anonymous();
    set_user_info(
        &mut state,
        &caller,
        User { username: "John".to_string(), public_key: vec![1, 2, 3] },
    );

    let file_item_id = create_dummy_item_for_delete_tests(
        &mut state,
        &caller,
        "test_file.txt",
        ItemType::File,
        None,
        Some(1),
    );
    assert!(state.items.contains_key(&file_item_id));
    let result = delete_item(&mut state, &caller, file_item_id);

    assert!(result.is_ok());
    assert!(!state.items.contains_key(&file_item_id));
}

#[test]
fn delete_item_delete_empty_folder_item_test() {
    let mut state = State::default();
    let caller = PrincipalId::anonymous();
    set_user_info(
        &mut state,
        &caller,
        User { username: "FolderOwner".to_string(), public_key: vec![] },
    );
    let folder_id = create_dummy_item_for_delete_tests(
        &mut state,
        &caller,
        "EmptyFolder",
        ItemType::Folder,
        None,
        None,
    );

    let result = delete_item(&mut state, &caller, folder_id);
    assert!(result.is_ok());
    assert!(!state.items.contains_key(&folder_id));
}

#[test]
fn delete_item_delete_non_empty_folder_item_test() {
    let mut state = State::default();
    let caller = PrincipalId::anonymous();
    set_user_info(
        &mut state,
        &caller,
        User { username: "FolderOwner".to_string(), public_key: vec![] },
    );
    let folder_id = create_dummy_item_for_delete_tests(
        &mut state,
        &caller,
        "NotEmptyFolder",
        ItemType::Folder,
        None,
        None,
    );
    let _child_file_id = create_dummy_item_for_delete_tests(
        &mut state,
        &caller,
        "ChildFile.txt",
        ItemType::File,
        Some(folder_id),
        Some(1),
    );

    let result = delete_item(&mut state, &caller, folder_id);
    assert!(result.is_err());
    assert_eq!(result.clone().unwrap_err(), ItemError::FolderNotEmpty);
    assert_eq!(result.unwrap_err().message(), "Folder is not empty. Cannot delete.");
    assert!(state.items.contains_key(&folder_id));
}

#[test]
fn delete_item_delete_item_permission_error() {
    let mut state = State::default();
    let owner = PrincipalId::anonymous();
    let other_user = PrincipalId::from_slice(&[0, 1, 2]);
    set_user_info(
        &mut state,
        &owner,
        User { username: "ItemOwner".to_string(), public_key: vec![1, 2, 3] },
    );
    set_user_info(
        &mut state,
        &other_user,
        User { username: "OtherUser".to_string(), public_key: vec![3, 4, 5] },
    );
    let item_id_to_delete = create_dummy_item_for_delete_tests(
        &mut state,
        &owner,
        "owned_item.dat",
        ItemType::File,
        None,
        Some(0),
    );

    let result = delete_item(&mut state, &other_user, item_id_to_delete);
    assert!(result.is_err());
    assert_eq!(result.clone().unwrap_err(), ItemError::PermissionDenied);
    assert_eq!(result.unwrap_err().message(), "Permission denied: You do not own this item.");
    assert!(state.items.contains_key(&item_id_to_delete));
}

#[test]
fn delete_item_not_found() {
    let mut state = State::default();
    let caller = PrincipalId::anonymous();
    set_user_info(
        &mut state,
        &caller,
        User { username: "John".to_string(), public_key: vec![1, 2, 3] },
    );

    let result = delete_item(&mut state, &caller, 999);
    assert!(result.is_err());
    assert_eq!(result.clone().unwrap_err(), ItemError::NotFound);
    assert_eq!(result.unwrap_err().message(), "Item not found.");
}

fn create_dummy_item(
    state: &mut State,
    caller: &PrincipalId,
    name: &str,
    item_type: ItemType,
    parent_id: Option<ItemId>,
) -> ItemId {
    let item_id = state.generate_item_id();
    let current_time = get_time();
    state.items.insert(
        item_id,
        ItemMetadata {
            id: item_id,
            name: name.to_string(),
            item_type,
            parent_id,
            owner_principal: caller.clone(),
            created_at: current_time,
            modified_at: current_time,
            content_type: if item_type == ItemType::File {
                Some("text/plain".to_string())
            } else {
                None
            },
            size: if item_type == ItemType::File { Some(100) } else { None },
            num_chunks: if item_type == ItemType::File { Some(1) } else { None },
        },
    );
    if item_type == ItemType::File {
        state.file_contents.insert((item_id, 0), vec![0; 100]);
    }
    state.item_owners.add_id(caller, item_id);
    item_id
}

#[test]
fn rename_item_rename_item_test() {
    let mut state = State::default();
    let caller = PrincipalId::anonymous();
    set_user_info(
        &mut state,
        &caller,
        User { username: "John".to_string(), public_key: vec![1, 2, 3] },
    );

    let item_id_to_rename =
        create_dummy_item(&mut state, &caller, "original_name.txt", ItemType::File, None);
    let result = rename_item(&mut state, &caller, item_id_to_rename, "new_name.txt".to_string(), get_time());

    assert!(result.is_ok());
    let renamed_item = state.items.get(&item_id_to_rename).unwrap();
    assert_eq!(renamed_item.name, "new_name.txt");
}

#[test]
fn rename_item_rename_item_permission_error() {
    let mut state = State::default();
    let owner = PrincipalId::anonymous();
    let other_user = PrincipalId::from_slice(&[0, 1, 2]);
    set_user_info(
        &mut state,
        &owner,
        User { username: "JohnOwner".to_string(), public_key: vec![1, 2, 3] },
    );
    set_user_info(
        &mut state,
        &other_user,
        User { username: "JaneOther".to_string(), public_key: vec![3, 4, 5] },
    );

    let item_id_to_rename =
        create_dummy_item(&mut state, &owner, "original_name.txt", ItemType::File, None);
    let result =
        rename_item(&mut state, &other_user, item_id_to_rename, "new_name.txt".to_string(), get_time());

    assert!(result.is_err());
    assert_eq!(result.unwrap_err().message(), "Permission denied: You do not own this item.");
    assert_eq!(state.items.get(&item_id_to_rename).unwrap().name, "original_name.txt");
}

#[test]
fn rename_item_not_found() {
    let mut state = State::default();
    let caller = PrincipalId::anonymous();
    set_user_info(
        &mut state,
        &caller,
        User { username: "John".to_string(), public_key: vec![1, 2, 3] },
    );

    let result = rename_item(&mut state, &caller, 999, "new_name.txt".to_string(), get_time());
    assert!(result.is_err());
    assert_eq!(result.unwrap_err().message(), "Item not found.");
}

#[test]
fn rename_item_blank_name_rejected() {
    let mut state = State::default();
    let caller = PrincipalId::anonymous();
    let item_id = create_dummy_item(&mut state, &caller, "keep.txt", ItemType::File, None);

    let result = rename_item(&mut state, &caller, item_id, "   ".to_string(), get_time());
    assert_eq!(result.unwrap_err(), ItemError::InvalidName);
    // Unicode whitespace trims to nothing too: a no-break-space-only name,
    // or a mix of exotic spaces, is as blank as ASCII spaces.
    let result = rename_item(&mut state, &caller, item_id, "\u{00A0}".to_string(), get_time());
    assert_eq!(result.unwrap_err(), ItemError::InvalidName);
    let result =
        rename_item(&mut state, &caller, item_id, "\u{2003}\u{3000}\t".to_string(), get_time());
    assert_eq!(result.unwrap_err(), ItemError::InvalidName);
    // A name with any non-whitespace character passes.
    let result =
        rename_item(&mut state, &caller, item_id, "\u{00A0}x".to_string(), get_time());
    assert!(result.is_ok());
    assert_eq!(state.items.get(&item_id).unwrap().name, "\u{00A0}x");
}

#[test]
fn move_item_into_descendant_fails() {
    let mut state = State::default();
    let caller = PrincipalId::anonymous();
    let root = create_folder(&mut state, &caller, "root".to_string(), None, get_time()).unwrap().id;
    let mid = create_folder(&mut state, &caller, "mid".to_string(), Some(root), get_time()).unwrap().id;
    let leaf = create_folder(&mut state, &caller, "leaf".to_string(), Some(mid), get_time()).unwrap().id;

    // Moving a folder into itself or any of its descendants is refused.
    assert_eq!(move_item(&mut state, &caller, root, Some(root), get_time()).unwrap_err(),
        ItemError::CycleDetected);
    assert_eq!(move_item(&mut state, &caller, root, Some(mid), get_time()).unwrap_err(),
        ItemError::CycleDetected);
    assert_eq!(move_item(&mut state, &caller, root, Some(leaf), get_time()).unwrap_err(),
        ItemError::CycleDetected);
    assert_eq!(move_item(&mut state, &caller, mid, Some(leaf), get_time()).unwrap_err(),
        ItemError::CycleDetected);
    // The tree is unchanged.
    assert_eq!(state.items.get(&root).unwrap().parent_id, None);
    assert_eq!(state.items.get(&mid).unwrap().parent_id, Some(root));
}

#[test]
fn move_item_into_non_descendant_succeeds() {
    let mut state = State::default();
    let caller = PrincipalId::anonymous();
    let a = create_folder(&mut state, &caller, "a".to_string(), None, get_time()).unwrap().id;
    let b = create_folder(&mut state, &caller, "b".to_string(), None, get_time()).unwrap().id;
    let a_child = create_folder(&mut state, &caller, "a_child".to_string(), Some(a), get_time()).unwrap().id;

    assert!(move_item(&mut state, &caller, a_child, Some(b), get_time()).is_ok());
    assert_eq!(state.items.get(&a_child).unwrap().parent_id, Some(b));
    // Moving back up to the root also succeeds.
    assert!(move_item(&mut state, &caller, a_child, None, get_time()).is_ok());
    assert_eq!(state.items.get(&a_child).unwrap().parent_id, None);
    // A sibling folder is not a descendant: moving under it succeeds.
    assert!(move_item(&mut state, &caller, a, Some(b), get_time()).is_ok());
    assert_eq!(state.items.get(&a).unwrap().parent_id, Some(b));
}

#[test]
fn move_item_checks_ownership_and_kind() {
    let mut state = State::default();
    let owner = PrincipalId::anonymous();
    let stranger = PrincipalId::from_slice(&[7]);
    let folder = create_folder(&mut state, &owner, "f".to_string(), None, get_time()).unwrap().id;
    let file = create_dummy_item(&mut state, &owner, "x.txt", ItemType::File, None);

    assert_eq!(move_item(&mut state, &stranger, file, Some(folder), get_time()).unwrap_err(),
        ItemError::PermissionDenied);
    assert_eq!(move_item(&mut state, &owner, file, Some(999), get_time()).unwrap_err(), ItemError::NotFound);
    assert_eq!(move_item(&mut state, &owner, folder, Some(file), get_time()).unwrap_err(),
        ItemError::NotAFolder);
    assert!(move_item(&mut state, &owner, file, Some(folder), get_time()).is_ok());
    assert_eq!(state.items.get(&file).unwrap().parent_id, Some(folder));
}

#[test]
fn delete_folder_then_child_then_folder() {
    let mut state = State::default();
    let caller = PrincipalId::anonymous();
    let folder = create_folder(&mut state, &caller, "F".to_string(), None, get_time()).unwrap().id;
    let child = create_dummy_item(&mut state, &caller, "C.txt", ItemType::File, Some(folder));

    // Deleting the folder first is blocked by its child.
    assert_eq!(delete_item(&mut state, &caller, folder).unwrap_err(), ItemError::FolderNotEmpty);
    // Deleting the last child first, then the folder, succeeds.
    assert!(delete_item(&mut state, &caller, child).is_ok());
    assert!(delete_item(&mut state, &caller, folder).is_ok());
    assert!(!state.items.contains_key(&folder));
    assert!(!state.items.contains_key(&child));
}

#[test]
fn create_folder_validates_parent() {
    let mut state = State::default();
    let owner = PrincipalId::anonymous();
    let stranger = PrincipalId::from_slice(&[9]);
    let file = create_dummy_item(&mut state, &owner, "f.txt", ItemType::File, None);
    let folder = create_folder(&mut state, &owner, "mine".to_string(), None, get_time()).unwrap().id;

    assert_eq!(create_folder(&mut state, &owner, "x".to_string(), Some(999), get_time()).unwrap_err(),
        ItemError::NotFound);
    assert_eq!(create_folder(&mut state, &owner, "x".to_string(), Some(file), get_time()).unwrap_err(),
        ItemError::NotAFolder);
    assert_eq!(create_folder(&mut state, &stranger, "x".to_string(), Some(folder), get_time()).unwrap_err(),
        ItemError::PermissionDenied);
    let child = create_folder(&mut state, &owner, "x".to_string(), Some(folder), get_time()).unwrap();
    assert_eq!(child.parent_id, Some(folder));
    assert_eq!(child.item_type, ItemType::Folder);
}

#[test]
fn list_folder_contents_shows_visible_children() {
    let mut state = State::default();
    let owner = PrincipalId::anonymous();
    let other = PrincipalId::from_slice(&[5]);
    let folder = create_folder(&mut state, &owner, "top".to_string(), None, get_time()).unwrap().id;
    let child1 = create_folder(&mut state, &owner, "one".to_string(), Some(folder), get_time()).unwrap().id;
    let child2 = create_folder(&mut state, &owner, "two".to_string(), Some(folder), get_time()).unwrap().id;

    let listing = list_folder_contents(&state, &owner, Some(folder)).unwrap();
    assert_eq!(listing.len(), 2);
    assert_eq!(listing[0].id, child1);
    assert_eq!(listing[1].id, child2);

    // The root listing shows only the top folder.
    let root_listing = list_folder_contents(&state, &owner, None).unwrap();
    assert_eq!(root_listing.len(), 1);
    assert_eq!(root_listing[0].id, folder);

    // A stranger sees neither the folder nor its contents.
    assert_eq!(list_folder_contents(&state, &other, Some(folder)).unwrap_err(),
        ItemError::PermissionDenied);
    assert_eq!(list_folder_contents(&state, &other, None).unwrap().len(), 0);
    assert_eq!(list_folder_contents(&state, &other, Some(999)).unwrap_err(), ItemError::NotFound);
}
