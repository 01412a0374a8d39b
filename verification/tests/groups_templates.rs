use docutrack::api::{delete_item, delete_template, get_group_by_alias, get_request_groups,
    get_template, get_user_templates, multi_request, save_template, set_user_info,
    username_exists};
use docutrack::api_types::MultiRequestInputLegacy;
use docutrack::{ceil_division, get_time};
use docutrack::principal::PrincipalId;
use docutrack::state::{generate_alias, State};
use docutrack::users::User;

#[test]
fn multi_request_creates_group_and_files() {
    let mut state = State::default();
    let caller = PrincipalId::anonymous();
    set_user_info(
        &mut state,
        &caller,
        User { username: "John".to_string(), public_key: vec![1] },
    );

    let response = multi_request(
        &caller,
        MultiRequestInputLegacy {
            group_name: "taxes".to_string(),
            file_names: vec!["w2.pdf".to_string(), "receipts.pdf".to_string()],
            save_as_template: false,
        },
        &mut state,
    get_time());

    // One folder and two pending files were created.
    let group = state.items.get(&response.group_id).unwrap();
    assert_eq!(group.name, "taxes");
    let first = state.items.get(&(response.group_id + 1)).unwrap();
    assert_eq!(first.name, "w2.pdf");
    assert_eq!(first.parent_id, Some(response.group_id));
    let second = state.items.get(&(response.group_id + 2)).unwrap();
    assert_eq!(second.name, "receipts.pdf");
    assert_eq!(state.item_id_counter, 3);

    // The group alias resolves to the group and lists both files with their
    // own aliases.
    let info = get_group_by_alias(&state, response.group_alias.clone()).unwrap();
    assert_eq!(info.group_id, response.group_id);
    assert_eq!(info.group_name, "taxes");
    assert_eq!(info.files.len(), 2);
    assert_eq!(info.files[0].file_name, "w2.pdf");
    assert!(!info.files[0].alias.is_empty());
    assert_eq!(state.file_alias_index.get(&info.files[0].alias),
        Some(&(response.group_id + 1)));

    // The requester sees the group in its listing.
    let groups = get_request_groups(&state, &caller);
    assert_eq!(groups.len(), 1);
    assert_eq!(groups[0].group_id, response.group_id);
    assert_eq!(groups[0].files.len(), 2);

    // An unknown alias resolves to nothing.
    assert!(get_group_by_alias(&state, "nosuchalias".to_string()).is_err());
}

#[test]
fn deleting_a_member_purges_group_records() {
    let mut state = State::default();
    let caller = PrincipalId::anonymous();
    set_user_info(
        &mut state,
        &caller,
        User { username: "John".to_string(), public_key: vec![1] },
    );
    let response = multi_request(
        &caller,
        MultiRequestInputLegacy {
            group_name: "g".to_string(),
            file_names: vec!["a".to_string(), "b".to_string()],
            save_as_template: false,
        },
        &mut state,
    get_time());
    let member = response.group_id + 1;
    delete_item(&mut state, &caller, member).unwrap();

    let groups = get_request_groups(&state, &caller);
    assert_eq!(groups.len(), 1);
    assert_eq!(groups[0].files.len(), 1);
    assert_eq!(groups[0].files[0].id, response.group_id + 2);

    let info = get_group_by_alias(&state, response.group_alias).unwrap();
    assert_eq!(info.files.len(), 1);
}

#[test]
fn multi_request_can_save_a_template() {
    let mut state = State::default();
    let caller = PrincipalId::anonymous();
    multi_request(
        &caller,
        MultiRequestInputLegacy {
            group_name: "onboarding".to_string(),
            file_names: vec!["id.png".to_string()],
            save_as_template: true,
        },
        &mut state,
    get_time());
    let t = get_template(&state, &caller, "onboarding".to_string()).unwrap();
    assert_eq!(t.name, "onboarding");
    assert_eq!(t.file_names, vec!["id.png".to_string()]);
}

#[test]
fn template_crud_roundtrip() {
    let mut state = State::default();
    let caller = PrincipalId::anonymous();
    let other = PrincipalId::from_slice(&[8]);

    assert!(get_template(&state, &caller, "t1".to_string()).is_err());
    save_template(&mut state, &caller, "t1".to_string(), vec!["a".to_string(), "b".to_string()])
        .unwrap();
    save_template(&mut state, &caller, "t2".to_string(), vec!["c".to_string()]).unwrap();

    let t1 = get_template(&state, &caller, "t1".to_string()).unwrap();
    assert_eq!(t1.file_names, vec!["a".to_string(), "b".to_string()]);
    // Another owner has its own template namespace.
    assert!(get_template(&state, &other, "t1".to_string()).is_err());

    // Saving under the same name replaces the list.
    save_template(&mut state, &caller, "t1".to_string(), vec!["z".to_string()]).unwrap();
    let t1b = get_template(&state, &caller, "t1".to_string()).unwrap();
    assert_eq!(t1b.file_names, vec!["z".to_string()]);

    let all = get_user_templates(&state, &caller);
    assert_eq!(all.len(), 2);

    delete_template(&mut state, &caller, "t1".to_string()).unwrap();
    assert!(get_template(&state, &caller, "t1".to_string()).is_err());
    assert!(delete_template(&mut state, &caller, "t1".to_string()).is_err());
    assert_eq!(get_user_templates(&state, &caller).len(), 1);
}

#[test]
fn username_exists_checks_the_registry() {
    let mut state = State::default();
    let caller = PrincipalId::anonymous();
    assert!(!username_exists(&state, "John".to_string()));
    set_user_info(
        &mut state,
        &caller,
        User { username: "John".to_string(), public_key: vec![1] },
    );
    assert!(username_exists(&state, "John".to_string()));
    assert!(!username_exists(&state, "Jane".to_string()));
}

#[test]
fn generated_aliases_are_sixteen_characters() {
    let mut state = State::default();
    let a = generate_alias(&mut state);
    let b = generate_alias(&mut state);
    assert_eq!(a.len(), 16);
    assert_eq!(b.len(), 16);
    assert_ne!(a, b);
}

#[test]
fn ceil_division_rounds_up() {
    assert_eq!(ceil_division(0, 4), 0);
    assert_eq!(ceil_division(8, 4), 2);
    assert_eq!(ceil_division(9, 4), 3);
    assert_eq!(ceil_division(1, 1_000_000), 1);
}
