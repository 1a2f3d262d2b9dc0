use upgrader_canister::canister::{
    admin_disable_inspect_message, admin_permissions_add, admin_permissions_get,
    admin_permissions_remove, caller_permissions_get, finalize_due_polls, init,
    inspect_message_impl, is_inspect_message_disabled, method_permission, poll_create,
    poll_get, poll_get_all_closed, poll_get_all_pending, poll_get_closed, poll_get_pending,
    poll_vote, project_create, project_get, project_get_all,
};
use upgrader_canister::{
    Permission, PermissionList, Poll, PollCreateData, PollResult, PollType, Principal,
    ProjectData, UpgraderCanisterState, UpgraderError,
};

fn principal(b: u8) -> Principal {
    Principal::from_slice(&[b; 29])
}

fn admin_state() -> (UpgraderCanisterState, Principal) {
    let mut state = UpgraderCanisterState::new();
    let admin = principal(1);
    init(&mut state, admin.clone()).unwrap();
    (state, admin)
}

fn grant(state: &mut UpgraderCanisterState, admin: &Principal, who: &Principal, p: Vec<Permission>) {
    admin_permissions_add(state, admin, who.clone(), p).unwrap();
}

fn project(key: &str) -> ProjectData {
    ProjectData {
        key: key.to_string(),
        name: "Project".to_string(),
        description: "Description".to_string(),
    }
}

#[test]
fn test_should_grant_admin_permissions_on_init() {
    let (state, admin) = admin_state();
    assert_eq!(
        caller_permissions_get(&state, &admin),
        Ok(PermissionList::new(&[Permission::Admin]))
    );
}

#[test]
fn init_refuses_anonymous_admin() {
    let mut state = UpgraderCanisterState::new();
    assert_eq!(
        init(&mut state, Principal::anonymous()),
        Err(UpgraderError::AnonymousPrincipalNotAllowed)
    );
}

#[test]
fn test_admin_can_manage_permissions() {
    let (mut state, admin) = admin_state();
    let user = principal(2);
    assert_eq!(
        admin_permissions_add(&mut state, &admin, user.clone(), vec![Permission::CreatePoll]),
        Ok(PermissionList::new(&[Permission::CreatePoll]))
    );
    assert_eq!(
        admin_permissions_get(&state, &admin, &user),
        Ok(PermissionList::new(&[Permission::CreatePoll]))
    );
    assert_eq!(
        admin_permissions_remove(&mut state, &admin, user.clone(), vec![Permission::CreatePoll]),
        Ok(PermissionList::default())
    );
    assert_eq!(admin_permissions_get(&state, &admin, &user), Ok(PermissionList::default()));
}

#[test]
fn test_only_admin_can_manage_permissions() {
    let (mut state, _admin) = admin_state();
    let user = principal(2);
    assert_eq!(
        admin_permissions_get(&state, &user, &user),
        Err(UpgraderError::NotAuthorized)
    );
    assert_eq!(
        admin_permissions_add(&mut state, &user, user.clone(), vec![Permission::Admin]),
        Err(UpgraderError::NotAuthorized)
    );
    assert_eq!(
        admin_permissions_remove(&mut state, &user, user.clone(), vec![Permission::Admin]),
        Err(UpgraderError::NotAuthorized)
    );
}

#[test]
fn test_admin_can_disable_inspect_message() {
    let (mut state, admin) = admin_state();
    assert!(!is_inspect_message_disabled(&state));
    admin_disable_inspect_message(&mut state, &admin, true).unwrap();
    assert!(is_inspect_message_disabled(&state));
}

#[test]
fn test_only_admin_can_disable_inspect_message() {
    let (mut state, _admin) = admin_state();
    assert_eq!(
        admin_disable_inspect_message(&mut state, &principal(2), true),
        Err(UpgraderError::NotAuthorized)
    );
    assert!(!is_inspect_message_disabled(&state));
}

#[test]
fn test_caller_can_create_and_get_projects() {
    let (mut state, admin) = admin_state();
    let user = principal(2);
    grant(&mut state, &admin, &user, vec![Permission::CreateProject]);
    project_create(&mut state, &user, project("key")).unwrap();
    assert_eq!(project_get(&state, "key".to_string()), Some(project("key")));
    assert_eq!(project_get_all(&state), vec![project("key")]);
}

#[test]
fn test_caller_cant_create_projects_if_not_allowed() {
    let (mut state, _admin) = admin_state();
    assert_eq!(
        project_create(&mut state, &principal(2), project("key")),
        Err(UpgraderError::NotAuthorized)
    );
    assert_eq!(project_get(&state, "key".to_string()), None);
}

#[test]
fn test_caller_cant_create_poll_for_not_existing_project() {
    let (mut state, admin) = admin_state();
    let user = principal(2);
    grant(&mut state, &admin, &user, vec![Permission::CreatePoll]);
    let result = poll_create(
        &mut state,
        &user,
        PollCreateData {
            description: "Description".to_string(),
            poll_type: PollType::ProjectHash {
                project: "project".to_string(),
                hash: "hash".to_string(),
            },
            start_timestamp_secs: 0,
            end_timestamp_secs: 10,
        },
    );
    assert!(matches!(result, Err(UpgraderError::BadRequest(_))));
    assert!(poll_get_all_pending(&state).is_empty());
}

#[test]
fn test_caller_cant_vote_in_poll_if_not_allowed() {
    let (mut state, admin) = admin_state();
    grant(&mut state, &admin, &admin, vec![Permission::CreatePoll]);
    let id = poll_create(
        &mut state,
        &admin,
        PollCreateData {
            description: "Description".to_string(),
            poll_type: PollType::AddPermission {
                principals: vec![principal(3)],
                permissions: vec![Permission::VotePoll],
            },
            start_timestamp_secs: 0,
            end_timestamp_secs: 10,
        },
    )
    .unwrap();
    assert_eq!(
        poll_vote(&mut state, principal(2), id, true, 1),
        Err(UpgraderError::NotAuthorized)
    );
    assert_eq!(poll_get_pending(&state, id).unwrap().yes_voters.len(), 0);
}

#[test]
fn project_hash_poll_end_to_end() {
    let (mut state, admin) = admin_state();
    let voters = [principal(2), principal(3), principal(4)];
    grant(&mut state, &admin, &admin, vec![Permission::CreateProject, Permission::CreatePoll]);
    for v in voters.iter() {
        grant(&mut state, &admin, v, vec![Permission::VotePoll]);
    }
    project_create(&mut state, &admin, project("p1")).unwrap();
    let id = poll_create(
        &mut state,
        &admin,
        PollCreateData {
            description: "approve".to_string(),
            poll_type: PollType::ProjectHash {
                project: "p1".to_string(),
                hash: "h".to_string(),
            },
            start_timestamp_secs: 0,
            end_timestamp_secs: 10,
        },
    )
    .unwrap();
    poll_vote(&mut state, voters[0].clone(), id, true, 1).unwrap();
    poll_vote(&mut state, voters[1].clone(), id, true, 2).unwrap();
    poll_vote(&mut state, voters[2].clone(), id, false, 3).unwrap();
    finalize_due_polls(&mut state, 11).unwrap();

    assert_eq!(poll_get_pending(&state, id), None);
    assert_eq!(poll_get_closed(&state, id).unwrap().result, PollResult::Accepted);
    assert!(matches!(poll_get(&state, id), Some(Poll::Closed(_))));
    assert_eq!(poll_get_all_closed(&state).len(), 1);
}

#[test]
fn add_permission_poll_end_to_end() {
    let (mut state, admin) = admin_state();
    let a = principal(5);
    let b = principal(6);
    let voter = principal(7);
    grant(&mut state, &admin, &admin, vec![Permission::CreatePoll]);
    grant(&mut state, &admin, &voter, vec![Permission::VotePoll]);
    let id = poll_create(
        &mut state,
        &admin,
        PollCreateData {
            description: "grant".to_string(),
            poll_type: PollType::AddPermission {
                principals: vec![a.clone(), b.clone()],
                permissions: vec![Permission::Admin],
            },
            start_timestamp_secs: 0,
            end_timestamp_secs: 10,
        },
    )
    .unwrap();
    poll_vote(&mut state, voter, id, true, 5).unwrap();
    finalize_due_polls(&mut state, 11).unwrap();
    assert!(admin_permissions_get(&state, &admin, &a).unwrap().contains(&Permission::Admin));
    assert!(admin_permissions_get(&state, &admin, &b).unwrap().contains(&Permission::Admin));
}

#[test]
fn inspect_gate_maps_methods_to_permissions() {
    assert_eq!(method_permission(&"admin_permissions_add".to_string()), Some(Permission::Admin));
    assert_eq!(method_permission(&"project_create".to_string()), Some(Permission::CreateProject));
    assert_eq!(method_permission(&"poll_create".to_string()), Some(Permission::CreatePoll));
    assert_eq!(method_permission(&"poll_vote".to_string()), Some(Permission::VotePoll));
    assert_eq!(method_permission(&"poll_get".to_string()), None);

    let (mut state, admin) = admin_state();
    let user = principal(2);
    assert_eq!(
        inspect_message_impl(&state, &"poll_vote".to_string(), &user),
        Err(UpgraderError::NotAuthorized)
    );
    assert_eq!(inspect_message_impl(&state, &"poll_get".to_string(), &user), Ok(()));
    assert_eq!(
        inspect_message_impl(&state, &"admin_permissions_get".to_string(), &admin),
        Ok(())
    );
    admin_disable_inspect_message(&mut state, &admin, true).unwrap();
    assert_eq!(inspect_message_impl(&state, &"poll_vote".to_string(), &user), Ok(()));
    assert_eq!(
        poll_vote(&mut state, user, 0, true, 0),
        Err(UpgraderError::NotAuthorized)
    );
}
