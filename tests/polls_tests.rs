use upgrader_canister::{
    PendingPoll, Permission, PermissionList, Permissions, Poll, PollCreateData, PollResult,
    PollType, Polls, Principal,
};

fn project_hash() -> PollType {
    PollType::ProjectHash {
        project: "project".to_owned(),
        hash: "hash".to_owned(),
    }
}

fn create_data(description: &str, poll_type: PollType, start: u64, end: u64) -> PollCreateData {
    PollCreateData {
        description: description.to_string(),
        poll_type,
        start_timestamp_secs: start,
        end_timestamp_secs: end,
    }
}

fn description_of(poll: Option<Poll>) -> String {
    match poll.unwrap() {
        Poll::Pending(p) => p.description,
        Poll::Closed(c) => c.description,
    }
}

#[test]
fn test_next_id() {
    let mut polls = Polls::new();
    assert_eq!(polls.next_id(), 0);
    assert_eq!(polls.next_id(), 1);
    assert_eq!(polls.next_id(), 2);
}

#[test]
fn test_insert_polls() {
    let mut polls = Polls::new();
    let poll_0_id = polls.insert(create_data("poll_0", project_hash(), 123456, 234567));
    let poll_1_id = polls.insert(create_data("poll_1", project_hash(), 123456, 234567));

    assert_eq!(polls.next_id(), 2);
    assert_eq!(description_of(polls.get(&poll_0_id)), "poll_0");
    assert_eq!(description_of(polls.get(&poll_1_id)), "poll_1");
}

#[test]
fn test_vote_poll_not_found() {
    let mut polls = Polls::new();
    let result = polls.vote(0, Principal::anonymous(), true, 0);
    assert!(result.is_err());
}

#[test]
fn test_vote_poll() {
    let mut polls = Polls::new();
    let poll_id = polls.insert(create_data("poll_0", project_hash(), 0, 234567));
    let principal_1 = Principal::from_slice(&[1, 29]);
    let principal_2 = Principal::from_slice(&[2, 29]);
    let principal_3 = Principal::from_slice(&[3, 29]);

    polls.vote(poll_id, principal_1.clone(), true, 0).unwrap();
    polls.vote(poll_id, principal_2.clone(), false, 0).unwrap();
    polls.vote(poll_id, principal_3.clone(), true, 0).unwrap();

    let poll = polls.get_pending(&poll_id).unwrap();
    assert_eq!(poll.yes_voters.len(), 2);
    assert_eq!(poll.no_voters.len(), 1);
    assert!(poll.yes_voters.contains(&principal_1));
    assert!(poll.yes_voters.contains(&principal_3));
    assert!(poll.no_voters.contains(&principal_2));
}

#[test]
fn test_vote_replace() {
    let mut polls = Polls::new();
    let poll_id = polls.insert(create_data("poll_0", project_hash(), 0, 234567));
    let principal_1 = Principal::from_slice(&[1, 29]);
    let principal_2 = Principal::from_slice(&[2, 29]);
    let principal_3 = Principal::from_slice(&[3, 29]);
    let principal_4 = Principal::from_slice(&[4, 29]);

    polls.vote(poll_id, principal_1.clone(), true, 0).unwrap();
    polls.vote(poll_id, principal_2.clone(), true, 0).unwrap();
    polls.vote(poll_id, principal_3.clone(), false, 0).unwrap();
    polls.vote(poll_id, principal_4.clone(), false, 0).unwrap();
    polls.vote(poll_id, principal_1.clone(), false, 0).unwrap();
    polls.vote(poll_id, principal_4.clone(), true, 0).unwrap();

    let poll = polls.get_pending(&poll_id).unwrap();
    assert_eq!(poll.yes_voters.len(), 2);
    assert_eq!(poll.no_voters.len(), 2);
    assert!(poll.yes_voters.contains(&principal_2));
    assert!(poll.yes_voters.contains(&principal_4));
    assert!(poll.no_voters.contains(&principal_1));
    assert!(poll.no_voters.contains(&principal_3));
}

#[test]
fn test_vote_closed_poll() {
    let mut polls = Polls::new();
    let end_ts = 100;
    let poll_id = polls.insert(create_data("poll_0", project_hash(), 0, end_ts));
    let principal_1 = Principal::from_slice(&[1, 29]);

    assert!(polls.vote(poll_id, principal_1.clone(), true, 0).is_ok());
    assert!(polls.vote(poll_id, principal_1.clone(), true, end_ts - 1).is_ok());
    assert!(polls.vote(poll_id, principal_1.clone(), true, end_ts).is_ok());
    assert!(polls.vote(poll_id, principal_1.clone(), true, end_ts + 1).is_err());
    assert!(polls.vote(poll_id, principal_1.clone(), true, u64::MAX).is_err());
}

#[test]
fn test_vote_opened_poll() {
    let mut polls = Polls::new();
    let start_ts = 100;
    let poll_id = polls.insert(create_data("poll_0", project_hash(), start_ts, u64::MAX));
    let principal_1 = Principal::from_slice(&[1, 29]);

    assert!(polls.vote(poll_id, principal_1.clone(), true, start_ts).is_ok());
    assert!(polls.vote(poll_id, principal_1.clone(), true, start_ts + 1).is_ok());
    assert!(polls.vote(poll_id, principal_1.clone(), true, start_ts - 1).is_err());
    assert!(polls.vote(poll_id, principal_1.clone(), true, 0).is_err());
}

fn pending(poll_type: PollType, yes: Vec<Principal>, no: Vec<Principal>) -> PendingPoll {
    PendingPoll {
        description: "poll_0".to_string(),
        poll_type,
        start_timestamp_secs: 0,
        end_timestamp_secs: 234567,
        yes_voters: yes,
        no_voters: no,
    }
}

#[test]
fn test_process_poll_add_permission() {
    let polls = Polls::new();
    let mut permissions = Permissions::new();
    let principal_1 = Principal::from_slice(&[1, 29]);
    let principal_2 = Principal::from_slice(&[2, 29]);
    let principal_3 = Principal::from_slice(&[3, 29]);

    let poll = pending(
        PollType::AddPermission {
            principals: vec![principal_1.clone(), principal_2.clone()],
            permissions: vec![Permission::Admin],
        },
        vec![principal_1.clone(), principal_2.clone()],
        vec![principal_3.clone()],
    );
    polls.process_poll(&poll, &mut permissions).unwrap();

    assert_eq!(permissions.get_permissions(&principal_1), PermissionList::new(&[Permission::Admin]));
    assert_eq!(permissions.get_permissions(&principal_2), PermissionList::new(&[Permission::Admin]));
    assert_eq!(permissions.get_permissions(&principal_3), PermissionList::default());
}

#[test]
fn test_process_poll_not_add_permission() {
    let polls = Polls::new();
    let mut permissions = Permissions::new();
    let principal_1 = Principal::from_slice(&[1, 29]);
    let principal_2 = Principal::from_slice(&[2, 29]);
    let principal_3 = Principal::from_slice(&[3, 29]);

    let poll = pending(
        PollType::AddPermission {
            principals: vec![principal_1.clone(), principal_2.clone()],
            permissions: vec![Permission::Admin],
        },
        vec![],
        vec![principal_3.clone()],
    );
    polls.process_poll(&poll, &mut permissions).unwrap();

    assert_eq!(permissions.get_permissions(&principal_1), PermissionList::default());
    assert_eq!(permissions.get_permissions(&principal_2), PermissionList::default());
    assert_eq!(permissions.get_permissions(&principal_3), PermissionList::default());
}

fn seeded_permissions(first: &Principal, second: &Principal, third: &Principal) -> Permissions {
    let mut permissions = Permissions::new();
    let three = vec![Permission::Admin, Permission::CreatePoll, Permission::CreateProject];
    permissions.add_permissions(first.clone(), three.clone()).unwrap();
    permissions.add_permissions(second.clone(), vec![Permission::Admin]).unwrap();
    permissions.add_permissions(third.clone(), three).unwrap();
    permissions
}

#[test]
fn test_process_poll_remove_permission() {
    let polls = Polls::new();
    let principal_1 = Principal::from_slice(&[1, 29]);
    let principal_2 = Principal::from_slice(&[2, 29]);
    let principal_3 = Principal::from_slice(&[3, 29]);
    let mut permissions = seeded_permissions(&principal_1, &principal_2, &principal_3);

    let poll = pending(
        PollType::RemovePermission {
            principals: vec![principal_1.clone(), principal_2.clone()],
            permissions: vec![Permission::Admin, Permission::CreateProject],
        },
        vec![principal_3.clone(), principal_2.clone()],
        vec![principal_1.clone()],
    );
    polls.process_poll(&poll, &mut permissions).unwrap();

    assert_eq!(permissions.get_permissions(&principal_1), PermissionList::new(&[Permission::CreatePoll]));
    assert_eq!(permissions.get_permissions(&principal_2), PermissionList::default());
    assert_eq!(
        permissions.get_permissions(&principal_3),
        PermissionList::new(&[Permission::Admin, Permission::CreatePoll, Permission::CreateProject])
    );
}

#[test]
fn test_process_poll_not_remove_permission() {
    let polls = Polls::new();
    let principal_1 = Principal::from_slice(&[1, 29]);
    let principal_2 = Principal::from_slice(&[2, 29]);
    let principal_3 = Principal::from_slice(&[3, 29]);
    let mut permissions = seeded_permissions(&principal_1, &principal_2, &principal_3);

    let poll = pending(
        PollType::RemovePermission {
            principals: vec![principal_1.clone(), principal_2.clone()],
            permissions: vec![Permission::Admin, Permission::CreateProject],
        },
        vec![principal_3.clone()],
        vec![principal_1.clone(), principal_2.clone()],
    );
    polls.process_poll(&poll, &mut permissions).unwrap();

    let three = PermissionList::new(&[Permission::Admin, Permission::CreatePoll, Permission::CreateProject]);
    assert_eq!(permissions.get_permissions(&principal_1), three);
    assert_eq!(permissions.get_permissions(&principal_2), PermissionList::new(&[Permission::Admin]));
    assert_eq!(permissions.get_permissions(&principal_3), three);
}

#[test]
fn test_finalize_polls() {
    let mut polls = Polls::new();
    let mut permissions = Permissions::new();
    let principal_1 = Principal::from_slice(&[1, 29]);
    let principal_2 = Principal::from_slice(&[2, 29]);
    let principal_3 = Principal::from_slice(&[3, 29]);

    let poll_0_id = polls.insert(create_data(
        "poll_0",
        PollType::AddPermission {
            principals: vec![principal_1.clone()],
            permissions: vec![Permission::Admin],
        },
        0,
        1,
    ));
    let poll_1_id = polls.insert(create_data("poll_1", project_hash(), 0, 2));
    let poll_2_id = polls.insert(create_data("poll_2", project_hash(), 0, 3));

    polls.vote(poll_0_id, principal_1.clone(), true, 0).unwrap();
    polls.vote(poll_0_id, principal_2.clone(), true, 0).unwrap();
    polls.vote(poll_0_id, principal_3.clone(), false, 0).unwrap();

    polls.vote(poll_1_id, principal_1.clone(), true, 0).unwrap();
    polls.vote(poll_1_id, principal_2.clone(), false, 0).unwrap();
    polls.vote(poll_1_id, principal_3.clone(), true, 0).unwrap();

    polls.vote(poll_2_id, principal_1.clone(), true, 0).unwrap();
    polls.vote(poll_2_id, principal_2.clone(), false, 0).unwrap();
    polls.vote(poll_2_id, principal_3.clone(), false, 0).unwrap();

    polls.finalize_polls(3, &mut permissions).unwrap();

    assert_eq!(polls.get_pending(&poll_0_id), None);
    assert_eq!(polls.get_closed(&poll_0_id).unwrap().description, "poll_0");
    assert_eq!(polls.get_pending(&poll_1_id), None);
    assert_eq!(polls.get_closed(&poll_1_id).unwrap().description, "poll_1");
    assert_eq!(polls.get_pending(&poll_2_id).unwrap().description, "poll_2");
    assert_eq!(polls.get_closed(&poll_2_id), None);

    assert_eq!(permissions.get_permissions(&principal_1), PermissionList::new(&[Permission::Admin]));
}

#[test]
fn yes_no_yes_leaves_one_yes_vote() {
    let mut polls = Polls::new();
    let id = polls.insert(create_data("p", project_hash(), 0, 10));
    let other = Principal::from_slice(&[8]);
    let v = Principal::from_slice(&[9]);
    polls.vote(id, other.clone(), false, 1).unwrap();
    let before = polls.get_pending(&id).unwrap().total_votes();
    polls.vote(id, v.clone(), true, 1).unwrap();
    polls.vote(id, v.clone(), false, 2).unwrap();
    polls.vote(id, v.clone(), true, 3).unwrap();
    let poll = polls.get_pending(&id).unwrap();
    assert_eq!(poll.yes_voters, vec![v.clone()]);
    assert_eq!(poll.no_voters, vec![other]);
    assert_eq!(poll.yes_votes(), 1);
    assert_eq!(poll.no_votes(), 1);
    assert_eq!(poll.total_votes(), before + 1);
}

#[test]
fn voting_window_boundaries() {
    let mut polls = Polls::new();
    let id = polls.insert(create_data("p", project_hash(), 5, 10));
    let v = Principal::from_slice(&[9]);
    assert!(polls.vote(id, v.clone(), true, 5).is_ok());
    assert!(matches!(
        polls.vote(id, v.clone(), true, 4),
        Err(upgrader_canister::UpgraderError::BadRequest(_))
    ));
    assert!(polls.vote(id, v.clone(), true, 10).is_ok());
    assert!(matches!(
        polls.vote(id, v.clone(), true, 11),
        Err(upgrader_canister::UpgraderError::BadRequest(_))
    ));
}

fn finalize_with_votes(yes: u8, no: u8) -> PollResult {
    let mut polls = Polls::new();
    let mut permissions = Permissions::new();
    let id = polls.insert(create_data("p", project_hash(), 0, 10));
    for i in 0..yes {
        polls.vote(id, Principal::from_slice(&[10 + i]), true, 0).unwrap();
    }
    for i in 0..no {
        polls.vote(id, Principal::from_slice(&[50 + i]), false, 0).unwrap();
    }
    polls.finalize_polls(11, &mut permissions).unwrap();
    polls.get_closed(&id).unwrap().result
}

#[test]
fn majority_rule_outcomes() {
    assert_eq!(finalize_with_votes(2, 1), PollResult::Accepted);
    assert_eq!(finalize_with_votes(1, 1), PollResult::Rejected);
    assert_eq!(finalize_with_votes(0, 0), PollResult::Rejected);
}

#[test]
fn poll_ending_now_is_not_due() {
    let mut polls = Polls::new();
    let mut permissions = Permissions::new();
    let id = polls.insert(create_data("p", project_hash(), 0, 10));
    polls.finalize_polls(10, &mut permissions).unwrap();
    assert!(polls.get_pending(&id).is_some());
    assert!(polls.get_closed(&id).is_none());
}

#[test]
fn ids_increase_and_are_not_reused_after_finalize() {
    let mut polls = Polls::new();
    let mut permissions = Permissions::new();
    let a = polls.insert(create_data("a", project_hash(), 0, 1));
    let b = polls.insert(create_data("b", project_hash(), 0, 1));
    polls.finalize_polls(5, &mut permissions).unwrap();
    let c = polls.insert(create_data("c", project_hash(), 0, 1));
    assert!(a < b && b < c);
    assert_eq!(c, 2);
    assert_eq!(polls.all_closed().len(), 2);
    assert_eq!(polls.all_pending().len(), 1);
}

#[test]
fn grant_to_anonymous_stays_pending_and_reports() {
    let mut polls = Polls::new();
    let mut permissions = Permissions::new();
    let v = Principal::from_slice(&[1]);
    let bad = polls.insert(create_data(
        "bad",
        PollType::AddPermission {
            principals: vec![Principal::from_slice(&[2]), Principal::anonymous()],
            permissions: vec![Permission::Admin],
        },
        0,
        1,
    ));
    let later = polls.insert(create_data("later", project_hash(), 0, 1));
    polls.vote(bad, v.clone(), true, 0).unwrap();
    assert_eq!(
        polls.finalize_polls(2, &mut permissions),
        Err(upgrader_canister::UpgraderError::AnonymousPrincipalNotAllowed)
    );
    assert!(polls.get_pending(&bad).is_some());
    assert!(polls.get_pending(&later).is_some());
    assert_eq!(permissions.get_permissions(&Principal::from_slice(&[2])), PermissionList::default());
}

#[test]
fn closing_keeps_fields_and_sets_result() {
    let poll = pending(project_hash(), vec![Principal::from_slice(&[1])], vec![]);
    assert!(poll.is_accepted());
    let closed = poll.clone().close(PollResult::Accepted);
    assert_eq!(closed.description, poll.description);
    assert_eq!(closed.yes_voters, poll.yes_voters);
    assert_eq!(closed.result, PollResult::Accepted);
    let from = PendingPoll::from_create_data(create_data("d", project_hash(), 3, 4));
    assert_eq!(from.total_votes(), 0);
    assert_eq!(from.start_timestamp_secs, 3);
}

#[test]
fn all_lists_pending_polls_in_id_order() {
    let mut polls = Polls::new();
    let mut permissions = Permissions::new();
    polls.insert(create_data("a", project_hash(), 0, 1));
    polls.insert(create_data("b", project_hash(), 0, 100));
    polls.insert(create_data("c", project_hash(), 0, 100));
    polls.finalize_polls(2, &mut permissions).unwrap();
    let all = polls.all();
    assert_eq!(all.len(), 2);
    assert_eq!(all[0].0, 1);
    assert_eq!(all[1].0, 2);
    assert!(matches!(&all[0].1, Poll::Pending(p) if p.description == "b"));
    assert_eq!(polls.peek_next_id(), 3);
}
