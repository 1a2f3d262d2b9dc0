use vstd::prelude::*;

use crate::error::{Result, UpgraderError};
use crate::permission::{
    perms_in, with_added, with_removed, Permission, PermissionList, Permissions,
};
use crate::polls::{
    created, has_id, sweep, voted, voting_open, ClosedPoll, PendingPoll, Poll,
    PollCreateData, PollType, Polls, PollsView,
};
use crate::principal::{anonymous_bytes, Principal};
use crate::projects::{after_project_insert, lists_all, ProjectData, Projects};
use crate::settings::Settings;

verus! {

/// Interval between two finalization sweeps, in seconds.
pub const POLL_TIMER_INTERVAL_SECS: u64 = 600;

/// The data the service is initialized with.
#[derive(Debug)]
pub struct UpgraderCanisterInitData {
    /// The first administrator.
    pub admin: Principal,
}

/// The whole governance state, owned by one context.
pub struct UpgraderCanisterState {
    pub permissions: Permissions,
    pub polls: Polls,
    pub projects: Projects,
    pub settings: Settings,
}

impl UpgraderCanisterState {
    /// Each registry is well formed.
    pub open spec fn wf(&self) -> bool {
        self.permissions.wf() && self.polls.wf() && self.projects.wf()
    }

    /// An empty state.
    pub fn new() -> (r: UpgraderCanisterState)
        ensures
            r.wf(),
            r.permissions@ == crate::permission::PermissionMap::empty(),
            r.projects@ == crate::projects::ProjectMap::empty(),
            r.polls@.next_id == 0,
            r.polls@.pending.len() == 0,
            r.polls@.closed.len() == 0,
            !r.settings@.disable_inspect_message,
    {
        UpgraderCanisterState {
            permissions: Permissions::new(),
            polls: Polls::new(),
            projects: Projects::new(),
            settings: Settings::new(),
        }
    }
}

impl Default for UpgraderCanisterState {
    fn default() -> (r: UpgraderCanisterState)
        ensures
            r.wf(),
    {
        UpgraderCanisterState::new()
    }
}

/// `caller` holds `p`.
pub open spec fn allowed(state: &UpgraderCanisterState, caller: Principal, p: Permission) -> bool {
    perms_in(state.permissions@, caller@).contains(p)
}

/// The permission that a call of `method` requires, if any.
pub open spec fn required_permission(method: Seq<char>) -> Option<Permission> {
    if method.len() >= 6 && method.subrange(0, 6) == "admin_"@ {
        Some(Permission::Admin)
    } else if method == "project_create"@ {
        Some(Permission::CreateProject)
    } else if method == "poll_create"@ {
        Some(Permission::CreatePoll)
    } else if method == "poll_vote"@ {
        Some(Permission::VotePoll)
    } else {
        None
    }
}

/// Relies on std's `str::starts_with`: whether `s` begins with `prefix`.
#[verifier::external_body]
fn starts_with(s: &str, prefix: &str) -> (r: bool)
    ensures
        r == (prefix@.len() <= s@.len() && s@.subrange(0, prefix@.len() as int) == prefix@),
{
    s.starts_with(prefix)
}

/// The permission that a call of `method` requires, if any: `Admin` for
/// every `admin_` operation, and one permission for creating a project,
/// creating a poll and voting.
pub fn method_permission(method: &String) -> (r: Option<Permission>)
    ensures
        r == required_permission(method@),
{
    proof {
        reveal_strlit("admin_");
        reveal_strlit("project_create");
        reveal_strlit("poll_create");
        reveal_strlit("poll_vote");
    }
    if starts_with(method.as_str(), "admin_") {
        Some(Permission::Admin)
    } else if *method == "project_create".to_owned() {
        Some(Permission::CreateProject)
    } else if *method == "poll_create".to_owned() {
        Some(Permission::CreatePoll)
    } else if *method == "poll_vote".to_owned() {
        Some(Permission::VotePoll)
    } else {
        None
    }
}

/// The pre-dispatch check: a call of `method` by `caller` is accepted when
/// the check is disabled, when the method requires no permission, or when the
/// caller holds the permission it requires.
pub fn inspect_message_impl(state: &UpgraderCanisterState, method: &String, caller: &Principal) -> (r: Result<()>)
    requires
        state.wf(),
    ensures
        r == (if state.settings@.disable_inspect_message {
            Ok(())
        } else {
            match required_permission(method@) {
                Some(p) => if allowed(state, *caller, p) {
                    Ok(())
                } else {
                    Err(UpgraderError::NotAuthorized)
                },
                None => Ok(()),
            }
        }),
{
    if state.settings.is_inspect_message_disabled() {
        return Ok(());
    }
    match method_permission(method) {
        Some(p) => check_permission(&state.permissions, caller, p),
        None => Ok(()),
    }
}

fn check_permission(permissions: &Permissions, caller: &Principal, p: Permission) -> (r: Result<()>)
    requires
        permissions.wf(),
    ensures
        r == (if perms_in(permissions@, caller@).contains(p) {
            Ok(())
        } else {
            Err(UpgraderError::NotAuthorized)
        }),
{
    let required = [p];
    let r = permissions.check_has_all_permissions(caller, &required);
    assert(required@[0] == p);
    r
}

/// Grants `Admin` to the initial administrator.
pub fn init(state: &mut UpgraderCanisterState, admin: Principal) -> (r: Result<()>)
    requires
        old(state).wf(),
    ensures
        final(state).wf(),
        admin@ == anonymous_bytes() ==> r == Err::<(), UpgraderError>(UpgraderError::AnonymousPrincipalNotAllowed)
            && final(state).permissions@ == old(state).permissions@,
        admin@ != anonymous_bytes() ==> r is Ok && final(state).permissions@ == with_added(
            old(state).permissions@,
            admin@,
            set![Permission::Admin],
        ),
{
    let admin_permission = vec![Permission::Admin];
    assert(admin_permission@.to_set() =~= set![Permission::Admin]) by {
        assert(admin_permission@[0] == Permission::Admin);
    };
    match state.permissions.add_permissions(admin, admin_permission) {
        Ok(_) => Ok(()),
        Err(e) => Err(e),
    }
}

/// The permissions of `principal`, for an administrator.
pub fn admin_permissions_get(state: &UpgraderCanisterState, caller: &Principal, principal: &Principal) -> (r: Result<PermissionList>)
    requires
        state.wf(),
    ensures
        !allowed(state, *caller, Permission::Admin) ==> r == Err::<PermissionList, UpgraderError>(UpgraderError::NotAuthorized),
        allowed(state, *caller, Permission::Admin) ==> r is Ok && r->Ok_0@ == perms_in(state.permissions@, principal@),
{
    state.permissions.check_admin(caller)?;
    Ok(state.permissions.get_permissions(principal))
}

/// Grants `permissions` to `principal`, for an administrator.
pub fn admin_permissions_add(state: &mut UpgraderCanisterState, caller: &Principal, principal: Principal, permissions: Vec<Permission>) -> (r: Result<PermissionList>)
    requires
        old(state).wf(),
    ensures
        final(state).wf(),
        final(state).polls@ == old(state).polls@,
        final(state).projects@ == old(state).projects@,
        !allowed(old(state), *caller, Permission::Admin) ==> r == Err::<PermissionList, UpgraderError>(UpgraderError::NotAuthorized)
            && final(state).permissions@ == old(state).permissions@,
        allowed(old(state), *caller, Permission::Admin) && principal@ == anonymous_bytes() ==> r == Err::<PermissionList, UpgraderError>(
            UpgraderError::AnonymousPrincipalNotAllowed,
        ) && final(state).permissions@ == old(state).permissions@,
        allowed(old(state), *caller, Permission::Admin) && principal@ != anonymous_bytes() ==> r is Ok && r->Ok_0@ == perms_in(
            final(state).permissions@,
            principal@,
        ) && final(state).permissions@ == with_added(old(state).permissions@, principal@, permissions@.to_set()),
{
    state.permissions.check_admin(caller)?;
    state.permissions.add_permissions(principal, permissions)
}

/// Takes `permissions` from `principal`, for an administrator.
pub fn admin_permissions_remove(state: &mut UpgraderCanisterState, caller: &Principal, principal: Principal, permissions: Vec<Permission>) -> (r: Result<PermissionList>)
    requires
        old(state).wf(),
    ensures
        final(state).wf(),
        final(state).polls@ == old(state).polls@,
        final(state).projects@ == old(state).projects@,
        !allowed(old(state), *caller, Permission::Admin) ==> r == Err::<PermissionList, UpgraderError>(UpgraderError::NotAuthorized)
            && final(state).permissions@ == old(state).permissions@,
        allowed(old(state), *caller, Permission::Admin) ==> r is Ok && r->Ok_0@ == perms_in(
            final(state).permissions@,
            principal@,
        ) && final(state).permissions@ == with_removed(old(state).permissions@, principal@, permissions@.to_set()),
{
    state.permissions.check_admin(caller)?;
    Ok(state.permissions.remove_permissions(principal, permissions.as_slice()))
}

/// Enables or disables the pre-dispatch check, for an administrator.
pub fn admin_disable_inspect_message(state: &mut UpgraderCanisterState, caller: &Principal, value: bool) -> (r: Result<()>)
    requires
        old(state).wf(),
    ensures
        final(state).wf(),
        final(state).permissions@ == old(state).permissions@,
        !allowed(old(state), *caller, Permission::Admin) ==> r == Err::<(), UpgraderError>(UpgraderError::NotAuthorized)
            && final(state).settings@ == old(state).settings@,
        allowed(old(state), *caller, Permission::Admin) ==> r is Ok && final(state).settings@.disable_inspect_message == value,
{
    state.permissions.check_admin(caller)?;
    state.settings.disable_inspect_message(value);
    Ok(())
}

/// Whether the pre-dispatch check is disabled.
pub fn is_inspect_message_disabled(state: &UpgraderCanisterState) -> (r: bool)
    ensures
        r == state.settings@.disable_inspect_message,
{
    state.settings.is_inspect_message_disabled()
}

/// The permissions of the caller itself.
pub fn caller_permissions_get(state: &UpgraderCanisterState, caller: &Principal) -> (r: Result<PermissionList>)
    requires
        state.wf(),
    ensures
        r is Ok && r->Ok_0@ == perms_in(state.permissions@, caller@),
{
    Ok(state.permissions.get_permissions(caller))
}

/// Every registered project.
pub fn project_get_all(state: &UpgraderCanisterState) -> (r: Vec<ProjectData>)
    requires
        state.wf(),
    ensures
        lists_all(state.projects@, r@),
{
    state.projects.all()
}

/// The project registered under `key`, if any.
pub fn project_get(state: &UpgraderCanisterState, key: String) -> (r: Option<ProjectData>)
    requires
        state.wf(),
    ensures
        r is None <==> !state.projects@.contains_key(key@),
        r is Some ==> r->Some_0@ == state.projects@[key@],
{
    state.projects.get(&key)
}

/// Fails with `NotAuthorized` unless `caller` may create projects.
pub fn project_create_inspect(permissions: &Permissions, caller: &Principal) -> (r: Result<()>)
    requires
        permissions.wf(),
    ensures
        r == (if perms_in(permissions@, caller@).contains(Permission::CreateProject) {
            Ok(())
        } else {
            Err(UpgraderError::NotAuthorized)
        }),
{
    check_permission(permissions, caller, Permission::CreateProject)
}

/// Registers `project`, for a caller that may create projects.
pub fn project_create(state: &mut UpgraderCanisterState, caller: &Principal, project: ProjectData) -> (r: Result<()>)
    requires
        old(state).wf(),
    ensures
        final(state).wf(),
        final(state).permissions@ == old(state).permissions@,
        final(state).polls@ == old(state).polls@,
        !allowed(old(state), *caller, Permission::CreateProject) ==> r == Err::<(), UpgraderError>(UpgraderError::NotAuthorized)
            && final(state).projects@ == old(state).projects@,
        allowed(old(state), *caller, Permission::CreateProject) ==> final(state).projects@ == after_project_insert(
            old(state).projects@,
            project@,
        ) && (r is Ok <==> !old(state).projects@.contains_key(project.key@)),
        allowed(old(state), *caller, Permission::CreateProject) && old(state).projects@.contains_key(project.key@) ==> r
            == Err::<(), UpgraderError>(UpgraderError::NotUniqueKey(project.key)),
{
    project_create_inspect(&state.permissions, caller)?;
    state.projects.insert(project)
}

/// Every pending poll with its id.
pub fn poll_get_all_pending(state: &UpgraderCanisterState) -> (r: Vec<(u64, PendingPoll)>)
    ensures
        crate::polls::pending_view(r@) == state.polls@.pending,
{
    state.polls.all_pending()
}

/// Every closed poll with its id.
pub fn poll_get_all_closed(state: &UpgraderCanisterState) -> (r: Vec<(u64, ClosedPoll)>)
    ensures
        crate::polls::closed_view(r@) == state.polls@.closed,
{
    state.polls.all_closed()
}

/// The poll with id `id`, pending or closed.
pub fn poll_get(state: &UpgraderCanisterState, id: u64) -> (r: Option<Poll>)
    requires
        state.wf(),
    ensures
        match r {
            Some(Poll::Pending(p)) => has_id(state.polls@.pending, id) && forall|i: int|
                0 <= i < state.polls@.pending.len() && #[trigger] state.polls@.pending[i].0 == id ==> p@
                    == state.polls@.pending[i].1,
            Some(Poll::Closed(c)) => !has_id(state.polls@.pending, id) && has_id(state.polls@.closed, id)
                && forall|i: int|
                0 <= i < state.polls@.closed.len() && #[trigger] state.polls@.closed[i].0 == id ==> c@
                    == state.polls@.closed[i].1,
            None => !has_id(state.polls@.pending, id) && !has_id(state.polls@.closed, id),
        },
{
    state.polls.get(&id)
}

/// The pending poll with id `id`, if any.
pub fn poll_get_pending(state: &UpgraderCanisterState, id: u64) -> (r: Option<PendingPoll>)
    requires
        state.wf(),
    ensures
        r is None <==> !has_id(state.polls@.pending, id),
        forall|i: int|
            0 <= i < state.polls@.pending.len() && #[trigger] state.polls@.pending[i].0 == id ==> r is Some
                && r->Some_0@ == state.polls@.pending[i].1,
{
    state.polls.get_pending(&id)
}

/// The closed poll with id `id`, if any.
pub fn poll_get_closed(state: &UpgraderCanisterState, id: u64) -> (r: Option<ClosedPoll>)
    requires
        state.wf(),
    ensures
        r is None <==> !has_id(state.polls@.closed, id),
        forall|i: int|
            0 <= i < state.polls@.closed.len() && #[trigger] state.polls@.closed[i].0 == id ==> r is Some
                && r->Some_0@ == state.polls@.closed[i].1,
{
    state.polls.get_closed(&id)
}

/// Fails with `NotAuthorized` unless `caller` may create polls.
pub fn poll_create_inspect(permissions: &Permissions, caller: &Principal) -> (r: Result<()>)
    requires
        permissions.wf(),
    ensures
        r == (if perms_in(permissions@, caller@).contains(Permission::CreatePoll) {
            Ok(())
        } else {
            Err(UpgraderError::NotAuthorized)
        }),
{
    check_permission(permissions, caller, Permission::CreatePoll)
}

/// A project-hash poll must name a registered project.
pub open spec fn names_missing_project(state: &UpgraderCanisterState, poll: PollCreateData) -> bool {
    match poll.poll_type {
        PollType::ProjectHash { project, .. } => !state.projects@.contains_key(project@),
        _ => false,
    }
}

/// Relies on std's `format!`: names the project that was not found.
#[verifier::external_body]
fn missing_project_message(project: &String) -> String {
    format!("Cannot create poll, project [{}] does not exist", project)
}

/// Creates a pending poll and returns its id, for a caller that may create
/// polls; a project-hash poll must name a registered project.
pub fn poll_create(state: &mut UpgraderCanisterState, caller: &Principal, poll: PollCreateData) -> (r: Result<u64>)
    requires
        old(state).wf(),
        old(state).polls@.next_id < u64::MAX,
    ensures
        final(state).wf(),
        final(state).permissions@ == old(state).permissions@,
        final(state).projects@ == old(state).projects@,
        !allowed(old(state), *caller, Permission::CreatePoll) ==> r == Err::<u64, UpgraderError>(UpgraderError::NotAuthorized)
            && final(state).polls@ == old(state).polls@,
        allowed(old(state), *caller, Permission::CreatePoll) && names_missing_project(old(state), poll) ==> r is Err
            && r->Err_0 is BadRequest && final(state).polls@ == old(state).polls@,
        allowed(old(state), *caller, Permission::CreatePoll) && !names_missing_project(old(state), poll) ==> r == Ok::<u64, UpgraderError>(
            old(state).polls@.next_id,
        ) && final(state).polls@ == (PollsView {
            pending: old(state).polls@.pending.push((old(state).polls@.next_id, created(poll))),
            closed: old(state).polls@.closed,
            next_id: (old(state).polls@.next_id + 1) as u64,
        }),
{
    poll_create_inspect(&state.permissions, caller)?;
    if let PollType::ProjectHash { project, .. } = &poll.poll_type {
        if !state.projects.contains_key(project) {
            return Err(UpgraderError::BadRequest(missing_project_message(project)));
        }
    }
    let ghost pending = old(state).polls@.pending;
    let id = state.polls.insert(poll);
    assert(state.polls@ == (PollsView {
        pending: pending.push((id, created(poll))),
        closed: old(state).polls@.closed,
        next_id: (id + 1) as u64,
    }));
    Ok(id)
}

/// Fails with `NotAuthorized` unless `caller` may vote.
pub fn poll_vote_inspect(permissions: &Permissions, caller: &Principal) -> (r: Result<()>)
    requires
        permissions.wf(),
    ensures
        r == (if perms_in(permissions@, caller@).contains(Permission::VotePoll) {
            Ok(())
        } else {
            Err(UpgraderError::NotAuthorized)
        }),
{
    check_permission(permissions, caller, Permission::VotePoll)
}

/// Records the vote of `caller` at time `now`, for a caller that may vote.
pub fn poll_vote(state: &mut UpgraderCanisterState, caller: Principal, poll_id: u64, approved: bool, now: u64) -> (r: Result<()>)
    requires
        old(state).wf(),
    ensures
        final(state).wf(),
        final(state).permissions@ == old(state).permissions@,
        final(state).projects@ == old(state).projects@,
        !allowed(old(state), caller, Permission::VotePoll) ==> r == Err::<(), UpgraderError>(UpgraderError::NotAuthorized)
            && final(state).polls@ == old(state).polls@,
        allowed(old(state), caller, Permission::VotePoll) && !has_id(old(state).polls@.pending, poll_id) ==> r is Err
            && r->Err_0 is BadRequest && final(state).polls@ == old(state).polls@,
        forall|i: int|
            allowed(old(state), caller, Permission::VotePoll) && 0 <= i < old(state).polls@.pending.len()
                && #[trigger] old(state).polls@.pending[i].0 == poll_id ==> if voting_open(
                old(state).polls@.pending[i].1,
                now,
            ) {
                &&& r is Ok
                &&& final(state).polls@ == (PollsView {
                    pending: old(state).polls@.pending.update(
                        i,
                        (poll_id, voted(old(state).polls@.pending[i].1, caller@, approved)),
                    ),
                    ..old(state).polls@
                })
            } else {
                &&& r is Err
                &&& r->Err_0 is BadRequest
                &&& final(state).polls@ == old(state).polls@
            },
{
    poll_vote_inspect(&state.permissions, &caller)?;
    state.polls.vote(poll_id, caller, approved, now)
}

/// The periodic sweep: finalizes every poll due at `now`.
pub fn finalize_due_polls(state: &mut UpgraderCanisterState, now: u64) -> (r: Result<()>)
    requires
        old(state).wf(),
    ensures
        final(state).wf(),
        final(state).projects@ == old(state).projects@,
        ({
            let st = sweep(old(state).polls@.pending, now, old(state).polls@.closed, old(state).permissions@);
            &&& final(state).polls@ == (PollsView { pending: st.pending, closed: st.closed, next_id: old(state).polls@.next_id })
            &&& final(state).permissions@ == st.perms
            &&& st.failed ==> r == Err::<(), UpgraderError>(UpgraderError::AnonymousPrincipalNotAllowed)
            &&& !st.failed ==> r is Ok
        }),
{
    state.polls.finalize_polls(now, &mut state.permissions)
}

} // verus!
