use vstd::prelude::*;

use crate::error::{Result, UpgraderError};
use crate::permission::{
    perms_in, with_added, with_removed, Permission, PermissionMap, Permissions,
};
use crate::principal::{anonymous_bytes, Principal};

verus! {

/// The identities of a list of principals.
pub open spec fn ids(s: Seq<Principal>) -> Seq<Seq<u8>> {
    s.map_values(|p: Principal| p@)
}

/// What a poll is about.
#[derive(Debug, PartialEq, Eq)]
pub enum PollType {
    /// Approval of a hash of an existing project.
    ProjectHash { project: String, hash: String },
    /// Grants `permissions` to each of `principals`.
    AddPermission { principals: Vec<Principal>, permissions: Vec<Permission> },
    /// Takes `permissions` from each of `principals`.
    RemovePermission { principals: Vec<Principal>, permissions: Vec<Permission> },
}

/// The model of a poll type.
pub enum PollTypeView {
    ProjectHash { project: Seq<char>, hash: Seq<char> },
    AddPermission { principals: Seq<Seq<u8>>, permissions: Seq<Permission> },
    RemovePermission { principals: Seq<Seq<u8>>, permissions: Seq<Permission> },
}

impl View for PollType {
    type V = PollTypeView;

    open spec fn view(&self) -> PollTypeView {
        match self {
            PollType::ProjectHash { project, hash } => PollTypeView::ProjectHash {
                project: project@,
                hash: hash@,
            },
            PollType::AddPermission { principals, permissions } => PollTypeView::AddPermission {
                principals: ids(principals@),
                permissions: permissions@,
            },
            PollType::RemovePermission { principals, permissions } => PollTypeView::RemovePermission {
                principals: ids(principals@),
                permissions: permissions@,
            },
        }
    }
}

fn copy_principals(v: &Vec<Principal>) -> (r: Vec<Principal>)
    ensures
        ids(r@) == ids(v@),
{
    let mut r: Vec<Principal> = Vec::new();
    let mut i: usize = 0;
    while i < v.len()
        invariant
            0 <= i <= v@.len(),
            ids(r@) == ids(v@.subrange(0, i as int)),
        decreases v@.len() - i,
    {
        let p = v[i].clone();
        proof {
            assert(ids(r@.push(p)) =~= ids(r@).push(p@));
            assert(ids(v@.subrange(0, i + 1)) =~= ids(v@.subrange(0, i as int)).push(v@[i as int]@));
        }
        r.push(p);
        i = i + 1;
    }
    assert(v@.subrange(0, i as int) =~= v@);
    r
}

fn copy_permissions(v: &Vec<Permission>) -> (r: Vec<Permission>)
    ensures
        r@ == v@,
{
    let mut r: Vec<Permission> = Vec::new();
    let mut i: usize = 0;
    while i < v.len()
        invariant
            0 <= i <= v@.len(),
            r@ == v@.subrange(0, i as int),
        decreases v@.len() - i,
    {
        r.push(v[i]);
        assert(v@.subrange(0, i + 1) =~= v@.subrange(0, i as int).push(v@[i as int]));
        i = i + 1;
    }
    assert(v@.subrange(0, i as int) =~= v@);
    r
}

impl Clone for PollType {
    fn clone(&self) -> (r: PollType)
        ensures
            r@ == self@,
    {
        match self {
            PollType::ProjectHash { project, hash } => PollType::ProjectHash {
                project: project.clone(),
                hash: hash.clone(),
            },
            PollType::AddPermission { principals, permissions } => PollType::AddPermission {
                principals: copy_principals(principals),
                permissions: copy_permissions(permissions),
            },
            PollType::RemovePermission { principals, permissions } => PollType::RemovePermission {
                principals: copy_principals(principals),
                permissions: copy_permissions(permissions),
            },
        }
    }
}

/// The outcome of a closed poll.
#[derive(Debug, Clone, Copy, PartialEq, Eq, Structural)]
pub enum PollResult {
    /// More yes votes than no votes.
    Accepted,
    /// A tie, no votes at all, or more no votes.
    Rejected,
}

/// Data required to create a poll.
#[derive(Debug, PartialEq, Eq)]
pub struct PollCreateData {
    /// The description of the poll.
    pub description: String,
    /// The type of poll.
    pub poll_type: PollType,
    /// When the poll opens, in seconds since the epoch.
    pub start_timestamp_secs: u64,
    /// When the poll closes, in seconds since the epoch.
    pub end_timestamp_secs: u64,
}

/// A poll that has not been finalized yet.
#[derive(Debug, PartialEq, Eq)]
pub struct PendingPoll {
    /// The description of the poll.
    pub description: String,
    /// The type of poll.
    pub poll_type: PollType,
    /// The principals that voted no.
    pub no_voters: Vec<Principal>,
    /// The principals that voted yes.
    pub yes_voters: Vec<Principal>,
    /// When the poll opens, in seconds since the epoch.
    pub start_timestamp_secs: u64,
    /// When the poll closes, in seconds since the epoch.
    pub end_timestamp_secs: u64,
}

/// The model of a pending poll.
pub struct PendingPollView {
    pub description: Seq<char>,
    pub poll_type: PollTypeView,
    pub no_voters: Seq<Seq<u8>>,
    pub yes_voters: Seq<Seq<u8>>,
    pub start: u64,
    pub end: u64,
}

impl View for PendingPoll {
    type V = PendingPollView;

    open spec fn view(&self) -> PendingPollView {
        PendingPollView {
            description: self.description@,
            poll_type: self.poll_type@,
            no_voters: ids(self.no_voters@),
            yes_voters: ids(self.yes_voters@),
            start: self.start_timestamp_secs,
            end: self.end_timestamp_secs,
        }
    }
}

impl Clone for PendingPoll {
    fn clone(&self) -> (r: PendingPoll)
        ensures
            r@ == self@,
    {
        PendingPoll {
            description: self.description.clone(),
            poll_type: self.poll_type.clone(),
            no_voters: copy_principals(&self.no_voters),
            yes_voters: copy_principals(&self.yes_voters),
            start_timestamp_secs: self.start_timestamp_secs,
            end_timestamp_secs: self.end_timestamp_secs,
        }
    }
}

/// A poll that has been finalized, with its outcome.
#[derive(Debug, PartialEq, Eq)]
pub struct ClosedPoll {
    /// The description of the poll.
    pub description: String,
    /// The type of poll.
    pub poll_type: PollType,
    /// The principals that voted no.
    pub no_voters: Vec<Principal>,
    /// The principals that voted yes.
    pub yes_voters: Vec<Principal>,
    /// When the poll opened, in seconds since the epoch.
    pub start_timestamp_secs: u64,
    /// When the poll closed, in seconds since the epoch.
    pub end_timestamp_secs: u64,
    /// The outcome of the poll.
    pub result: PollResult,
}

/// The model of a closed poll: the poll as it was when pending, and its outcome.
pub type ClosedPollView = (PendingPollView, PollResult);

impl View for ClosedPoll {
    type V = ClosedPollView;

    open spec fn view(&self) -> ClosedPollView {
        (
            PendingPollView {
                description: self.description@,
                poll_type: self.poll_type@,
                no_voters: ids(self.no_voters@),
                yes_voters: ids(self.yes_voters@),
                start: self.start_timestamp_secs,
                end: self.end_timestamp_secs,
            },
            self.result,
        )
    }
}

impl Clone for ClosedPoll {
    fn clone(&self) -> (r: ClosedPoll)
        ensures
            r@ == self@,
    {
        ClosedPoll {
            description: self.description.clone(),
            poll_type: self.poll_type.clone(),
            no_voters: copy_principals(&self.no_voters),
            yes_voters: copy_principals(&self.yes_voters),
            start_timestamp_secs: self.start_timestamp_secs,
            end_timestamp_secs: self.end_timestamp_secs,
            result: self.result,
        }
    }
}

/// A poll, pending or closed.
#[derive(Debug, PartialEq, Eq)]
pub enum Poll {
    /// The poll is pending.
    Pending(PendingPoll),
    /// The poll is closed.
    Closed(ClosedPoll),
}

/// The pending poll that a creation request describes: no votes yet.
pub open spec fn created(d: PollCreateData) -> PendingPollView {
    PendingPollView {
        description: d.description@,
        poll_type: d.poll_type@,
        no_voters: Seq::empty(),
        yes_voters: Seq::empty(),
        start: d.start_timestamp_secs,
        end: d.end_timestamp_secs,
    }
}

/// The poll accepts votes at `now`: from its start to its end, both included.
pub open spec fn voting_open(p: PendingPollView, now: u64) -> bool {
    p.start <= now && now <= p.end
}

/// The poll is due for finalization at `now`: its end has passed.
pub open spec fn is_due(p: PendingPollView, now: u64) -> bool {
    p.end < now
}

/// Strict majority of yes votes.
pub open spec fn is_accepted(p: PendingPollView) -> bool {
    p.yes_voters.len() > p.no_voters.len()
}

/// The outcome of the poll on its current votes.
pub open spec fn result_of(p: PendingPollView) -> PollResult {
    if is_accepted(p) {
        PollResult::Accepted
    } else {
        PollResult::Rejected
    }
}

/// `s` without any occurrence of `v`, in order.
pub open spec fn without(s: Seq<Seq<u8>>, v: Seq<u8>) -> Seq<Seq<u8>>
    decreases s.len(),
{
    if s.len() == 0 {
        s
    } else if s.last() == v {
        without(s.drop_last(), v)
    } else {
        without(s.drop_last(), v).push(s.last())
    }
}

/// How many times `v` occurs in `s`.
pub open spec fn votes_of(s: Seq<Seq<u8>>, v: Seq<u8>) -> nat
    decreases s.len(),
{
    if s.len() == 0 {
        0
    } else {
        votes_of(s.drop_last(), v) + if s.last() == v {
            1nat
        } else {
            0nat
        }
    }
}

/// The poll after `v` votes `approve`: any earlier vote of `v` is replaced.
pub open spec fn voted(p: PendingPollView, v: Seq<u8>, approve: bool) -> PendingPollView {
    PendingPollView {
        yes_voters: if approve {
            without(p.yes_voters, v).push(v)
        } else {
            without(p.yes_voters, v)
        },
        no_voters: if approve {
            without(p.no_voters, v)
        } else {
            without(p.no_voters, v).push(v)
        },
        ..p
    }
}

proof fn lemma_without(s: Seq<Seq<u8>>, v: Seq<u8>)
    ensures
        without(s, v).len() <= s.len(),
        votes_of(without(s, v), v) == 0,
    decreases s.len(),
{
    if s.len() > 0 {
        lemma_without(s.drop_last(), v);
        if s.last() != v {
            assert(without(s, v).drop_last() =~= without(s.drop_last(), v));
        }
    }
}

proof fn lemma_without_push(s: Seq<Seq<u8>>, x: Seq<u8>, v: Seq<u8>)
    ensures
        without(s.push(x), v) == if x == v {
            without(s, v)
        } else {
            without(s, v).push(x)
        },
{
    assert(s.push(x).drop_last() =~= s);
}

proof fn lemma_votes_of_push(s: Seq<Seq<u8>>, x: Seq<u8>, v: Seq<u8>)
    ensures
        votes_of(s.push(x), v) == votes_of(s, v) + if x == v {
            1nat
        } else {
            0nat
        },
{
    assert(s.push(x).drop_last() =~= s);
}

/// Voting is last-write-wins: after `v` votes yes, then no, then yes, it has
/// exactly one vote, a yes, and the total number of votes grew by at most one.
pub proof fn lemma_vote_last_write_wins(p: PendingPollView, v: Seq<u8>)
    ensures
        ({
            let q = voted(voted(voted(p, v, true), v, false), v, true);
            &&& votes_of(q.yes_voters, v) == 1
            &&& votes_of(q.no_voters, v) == 0
            &&& q.yes_voters.len() + q.no_voters.len() <= p.yes_voters.len() + p.no_voters.len() + 1
        }),
{
    let after_yes = voted(p, v, true);
    let after_no = voted(after_yes, v, false);
    let q = voted(after_no, v, true);
    lemma_without(p.yes_voters, v);
    lemma_without(p.no_voters, v);
    lemma_without(without(p.yes_voters, v), v);
    lemma_without(without(p.no_voters, v), v);
    lemma_without_push(without(p.yes_voters, v), v, v);
    lemma_without_push(without(after_yes.no_voters, v), v, v);
    lemma_without(after_yes.yes_voters, v);
    lemma_without(after_yes.no_voters, v);
    lemma_without(after_no.yes_voters, v);
    lemma_without(after_no.no_voters, v);
    lemma_without(without(without(p.yes_voters, v), v), v);
    lemma_without(without(without(p.no_voters, v), v), v);
    lemma_without_push(without(without(p.no_voters, v), v), v, v);
    lemma_votes_of_push(without(after_no.yes_voters, v), v, v);
    assert(after_no.yes_voters == without(without(p.yes_voters, v), v));
    assert(after_no.no_voters == without(without(p.no_voters, v), v).push(v));
    assert(q.no_voters == without(without(without(p.no_voters, v), v), v));
    assert(q.yes_voters.len() <= p.yes_voters.len() + 1);
}

/// The voting window includes both its ends and nothing outside them, and a
/// poll is never open for votes and due for finalization at the same instant.
pub proof fn lemma_voting_window(p: PendingPollView, now: u64)
    requires
        p.start <= p.end,
    ensures
        voting_open(p, p.start),
        voting_open(p, p.end),
        p.start > 0 ==> !voting_open(p, (p.start - 1) as u64),
        p.end < u64::MAX ==> !voting_open(p, (p.end + 1) as u64),
        !(voting_open(p, now) && is_due(p, now)),
{
}

/// A poll is accepted exactly on a strict majority of yes votes: a tie and a
/// poll without votes are rejected.
pub proof fn lemma_majority_rule(p: PendingPollView)
    ensures
        result_of(p) == PollResult::Accepted <==> p.yes_voters.len() > p.no_voters.len(),
        p.yes_voters.len() == 2 && p.no_voters.len() == 1 ==> result_of(p) == PollResult::Accepted,
        p.yes_voters.len() == p.no_voters.len() ==> result_of(p) == PollResult::Rejected,
{
}

impl PendingPoll {
    /// A pending poll without votes, as described by `data`.
    pub fn from_create_data(data: PollCreateData) -> (r: PendingPoll)
        ensures
            r@ == created(data),
    {
        let r = PendingPoll {
            description: data.description,
            poll_type: data.poll_type,
            no_voters: Vec::new(),
            yes_voters: Vec::new(),
            start_timestamp_secs: data.start_timestamp_secs,
            end_timestamp_secs: data.end_timestamp_secs,
        };
        assert(r@.no_voters =~= Seq::<Seq<u8>>::empty());
        assert(r@.yes_voters =~= Seq::<Seq<u8>>::empty());
        r
    }

    /// The number of votes cast.
    pub fn total_votes(&self) -> (r: u64)
        requires
            self.no_voters@.len() + self.yes_voters@.len() <= u64::MAX,
        ensures
            r == self@.no_voters.len() + self@.yes_voters.len(),
    {
        self.no_voters.len() as u64 + self.yes_voters.len() as u64
    }

    /// The number of yes votes.
    pub fn yes_votes(&self) -> (r: u64)
        ensures
            r == self@.yes_voters.len(),
    {
        self.yes_voters.len() as u64
    }

    /// The number of no votes.
    pub fn no_votes(&self) -> (r: u64)
        ensures
            r == self@.no_voters.len(),
    {
        self.no_voters.len() as u64
    }

    /// Whether the poll has a strict majority of yes votes.
    pub fn is_accepted(&self) -> (r: bool)
        ensures
            r == is_accepted(self@),
    {
        self.yes_voters.len() > self.no_voters.len()
    }

    /// Closes the poll with `result`.
    pub fn close(self, result: PollResult) -> (r: ClosedPoll)
        ensures
            r@ == (self@, result),
    {
        ClosedPoll {
            description: self.description,
            poll_type: self.poll_type,
            no_voters: self.no_voters,
            yes_voters: self.yes_voters,
            start_timestamp_secs: self.start_timestamp_secs,
            end_timestamp_secs: self.end_timestamp_secs,
            result,
        }
    }
}

fn without_voter(v: &Vec<Principal>, voter: &Principal) -> (r: Vec<Principal>)
    ensures
        ids(r@) == without(ids(v@), voter@),
{
    let mut r: Vec<Principal> = Vec::new();
    let mut i: usize = 0;
    while i < v.len()
        invariant
            0 <= i <= v@.len(),
            ids(r@) == without(ids(v@.subrange(0, i as int)), voter@),
        decreases v@.len() - i,
    {
        proof {
            assert(ids(v@.subrange(0, i + 1)) =~= ids(v@.subrange(0, i as int)).push(v@[i as int]@));
            lemma_without_push(ids(v@.subrange(0, i as int)), v@[i as int]@, voter@);
        }
        if v[i] != *voter {
            let p = v[i].clone();
            proof {
                assert(ids(r@.push(p)) =~= ids(r@).push(p@));
            }
            r.push(p);
        }
        i = i + 1;
    }
    assert(v@.subrange(0, i as int) =~= v@);
    r
}

/// The registry after `ps` has been granted to each of `principals`, in order.
pub open spec fn granted_to_all(m: PermissionMap, principals: Seq<Seq<u8>>, ps: Set<Permission>) -> PermissionMap
    decreases principals.len(),
{
    if principals.len() == 0 {
        m
    } else {
        with_added(granted_to_all(m, principals.drop_last(), ps), principals.last(), ps)
    }
}

/// The registry after `ps` has been taken from each of `principals`, in order.
pub open spec fn revoked_from_all(m: PermissionMap, principals: Seq<Seq<u8>>, ps: Set<Permission>) -> PermissionMap
    decreases principals.len(),
{
    if principals.len() == 0 {
        m
    } else {
        with_removed(revoked_from_all(m, principals.drop_last(), ps), principals.last(), ps)
    }
}

/// The effect of an accepted poll cannot be applied: it grants permissions
/// to the anonymous identity.
pub open spec fn effect_blocked(p: PendingPollView) -> bool {
    is_accepted(p) && match p.poll_type {
        PollTypeView::AddPermission { principals, .. } => principals.contains(anonymous_bytes()),
        _ => false,
    }
}

/// The registry after the effect of poll `p`: none unless it is accepted.
pub open spec fn applied(m: PermissionMap, p: PendingPollView) -> PermissionMap {
    if !is_accepted(p) {
        m
    } else {
        match p.poll_type {
            PollTypeView::AddPermission { principals, permissions } => granted_to_all(
                m,
                principals,
                permissions.to_set(),
            ),
            PollTypeView::RemovePermission { principals, permissions } => revoked_from_all(
                m,
                principals,
                permissions.to_set(),
            ),
            PollTypeView::ProjectHash { .. } => m,
        }
    }
}

/// After a grant to a list of principals, each of them holds every granted
/// permission.
pub proof fn lemma_grant_reaches_everyone(m: PermissionMap, principals: Seq<Seq<u8>>, ps: Set<Permission>)
    ensures
        forall|i: int|
            0 <= i < principals.len() ==> ps.subset_of(
                perms_in(granted_to_all(m, principals, ps), #[trigger] principals[i]),
            ),
    decreases principals.len(),
{
    if principals.len() > 0 {
        lemma_grant_reaches_everyone(m, principals.drop_last(), ps);
        assert forall|i: int| 0 <= i < principals.len() implies ps.subset_of(
            perms_in(granted_to_all(m, principals, ps), #[trigger] principals[i]),
        ) by {
            if i < principals.len() - 1 {
                assert(principals.drop_last()[i] == principals[i]);
            }
        };
    }
}

/// Applying an accepted poll that grants permissions leaves every principal
/// it names with every permission it grants.
pub proof fn lemma_accepted_grant_applies(m: PermissionMap, p: PendingPollView)
    requires
        is_accepted(p),
        p.poll_type is AddPermission,
    ensures
        forall|i: int|
            0 <= i < p.poll_type->AddPermission_principals.len() ==> p.poll_type->AddPermission_permissions.to_set().subset_of(
                perms_in(applied(m, p), #[trigger] p.poll_type->AddPermission_principals[i]),
            ),
{
    lemma_grant_reaches_everyone(
        m,
        p.poll_type->AddPermission_principals,
        p.poll_type->AddPermission_permissions.to_set(),
    );
}

/// Where a finalization sweep stands.
pub struct SweepState {
    pub pending: Seq<(u64, PendingPollView)>,
    pub closed: Seq<(u64, ClosedPollView)>,
    pub perms: PermissionMap,
    pub failed: bool,
}

/// The sweep of the pending polls `s`, in order, at `now`: each due poll has
/// its effect applied and moves to the closed polls with its outcome; the
/// first poll whose effect cannot be applied stops the sweep and stays
/// pending with every poll after it.
pub open spec fn sweep(
    s: Seq<(u64, PendingPollView)>,
    now: u64,
    closed: Seq<(u64, ClosedPollView)>,
    perms: PermissionMap,
) -> SweepState
    decreases s.len(),
{
    if s.len() == 0 {
        SweepState { pending: Seq::empty(), closed, perms, failed: false }
    } else {
        let st = sweep(s.drop_last(), now, closed, perms);
        let e = s.last();
        if st.failed || !is_due(e.1, now) {
            SweepState { pending: st.pending.push(e), ..st }
        } else if effect_blocked(e.1) {
            SweepState { pending: st.pending.push(e), failed: true, ..st }
        } else {
            SweepState {
                closed: st.closed.push((e.0, (e.1, result_of(e.1)))),
                perms: applied(st.perms, e.1),
                ..st
            }
        }
    }
}

/// The model of stored pending polls.
pub open spec fn pending_view(s: Seq<(u64, PendingPoll)>) -> Seq<(u64, PendingPollView)> {
    s.map_values(|e: (u64, PendingPoll)| (e.0, e.1@))
}

/// The model of stored closed polls.
pub open spec fn closed_view(s: Seq<(u64, ClosedPoll)>) -> Seq<(u64, ClosedPollView)> {
    s.map_values(|e: (u64, ClosedPoll)| (e.0, e.1@))
}

/// Some entry of `s` has id `id`.
pub open spec fn has_id<V>(s: Seq<(u64, V)>, id: u64) -> bool {
    exists|i: int| 0 <= i < s.len() && s[i].0 == id
}

/// The ids of `s` increase strictly along it.
pub open spec fn increasing<V>(s: Seq<(u64, V)>) -> bool {
    forall|a: int, b: int| 0 <= a < b < s.len() ==> #[trigger] s[a].0 < #[trigger] s[b].0
}

/// No id occurs twice in `s`.
pub open spec fn distinct<V>(s: Seq<(u64, V)>) -> bool {
    forall|a: int, b: int| 0 <= a < b < s.len() ==> #[trigger] s[a].0 != #[trigger] s[b].0
}

/// No id occurs both in `s` and in `t`.
pub open spec fn apart<V, W>(s: Seq<(u64, V)>, t: Seq<(u64, W)>) -> bool {
    forall|a: int, b: int| 0 <= a < s.len() && 0 <= b < t.len() ==> #[trigger] s[a].0 != #[trigger] t[b].0
}

/// The ids of `s` from position `from` on are below the ids of `orig` from position `i` on.
spec fn below_from<V>(s: Seq<(u64, V)>, from: int, orig: Seq<(u64, PendingPollView)>, i: int) -> bool {
    forall|a: int, k: int| from <= a < s.len() && i <= k < orig.len() ==> #[trigger] s[a].0 < #[trigger] orig[k].0
}

proof fn lemma_keep_step(
    kv: Seq<(u64, PendingPollView)>,
    cv: Seq<(u64, ClosedPollView)>,
    c0: int,
    closed0: Seq<(u64, ClosedPollView)>,
    orig: Seq<(u64, PendingPollView)>,
    i: int,
)
    requires
        0 <= i < orig.len(),
        0 <= c0 <= cv.len(),
        c0 == closed0.len(),
        cv.subrange(0, c0) == closed0,
        increasing(orig),
        apart(closed0, orig),
        increasing(kv),
        below_from(kv, 0, orig, i),
        below_from(cv, c0, orig, i),
        apart(kv, cv),
    ensures
        increasing(kv.push(orig[i])),
        below_from(kv.push(orig[i]), 0, orig, i + 1),
        below_from(cv, c0, orig, i + 1),
        apart(kv.push(orig[i]), cv),
{
    let nk = kv.push(orig[i]);
    assert forall|a: int, b: int| 0 <= a < b < nk.len() implies #[trigger] nk[a].0 < #[trigger] nk[b].0 by {
        if b == kv.len() {
            assert(kv[a].0 < orig[i].0);
        } else {
            assert(kv[a].0 < kv[b].0);
        }
    };
    assert forall|a: int, k: int| 0 <= a < nk.len() && i + 1 <= k < orig.len() implies #[trigger] nk[a].0
        < #[trigger] orig[k].0 by {
        if a == kv.len() {
            assert(orig[i].0 < orig[k].0);
        } else {
            assert(kv[a].0 < orig[k].0);
        }
    };
    assert forall|a: int, b: int| 0 <= a < nk.len() && 0 <= b < cv.len() implies #[trigger] nk[a].0
        != #[trigger] cv[b].0 by {
        if a == kv.len() {
            if b < c0 {
                assert(cv[b] == closed0[b]);
                assert(closed0[b].0 != orig[i].0);
            } else {
                assert(cv[b].0 < orig[i].0);
            }
        } else {
            assert(kv[a].0 != cv[b].0);
        }
    };
}

proof fn lemma_close_step(
    kv: Seq<(u64, PendingPollView)>,
    cv: Seq<(u64, ClosedPollView)>,
    c0: int,
    closed0: Seq<(u64, ClosedPollView)>,
    orig: Seq<(u64, PendingPollView)>,
    i: int,
    c: ClosedPollView,
)
    requires
        0 <= i < orig.len(),
        0 <= c0 <= cv.len(),
        c0 == closed0.len(),
        cv.subrange(0, c0) == closed0,
        increasing(orig),
        apart(closed0, orig),
        distinct(cv),
        below_from(kv, 0, orig, i),
        below_from(cv, c0, orig, i),
        apart(kv, cv),
    ensures
        distinct(cv.push((orig[i].0, c))),
        cv.push((orig[i].0, c)).subrange(0, c0) == closed0,
        below_from(cv.push((orig[i].0, c)), c0, orig, i + 1),
        below_from(kv, 0, orig, i + 1),
        apart(kv, cv.push((orig[i].0, c))),
{
    let nc = cv.push((orig[i].0, c));
    assert(nc.subrange(0, c0) =~= cv.subrange(0, c0));
    assert forall|a: int, b: int| 0 <= a < b < nc.len() implies #[trigger] nc[a].0 != #[trigger] nc[b].0 by {
        if b == cv.len() {
            if a < c0 {
                assert(cv[a] == closed0[a]);
                assert(closed0[a].0 != orig[i].0);
            } else {
                assert(cv[a].0 < orig[i].0);
            }
        } else {
            assert(cv[a].0 != cv[b].0);
        }
    };
    assert forall|a: int, k: int| c0 <= a < nc.len() && i + 1 <= k < orig.len() implies #[trigger] nc[a].0
        < #[trigger] orig[k].0 by {
        if a == cv.len() {
            assert(orig[i].0 < orig[k].0);
        } else {
            assert(cv[a].0 < orig[k].0);
        }
    };
    assert forall|a: int, b: int| 0 <= a < kv.len() && 0 <= b < nc.len() implies #[trigger] kv[a].0
        != #[trigger] nc[b].0 by {
        if b == cv.len() {
            assert(kv[a].0 < orig[i].0);
        } else {
            assert(kv[a].0 != cv[b].0);
        }
    };
}

/// The model of the poll engine.
pub struct PollsView {
    pub pending: Seq<(u64, PendingPollView)>,
    pub closed: Seq<(u64, ClosedPollView)>,
    pub next_id: u64,
}

/// The poll engine: pending and closed polls by id, and the id counter.
pub struct Polls {
    pending: Vec<(u64, PendingPoll)>,
    closed: Vec<(u64, ClosedPoll)>,
    next_id: u64,
}

impl View for Polls {
    type V = PollsView;

    closed spec fn view(&self) -> PollsView {
        PollsView {
            pending: pending_view(self.pending@),
            closed: closed_view(self.closed@),
            next_id: self.next_id,
        }
    }
}

impl Polls {
    /// Every stored id was handed out before the counter's current value;
    /// pending polls are kept in increasing id order; no id is closed twice;
    /// and no id is both pending and closed.
    pub open spec fn wf(&self) -> bool {
        &&& forall|i: int| 0 <= i < self@.pending.len() ==> #[trigger] self@.pending[i].0 < self@.next_id
        &&& forall|i: int| 0 <= i < self@.closed.len() ==> #[trigger] self@.closed[i].0 < self@.next_id
        &&& increasing(self@.pending)
        &&& distinct(self@.closed)
        &&& apart(self@.pending, self@.closed)
    }

    /// An engine without polls, whose first id is 0.
    pub fn new() -> (r: Polls)
        ensures
            r.wf(),
            r@.pending == Seq::<(u64, PendingPollView)>::empty(),
            r@.closed == Seq::<(u64, ClosedPollView)>::empty(),
            r@.next_id == 0,
    {
        let r = Polls { pending: Vec::new(), closed: Vec::new(), next_id: 0 };
        assert(r@.pending =~= Seq::<(u64, PendingPollView)>::empty());
        assert(r@.closed =~= Seq::<(u64, ClosedPollView)>::empty());
        r
    }

    fn find_pending(&self, id: u64) -> (r: Option<usize>)
        requires
            self.wf(),
        ensures
            match r {
                Some(i) => i < self@.pending.len() && self@.pending[i as int].0 == id && forall|j: int|
                    0 <= j < self@.pending.len() && #[trigger] self@.pending[j].0 == id ==> j == i,
                None => !has_id(self@.pending, id),
            },
    {
        let mut i: usize = 0;
        while i < self.pending.len()
            invariant
                self.wf(),
                0 <= i <= self.pending@.len(),
                forall|j: int| 0 <= j < i ==> #[trigger] self@.pending[j].0 != id,
            decreases self.pending@.len() - i,
        {
            if self.pending[i].0 == id {
                proof {
                    assert forall|j: int| 0 <= j < self@.pending.len() && #[trigger] self@.pending[j].0 == id implies j
                        == i by {
                        if j > i {
                            assert(self@.pending[i as int].0 != self@.pending[j].0);
                        }
                    };
                }
                return Some(i);
            }
            i = i + 1;
        }
        None
    }

    fn find_closed(&self, id: u64) -> (r: Option<usize>)
        requires
            self.wf(),
        ensures
            match r {
                Some(i) => i < self@.closed.len() && self@.closed[i as int].0 == id && forall|j: int|
                    0 <= j < self@.closed.len() && #[trigger] self@.closed[j].0 == id ==> j == i,
                None => !has_id(self@.closed, id),
            },
    {
        let mut i: usize = 0;
        while i < self.closed.len()
            invariant
                self.wf(),
                0 <= i <= self.closed@.len(),
                forall|j: int| 0 <= j < i ==> #[trigger] self@.closed[j].0 != id,
            decreases self.closed@.len() - i,
        {
            if self.closed[i].0 == id {
                proof {
                    assert forall|j: int| 0 <= j < self@.closed.len() && #[trigger] self@.closed[j].0 == id implies j
                        == i by {
                        if j > i {
                            assert(self@.closed[i as int].0 != self@.closed[j].0);
                        }
                    };
                }
                return Some(i);
            }
            i = i + 1;
        }
        None
    }

    /// The pending poll with id `id`, if any.
    pub fn get_pending(&self, id: &u64) -> (r: Option<PendingPoll>)
        requires
            self.wf(),
        ensures
            r is None <==> !has_id(self@.pending, *id),
            forall|i: int|
                0 <= i < self@.pending.len() && #[trigger] self@.pending[i].0 == *id ==> r is Some && r->Some_0@
                    == self@.pending[i].1,
    {
        match self.find_pending(*id) {
            Some(i) => Some(self.pending[i].1.clone()),
            None => None,
        }
    }

    /// The closed poll with id `id`, if any.
    pub fn get_closed(&self, id: &u64) -> (r: Option<ClosedPoll>)
        requires
            self.wf(),
        ensures
            r is None <==> !has_id(self@.closed, *id),
            forall|i: int|
                0 <= i < self@.closed.len() && #[trigger] self@.closed[i].0 == *id ==> r is Some && r->Some_0@
                    == self@.closed[i].1,
    {
        match self.find_closed(*id) {
            Some(i) => Some(self.closed[i].1.clone()),
            None => None,
        }
    }

    /// The poll with id `id`, looked up among the pending polls first.
    pub fn get(&self, id: &u64) -> (r: Option<Poll>)
        requires
            self.wf(),
        ensures
            match r {
                Some(Poll::Pending(p)) => has_id(self@.pending, *id) && forall|i: int|
                    0 <= i < self@.pending.len() && #[trigger] self@.pending[i].0 == *id ==> p@ == self@.pending[i].1,
                Some(Poll::Closed(c)) => !has_id(self@.pending, *id) && has_id(self@.closed, *id) && forall|i: int|
                    0 <= i < self@.closed.len() && #[trigger] self@.closed[i].0 == *id ==> c@ == self@.closed[i].1,
                None => !has_id(self@.pending, *id) && !has_id(self@.closed, *id),
            },
    {
        match self.get_pending(id) {
            Some(p) => Some(Poll::Pending(p)),
            None => match self.get_closed(id) {
                Some(c) => Some(Poll::Closed(c)),
                None => None,
            },
        }
    }

    /// Every pending poll with its id, in storage order.
    pub fn all_pending(&self) -> (r: Vec<(u64, PendingPoll)>)
        ensures
            pending_view(r@) == self@.pending,
    {
        let mut r: Vec<(u64, PendingPoll)> = Vec::new();
        let mut i: usize = 0;
        while i < self.pending.len()
            invariant
                0 <= i <= self.pending@.len(),
                pending_view(r@) == self@.pending.subrange(0, i as int),
            decreases self.pending@.len() - i,
        {
            let e = (self.pending[i].0, self.pending[i].1.clone());
            proof {
                assert(pending_view(r@.push(e)) =~= pending_view(r@).push((e.0, e.1@)));
                assert(self@.pending.subrange(0, i + 1) =~= self@.pending.subrange(0, i as int).push(
                    self@.pending[i as int],
                ));
            }
            r.push(e);
            i = i + 1;
        }
        assert(self@.pending.subrange(0, i as int) =~= self@.pending);
        r
    }

    /// Every pending poll with its id, as a `Poll`, in storage order.
    pub fn all(&self) -> (r: Vec<(u64, Poll)>)
        ensures
            r@.len() == self@.pending.len(),
            forall|i: int|
                0 <= i < r@.len() ==> {
                    &&& (#[trigger] r@[i]).0 == self@.pending[i].0
                    &&& r@[i].1 is Pending
                    &&& r@[i].1->Pending_0@ == self@.pending[i].1
                },
    {
        let mut r: Vec<(u64, Poll)> = Vec::new();
        let mut i: usize = 0;
        while i < self.pending.len()
            invariant
                0 <= i <= self.pending@.len(),
                r@.len() == i,
                forall|j: int|
                    0 <= j < i ==> {
                        &&& (#[trigger] r@[j]).0 == self@.pending[j].0
                        &&& r@[j].1 is Pending
                        &&& r@[j].1->Pending_0@ == self@.pending[j].1
                    },
            decreases self.pending@.len() - i,
        {
            r.push((self.pending[i].0, Poll::Pending(self.pending[i].1.clone())));
            i = i + 1;
        }
        r
    }

    /// Every closed poll with its id, in storage order.
    pub fn all_closed(&self) -> (r: Vec<(u64, ClosedPoll)>)
        ensures
            closed_view(r@) == self@.closed,
    {
        let mut r: Vec<(u64, ClosedPoll)> = Vec::new();
        let mut i: usize = 0;
        while i < self.closed.len()
            invariant
                0 <= i <= self.closed@.len(),
                closed_view(r@) == self@.closed.subrange(0, i as int),
            decreases self.closed@.len() - i,
        {
            let e = (self.closed[i].0, self.closed[i].1.clone());
            proof {
                assert(closed_view(r@.push(e)) =~= closed_view(r@).push((e.0, e.1@)));
                assert(self@.closed.subrange(0, i + 1) =~= self@.closed.subrange(0, i as int).push(
                    self@.closed[i as int],
                ));
            }
            r.push(e);
            i = i + 1;
        }
        assert(self@.closed.subrange(0, i as int) =~= self@.closed);
        r
    }

    /// The id that the next created poll receives.
    pub fn peek_next_id(&self) -> (r: u64)
        ensures
            r == self@.next_id,
    {
        self.next_id
    }

    /// Hands out the next poll id and advances the counter.
    pub fn next_id(&mut self) -> (r: u64)
        requires
            old(self).wf(),
            old(self)@.next_id < u64::MAX,
        ensures
            final(self).wf(),
            r == old(self)@.next_id,
            final(self)@ == (PollsView { next_id: (r + 1) as u64, ..old(self)@ }),
            !has_id(old(self)@.pending, r),
            !has_id(old(self)@.closed, r),
    {
        let id = self.next_id;
        self.next_id = id + 1;
        id
    }

    /// Stores a new pending poll without votes and returns its id.
    pub fn insert(&mut self, poll: PollCreateData) -> (r: u64)
        requires
            old(self).wf(),
            old(self)@.next_id < u64::MAX,
        ensures
            final(self).wf(),
            r == old(self)@.next_id,
            final(self)@.next_id == r + 1,
            final(self)@.pending == old(self)@.pending.push((r, created(poll))),
            final(self)@.closed == old(self)@.closed,
            !has_id(old(self)@.pending, r),
            !has_id(old(self)@.closed, r),
    {
        let id = self.next_id();
        let p = PendingPoll::from_create_data(poll);
        let ghost pv = p@;
        self.pending.push((id, p));
        assert(pending_view(self.pending@) =~= old(self)@.pending.push((id, pv)));
        id
    }

    /// Records the vote of `voter_principal` on a pending poll, replacing
    /// any earlier vote of it.
    pub fn vote(&mut self, poll_id: u64, voter_principal: Principal, approved: bool, timestamp_secs: u64) -> (r: Result<()>)
        requires
            old(self).wf(),
        ensures
            final(self).wf(),
            !has_id(old(self)@.pending, poll_id) ==> r is Err && r->Err_0 is BadRequest && final(self)@ == old(
                self,
            )@,
            forall|i: int|
                0 <= i < old(self)@.pending.len() && #[trigger] old(self)@.pending[i].0 == poll_id ==> if voting_open(
                    old(self)@.pending[i].1,
                    timestamp_secs,
                ) {
                    &&& r is Ok
                    &&& final(self)@ == (PollsView {
                        pending: old(self)@.pending.update(
                            i,
                            (poll_id, voted(old(self)@.pending[i].1, voter_principal@, approved)),
                        ),
                        ..old(self)@
                    })
                } else {
                    &&& r is Err
                    &&& r->Err_0 is BadRequest
                    &&& final(self)@ == old(self)@
                },
    {
        let i = match self.find_pending(poll_id) {
            Some(i) => i,
            None => {
                return Err(UpgraderError::BadRequest(missing_poll_message(poll_id)));
            },
        };
        let poll = &self.pending[i].1;
        if timestamp_secs < poll.start_timestamp_secs {
            return Err(UpgraderError::BadRequest("The poll is not opened yet".to_owned()));
        }
        if timestamp_secs > poll.end_timestamp_secs {
            return Err(UpgraderError::BadRequest("The poll is closed".to_owned()));
        }
        let mut yes_voters = without_voter(&poll.yes_voters, &voter_principal);
        let mut no_voters = without_voter(&poll.no_voters, &voter_principal);
        let ghost v = voter_principal@;
        if approved {
            proof {
                assert(ids(yes_voters@.push(voter_principal)) =~= ids(yes_voters@).push(v));
            }
            yes_voters.push(voter_principal);
        } else {
            proof {
                assert(ids(no_voters@.push(voter_principal)) =~= ids(no_voters@).push(v));
            }
            no_voters.push(voter_principal);
        }
        let updated = PendingPoll {
            description: poll.description.clone(),
            poll_type: poll.poll_type.clone(),
            no_voters,
            yes_voters,
            start_timestamp_secs: poll.start_timestamp_secs,
            end_timestamp_secs: poll.end_timestamp_secs,
        };
        let ghost uv = updated@;
        assert(uv == voted(old(self)@.pending[i as int].1, v, approved));
        self.pending.set(i, (poll_id, updated));
        assert(pending_view(self.pending@) =~= old(self)@.pending.update(i as int, (poll_id, uv)));
        Ok(())
    }

    /// Applies the effect of `poll` to the permission registry when the poll
    /// is accepted. A grant to the anonymous identity is refused as a whole,
    /// before any change.
    pub fn process_poll(&self, poll: &PendingPoll, permissions_service: &mut Permissions) -> (r: Result<()>)
        requires
            old(permissions_service).wf(),
        ensures
            final(permissions_service).wf(),
            effect_blocked(poll@) ==> r == Err::<(), UpgraderError>(UpgraderError::AnonymousPrincipalNotAllowed)
                && final(permissions_service)@ == old(permissions_service)@,
            !effect_blocked(poll@) ==> r is Ok && final(permissions_service)@ == applied(old(permissions_service)@, poll@),
    {
        apply_poll_effect(poll, permissions_service)
    }

    /// Finalizes every pending poll whose end has passed at `timestamp_secs`:
    /// its effect is applied and it moves to the closed polls with its
    /// outcome. A poll whose effect cannot be applied stops the sweep with an
    /// error and stays pending, with every poll not yet reached.
    pub fn finalize_polls(&mut self, timestamp_secs: u64, permissions_service: &mut Permissions) -> (r: Result<()>)
        requires
            old(self).wf(),
            old(permissions_service).wf(),
        ensures
            final(self).wf(),
            final(permissions_service).wf(),
            ({
                let st = sweep(old(self)@.pending, timestamp_secs, old(self)@.closed, old(permissions_service)@);
                &&& final(self)@ == (PollsView { pending: st.pending, closed: st.closed, next_id: old(self)@.next_id })
                &&& final(permissions_service)@ == st.perms
                &&& st.failed ==> r == Err::<(), UpgraderError>(UpgraderError::AnonymousPrincipalNotAllowed)
                &&& !st.failed ==> r is Ok
            }),
    {
        let mut rest: Vec<(u64, PendingPoll)> = Vec::new();
        std::mem::swap(&mut rest, &mut self.pending);
        let ghost orig = old(self)@.pending;
        let ghost closed0 = old(self)@.closed;
        let ghost perms0 = old(permissions_service)@;
        let mut kept: Vec<(u64, PendingPoll)> = Vec::new();
        let mut failed = false;
        assert(pending_view(rest@).len() == rest@.len());
        let ghost mut i: int = 0;
        assert(self@.closed.subrange(0, closed0.len() as int) =~= closed0);
        assert(orig.subrange(0, 0) =~= Seq::<(u64, PendingPollView)>::empty());
        assert(pending_view(kept@) =~= Seq::<(u64, PendingPollView)>::empty());
        while rest.len() > 0
            invariant
                0 <= i <= orig.len(),
                rest@.len() == orig.len() - i,
                pending_view(rest@) == orig.subrange(i, orig.len() as int),
                permissions_service.wf(),
                self.next_id == old(self)@.next_id,
                forall|j: int| 0 <= j < orig.len() ==> #[trigger] orig[j].0 < self.next_id,
                forall|j: int| 0 <= j < self@.closed.len() ==> #[trigger] self@.closed[j].0 < self.next_id,
                forall|j: int| 0 <= j < pending_view(kept@).len() ==> #[trigger] pending_view(kept@)[j].0 < self.next_id,
                closed0.len() <= self@.closed.len(),
                self@.closed.subrange(0, closed0.len() as int) == closed0,
                increasing(orig),
                apart(closed0, orig),
                increasing(pending_view(kept@)),
                below_from(pending_view(kept@), 0, orig, i),
                distinct(self@.closed),
                below_from(self@.closed, closed0.len() as int, orig, i),
                apart(pending_view(kept@), self@.closed),
                sweep(orig.subrange(0, i), timestamp_secs, closed0, perms0) == (SweepState {
                    pending: pending_view(kept@),
                    closed: self@.closed,
                    perms: permissions_service@,
                    failed,
                }),
            decreases rest@.len(),
        {
            let ghost rest_before = rest@;
            let (id, poll) = rest.remove(0);
            let ghost e = (id, poll@);
            proof {
                assert(pending_view(rest_before).len() == rest_before.len());
                assert(pending_view(rest_before)[0] == e);
                assert(orig.subrange(i, orig.len() as int)[0] == orig[i]);
                assert(orig[i] == e);
                assert(rest@ =~= rest_before.subrange(1, rest_before.len() as int));
                assert(pending_view(rest@) =~= pending_view(rest_before).subrange(1, rest_before.len() as int));
                assert(pending_view(rest@) =~= orig.subrange(i + 1, orig.len() as int));
                assert(orig.subrange(0, i + 1).drop_last() =~= orig.subrange(0, i));
                assert(orig.subrange(0, i + 1).last() == e);
                assert(pending_view(kept@.push((id, poll))) =~= pending_view(kept@).push(e));
            }
            let ghost kv = pending_view(kept@);
            let ghost cv = self@.closed;
            if failed || timestamp_secs <= poll.end_timestamp_secs {
                proof {
                    lemma_keep_step(kv, cv, closed0.len() as int, closed0, orig, i);
                }
                kept.push((id, poll));
            } else {
                match apply_poll_effect(&poll, permissions_service) {
                    Ok(()) => {
                        let result = if poll.is_accepted() {
                            PollResult::Accepted
                        } else {
                            PollResult::Rejected
                        };
                        let closed = poll.close(result);
                        proof {
                            lemma_close_step(kv, cv, closed0.len() as int, closed0, orig, i, closed@);
                            assert(closed_view(self.closed@.push((id, closed))) =~= closed_view(self.closed@).push(
                                (id, closed@),
                            ));
                        }
                        self.closed.push((id, closed));
                        assert(orig[i].0 == id);
                        assert(id < self.next_id);
                        assert(self@.closed == closed_view(self.closed@));
                        assert forall|j: int| 0 <= j < self@.closed.len() implies #[trigger] self@.closed[j].0
                            < self.next_id by {
                            if j < self@.closed.len() - 1 {
                                assert(self@.closed[j] == closed_view(self.closed@).drop_last()[j]);
                            }
                        };
                    },
                    Err(_) => {
                        proof {
                            lemma_keep_step(kv, cv, closed0.len() as int, closed0, orig, i);
                        }
                        kept.push((id, poll));
                        failed = true;
                    },
                }
            }
            proof {
                i = i + 1;
            }
        }
        assert(orig.subrange(0, i) =~= orig);
        self.pending = kept;
        if failed {
            Err(UpgraderError::AnonymousPrincipalNotAllowed)
        } else {
            Ok(())
        }
    }
}

fn apply_poll_effect(poll: &PendingPoll, permissions_service: &mut Permissions) -> (r: Result<()>)
    requires
        old(permissions_service).wf(),
    ensures
        final(permissions_service).wf(),
        effect_blocked(poll@) ==> r == Err::<(), UpgraderError>(UpgraderError::AnonymousPrincipalNotAllowed)
            && final(permissions_service)@ == old(permissions_service)@,
        !effect_blocked(poll@) ==> r is Ok && final(permissions_service)@ == applied(old(permissions_service)@, poll@),
{
    if !poll.is_accepted() {
        return Ok(());
    }
    match &poll.poll_type {
        PollType::AddPermission { principals, permissions } => {
            let mut i: usize = 0;
            while i < principals.len()
                invariant
                    0 <= i <= principals@.len(),
                    permissions_service.wf(),
                    permissions_service@ == old(permissions_service)@,
                    is_accepted(poll@),
                    poll@.poll_type == (PollTypeView::AddPermission {
                        principals: ids(principals@),
                        permissions: permissions@,
                    }),
                    forall|j: int| 0 <= j < i ==> #[trigger] ids(principals@)[j] != anonymous_bytes(),
                decreases principals@.len() - i,
            {
                if principals[i].is_anonymous() {
                    assert(ids(principals@)[i as int] == anonymous_bytes());
                    assert(ids(principals@).contains(anonymous_bytes()));
                    return Err(UpgraderError::AnonymousPrincipalNotAllowed);
                }
                i = i + 1;
            }
            assert(!ids(principals@).contains(anonymous_bytes()));
            let ghost base = permissions_service@;
            let ghost set = permissions@.to_set();
            let mut i: usize = 0;
            assert(ids(principals@).subrange(0, 0) =~= Seq::<Seq<u8>>::empty());
            while i < principals.len()
                invariant
                    0 <= i <= principals@.len(),
                    forall|j: int| 0 <= j < principals@.len() ==> #[trigger] ids(principals@)[j] != anonymous_bytes(),
                    set == permissions@.to_set(),
                    is_accepted(poll@),
                    poll@.poll_type == (PollTypeView::AddPermission {
                        principals: ids(principals@),
                        permissions: permissions@,
                    }),
                    permissions_service.wf(),
                    permissions_service@ == granted_to_all(base, ids(principals@).subrange(0, i as int), set),
                decreases principals@.len() - i,
            {
                let p = principals[i].clone();
                assert(p@ == ids(principals@)[i as int]);
                let _ = permissions_service.add_permissions(p, copy_permissions(permissions));
                assert(ids(principals@).subrange(0, i + 1).drop_last() =~= ids(principals@).subrange(0, i as int));
                i = i + 1;
            }
            assert(ids(principals@).subrange(0, i as int) =~= ids(principals@));
            Ok(())
        },
        PollType::RemovePermission { principals, permissions } => {
            let ghost base = permissions_service@;
            let ghost set = permissions@.to_set();
            let mut i: usize = 0;
            assert(ids(principals@).subrange(0, 0) =~= Seq::<Seq<u8>>::empty());
            while i < principals.len()
                invariant
                    0 <= i <= principals@.len(),
                    set == permissions@.to_set(),
                    is_accepted(poll@),
                    poll@.poll_type == (PollTypeView::RemovePermission {
                        principals: ids(principals@),
                        permissions: permissions@,
                    }),
                    permissions_service.wf(),
                    permissions_service@ == revoked_from_all(base, ids(principals@).subrange(0, i as int), set),
                decreases principals@.len() - i,
            {
                let p = principals[i].clone();
                assert(p@ == ids(principals@)[i as int]);
                let _ = permissions_service.remove_permissions(p, permissions.as_slice());
                assert(ids(principals@).subrange(0, i + 1).drop_last() =~= ids(principals@).subrange(0, i as int));
                i = i + 1;
            }
            assert(ids(principals@).subrange(0, i as int) =~= ids(principals@));
            Ok(())
        },
        PollType::ProjectHash { .. } => Ok(()),
    }
}

/// Poll ids are never reused: the id that the counter hands out next is held
/// by no pending and no closed poll, and is greater than every stored id.
pub proof fn lemma_next_id_is_fresh(polls: Polls)
    requires
        polls.wf(),
    ensures
        !has_id(polls@.pending, polls@.next_id),
        !has_id(polls@.closed, polls@.next_id),
        forall|i: int| 0 <= i < polls@.pending.len() ==> #[trigger] polls@.pending[i].0 < polls@.next_id,
        forall|i: int| 0 <= i < polls@.closed.len() ==> #[trigger] polls@.closed[i].0 < polls@.next_id,
{
}

/// Relies on std's `format!`: names the poll id that was not found.
#[verifier::external_body]
fn missing_poll_message(id: u64) -> String {
    format!("Poll with id {} not found", id)
}

} // verus!
