use vstd::prelude::*;

use crate::error::{Result, UpgraderError};
use crate::principal::{anonymous_bytes, Principal};

verus! {

/// A capability that a principal may hold.
#[derive(Debug, Clone, Copy, PartialEq, Eq, Structural, Hash)]
pub enum Permission {
    /// Administrator rights.
    Admin,
    /// Allows creating projects.
    CreateProject,
    /// Allows creating polls.
    CreatePoll,
    /// Allows voting in polls.
    VotePoll,
}

/// The set of permissions held by one principal.
#[derive(Debug, Clone, Copy, PartialEq, Eq, Structural, Hash)]
pub struct PermissionList {
    admin: bool,
    create_project: bool,
    create_poll: bool,
    vote_poll: bool,
}

impl PermissionList {
    /// Whether the flag of `p` is set.
    pub closed spec fn flag(self, p: Permission) -> bool {
        match p {
            Permission::Admin => self.admin,
            Permission::CreateProject => self.create_project,
            Permission::CreatePoll => self.create_poll,
            Permission::VotePoll => self.vote_poll,
        }
    }
}

impl View for PermissionList {
    type V = Set<Permission>;

    open spec fn view(&self) -> Set<Permission> {
        Set::new(|p: Permission| self.flag(p))
    }
}

impl Default for PermissionList {
    fn default() -> (r: PermissionList)
        ensures
            r@ == Set::<Permission>::empty(),
    {
        let r = PermissionList {
            admin: false,
            create_project: false,
            create_poll: false,
            vote_poll: false,
        };
        assert(r@ =~= Set::<Permission>::empty());
        r
    }
}

impl PermissionList {
    /// The set that holds exactly the given permissions.
    pub fn new(permissions: &[Permission]) -> (r: PermissionList)
        ensures
            r@ == permissions@.to_set(),
    {
        let mut r = PermissionList::default();
        let mut i: usize = 0;
        while i < permissions.len()
            invariant
                0 <= i <= permissions@.len(),
                r@ == permissions@.subrange(0, i as int).to_set(),
            decreases permissions@.len() - i,
        {
            let ghost before = r@;
            r.insert(permissions[i]);
            assert(permissions@.subrange(0, i + 1) =~= permissions@.subrange(0, i as int).push(
                permissions@[i as int],
            ));
            proof {
                lemma_push_to_set(permissions@.subrange(0, i as int), permissions@[i as int]);
            }
            assert(r@ =~= permissions@.subrange(0, i + 1).to_set());
            i = i + 1;
        }
        assert(permissions@.subrange(0, i as int) =~= permissions@);
        r
    }

    /// Whether `p` is in the set.
    pub fn contains(&self, p: &Permission) -> (r: bool)
        ensures
            r == self@.contains(*p),
    {
        match p {
            Permission::Admin => self.admin,
            Permission::CreateProject => self.create_project,
            Permission::CreatePoll => self.create_poll,
            Permission::VotePoll => self.vote_poll,
        }
    }

    /// Adds `p` to the set.
    pub fn insert(&mut self, p: Permission)
        ensures
            final(self)@ == old(self)@.insert(p),
    {
        match p {
            Permission::Admin => self.admin = true,
            Permission::CreateProject => self.create_project = true,
            Permission::CreatePoll => self.create_poll = true,
            Permission::VotePoll => self.vote_poll = true,
        }
        assert(self@ =~= old(self)@.insert(p));
    }

    /// Takes `p` out of the set.
    pub fn remove(&mut self, p: Permission)
        ensures
            final(self)@ == old(self)@.remove(p),
    {
        match p {
            Permission::Admin => self.admin = false,
            Permission::CreateProject => self.create_project = false,
            Permission::CreatePoll => self.create_poll = false,
            Permission::VotePoll => self.vote_poll = false,
        }
        assert(self@ =~= old(self)@.remove(p));
    }

    /// The storage form of the set: a single byte with one bit per permission.
    pub fn to_bytes(&self) -> (r: Vec<u8>)
        ensures
            r@ == seq![flags_byte(self@)],
    {
        let mut b: u8 = 0;
        if self.admin {
            b = b + 1;
        }
        if self.create_project {
            b = b + 2;
        }
        if self.create_poll {
            b = b + 4;
        }
        if self.vote_poll {
            b = b + 8;
        }
        assert(self@.contains(Permission::Admin) == self.admin);
        assert(self@.contains(Permission::CreateProject) == self.create_project);
        assert(self@.contains(Permission::CreatePoll) == self.create_poll);
        assert(self@.contains(Permission::VotePoll) == self.vote_poll);
        let r = vec![b];
        assert(r@ =~= seq![flags_byte(self@)]);
        r
    }

    /// Reads a set back from its storage form.
    pub fn from_bytes(bytes: &[u8]) -> (r: PermissionList)
        requires
            bytes@.len() == 1,
            bytes@[0] < 16,
        ensures
            r@ == set_of_byte(bytes@[0]),
    {
        let b = bytes[0];
        let r = PermissionList {
            admin: b % 2 == 1,
            create_project: (b / 2) % 2 == 1,
            create_poll: (b / 4) % 2 == 1,
            vote_poll: (b / 8) % 2 == 1,
        };
        assert(r@ =~= set_of_byte(b));
        r
    }

    /// Whether the set is empty.
    pub fn is_empty(&self) -> (r: bool)
        ensures
            r == (self@ == Set::<Permission>::empty()),
    {
        let r = !self.admin && !self.create_project && !self.create_poll && !self.vote_poll;
        if r {
            assert(self@ =~= Set::<Permission>::empty());
        } else {
            assert(self@.contains(Permission::Admin) || self@.contains(Permission::CreateProject)
                || self@.contains(Permission::CreatePoll) || self@.contains(Permission::VotePoll));
        }
        r
    }

    /// The permissions in the set, each once, in declaration order.
    pub fn permissions(&self) -> (r: Vec<Permission>)
        ensures
            r@.to_set() == self@,
            r@.no_duplicates(),
    {
        let mut r: Vec<Permission> = Vec::new();
        assert(r@.to_set() =~= Set::<Permission>::empty());
        if self.admin {
            proof {
                lemma_push_to_set(r@, Permission::Admin);
            }
            r.push(Permission::Admin);
        }
        if self.create_project {
            proof {
                lemma_push_to_set(r@, Permission::CreateProject);
            }
            r.push(Permission::CreateProject);
        }
        if self.create_poll {
            proof {
                lemma_push_to_set(r@, Permission::CreatePoll);
            }
            r.push(Permission::CreatePoll);
        }
        if self.vote_poll {
            proof {
                lemma_push_to_set(r@, Permission::VotePoll);
            }
            r.push(Permission::VotePoll);
        }
        assert(r@.to_set() =~= self@);
        r
    }
}

/// The one-byte storage form of a permission set: one bit per permission.
pub open spec fn flags_byte(s: Set<Permission>) -> u8 {
    ((if s.contains(Permission::Admin) { 1int } else { 0int }) + (if s.contains(Permission::CreateProject) {
        2int
    } else {
        0int
    }) + (if s.contains(Permission::CreatePoll) { 4int } else { 0int }) + (if s.contains(
        Permission::VotePoll,
    ) {
        8int
    } else {
        0int
    })) as u8
}

/// The permission set that the storage byte `b` stands for.
pub open spec fn set_of_byte(b: u8) -> Set<Permission> {
    Set::new(
        |p: Permission|
            match p {
                Permission::Admin => b % 2 == 1,
                Permission::CreateProject => (b / 2) % 2 == 1,
                Permission::CreatePoll => (b / 4) % 2 == 1,
                Permission::VotePoll => (b / 8) % 2 == 1,
            },
    )
}

/// Reading back the storage byte of a permission set gives the same set.
pub proof fn lemma_flags_byte_round_trip(s: Set<Permission>)
    ensures
        flags_byte(s) < 16,
        set_of_byte(flags_byte(s)) == s,
{
    assert(set_of_byte(flags_byte(s)) =~= s);
}

/// A sequence with `x` pushed holds what it held and `x`.
pub proof fn lemma_push_to_set<A>(s: Seq<A>, x: A)
    ensures
        s.push(x).to_set() == s.to_set().insert(x),
{
    assert forall|a: A| #[trigger] s.push(x).contains(a) == s.to_set().insert(x).contains(a) by {
        if s.contains(a) {
            let i = choose|i: int| 0 <= i < s.len() && s[i] == a;
            assert(s.push(x)[i] == a);
        }
        if a == x {
            assert(s.push(x)[s.len() as int] == x);
        }
        if s.push(x).contains(a) {
            let i = choose|i: int| 0 <= i < s.len() + 1 && s.push(x)[i] == a;
            if i < s.len() {
                assert(s[i] == a);
            }
        }
    };
    assert(s.push(x).to_set() =~= s.to_set().insert(x));
}

/// What the registry records: the permission set of each principal that has an entry.
pub type PermissionMap = Map<Seq<u8>, Set<Permission>>;

/// The permissions of principal `k`; no entry reads as the empty set.
pub open spec fn perms_in(m: PermissionMap, k: Seq<u8>) -> Set<Permission> {
    if m.contains_key(k) {
        m[k]
    } else {
        Set::empty()
    }
}

/// The registry after `ps` has been granted to `k`.
pub open spec fn with_added(m: PermissionMap, k: Seq<u8>, ps: Set<Permission>) -> PermissionMap {
    m.insert(k, perms_in(m, k).union(ps))
}

/// The registry after `ps` has been taken from `k`; an emptied entry is deleted.
pub open spec fn with_removed(m: PermissionMap, k: Seq<u8>, ps: Set<Permission>) -> PermissionMap {
    let rest = perms_in(m, k).difference(ps);
    if rest == Set::<Permission>::empty() {
        m.remove(k)
    } else {
        m.insert(k, rest)
    }
}

/// `k` holds every permission of `req` (vacuously true for an empty request).
pub open spec fn holds_all(m: PermissionMap, k: Seq<u8>, req: Seq<Permission>) -> bool {
    forall|i: int| 0 <= i < req.len() ==> perms_in(m, k).contains(#[trigger] req[i])
}

/// `k` holds some permission of `req`, or `req` is empty.
pub open spec fn holds_any(m: PermissionMap, k: Seq<u8>, req: Seq<Permission>) -> bool {
    req.len() == 0 || exists|i: int| 0 <= i < req.len() && perms_in(m, k).contains(#[trigger] req[i])
}

/// Removing every permission that a principal holds leaves it with none, and
/// with no entry in the registry.
pub proof fn lemma_remove_all_leaves_nothing(m: PermissionMap, k: Seq<u8>, ps: Seq<Permission>)
    requires
        ps.to_set() == perms_in(m, k),
    ensures
        perms_in(with_removed(m, k, ps.to_set()), k) == Set::<Permission>::empty(),
        !with_removed(m, k, ps.to_set()).contains_key(k),
{
    assert(perms_in(m, k).difference(ps.to_set()) =~= Set::<Permission>::empty());
}

/// An empty request is granted to every principal, with or without an entry.
pub proof fn lemma_empty_request_is_granted(m: PermissionMap, k: Seq<u8>)
    ensures
        holds_all(m, k, Seq::<Permission>::empty()),
        holds_any(m, k, Seq::<Permission>::empty()),
{
}

/// The registry of permissions, keyed by principal.
pub struct Permissions {
    entries: Vec<(Principal, PermissionList)>,
    model: Ghost<PermissionMap>,
}

impl View for Permissions {
    type V = PermissionMap;

    closed spec fn view(&self) -> PermissionMap {
        self.model@
    }
}

impl Permissions {
    /// The entries agree with the model and hold each principal once.
    pub closed spec fn wf(&self) -> bool {
        &&& forall|i: int, j: int|
            0 <= i < j < self.entries@.len() ==> #[trigger] self.entries@[i].0@
                != #[trigger] self.entries@[j].0@
        &&& forall|i: int|
            0 <= i < self.entries@.len() ==> {
                &&& self.model@.contains_key(#[trigger] self.entries@[i].0@)
                &&& self.model@[self.entries@[i].0@] == self.entries@[i].1@
            }
        &&& forall|k: Seq<u8>|
            #[trigger] self.model@.contains_key(k) ==> exists|i: int|
                0 <= i < self.entries@.len() && self.entries@[i].0@ == k
    }

    /// An empty registry.
    pub fn new() -> (r: Permissions)
        ensures
            r.wf(),
            r@ == PermissionMap::empty(),
    {
        Permissions { entries: Vec::new(), model: Ghost(Map::empty()) }
    }

    fn find(&self, k: &Principal) -> (r: Option<usize>)
        requires
            self.wf(),
        ensures
            match r {
                Some(i) => i < self.entries@.len() && self.entries@[i as int].0@ == k@,
                None => !self@.contains_key(k@),
            },
    {
        let mut i: usize = 0;
        while i < self.entries.len()
            invariant
                self.wf(),
                0 <= i <= self.entries@.len(),
                forall|j: int| 0 <= j < i ==> #[trigger] self.entries@[j].0@ != k@,
            decreases self.entries@.len() - i,
        {
            if self.entries[i].0 == *k {
                return Some(i);
            }
            i = i + 1;
        }
        None
    }

    fn set_entry(&mut self, k: Principal, v: PermissionList)
        requires
            old(self).wf(),
        ensures
            final(self).wf(),
            final(self)@ == old(self)@.insert(k@, v@),
    {
        let ghost key = k@;
        let ghost new_model = self.model@.insert(key, v@);
        let ghost mut w: int = 0;
        match self.find(&k) {
            Some(i) => {
                self.entries.set(i, (k, v));
                proof {
                    w = i as int;
                    assert forall|j: int| 0 <= j < self.entries@.len() && j != i implies #[trigger] self.entries@[j]
                        == old(self).entries@[j] && old(self).entries@[j].0@ != key by {
                        if j < i {
                            assert(old(self).entries@[j].0@ != old(self).entries@[i as int].0@);
                        } else {
                            assert(old(self).entries@[i as int].0@ != old(self).entries@[j].0@);
                        }
                    };
                }
            },
            None => {
                self.entries.push((k, v));
                proof {
                    w = self.entries@.len() - 1;
                    assert forall|j: int| 0 <= j < w implies #[trigger] self.entries@[j] == old(self).entries@[j]
                        && old(self).entries@[j].0@ != key by {
                        assert(old(self).model@.contains_key(old(self).entries@[j].0@));
                    };
                }
            },
        }
        self.model = Ghost(new_model);
        assert forall|a: int, b: int| 0 <= a < b < self.entries@.len() implies #[trigger] self.entries@[a].0@
            != #[trigger] self.entries@[b].0@ by {
            if a != w && b != w {
                assert(old(self).entries@[a].0@ != old(self).entries@[b].0@);
            }
        };
        assert forall|j: int| 0 <= j < self.entries@.len() implies {
            &&& self.model@.contains_key(#[trigger] self.entries@[j].0@)
            &&& self.model@[self.entries@[j].0@] == self.entries@[j].1@
        } by {
            if j != w {
                assert(old(self).model@.contains_key(old(self).entries@[j].0@));
            }
        };
        assert forall|k2: Seq<u8>| #[trigger] self.model@.contains_key(k2) implies exists|i: int|
            0 <= i < self.entries@.len() && self.entries@[i].0@ == k2 by {
            if k2 != key {
                let i = choose|i: int| 0 <= i < old(self).entries@.len() && old(self).entries@[i].0@ == k2;
                assert(self.entries@[i].0@ == k2);
            } else {
                assert(self.entries@[w].0@ == key);
            }
        };
    }

    fn remove_entry(&mut self, k: &Principal)
        requires
            old(self).wf(),
        ensures
            final(self).wf(),
            final(self)@ == old(self)@.remove(k@),
    {
        let ghost key = k@;
        let ghost new_model = self.model@.remove(key);
        match self.find(k) {
            Some(i) => {
                let ghost before = self.entries@;
                self.entries.remove(i);
                self.model = Ghost(new_model);
                assert forall|j: int| 0 <= j < self.entries@.len() implies
                    self.entries@[j] == (if j < i { before[j] } else { before[j + 1] }) by {};
                assert forall|a: int, b: int| 0 <= a < b < self.entries@.len() implies #[trigger] self.entries@[a].0@
                    != #[trigger] self.entries@[b].0@ by {
                    let a0 = if a < i { a } else { a + 1 };
                    let b0 = if b < i { b } else { b + 1 };
                    assert(self.entries@[a] == before[a0]);
                    assert(self.entries@[b] == before[b0]);
                    assert(before[a0].0@ != before[b0].0@);
                };
                assert forall|j: int| 0 <= j < self.entries@.len() implies {
                    &&& self.model@.contains_key(#[trigger] self.entries@[j].0@)
                    &&& self.model@[self.entries@[j].0@] == self.entries@[j].1@
                } by {
                    let j0 = if j < i { j } else { j + 1 };
                    assert(self.entries@[j] == before[j0]);
                    assert(before[j0].0@ != before[i as int].0@);
                    assert(old(self).model@.contains_key(before[j0].0@));
                };
                assert forall|k2: Seq<u8>| #[trigger] self.model@.contains_key(k2) implies exists|j: int|
                    0 <= j < self.entries@.len() && self.entries@[j].0@ == k2 by {
                    let j = choose|j: int| 0 <= j < before.len() && before[j].0@ == k2;
                    if j < i {
                        assert(self.entries@[j].0@ == k2);
                    } else {
                        assert(j != i);
                        assert(self.entries@[j - 1].0@ == k2);
                    }
                };
            },
            None => {
                assert(self.model@ =~= new_model);
            },
        }
    }

    /// The permissions of `principal`; empty when it has no entry.
    pub fn get_permissions(&self, principal: &Principal) -> (r: PermissionList)
        requires
            self.wf(),
        ensures
            r@ == perms_in(self@, principal@),
    {
        match self.find(principal) {
            Some(i) => self.entries[i].1,
            None => PermissionList::default(),
        }
    }

    fn check_anonymous_principal(&self, principal: &Principal) -> (r: Result<()>)
        ensures
            r == (if principal@ == anonymous_bytes() {
                Err(UpgraderError::AnonymousPrincipalNotAllowed)
            } else {
                Ok(())
            }),
    {
        if principal.is_anonymous() {
            return Err(UpgraderError::AnonymousPrincipalNotAllowed);
        }
        Ok(())
    }

    /// Grants `permissions` to `principal` and returns its full set.
    pub fn add_permissions(&mut self, principal: Principal, permissions: Vec<Permission>) -> (r:
        Result<PermissionList>)
        requires
            old(self).wf(),
        ensures
            final(self).wf(),
            principal@ == anonymous_bytes() ==> r == Err::<PermissionList, UpgraderError>(
                UpgraderError::AnonymousPrincipalNotAllowed,
            ) && final(self)@ == old(self)@,
            principal@ != anonymous_bytes() ==> r is Ok && r->Ok_0@ == perms_in(
                old(self)@,
                principal@,
            ).union(permissions@.to_set()) && final(self)@ == with_added(
                old(self)@,
                principal@,
                permissions@.to_set(),
            ),
    {
        self.check_anonymous_principal(&principal)?;
        let mut existing = self.get_permissions(&principal);
        let ghost base = existing@;
        let mut i: usize = 0;
        while i < permissions.len()
            invariant
                0 <= i <= permissions@.len(),
                existing@ == base.union(permissions@.subrange(0, i as int).to_set()),
            decreases permissions@.len() - i,
        {
            existing.insert(permissions[i]);
            assert(permissions@.subrange(0, i + 1) =~= permissions@.subrange(0, i as int).push(
                permissions@[i as int],
            ));
            proof {
                lemma_push_to_set(permissions@.subrange(0, i as int), permissions@[i as int]);
            }
            assert(existing@ =~= base.union(permissions@.subrange(0, i + 1).to_set()));
            i = i + 1;
        }
        assert(permissions@.subrange(0, i as int) =~= permissions@);
        self.set_entry(principal, existing);
        Ok(existing)
    }

    /// Takes `permissions` from `principal` and returns what it still holds;
    /// an entry left empty is deleted.
    pub fn remove_permissions(&mut self, principal: Principal, permissions: &[Permission]) -> (r:
        PermissionList)
        requires
            old(self).wf(),
        ensures
            final(self).wf(),
            r@ == perms_in(old(self)@, principal@).difference(permissions@.to_set()),
            final(self)@ == with_removed(old(self)@, principal@, permissions@.to_set()),
    {
        let mut existing = self.get_permissions(&principal);
        let ghost base = existing@;
        let mut i: usize = 0;
        while i < permissions.len()
            invariant
                0 <= i <= permissions@.len(),
                existing@ == base.difference(permissions@.subrange(0, i as int).to_set()),
            decreases permissions@.len() - i,
        {
            existing.remove(permissions[i]);
            assert(permissions@.subrange(0, i + 1) =~= permissions@.subrange(0, i as int).push(
                permissions@[i as int],
            ));
            proof {
                lemma_push_to_set(permissions@.subrange(0, i as int), permissions@[i as int]);
            }
            assert(existing@ =~= base.difference(permissions@.subrange(0, i + 1).to_set()));
            i = i + 1;
        }
        assert(permissions@.subrange(0, i as int) =~= permissions@);
        if !existing.is_empty() {
            self.set_entry(principal, existing);
        } else {
            self.remove_entry(&principal);
        }
        existing
    }

    /// Whether `principal` holds every permission of `permissions`.
    pub fn has_all_permissions(&self, principal: &Principal, permissions: &[Permission]) -> (r:
        bool)
        requires
            self.wf(),
        ensures
            r == holds_all(self@, principal@, permissions@),
    {
        let held = self.get_permissions(principal);
        let mut i: usize = 0;
        while i < permissions.len()
            invariant
                0 <= i <= permissions@.len(),
                held@ == perms_in(self@, principal@),
                forall|j: int| 0 <= j < i ==> held@.contains(#[trigger] permissions@[j]),
            decreases permissions@.len() - i,
        {
            if !held.contains(&permissions[i]) {
                return false;
            }
            i = i + 1;
        }
        true
    }

    /// Whether `principal` holds at least one permission of `permissions`,
    /// or `permissions` is empty.
    pub fn has_any_permission(&self, principal: &Principal, permissions: &[Permission]) -> (r:
        bool)
        requires
            self.wf(),
        ensures
            r == holds_any(self@, principal@, permissions@),
    {
        if permissions.len() == 0 {
            return true;
        }
        let held = self.get_permissions(principal);
        let mut i: usize = 0;
        while i < permissions.len()
            invariant
                0 <= i <= permissions@.len(),
                held@ == perms_in(self@, principal@),
                forall|j: int| 0 <= j < i ==> !held@.contains(#[trigger] permissions@[j]),
            decreases permissions@.len() - i,
        {
            if held.contains(&permissions[i]) {
                return true;
            }
            i = i + 1;
        }
        false
    }

    /// Fails with `NotAuthorized` unless `principal` holds every permission of `permissions`.
    pub fn check_has_all_permissions(&self, principal: &Principal, permissions: &[Permission]) -> (r:
        Result<()>)
        requires
            self.wf(),
        ensures
            r == (if holds_all(self@, principal@, permissions@) {
                Ok(())
            } else {
                Err(UpgraderError::NotAuthorized)
            }),
    {
        if self.has_all_permissions(principal, permissions) {
            Ok(())
        } else {
            Err(UpgraderError::NotAuthorized)
        }
    }

    /// Fails with `NotAuthorized` unless `principal` holds some permission of
    /// `permissions`, or `permissions` is empty.
    pub fn check_has_any_permission(&self, principal: &Principal, permissions: &[Permission]) -> (r:
        Result<()>)
        requires
            self.wf(),
        ensures
            r == (if holds_any(self@, principal@, permissions@) {
                Ok(())
            } else {
                Err(UpgraderError::NotAuthorized)
            }),
    {
        if self.has_any_permission(principal, permissions) {
            Ok(())
        } else {
            Err(UpgraderError::NotAuthorized)
        }
    }

    /// Fails with `NotAuthorized` unless `principal` holds `Admin`.
    pub fn check_admin(&self, principal: &Principal) -> (r: Result<()>)
        requires
            self.wf(),
        ensures
            r == (if perms_in(self@, principal@).contains(Permission::Admin) {
                Ok(())
            } else {
                Err(UpgraderError::NotAuthorized)
            }),
    {
        let required = [Permission::Admin];
        let r = self.check_has_all_permissions(principal, &required);
        assert(required@[0] == Permission::Admin);
        r
    }

    /// Removes every entry.
    pub fn clear(&mut self)
        ensures
            final(self).wf(),
            final(self)@ == PermissionMap::empty(),
    {
        self.entries = Vec::new();
        self.model = Ghost(Map::empty());
    }
}

} // verus!
