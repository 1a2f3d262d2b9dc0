use vstd::prelude::*;

use crate::error::{Result, UpgraderError};

verus! {

/// A registered project.
#[derive(Debug, PartialEq, Eq)]
pub struct ProjectData {
    /// The unique key of the project.
    pub key: String,
    /// The name of the project.
    pub name: String,
    /// The description of the project.
    pub description: String,
}

/// The model of a project: its key, name and description.
pub type ProjectView = (Seq<char>, Seq<char>, Seq<char>);

impl View for ProjectData {
    type V = ProjectView;

    open spec fn view(&self) -> ProjectView {
        (self.key@, self.name@, self.description@)
    }
}

impl Clone for ProjectData {
    fn clone(&self) -> (r: ProjectData)
        ensures
            r@ == self@,
    {
        ProjectData {
            key: self.key.clone(),
            name: self.name.clone(),
            description: self.description.clone(),
        }
    }
}

/// What the project registry records: each project by its key.
pub type ProjectMap = Map<Seq<char>, ProjectView>;

/// The registry after an attempt to insert `p`: unchanged when its key is taken.
pub open spec fn after_project_insert(m: ProjectMap, p: ProjectView) -> ProjectMap {
    if m.contains_key(p.0) {
        m
    } else {
        m.insert(p.0, p)
    }
}

/// Inserting a second project under a taken key is refused and keeps the
/// first project as it was.
pub proof fn lemma_insert_not_idempotent(m: ProjectMap, first: ProjectView, second: ProjectView)
    requires
        !m.contains_key(first.0),
        second.0 == first.0,
    ensures
        after_project_insert(m, first).contains_key(second.0),
        after_project_insert(after_project_insert(m, first), second)[first.0] == first,
        after_project_insert(after_project_insert(m, first), second) == after_project_insert(
            m,
            first,
        ),
{
}

/// `r` holds every project of `m`, each once.
pub open spec fn lists_all(m: ProjectMap, r: Seq<ProjectData>) -> bool {
    &&& forall|i: int|
        0 <= i < r.len() ==> #[trigger] m.contains_key(r[i].key@) && m[r[i].key@] == r[i]@
    &&& forall|k: Seq<char>|
        #[trigger] m.contains_key(k) ==> exists|i: int| 0 <= i < r.len() && r[i].key@ == k
    &&& forall|i: int, j: int| 0 <= i < j < r.len() ==> #[trigger] r[i].key@ != #[trigger] r[j].key@
}

/// The registry of projects; a project is never changed once inserted.
pub struct Projects {
    projects: Vec<ProjectData>,
    model: Ghost<ProjectMap>,
}

impl View for Projects {
    type V = ProjectMap;

    closed spec fn view(&self) -> ProjectMap {
        self.model@
    }
}

impl Projects {
    /// The stored projects agree with the model and have distinct keys.
    pub closed spec fn wf(&self) -> bool {
        &&& forall|i: int, j: int|
            0 <= i < j < self.projects@.len() ==> #[trigger] self.projects@[i].key@
                != #[trigger] self.projects@[j].key@
        &&& forall|i: int|
            0 <= i < self.projects@.len() ==> {
                &&& self.model@.contains_key(#[trigger] self.projects@[i].key@)
                &&& self.model@[self.projects@[i].key@] == self.projects@[i]@
            }
        &&& forall|k: Seq<char>|
            #[trigger] self.model@.contains_key(k) ==> exists|i: int|
                0 <= i < self.projects@.len() && self.projects@[i].key@ == k
    }

    /// An empty registry.
    pub fn new() -> (r: Projects)
        ensures
            r.wf(),
            r@ == ProjectMap::empty(),
    {
        Projects { projects: Vec::new(), model: Ghost(Map::empty()) }
    }

    fn find(&self, key: &String) -> (r: Option<usize>)
        requires
            self.wf(),
        ensures
            match r {
                Some(i) => i < self.projects@.len() && self.projects@[i as int].key@ == key@,
                None => !self@.contains_key(key@),
            },
    {
        let mut i: usize = 0;
        while i < self.projects.len()
            invariant
                self.wf(),
                0 <= i <= self.projects@.len(),
                forall|j: int| 0 <= j < i ==> #[trigger] self.projects@[j].key@ != key@,
            decreases self.projects@.len() - i,
        {
            if self.projects[i].key == *key {
                return Some(i);
            }
            i = i + 1;
        }
        None
    }

    /// The project stored under `key`, if any.
    pub fn get(&self, key: &String) -> (r: Option<ProjectData>)
        requires
            self.wf(),
        ensures
            r is None <==> !self@.contains_key(key@),
            r is Some ==> r->Some_0@ == self@[key@],
    {
        match self.find(key) {
            Some(i) => Some(self.projects[i].clone()),
            None => None,
        }
    }

    /// Whether a project is stored under `key`.
    pub fn contains_key(&self, key: &String) -> (r: bool)
        requires
            self.wf(),
        ensures
            r == self@.contains_key(key@),
    {
        self.find(key).is_some()
    }

    /// Stores `project`; fails with `NotUniqueKey` when its key is taken.
    pub fn insert(&mut self, project: ProjectData) -> (r: Result<()>)
        requires
            old(self).wf(),
        ensures
            final(self).wf(),
            final(self)@ == after_project_insert(old(self)@, project@),
            old(self)@.contains_key(project.key@) ==> r is Err && r->Err_0 == UpgraderError::NotUniqueKey(project.key),
            !old(self)@.contains_key(project.key@) ==> r is Ok,
    {
        if self.find(&project.key).is_some() {
            return Err(UpgraderError::NotUniqueKey(project.key));
        }
        let ghost view = project@;
        self.projects.push(project);
        self.model = Ghost(self.model@.insert(view.0, view));
        assert forall|k: Seq<char>| #[trigger] self.model@.contains_key(k) implies exists|i: int|
            0 <= i < self.projects@.len() && self.projects@[i].key@ == k by {
            if k != view.0 {
                let i = choose|i: int| 0 <= i < old(self).projects@.len() && old(self).projects@[i].key@ == k;
                assert(self.projects@[i].key@ == k);
            } else {
                assert(self.projects@[self.projects@.len() - 1].key@ == k);
            }
        };
        Ok(())
    }

    /// Every stored project, each once.
    pub fn all(&self) -> (r: Vec<ProjectData>)
        requires
            self.wf(),
        ensures
            lists_all(self@, r@),
    {
        let mut r: Vec<ProjectData> = Vec::new();
        let mut i: usize = 0;
        while i < self.projects.len()
            invariant
                self.wf(),
                0 <= i <= self.projects@.len(),
                r@.len() == i,
                forall|j: int| 0 <= j < i ==> (#[trigger] r@[j])@ == self.projects@[j]@,
            decreases self.projects@.len() - i,
        {
            r.push(self.projects[i].clone());
            i = i + 1;
        }
        assert forall|k: Seq<char>| #[trigger] self@.contains_key(k) implies exists|j: int| 0 <= j < r@.len() && r@[j].key@ == k by {
            let j = choose|j: int| 0 <= j < self.projects@.len() && self.projects@[j].key@ == k;
            assert(r@[j]@ == self.projects@[j]@);
        };
        assert forall|a: int, b: int| 0 <= a < b < r@.len() implies #[trigger] r@[a].key@ != #[trigger] r@[b].key@ by {
            assert(r@[a]@ == self.projects@[a]@);
            assert(r@[b]@ == self.projects@[b]@);
        };
        assert forall|j: int| 0 <= j < r@.len() implies #[trigger] self@.contains_key(r@[j].key@) && self@[r@[j].key@] == r@[j]@ by {
            assert(r@[j]@ == self.projects@[j]@);
        };
        r
    }
}

} // verus!
