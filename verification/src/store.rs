use vstd::prelude::*;

use crate::errors::ServiceError;
use crate::policy::User;

verus! {

/// A project: a named entity owned by a user, with a boolean gate on
/// self-service joining and an ordered list of free-text repository
/// URLs. Repository entries are non-empty; duplicates are permitted.
#[derive(Debug)]
pub struct Project {
    pub id: i32,
    pub name: String,
    pub owner_id: i32,
    pub active: bool,
    pub repos: Vec<String>,
}

/// One membership pair: the user belongs to the project.
#[derive(Clone, Copy, Debug, PartialEq, Eq, Structural)]
pub struct Relation {
    pub project_id: i32,
    pub user_id: i32,
}

/// In-memory model of the persistent store: the project rows, the
/// user rows, and the project-user membership relation. Its
/// well-formedness invariant carries what the backing store would
/// enforce: unique ids, unique membership pairs, referential
/// integrity, and non-empty repository entries.
pub struct Store {
    pub projects: Vec<Project>,
    pub users: Vec<User>,
    pub relations: Vec<Relation>,
    pub next_id: i32,
}

pub open spec fn unique_project_ids(ps: Seq<Project>) -> bool {
    forall|i: int, j: int| #![trigger ps[i], ps[j]]
        0 <= i < j < ps.len() ==> ps[i].id != ps[j].id
}

pub open spec fn unique_user_ids(us: Seq<User>) -> bool {
    forall|i: int, j: int| #![trigger us[i], us[j]]
        0 <= i < j < us.len() ==> us[i].id != us[j].id
}

pub open spec fn unique_pairs(rels: Seq<Relation>) -> bool {
    forall|i: int, j: int| #![trigger rels[i], rels[j]]
        0 <= i < j < rels.len() ==> rels[i] != rels[j]
}

pub open spec fn has_project(ps: Seq<Project>, pid: i32) -> bool {
    exists|k: int| 0 <= k < ps.len() && (#[trigger] ps[k]).id == pid
}

pub open spec fn has_user(us: Seq<User>, uid: i32) -> bool {
    exists|k: int| 0 <= k < us.len() && (#[trigger] us[k]).id == uid
}

pub open spec fn has_pair(rels: Seq<Relation>, pid: i32, uid: i32) -> bool {
    exists|k: int|
        0 <= k < rels.len() && (#[trigger] rels[k]).project_id == pid && rels[k].user_id == uid
}

/// The project carrying id `pid` (meaningful under unique ids).
pub open spec fn project_with(ps: Seq<Project>, pid: i32) -> Project {
    ps[choose|k: int| 0 <= k < ps.len() && (#[trigger] ps[k]).id == pid]
}

/// The user carrying id `uid` (meaningful under unique ids).
pub open spec fn user_with(us: Seq<User>, uid: i32) -> User {
    us[choose|k: int| 0 <= k < us.len() && (#[trigger] us[k]).id == uid]
}

pub open spec fn repos_nonempty(rs: Seq<Seq<char>>) -> bool {
    forall|k: int| 0 <= k < rs.len() ==> (#[trigger] rs[k]).len() > 0
}

/// Under unique ids, the project found at any matching index is the
/// project that `project_with` names.
pub proof fn lemma_project_with_index(ps: Seq<Project>, pid: i32, i: int)
    requires
        unique_project_ids(ps),
        0 <= i < ps.len(),
        ps[i].id == pid,
    ensures
        has_project(ps, pid),
        project_with(ps, pid) == ps[i],
{
    assert(has_project(ps, pid));
    let k = choose|k: int| 0 <= k < ps.len() && (#[trigger] ps[k]).id == pid;
    if k < i {
        assert(ps[k].id != ps[i].id);
    } else if i < k {
        assert(ps[i].id != ps[k].id);
    }
}

/// Under unique ids, the user found at any matching index is the user
/// that `user_with` names.
pub proof fn lemma_user_with_index(us: Seq<User>, uid: i32, i: int)
    requires
        unique_user_ids(us),
        0 <= i < us.len(),
        us[i].id == uid,
    ensures
        has_user(us, uid),
        user_with(us, uid) == us[i],
{
    assert(has_user(us, uid));
    let k = choose|k: int| 0 <= k < us.len() && (#[trigger] us[k]).id == uid;
    if k < i {
        assert(us[k].id != us[i].id);
    } else if i < k {
        assert(us[i].id != us[k].id);
    }
}

impl Store {
    /// Well-formedness: what the backing store's constraints enforce.
    pub open spec fn wf(&self) -> bool {
        &&& unique_project_ids(self.projects@)
        &&& unique_user_ids(self.users@)
        &&& unique_pairs(self.relations@)
        &&& forall|i: int|
            0 <= i < self.projects@.len() ==> (#[trigger] self.projects@[i]).id < self.next_id
        &&& forall|i: int|
            0 <= i < self.relations@.len() ==> has_project(
                self.projects@,
                (#[trigger] self.relations@[i]).project_id,
            )
        &&& forall|i: int|
            0 <= i < self.relations@.len() ==> has_user(
                self.users@,
                (#[trigger] self.relations@[i]).user_id,
            )
        &&& forall|i: int|
            0 <= i < self.projects@.len() ==> repos_nonempty(
                (#[trigger] self.projects@[i]).repos.deep_view(),
            )
    }

    /// An empty store.
    pub fn new() -> (s: Store)
        ensures
            s.wf(),
            s.projects@.len() == 0,
            s.users@.len() == 0,
            s.relations@.len() == 0,
            s.next_id == 1,
    {
        Store { projects: Vec::new(), users: Vec::new(), relations: Vec::new(), next_id: 1 }
    }

    /// Seeds a user row; the user store itself is external to this
    /// core, so ids arrive from outside and must be fresh.
    pub fn add_user(&mut self, id: i32, tier: i32) -> (r: Result<(), ServiceError>)
        requires
            old(self).wf(),
        ensures
            final(self).wf(),
            r is Ok <==> !has_user(old(self).users@, id),
            r is Ok ==> final(self).users@ == old(self).users@.push(User { id, tier })
                && final(self).projects@ == old(self).projects@ && final(self).relations@ == old(
                self,
            ).relations@ && final(self).next_id == old(self).next_id,
            r matches Err(e) ==> e == ServiceError::Conflict && *final(self) == *old(self),
    {
        if self.user_index(id).is_some() {
            return Err(ServiceError::Conflict);
        }
        self.users.push(User { id, tier });
        proof {
            assert forall|i: int|
                0 <= i < self.relations@.len() implies has_user(
                self.users@,
                (#[trigger] self.relations@[i]).user_id,
            ) by {
                let uid = self.relations@[i].user_id;
                let k = choose|k: int|
                    0 <= k < old(self).users@.len() && (#[trigger] old(self).users@[k]).id == uid;
                assert(self.users@[k].id == uid);
            }
        }
        Ok(())
    }

    /// Index of the project row carrying `pid`, if any.
    pub fn project_index(&self, pid: i32) -> (r: Option<usize>)
        ensures
            r is Some <==> has_project(self.projects@, pid),
            r matches Some(i) ==> i < self.projects@.len() && self.projects@[i as int].id == pid,
    {
        let mut i: usize = 0;
        while i < self.projects.len()
            invariant
                i <= self.projects@.len(),
                forall|j: int| 0 <= j < i ==> (#[trigger] self.projects@[j]).id != pid,
            decreases self.projects@.len() - i,
        {
            if self.projects[i].id == pid {
                return Some(i);
            }
            i += 1;
        }
        None
    }

    /// Index of the user row carrying `uid`, if any.
    pub fn user_index(&self, uid: i32) -> (r: Option<usize>)
        ensures
            r is Some <==> has_user(self.users@, uid),
            r matches Some(i) ==> i < self.users@.len() && self.users@[i as int].id == uid,
    {
        let mut i: usize = 0;
        while i < self.users.len()
            invariant
                i <= self.users@.len(),
                forall|j: int| 0 <= j < i ==> (#[trigger] self.users@[j]).id != uid,
            decreases self.users@.len() - i,
        {
            if self.users[i].id == uid {
                return Some(i);
            }
            i += 1;
        }
        None
    }

    /// Whether a user row with `uid` exists.
    pub fn user_exists(&self, uid: i32) -> (r: bool)
        ensures
            r == has_user(self.users@, uid),
    {
        self.user_index(uid).is_some()
    }

    /// The project with id `pid`, if present.
    pub fn find_project(&self, pid: i32) -> (r: Option<&Project>)
        requires
            self.wf(),
        ensures
            r is Some <==> has_project(self.projects@, pid),
            r matches Some(p) ==> *p == project_with(self.projects@, pid),
    {
        match self.project_index(pid) {
            Some(i) => {
                proof {
                    lemma_project_with_index(self.projects@, pid, i as int);
                }
                Some(&self.projects[i])
            },
            None => None,
        }
    }

    /// The id of the first project whose name is exactly `name`, if
    /// any; names are a lookup key but are not guaranteed unique, so
    /// the first row wins.
    pub fn find_by_name(&self, name: &str) -> (r: Option<i32>)
        ensures
            r is Some <==> (exists|k: int|
                0 <= k < self.projects@.len() && (#[trigger] self.projects@[k]).name@ == name@),
            r matches Some(pid) ==> (exists|k: int|
                0 <= k < self.projects@.len() && (#[trigger] self.projects@[k]).name@ == name@
                    && self.projects@[k].id == pid && (forall|j: int|
                    0 <= j < k ==> (#[trigger] self.projects@[j]).name@ != name@)),
    {
        let mut i: usize = 0;
        while i < self.projects.len()
            invariant
                i <= self.projects@.len(),
                forall|j: int| 0 <= j < i ==> (#[trigger] self.projects@[j]).name@ != name@,
            decreases self.projects@.len() - i,
        {
            if crate::text::str_eq(self.projects[i].name.as_str(), name) {
                return Some(self.projects[i].id);
            }
            i += 1;
        }
        None
    }
}

/// The repository list of a project, as its own vector.
pub fn project_repos(p: &Project) -> (r: Vec<String>)
    ensures
        r@ == p.repos@,
{
    let mut out: Vec<String> = Vec::new();
    let mut i: usize = 0;
    while i < p.repos.len()
        invariant
            i <= p.repos@.len(),
            out@.len() == i,
            forall|j: int| 0 <= j < i ==> out@[j] == p.repos@[j],
        decreases p.repos@.len() - i,
    {
        out.push(p.repos[i].clone());
        i += 1;
    }
    proof {
        assert(out@ =~= p.repos@);
    }
    out
}

/// Field-for-field sameness of two project values, up to string views.
pub open spec fn project_like(a: Project, b: Project) -> bool {
    a.id == b.id && a.name@ == b.name@ && a.owner_id == b.owner_id && a.active == b.active
        && a.repos@ == b.repos@
}

/// A fresh copy of a project row.
pub fn copy_project(p: &Project) -> (r: Project)
    ensures
        project_like(r, *p),
{
    Project {
        id: p.id,
        name: p.name.clone(),
        owner_id: p.owner_id,
        active: p.active,
        repos: project_repos(p),
    }
}

} // verus!
