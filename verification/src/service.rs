use vstd::prelude::*;

use crate::aggregator::{aggregate_plan, spec_plan};
use crate::codec::{json_str_list, lemma_nonempty_entries_nonempty, nonempty_entries,
    normalize_repos};
use crate::errors::ServiceError;
use crate::membership::{lemma_member_ids_absent, member_ids, relations_without_pair,
    relations_without_project, spec_member_list};
use crate::policy::{spec_allowed, Operation, User};
use crate::store::{
    copy_project, has_pair, has_project, has_user, lemma_project_with_index, project_like,
    project_with, Project, Relation, Store,
};
use crate::text::{contains_seq, contains_substring};

verus! {

/// A submitted project: what a create or edit form carries. The
/// repository list arrives as one encoded text (a JSON array of
/// strings) and is normalized before persistence.
pub struct ProjectDraft {
    pub name: String,
    pub owner_id: i32,
    pub active: bool,
    pub repos: String,
}

/// Why a create fails, if it does: a malformed repository-list
/// encoding, then an unknown creating user.
pub open spec fn create_outcome(s: Store, actor: User, encoded: Seq<char>) -> Option<
    ServiceError,
> {
    if json_str_list(encoded) is None {
        Some(ServiceError::Validation)
    } else if !has_user(s.users@, actor.id) {
        Some(ServiceError::NotFound)
    } else {
        None
    }
}

/// Why an edit fails, if it does: missing project, then authorization,
/// then a malformed repository-list encoding.
pub open spec fn edit_outcome(s: Store, actor: User, pid: i32, encoded: Seq<char>) -> Option<
    ServiceError,
> {
    if !has_project(s.projects@, pid) {
        Some(ServiceError::NotFound)
    } else if !spec_allowed(Some(actor), project_with(s.projects@, pid), Operation::Edit) {
        Some(ServiceError::Unauthorized)
    } else if json_str_list(encoded) is None {
        Some(ServiceError::Validation)
    } else {
        None
    }
}

/// Why a delete fails, if it does.
pub open spec fn delete_outcome(s: Store, actor: User, pid: i32) -> Option<ServiceError> {
    if !has_project(s.projects@, pid) {
        Some(ServiceError::NotFound)
    } else if !spec_allowed(Some(actor), project_with(s.projects@, pid), Operation::Delete) {
        Some(ServiceError::Unauthorized)
    } else {
        None
    }
}

/// Why adding a member fails, if it does: missing project, then
/// authorization, then an unknown user, then the duplicate pair.
pub open spec fn add_member_outcome(s: Store, actor: User, pid: i32, uid: i32) -> Option<
    ServiceError,
> {
    if !has_project(s.projects@, pid) {
        Some(ServiceError::NotFound)
    } else if !spec_allowed(Some(actor), project_with(s.projects@, pid), Operation::AddMember) {
        Some(ServiceError::Unauthorized)
    } else if !has_user(s.users@, uid) {
        Some(ServiceError::NotFound)
    } else if has_pair(s.relations@, pid, uid) {
        Some(ServiceError::Conflict)
    } else {
        None
    }
}

/// Why removing a member fails, if it does; removing an absent pair
/// is not a failure.
pub open spec fn remove_member_outcome(s: Store, actor: User, pid: i32, uid: i32) -> Option<
    ServiceError,
> {
    if !has_project(s.projects@, pid) {
        Some(ServiceError::NotFound)
    } else if !spec_allowed(Some(actor), project_with(s.projects@, pid), Operation::RemoveMember) {
        Some(ServiceError::Unauthorized)
    } else {
        None
    }
}

/// Why a self-join fails, if it does: an inactive project is a
/// conflict — a gate on project state, not on identity — and so is
/// the duplicate pair; tier never plays a part.
pub open spec fn join_outcome(s: Store, actor: User, pid: i32) -> Option<ServiceError> {
    if !has_project(s.projects@, pid) {
        Some(ServiceError::NotFound)
    } else if !project_with(s.projects@, pid).active {
        Some(ServiceError::Conflict)
    } else if !has_user(s.users@, actor.id) {
        Some(ServiceError::NotFound)
    } else if has_pair(s.relations@, pid, actor.id) {
        Some(ServiceError::Conflict)
    } else {
        None
    }
}

/// What a successful create leaves behind: one fresh project row
/// whose owner is the creating actor — whatever owner the draft
/// claimed — with the normalized repository list, and the actor as
/// the project's sole initial member.
pub open spec fn created_project(
    pre: Store,
    post: Store,
    actor: User,
    name: Seq<char>,
    active: bool,
    encoded: Seq<char>,
    pid: i32,
) -> bool {
    &&& pid == pre.next_id
    &&& post.next_id == pre.next_id + 1
    &&& post.users@ == pre.users@
    &&& post.projects@.len() == pre.projects@.len() + 1
    &&& post.projects@.drop_last() == pre.projects@
    &&& post.projects@.last().id == pid
    &&& post.projects@.last().name@ == name
    &&& post.projects@.last().owner_id == actor.id
    &&& post.projects@.last().active == active
    &&& post.projects@.last().repos.deep_view() == nonempty_entries(
        json_str_list(encoded).unwrap(),
    )
    &&& post.relations@ == pre.relations@.push(Relation { project_id: pid, user_id: actor.id })
    &&& member_ids(post.relations@, pid) == seq![actor.id]
}

/// What a successful edit leaves behind: the row with id `pid`
/// replaced field for field from the draft — the owner is taken from
/// the draft's stated value, not re-derived from the actor — with the
/// normalized repository list; every other row and the membership
/// relation untouched.
pub open spec fn edited_project(
    pre: Store,
    post: Store,
    pid: i32,
    name: Seq<char>,
    owner_id: i32,
    active: bool,
    encoded: Seq<char>,
) -> bool {
    &&& post.projects@.len() == pre.projects@.len()
    &&& forall|j: int|
        0 <= j < pre.projects@.len() && (#[trigger] pre.projects@[j]).id != pid
            ==> post.projects@[j] == pre.projects@[j]
    &&& forall|j: int|
        0 <= j < pre.projects@.len() && (#[trigger] pre.projects@[j]).id == pid ==> {
            &&& post.projects@[j].id == pid
            &&& post.projects@[j].name@ == name
            &&& post.projects@[j].owner_id == owner_id
            &&& post.projects@[j].active == active
            &&& post.projects@[j].repos.deep_view() == nonempty_entries(
                json_str_list(encoded).unwrap(),
            )
        }
    &&& post.relations@ == pre.relations@
    &&& post.users@ == pre.users@
    &&& post.next_id == pre.next_id
}

impl Store {
    /// Creates a project from a draft: the owner is forced to the
    /// creating actor, the repository list is normalized (empty
    /// entries dropped; a malformed encoding is rejected), the row is
    /// persisted under a fresh id, and the actor is joined as the sole
    /// initial member — one logical transaction.
    pub fn create(&mut self, actor: &User, draft: &ProjectDraft) -> (r: Result<i32, ServiceError>)
        requires
            old(self).wf(),
            old(self).next_id < i32::MAX,
        ensures
            final(self).wf(),
            r is Ok <==> create_outcome(*old(self), *actor, draft.repos@) is None,
            r matches Err(e) ==> Some(e) == create_outcome(*old(self), *actor, draft.repos@)
                && *final(self) == *old(self),
            r matches Ok(pid) ==> created_project(
                *old(self),
                *final(self),
                *actor,
                draft.name@,
                draft.active,
                draft.repos@,
                pid,
            ),
    {
        let repos = match normalize_repos(draft.repos.as_str()) {
            Ok(v) => v,
            Err(e) => {
                return Err(e);
            },
        };
        if !self.user_exists(actor.id) {
            return Err(ServiceError::NotFound);
        }
        let pid = self.next_id;
        let row = Project {
            id: pid,
            name: draft.name.clone(),
            owner_id: actor.id,
            active: draft.active,
            repos,
        };
        self.projects.push(row);
        self.relations.push(Relation { project_id: pid, user_id: actor.id });
        self.next_id = pid + 1;
        proof {
            let op = old(self).projects@;
            let or = old(self).relations@;
            let np = self.projects@;
            let nr = self.relations@;
            assert(np.drop_last() =~= op);
            assert forall|i: int| 0 <= i < op.len() implies (#[trigger] np[i]).id != pid by {
                assert(op[i].id < pid);
            }
            assert forall|i: int, j: int| #![trigger np[i], np[j]]
                0 <= i < j < np.len() implies np[i].id != np[j].id by {
                if j < op.len() {
                    assert(op[i].id != op[j].id);
                }
            }
            assert forall|i: int| 0 <= i < or.len() implies (#[trigger] or[i]).project_id
                != pid by {
                let k = choose|k: int| 0 <= k < op.len() && (#[trigger] op[k]).id == or[i].project_id;
                assert(op[k].id < pid);
            }
            assert forall|i: int, j: int| #![trigger nr[i], nr[j]]
                0 <= i < j < nr.len() implies nr[i] != nr[j] by {
                if j < or.len() {
                    assert(or[i] != or[j]);
                } else {
                    assert(or[i].project_id != pid);
                }
            }
            assert forall|i: int|
                0 <= i < nr.len() implies has_project(np, (#[trigger] nr[i]).project_id)
                && has_user(self.users@, nr[i].user_id) by {
                if i < or.len() {
                    let k = choose|k: int|
                        0 <= k < op.len() && (#[trigger] op[k]).id == or[i].project_id;
                    assert(np[k].id == or[i].project_id);
                    assert(has_user(old(self).users@, or[i].user_id));
                } else {
                    assert(np[np.len() - 1].id == pid);
                }
            }
            lemma_nonempty_entries_nonempty(json_str_list(draft.repos@).unwrap());
            assert forall|i: int|
                0 <= i < np.len() implies crate::store::repos_nonempty(
                (#[trigger] np[i]).repos.deep_view(),
            ) by {
                if i < op.len() {
                    assert(crate::store::repos_nonempty(op[i].repos.deep_view()));
                }
            }
            lemma_member_ids_absent(or, pid);
            assert(nr.drop_last() =~= or);
            assert(member_ids(nr, pid) =~= seq![actor.id]);
            lemma_project_with_index(np, pid, np.len() - 1);
        }
        Ok(pid)
    }

    /// Edits a project: loads it, checks the edit rule, normalizes the
    /// submitted repository list, and replaces name, owner, activity
    /// gate and repository list from the draft.
    pub fn edit(&mut self, actor: &User, pid: i32, draft: &ProjectDraft) -> (r: Result<
        (),
        ServiceError,
    >)
        requires
            old(self).wf(),
        ensures
            final(self).wf(),
            r is Ok <==> edit_outcome(*old(self), *actor, pid, draft.repos@) is None,
            r matches Err(e) ==> Some(e) == edit_outcome(*old(self), *actor, pid, draft.repos@)
                && *final(self) == *old(self),
            r is Ok ==> edited_project(
                *old(self),
                *final(self),
                pid,
                draft.name@,
                draft.owner_id,
                draft.active,
                draft.repos@,
            ),
    {
        let idx = match self.project_index(pid) {
            Some(i) => i,
            None => {
                return Err(ServiceError::NotFound);
            },
        };
        proof {
            lemma_project_with_index(self.projects@, pid, idx as int);
        }
        if !(actor.tier > 1 || actor.id == self.projects[idx].owner_id) {
            return Err(ServiceError::Unauthorized);
        }
        let repos = match normalize_repos(draft.repos.as_str()) {
            Ok(v) => v,
            Err(e) => {
                return Err(e);
            },
        };
        let row = Project {
            id: pid,
            name: draft.name.clone(),
            owner_id: draft.owner_id,
            active: draft.active,
            repos,
        };
        self.projects[idx] = row;
        proof {
            let op = old(self).projects@;
            let np = self.projects@;
            assert forall|i: int, j: int| #![trigger np[i], np[j]]
                0 <= i < j < np.len() implies np[i].id != np[j].id by {
                assert(op[i].id != op[j].id);
                assert(np[i].id == op[i].id);
                assert(np[j].id == op[j].id);
            }
            assert forall|i: int|
                0 <= i < self.relations@.len() implies has_project(
                np,
                (#[trigger] self.relations@[i]).project_id,
            ) by {
                let k = choose|k: int|
                    0 <= k < op.len() && (#[trigger] op[k]).id == self.relations@[i].project_id;
                assert(np[k].id == op[k].id);
            }
            lemma_nonempty_entries_nonempty(json_str_list(draft.repos@).unwrap());
            assert forall|i: int|
                0 <= i < np.len() implies crate::store::repos_nonempty(
                (#[trigger] np[i]).repos.deep_view(),
            ) by {
                if i != idx {
                    assert(np[i] == op[i]);
                    assert(crate::store::repos_nonempty(op[i].repos.deep_view()));
                }
            }
            assert forall|j: int|
                0 <= j < op.len() && (#[trigger] op[j]).id == pid implies j == idx by {
                if j != idx {
                    assert(op[j].id != op[idx as int].id);
                }
            }
        }
        Ok(())
    }

    /// Deletes a project and every membership relation referencing it,
    /// as one unit: no orphaned relation remains.
    pub fn delete(&mut self, actor: &User, pid: i32) -> (r: Result<(), ServiceError>)
        requires
            old(self).wf(),
        ensures
            final(self).wf(),
            r is Ok <==> delete_outcome(*old(self), *actor, pid) is None,
            r matches Err(e) ==> Some(e) == delete_outcome(*old(self), *actor, pid) && *final(self)
                == *old(self),
            r is Ok ==> final(self).relations@ == relations_without_project(
                old(self).relations@,
                pid,
            ),
            r is Ok ==> forall|i: int|
                0 <= i < final(self).relations@.len() ==> (
                #[trigger] final(self).relations@[i]).project_id != pid,
            r is Ok ==> member_ids(final(self).relations@, pid) == Seq::<i32>::empty(),
            r is Ok ==> spec_member_list(*final(self), pid) == Seq::<User>::empty(),
            r is Ok ==> !has_project(final(self).projects@, pid),
            r is Ok ==> (exists|k: int|
                0 <= k < old(self).projects@.len() && (#[trigger] old(self).projects@[k]).id == pid
                    && final(self).projects@ == old(self).projects@.remove(k)),
            r is Ok ==> final(self).users@ == old(self).users@ && final(self).next_id == old(
                self,
            ).next_id,
    {
        let idx = match self.project_index(pid) {
            Some(i) => i,
            None => {
                return Err(ServiceError::NotFound);
            },
        };
        proof {
            lemma_project_with_index(self.projects@, pid, idx as int);
        }
        if !(actor.tier > 1 || actor.id == self.projects[idx].owner_id) {
            return Err(ServiceError::Unauthorized);
        }
        self.relation_remove_all(pid);
        let _ = self.projects.remove(idx);
        proof {
            let op = old(self).projects@;
            let np = self.projects@;
            assert forall|a: int, b: int| #![trigger np[a], np[b]]
                0 <= a < b < np.len() implies np[a].id != np[b].id by {
                let oa: int = if a < idx { a } else { a + 1 };
                let ob: int = if b < idx { b } else { b + 1 };
                assert(np[a] == op[oa]);
                assert(np[b] == op[ob]);
            }
            assert forall|a: int| 0 <= a < np.len() implies (#[trigger] np[a]).id != pid by {
                let oa: int = if a < idx { a } else { a + 1 };
                assert(np[a] == op[oa]);
                assert(op[oa].id != op[idx as int].id);
            }
            if has_project(np, pid) {
                let k = choose|k: int| 0 <= k < np.len() && (#[trigger] np[k]).id == pid;
                assert(np[k].id != pid);
            }
            assert forall|i: int|
                0 <= i < self.relations@.len() implies has_project(
                np,
                (#[trigger] self.relations@[i]).project_id,
            ) by {
                let rid = self.relations@[i].project_id;
                assert(self.relations@[i].project_id != pid);
                let k = choose|k: int| 0 <= k < op.len() && (#[trigger] op[k]).id == rid;
                let nk: int = if k < idx { k } else { k - 1 };
                assert(k != idx);
                assert(np[nk] == op[k]);
            }
            assert forall|a: int| 0 <= a < np.len() implies (#[trigger] np[a]).id < self.next_id
                && crate::store::repos_nonempty(np[a].repos.deep_view()) by {
                let oa: int = if a < idx { a } else { a + 1 };
                assert(np[a] == op[oa]);
                assert(op[oa].id < old(self).next_id);
                assert(crate::store::repos_nonempty(op[oa].repos.deep_view()));
            }
            lemma_member_ids_absent(self.relations@, pid);
            assert(member_ids(self.relations@, pid) =~= Seq::<i32>::empty());
            assert(spec_member_list(*self, pid) =~= Seq::<User>::empty());
        }
        Ok(())
    }

    /// Adds a user to a project's membership after the policy check;
    /// the duplicate pair is a conflict.
    pub fn add_member(&mut self, actor: &User, pid: i32, uid: i32) -> (r: Result<
        (),
        ServiceError,
    >)
        requires
            old(self).wf(),
        ensures
            final(self).wf(),
            r is Ok <==> add_member_outcome(*old(self), *actor, pid, uid) is None,
            r matches Err(e) ==> Some(e) == add_member_outcome(*old(self), *actor, pid, uid)
                && *final(self) == *old(self),
            r is Ok ==> final(self).relations@ == old(self).relations@.push(
                Relation { project_id: pid, user_id: uid },
            ) && has_pair(final(self).relations@, pid, uid),
            r is Ok ==> final(self).projects@ == old(self).projects@ && final(self).users@ == old(
                self,
            ).users@ && final(self).next_id == old(self).next_id,
    {
        let idx = match self.project_index(pid) {
            Some(i) => i,
            None => {
                return Err(ServiceError::NotFound);
            },
        };
        proof {
            lemma_project_with_index(self.projects@, pid, idx as int);
        }
        if !(actor.tier > 0 || actor.id == self.projects[idx].owner_id) {
            return Err(ServiceError::Unauthorized);
        }
        if !self.user_exists(uid) {
            return Err(ServiceError::NotFound);
        }
        let r = self.relation_add(pid, uid);
        proof {
            if r is Ok {
                assert(self.relations@[self.relations@.len() - 1] == Relation {
                    project_id: pid,
                    user_id: uid,
                });
            }
        }
        r
    }

    /// Removes a user from a project's membership after the policy
    /// check; removing an absent pair succeeds as a no-op.
    pub fn remove_member(&mut self, actor: &User, pid: i32, uid: i32) -> (r: Result<
        (),
        ServiceError,
    >)
        requires
            old(self).wf(),
        ensures
            final(self).wf(),
            r is Ok <==> remove_member_outcome(*old(self), *actor, pid, uid) is None,
            r matches Err(e) ==> Some(e) == remove_member_outcome(*old(self), *actor, pid, uid)
                && *final(self) == *old(self),
            r is Ok ==> final(self).relations@ == relations_without_pair(
                old(self).relations@,
                pid,
                uid,
            ) && !has_pair(final(self).relations@, pid, uid),
            r is Ok && !has_pair(old(self).relations@, pid, uid) ==> final(self).relations@ == old(
                self,
            ).relations@,
            r is Ok ==> final(self).projects@ == old(self).projects@ && final(self).users@ == old(
                self,
            ).users@ && final(self).next_id == old(self).next_id,
    {
        let idx = match self.project_index(pid) {
            Some(i) => i,
            None => {
                return Err(ServiceError::NotFound);
            },
        };
        proof {
            lemma_project_with_index(self.projects@, pid, idx as int);
        }
        if !(actor.tier > 0 || actor.id == self.projects[idx].owner_id) {
            return Err(ServiceError::Unauthorized);
        }
        self.relation_remove(pid, uid);
        Ok(())
    }

    /// Self-join: gated by the project being active, not by the
    /// actor's tier; an inactive project or a duplicate pair is a
    /// conflict, never an authorization failure.
    pub fn join(&mut self, actor: &User, pid: i32) -> (r: Result<(), ServiceError>)
        requires
            old(self).wf(),
        ensures
            final(self).wf(),
            r is Ok <==> join_outcome(*old(self), *actor, pid) is None,
            r matches Err(e) ==> Some(e) == join_outcome(*old(self), *actor, pid) && *final(self)
                == *old(self),
            r is Ok ==> final(self).relations@ == old(self).relations@.push(
                Relation { project_id: pid, user_id: actor.id },
            ),
            r is Ok ==> final(self).projects@ == old(self).projects@ && final(self).users@ == old(
                self,
            ).users@ && final(self).next_id == old(self).next_id,
    {
        let idx = match self.project_index(pid) {
            Some(i) => i,
            None => {
                return Err(ServiceError::NotFound);
            },
        };
        proof {
            lemma_project_with_index(self.projects@, pid, idx as int);
        }
        if !self.projects[idx].active {
            return Err(ServiceError::Conflict);
        }
        if !self.user_exists(actor.id) {
            return Err(ServiceError::NotFound);
        }
        self.relation_add(pid, actor.id)
    }

    /// The members of a project, or nothing when the project id is
    /// unknown.
    pub fn members_of(&self, pid: i32) -> (r: Option<Vec<User>>)
        requires
            self.wf(),
        ensures
            r is Some <==> has_project(self.projects@, pid),
            r matches Some(v) ==> v@ == spec_member_list(*self, pid),
    {
        if self.project_index(pid).is_some() {
            Some(self.member_list(pid))
        } else {
            None
        }
    }

    /// The commit-aggregation plan for a project's repository list:
    /// the canonical endpoints to fetch, `None` when the list is empty
    /// or holds nothing supported, an error for an unknown project.
    pub fn commit_plan(&self, pid: i32) -> (r: Result<Option<Vec<String>>, ServiceError>)
        requires
            self.wf(),
        ensures
            r is Err <==> !has_project(self.projects@, pid),
            r matches Err(e) ==> e == ServiceError::NotFound,
            r matches Ok(plan) ==> (plan is Some <==> spec_plan(
                project_with(self.projects@, pid).repos.deep_view(),
            ) is Some),
            r matches Ok(plan) ==> (plan matches Some(v) ==> Some(v.deep_view()) == spec_plan(
                project_with(self.projects@, pid).repos.deep_view(),
            )),
    {
        match self.project_index(pid) {
            Some(i) => {
                proof {
                    lemma_project_with_index(self.projects@, pid, i as int);
                }
                Ok(aggregate_plan(&self.projects[i].repos))
            },
            None => Err(ServiceError::NotFound),
        }
    }
}

/// The projects whose name contains `term`, in store order.
pub open spec fn matching_projects(ps: Seq<Project>, term: Seq<char>) -> Seq<Project>
    decreases ps.len(),
{
    if ps.len() == 0 {
        Seq::empty()
    } else {
        let rest = matching_projects(ps.drop_last(), term);
        if contains_seq(ps.last().name@, term) {
            rest.push(ps.last())
        } else {
            rest
        }
    }
}

/// Row-for-row sameness of two project lists, up to string views.
pub open spec fn projects_like(a: Seq<Project>, b: Seq<Project>) -> bool {
    a.len() == b.len() && forall|i: int| 0 <= i < a.len() ==> project_like(#[trigger] a[i], b[i])
}

impl Store {
    /// Lists projects: all of them, or — given a search term — those
    /// whose name contains the term as a substring. Open to everyone.
    pub fn filter_projects(&self, term: Option<&str>) -> (r: Vec<Project>)
        ensures
            term is None ==> projects_like(r@, self.projects@),
            term matches Some(t) ==> projects_like(r@, matching_projects(self.projects@, t@)),
    {
        let ghost ps = self.projects@;
        let mut out: Vec<Project> = Vec::new();
        let mut i: usize = 0;
        match term {
            None => {
                while i < self.projects.len()
                    invariant
                        ps == self.projects@,
                        i <= ps.len(),
                        out@.len() == i,
                        forall|j: int| 0 <= j < i ==> project_like(#[trigger] out@[j], ps[j]),
                    decreases ps.len() - i,
                {
                    out.push(copy_project(&self.projects[i]));
                    i += 1;
                }
                out
            },
            Some(t) => {
                while i < self.projects.len()
                    invariant
                        ps == self.projects@,
                        i <= ps.len(),
                        projects_like(out@, matching_projects(ps.take(i as int), t@)),
                    decreases ps.len() - i,
                {
                    proof {
                        assert(ps.take(i + 1).drop_last() =~= ps.take(i as int));
                        assert(ps.take(i + 1).last() == ps[i as int]);
                    }
                    if contains_substring(self.projects[i].name.as_str(), t) {
                        out.push(copy_project(&self.projects[i]));
                        proof {
                            let m = matching_projects(ps.take(i + 1), t@);
                            assert(m == matching_projects(ps.take(i as int), t@).push(
                                ps[i as int],
                            ));
                            assert forall|j: int|
                                0 <= j < out@.len() implies project_like(
                                #[trigger] out@[j],
                                m[j],
                            ) by {
                                if j < out@.len() - 1 {
                                    assert(m[j] == matching_projects(ps.take(i as int), t@)[j]);
                                }
                            }
                        }
                    }
                    i += 1;
                }
                proof {
                    assert(ps.take(ps.len() as int) =~= ps);
                }
                out
            },
        }
    }
}

/// The user rows not joined to project `pid`, in store order.
pub open spec fn nonmembers(users: Seq<User>, rels: Seq<Relation>, pid: i32) -> Seq<User>
    decreases users.len(),
{
    if users.len() == 0 {
        Seq::empty()
    } else {
        let rest = nonmembers(users.drop_last(), rels, pid);
        if has_pair(rels, pid, users.last().id) {
            rest
        } else {
            rest.push(users.last())
        }
    }
}

/// Why the add-member view fails, if it does.
pub open spec fn add_view_outcome(s: Store, actor: User, pid: i32) -> Option<ServiceError> {
    if !has_project(s.projects@, pid) {
        Some(ServiceError::NotFound)
    } else if !spec_allowed(Some(actor), project_with(s.projects@, pid), Operation::AddMember) {
        Some(ServiceError::Unauthorized)
    } else {
        None
    }
}

impl Store {
    /// The users that may still be added to a project: every user row
    /// not already in its membership; guarded by the same policy rule
    /// as adding a member.
    pub fn addable_users(&self, actor: &User, pid: i32) -> (r: Result<Vec<User>, ServiceError>)
        requires
            self.wf(),
        ensures
            r is Ok <==> add_view_outcome(*self, *actor, pid) is None,
            r matches Err(e) ==> Some(e) == add_view_outcome(*self, *actor, pid),
            r matches Ok(v) ==> v@ == nonmembers(self.users@, self.relations@, pid),
    {
        let idx = match self.project_index(pid) {
            Some(i) => i,
            None => {
                return Err(ServiceError::NotFound);
            },
        };
        proof {
            lemma_project_with_index(self.projects@, pid, idx as int);
        }
        if !(actor.tier > 0 || actor.id == self.projects[idx].owner_id) {
            return Err(ServiceError::Unauthorized);
        }
        let ghost us = self.users@;
        let mut out: Vec<User> = Vec::new();
        let mut i: usize = 0;
        while i < self.users.len()
            invariant
                us == self.users@,
                i <= us.len(),
                out@ == nonmembers(us.take(i as int), self.relations@, pid),
            decreases us.len() - i,
        {
            proof {
                assert(us.take(i + 1).drop_last() =~= us.take(i as int));
                assert(us.take(i + 1).last() == us[i as int]);
            }
            if !self.has_member(pid, self.users[i].id) {
                out.push(self.users[i]);
            }
            i += 1;
        }
        proof {
            assert(us.take(us.len() as int) =~= us);
        }
        Ok(out)
    }
}

/// Law: a self-join on an inactive project is decided as a conflict
/// for every actor, whatever the tier — never as an authorization
/// failure.
pub proof fn lemma_inactive_join_conflicts(s: Store, actor: User, pid: i32)
    requires
        has_project(s.projects@, pid),
        !project_with(s.projects@, pid).active,
    ensures
        join_outcome(s, actor, pid) == Some(ServiceError::Conflict),
        join_outcome(s, actor, pid) != Some(ServiceError::Unauthorized),
{
}

/// Law: adding the same pair twice. A state reached by a successful
/// add holds the pair, and on that state the same add is decided as a
/// conflict.
pub proof fn lemma_duplicate_add_conflicts(s: Store, t: Store, actor: User, pid: i32, uid: i32)
    requires
        add_member_outcome(s, actor, pid, uid) is None,
        t.projects@ == s.projects@,
        t.users@ == s.users@,
        t.relations@ == s.relations@.push(Relation { project_id: pid, user_id: uid }),
    ensures
        add_member_outcome(t, actor, pid, uid) == Some(ServiceError::Conflict),
{
    assert(t.relations@[t.relations@.len() - 1] == Relation { project_id: pid, user_id: uid });
    assert(has_pair(t.relations@, pid, uid));
}

} // verus!
