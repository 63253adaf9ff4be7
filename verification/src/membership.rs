use vstd::prelude::*;

use crate::errors::ServiceError;
use crate::policy::User;
use crate::store::{
    has_pair, has_project, has_user, lemma_user_with_index, unique_pairs, user_with, Relation,
    Store,
};

verus! {

/// `rels` with every occurrence of the pair `(pid, uid)` removed.
pub open spec fn relations_without_pair(rels: Seq<Relation>, pid: i32, uid: i32) -> Seq<Relation>
    decreases rels.len(),
{
    if rels.len() == 0 {
        Seq::empty()
    } else {
        let rest = relations_without_pair(rels.drop_last(), pid, uid);
        if rels.last().project_id == pid && rels.last().user_id == uid {
            rest
        } else {
            rest.push(rels.last())
        }
    }
}

/// `rels` with every pair referencing project `pid` removed.
pub open spec fn relations_without_project(rels: Seq<Relation>, pid: i32) -> Seq<Relation>
    decreases rels.len(),
{
    if rels.len() == 0 {
        Seq::empty()
    } else {
        let rest = relations_without_project(rels.drop_last(), pid);
        if rels.last().project_id == pid {
            rest
        } else {
            rest.push(rels.last())
        }
    }
}

/// The user ids joined to project `pid`, in relation order.
pub open spec fn member_ids(rels: Seq<Relation>, pid: i32) -> Seq<i32>
    decreases rels.len(),
{
    if rels.len() == 0 {
        Seq::empty()
    } else {
        let rest = member_ids(rels.drop_last(), pid);
        if rels.last().project_id == pid {
            rest.push(rels.last().user_id)
        } else {
            rest
        }
    }
}

/// The user rows carrying the given ids, in order.
pub open spec fn user_list_of(users: Seq<User>, ids: Seq<i32>) -> Seq<User> {
    ids.map_values(|uid: i32| user_with(users, uid))
}

/// The users joined to project `pid`, resolved against the user rows.
pub open spec fn spec_member_list(s: Store, pid: i32) -> Seq<User> {
    user_list_of(s.users@, member_ids(s.relations@, pid))
}

/// What removing a pair leaves: only elements of the original, never
/// the removed pair, distinct pairs stay distinct, and removing an
/// absent pair is the identity.
pub proof fn lemma_without_pair_props(rels: Seq<Relation>, pid: i32, uid: i32)
    ensures
        forall|k: int|
            0 <= k < relations_without_pair(rels, pid, uid).len() ==> rels.contains(
                #[trigger] relations_without_pair(rels, pid, uid)[k],
            ),
        !has_pair(relations_without_pair(rels, pid, uid), pid, uid),
        unique_pairs(rels) ==> unique_pairs(relations_without_pair(rels, pid, uid)),
        !has_pair(rels, pid, uid) ==> relations_without_pair(rels, pid, uid) == rels,
    decreases rels.len(),
{
    let out = relations_without_pair(rels, pid, uid);
    if rels.len() == 0 {
        assert(out =~= rels);
    } else {
        let prefix = rels.drop_last();
        let last = rels.last();
        lemma_without_pair_props(prefix, pid, uid);
        let rest = relations_without_pair(prefix, pid, uid);
        assert forall|k: int| 0 <= k < out.len() implies rels.contains(#[trigger] out[k]) by {
            if k < rest.len() {
                assert(prefix.contains(rest[k]));
                let m = choose|m: int| 0 <= m < prefix.len() && prefix[m] == rest[k];
                assert(rels[m] == out[k]);
            } else {
                assert(rels[rels.len() - 1] == out[k]);
            }
        }
        if has_pair(out, pid, uid) {
            let k = choose|k: int|
                0 <= k < out.len() && (#[trigger] out[k]).project_id == pid && out[k].user_id
                    == uid;
            if k < rest.len() {
                assert(has_pair(rest, pid, uid));
            }
            assert(false);
        }
        if unique_pairs(rels) {
            assert(unique_pairs(prefix));
            assert forall|i: int, j: int| #![trigger out[i], out[j]]
                0 <= i < j < out.len() implies out[i] != out[j] by {
                if j < rest.len() {
                } else {
                    assert(out[j] == last);
                    assert(prefix.contains(rest[i]));
                    let m = choose|m: int| 0 <= m < prefix.len() && prefix[m] == rest[i];
                    assert(rels[m] != rels[rels.len() - 1]);
                }
            }
        }
        if !has_pair(rels, pid, uid) {
            assert(!(last.project_id == pid && last.user_id == uid));
            if has_pair(prefix, pid, uid) {
                let m = choose|m: int|
                    0 <= m < prefix.len() && (#[trigger] prefix[m]).project_id == pid
                        && prefix[m].user_id == uid;
                assert(rels[m].project_id == pid && rels[m].user_id == uid);
            }
            assert(out =~= rels);
        }
    }
}

/// What the cascade removal leaves: only elements of the original,
/// none referencing the project, and distinct pairs stay distinct.
pub proof fn lemma_without_project_props(rels: Seq<Relation>, pid: i32)
    ensures
        forall|k: int|
            0 <= k < relations_without_project(rels, pid).len() ==> rels.contains(
                #[trigger] relations_without_project(rels, pid)[k],
            ),
        forall|k: int|
            0 <= k < relations_without_project(rels, pid).len() ==> (
            #[trigger] relations_without_project(rels, pid)[k]).project_id != pid,
        unique_pairs(rels) ==> unique_pairs(relations_without_project(rels, pid)),
    decreases rels.len(),
{
    let out = relations_without_project(rels, pid);
    if rels.len() == 0 {
    } else {
        let prefix = rels.drop_last();
        let last = rels.last();
        lemma_without_project_props(prefix, pid);
        let rest = relations_without_project(prefix, pid);
        assert forall|k: int| 0 <= k < out.len() implies rels.contains(#[trigger] out[k]) by {
            if k < rest.len() {
                assert(prefix.contains(rest[k]));
                let m = choose|m: int| 0 <= m < prefix.len() && prefix[m] == rest[k];
                assert(rels[m] == out[k]);
            } else {
                assert(rels[rels.len() - 1] == out[k]);
            }
        }
        if unique_pairs(rels) {
            assert(unique_pairs(prefix));
            assert forall|i: int, j: int| #![trigger out[i], out[j]]
                0 <= i < j < out.len() implies out[i] != out[j] by {
                if j < rest.len() {
                } else {
                    assert(out[j] == last);
                    assert(prefix.contains(rest[i]));
                    let m = choose|m: int| 0 <= m < prefix.len() && prefix[m] == rest[i];
                    assert(rels[m] != rels[rels.len() - 1]);
                }
            }
        }
    }
}

/// If no relation references `pid`, project `pid` has no member ids.
pub proof fn lemma_member_ids_absent(rels: Seq<Relation>, pid: i32)
    requires
        forall|i: int| 0 <= i < rels.len() ==> (#[trigger] rels[i]).project_id != pid,
    ensures
        member_ids(rels, pid) == Seq::<i32>::empty(),
    decreases rels.len(),
{
    if rels.len() > 0 {
        lemma_member_ids_absent(rels.drop_last(), pid);
    }
}

impl Store {
    /// Whether the membership relation holds the pair.
    pub fn has_member(&self, pid: i32, uid: i32) -> (r: bool)
        ensures
            r == has_pair(self.relations@, pid, uid),
    {
        let mut i: usize = 0;
        while i < self.relations.len()
            invariant
                i <= self.relations@.len(),
                forall|j: int|
                    0 <= j < i ==> !((#[trigger] self.relations@[j]).project_id == pid
                        && self.relations@[j].user_id == uid),
            decreases self.relations@.len() - i,
        {
            if self.relations[i].project_id == pid && self.relations[i].user_id == uid {
                return true;
            }
            i += 1;
        }
        false
    }

    /// Inserts a membership pair; the store's uniqueness constraint
    /// rejects a duplicate with a conflict.
    pub fn relation_add(&mut self, pid: i32, uid: i32) -> (r: Result<(), ServiceError>)
        requires
            old(self).wf(),
            has_project(old(self).projects@, pid),
            has_user(old(self).users@, uid),
        ensures
            final(self).wf(),
            r is Ok <==> !has_pair(old(self).relations@, pid, uid),
            r is Ok ==> final(self).relations@ == old(self).relations@.push(
                Relation { project_id: pid, user_id: uid },
            ) && final(self).projects@ == old(self).projects@ && final(self).users@ == old(
                self,
            ).users@ && final(self).next_id == old(self).next_id,
            r matches Err(e) ==> e == ServiceError::Conflict && *final(self) == *old(self),
    {
        if self.has_member(pid, uid) {
            return Err(ServiceError::Conflict);
        }
        let added = Relation { project_id: pid, user_id: uid };
        self.relations.push(added);
        proof {
            assert forall|i: int|
                0 <= i < old(self).relations@.len() implies old(self).relations@[i] != added by {
                if old(self).relations@[i] == added {
                    assert(has_pair(old(self).relations@, pid, uid));
                }
            }
            assert forall|i: int|
                0 <= i < self.relations@.len() implies has_project(
                self.projects@,
                (#[trigger] self.relations@[i]).project_id,
            ) && has_user(self.users@, self.relations@[i].user_id) by {
                if i < old(self).relations@.len() {
                    assert(self.relations@[i] == old(self).relations@[i]);
                }
            }
        }
        Ok(())
    }

    /// Deletes a membership pair if present; removing an absent pair
    /// is a no-op, not an error.
    pub fn relation_remove(&mut self, pid: i32, uid: i32)
        requires
            old(self).wf(),
        ensures
            final(self).wf(),
            final(self).relations@ == relations_without_pair(old(self).relations@, pid, uid),
            !has_pair(final(self).relations@, pid, uid),
            !has_pair(old(self).relations@, pid, uid) ==> final(self).relations@ == old(
                self,
            ).relations@,
            final(self).projects@ == old(self).projects@,
            final(self).users@ == old(self).users@,
            final(self).next_id == old(self).next_id,
    {
        let ghost rels = self.relations@;
        let mut kept: Vec<Relation> = Vec::new();
        let mut i: usize = 0;
        while i < self.relations.len()
            invariant
                *self == *old(self),
                rels == self.relations@,
                i <= rels.len(),
                kept@ == relations_without_pair(rels.take(i as int), pid, uid),
            decreases rels.len() - i,
        {
            proof {
                assert(rels.take(i + 1).drop_last() =~= rels.take(i as int));
                assert(rels.take(i + 1).last() == rels[i as int]);
            }
            let r = self.relations[i];
            if !(r.project_id == pid && r.user_id == uid) {
                kept.push(r);
            }
            i += 1;
        }
        proof {
            assert(rels.take(rels.len() as int) =~= rels);
        }
        self.relations = kept;
        proof {
            lemma_without_pair_props(rels, pid, uid);
            assert forall|i: int|
                0 <= i < self.relations@.len() implies has_project(
                self.projects@,
                (#[trigger] self.relations@[i]).project_id,
            ) && has_user(self.users@, self.relations@[i].user_id) by {
                assert(rels.contains(self.relations@[i]));
                let m = choose|m: int| 0 <= m < rels.len() && rels[m] == self.relations@[i];
                assert(has_project(old(self).projects@, rels[m].project_id));
                assert(has_user(old(self).users@, rels[m].user_id));
            }
        }
    }

    /// Deletes every membership pair referencing project `pid`; used
    /// solely while a project is deleted, so that no orphaned relation
    /// remains.
    pub fn relation_remove_all(&mut self, pid: i32)
        requires
            old(self).wf(),
        ensures
            final(self).wf(),
            final(self).relations@ == relations_without_project(old(self).relations@, pid),
            forall|i: int|
                0 <= i < final(self).relations@.len() ==> (
                #[trigger] final(self).relations@[i]).project_id != pid,
            final(self).projects@ == old(self).projects@,
            final(self).users@ == old(self).users@,
            final(self).next_id == old(self).next_id,
    {
        let ghost rels = self.relations@;
        let mut kept: Vec<Relation> = Vec::new();
        let mut i: usize = 0;
        while i < self.relations.len()
            invariant
                *self == *old(self),
                rels == self.relations@,
                i <= rels.len(),
                kept@ == relations_without_project(rels.take(i as int), pid),
            decreases rels.len() - i,
        {
            proof {
                assert(rels.take(i + 1).drop_last() =~= rels.take(i as int));
                assert(rels.take(i + 1).last() == rels[i as int]);
            }
            let r = self.relations[i];
            if r.project_id != pid {
                kept.push(r);
            }
            i += 1;
        }
        proof {
            assert(rels.take(rels.len() as int) =~= rels);
        }
        self.relations = kept;
        proof {
            lemma_without_project_props(rels, pid);
            assert forall|i: int|
                0 <= i < self.relations@.len() implies has_project(
                self.projects@,
                (#[trigger] self.relations@[i]).project_id,
            ) && has_user(self.users@, self.relations@[i].user_id) by {
                assert(rels.contains(self.relations@[i]));
                let m = choose|m: int| 0 <= m < rels.len() && rels[m] == self.relations@[i];
                assert(has_project(old(self).projects@, rels[m].project_id));
                assert(has_user(old(self).users@, rels[m].user_id));
            }
        }
    }

    /// The users joined to project `pid`, resolved through the user
    /// rows, in the stable order of the membership relation.
    pub fn member_list(&self, pid: i32) -> (r: Vec<User>)
        requires
            self.wf(),
        ensures
            r@ == spec_member_list(*self, pid),
    {
        let ghost rels = self.relations@;
        let mut out: Vec<User> = Vec::new();
        let mut i: usize = 0;
        while i < self.relations.len()
            invariant
                self.wf(),
                rels == self.relations@,
                i <= rels.len(),
                out@ == user_list_of(self.users@, member_ids(rels.take(i as int), pid)),
            decreases rels.len() - i,
        {
            proof {
                assert(rels.take(i + 1).drop_last() =~= rels.take(i as int));
                assert(rels.take(i + 1).last() == rels[i as int]);
            }
            let r = self.relations[i];
            if r.project_id == pid {
                proof {
                    assert(has_user(self.users@, r.user_id));
                }
                let idx = self.user_index(r.user_id).unwrap();
                out.push(self.users[idx]);
                proof {
                    lemma_user_with_index(self.users@, r.user_id, idx as int);
                    assert(out@ =~= user_list_of(
                        self.users@,
                        member_ids(rels.take(i + 1), pid),
                    ));
                }
            } else {
                proof {
                    assert(out@ =~= user_list_of(
                        self.users@,
                        member_ids(rels.take(i + 1), pid),
                    ));
                }
            }
            i += 1;
        }
        proof {
            assert(rels.take(rels.len() as int) =~= rels);
        }
        out
    }
}

} // verus!
