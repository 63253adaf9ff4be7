use vstd::prelude::*;

use crate::store::Project;

verus! {

/// A user identity: a numeric id and an integer access tier
/// (0 = basic, 1 = elevated, above 1 = administrator). Users are
/// owned externally; this core only reads them.
#[derive(Clone, Copy, Debug, PartialEq, Eq, Structural)]
pub struct User {
    pub id: i32,
    pub tier: i32,
}

/// The operations the authorization policy decides.
#[derive(Clone, Copy, Debug, PartialEq, Eq, Structural)]
pub enum Operation {
    View,
    Create,
    Edit,
    Delete,
    AddMember,
    RemoveMember,
    Join,
}

/// The decision table of the authorization policy. `None` is the
/// anonymous actor. Views are open to everyone; creation needs any
/// authenticated actor; edit and delete need an administrator or the
/// owner; membership management needs an elevated actor or the owner;
/// self-join is gated by the project being active, not by identity.
pub open spec fn spec_allowed(actor: Option<User>, project: Project, op: Operation) -> bool {
    match op {
        Operation::View => true,
        Operation::Create => actor is Some,
        Operation::Edit => actor matches Some(u) && (u.tier > 1 || u.id == project.owner_id),
        Operation::Delete => actor matches Some(u) && (u.tier > 1 || u.id == project.owner_id),
        Operation::AddMember => actor matches Some(u) && (u.tier > 0 || u.id == project.owner_id),
        Operation::RemoveMember => actor matches Some(u) && (u.tier > 0 || u.id
            == project.owner_id),
        Operation::Join => actor is Some && project.active,
    }
}

/// Pure decision function of the authorization policy.
pub fn allowed(actor: &Option<User>, project: &Project, op: Operation) -> (r: bool)
    ensures
        r == spec_allowed(*actor, *project, op),
{
    match op {
        Operation::View => true,
        Operation::Create => actor.is_some(),
        Operation::Edit | Operation::Delete => match actor {
            Some(u) => u.tier > 1 || u.id == project.owner_id,
            None => false,
        },
        Operation::AddMember | Operation::RemoveMember => match actor {
            Some(u) => u.tier > 0 || u.id == project.owner_id,
            None => false,
        },
        Operation::Join => actor.is_some() && project.active,
    }
}

/// Law: for every actor and project, edit is allowed exactly when the
/// actor's tier is above one or the actor owns the project, and delete
/// is decided by the same predicate; the anonymous actor may do neither.
pub proof fn lemma_edit_delete_rule(actor: User, project: Project)
    ensures
        spec_allowed(Some(actor), project, Operation::Edit) <==> (actor.tier > 1 || actor.id
            == project.owner_id),
        spec_allowed(Some(actor), project, Operation::Delete) <==> (actor.tier > 1 || actor.id
            == project.owner_id),
        spec_allowed(Some(actor), project, Operation::Edit) == spec_allowed(
            Some(actor),
            project,
            Operation::Delete,
        ),
        !spec_allowed(None, project, Operation::Edit),
        !spec_allowed(None, project, Operation::Delete),
{
}

} // verus!
