use observ::errors::ServiceError;
use observ::policy::{allowed, Operation, User};
use observ::service::ProjectDraft;
use observ::store::{project_repos, Store};

fn user(id: i32, tier: i32) -> User {
    User { id, tier }
}

fn draft(name: &str, owner_id: i32, active: bool, repos: &str) -> ProjectDraft {
    ProjectDraft {
        name: String::from(name),
        owner_id,
        active,
        repos: String::from(repos),
    }
}

fn seeded() -> Store {
    let mut s = Store::new();
    s.add_user(1, 0).unwrap();
    s.add_user(2, 1).unwrap();
    s.add_user(3, 2).unwrap();
    s
}

#[test]
fn create_forces_owner_and_sole_membership() {
    let mut s = seeded();
    let creator = user(2, 1);
    let pid = s.create(&creator, &draft("apollo", 99, true, "[]")).unwrap();
    let p = s.find_project(pid).unwrap();
    assert_eq!(p.owner_id, 2);
    let members = s.members_of(pid).unwrap();
    assert_eq!(members.len(), 1);
    assert_eq!(members[0], creator);
}

#[test]
fn create_rejects_malformed_repo_encoding() {
    let mut s = seeded();
    let r = s.create(&user(1, 0), &draft("apollo", 1, true, "not json"));
    assert_eq!(r, Err(ServiceError::Validation));
    assert_eq!(s.filter_projects(None).len(), 0);
}

#[test]
fn create_rejects_unknown_creator() {
    let mut s = seeded();
    let r = s.create(&user(42, 0), &draft("apollo", 42, true, "[]"));
    assert_eq!(r, Err(ServiceError::NotFound));
}

#[test]
fn edit_delete_rule_is_tier_or_ownership() {
    let mut s = seeded();
    let pid = s.create(&user(1, 0), &draft("apollo", 1, true, "[]")).unwrap();
    let p = s.find_project(pid).unwrap();
    // The owner, whatever the tier.
    assert!(allowed(&Some(user(1, 0)), p, Operation::Edit));
    assert!(allowed(&Some(user(1, 0)), p, Operation::Delete));
    // An administrator who is not the owner.
    assert!(allowed(&Some(user(3, 2)), p, Operation::Edit));
    assert!(allowed(&Some(user(3, 2)), p, Operation::Delete));
    // An elevated user who is neither.
    assert!(!allowed(&Some(user(2, 1)), p, Operation::Edit));
    assert!(!allowed(&Some(user(2, 1)), p, Operation::Delete));
    // The anonymous actor may view but not mutate.
    assert!(allowed(&None, p, Operation::View));
    assert!(!allowed(&None, p, Operation::Edit));
    assert!(!allowed(&None, p, Operation::Create));
    assert!(allowed(&Some(user(1, 0)), p, Operation::Create));
}

#[test]
fn edit_requires_tier_or_ownership() {
    let mut s = seeded();
    let pid = s.create(&user(1, 0), &draft("apollo", 1, true, "[]")).unwrap();
    let r = s.edit(&user(2, 1), pid, &draft("renamed", 1, true, "[]"));
    assert_eq!(r, Err(ServiceError::Unauthorized));
    s.edit(&user(1, 0), pid, &draft("renamed", 1, false, "[]")).unwrap();
    let p = s.find_project(pid).unwrap();
    assert_eq!(p.name, "renamed");
    assert!(!p.active);
}

#[test]
fn edit_keeps_owner_from_draft() {
    let mut s = seeded();
    let pid = s.create(&user(1, 0), &draft("apollo", 1, true, "[]")).unwrap();
    // An administrator edits and the draft states another owner: the
    // stated value is kept, not re-derived from the editing actor.
    s.edit(&user(3, 2), pid, &draft("apollo", 2, true, "[]")).unwrap();
    assert_eq!(s.find_project(pid).unwrap().owner_id, 2);
}

#[test]
fn inactive_join_conflicts_for_every_tier() {
    let mut s = seeded();
    let pid = s.create(&user(1, 0), &draft("apollo", 1, false, "[]")).unwrap();
    assert_eq!(s.join(&user(2, 1), pid), Err(ServiceError::Conflict));
    // Even an administrator gets the conflict, never an authorization failure.
    assert_eq!(s.join(&user(3, 2), pid), Err(ServiceError::Conflict));
}

#[test]
fn active_join_succeeds() {
    let mut s = seeded();
    let pid = s.create(&user(1, 0), &draft("apollo", 1, true, "[]")).unwrap();
    s.join(&user(2, 1), pid).unwrap();
    assert_eq!(s.members_of(pid).unwrap().len(), 2);
}

#[test]
fn duplicate_add_conflicts_and_absent_remove_is_noop() {
    let mut s = seeded();
    let pid = s.create(&user(1, 0), &draft("apollo", 1, true, "[]")).unwrap();
    s.add_member(&user(1, 0), pid, 2).unwrap();
    assert_eq!(s.add_member(&user(1, 0), pid, 2), Err(ServiceError::Conflict));
    // Removing a pair that is not there succeeds and changes nothing.
    s.remove_member(&user(1, 0), pid, 3).unwrap();
    assert_eq!(s.members_of(pid).unwrap().len(), 2);
    s.remove_member(&user(1, 0), pid, 2).unwrap();
    assert_eq!(s.members_of(pid).unwrap().len(), 1);
}

#[test]
fn membership_needs_elevation_or_ownership() {
    let mut s = seeded();
    let pid = s.create(&user(2, 1), &draft("apollo", 2, true, "[]")).unwrap();
    assert_eq!(s.add_member(&user(1, 0), pid, 3), Err(ServiceError::Unauthorized));
    assert_eq!(s.remove_member(&user(1, 0), pid, 2), Err(ServiceError::Unauthorized));
    s.add_member(&user(3, 2), pid, 1).unwrap();
    assert_eq!(s.members_of(pid).unwrap().len(), 2);
}

#[test]
fn unknown_project_is_not_found() {
    let mut s = seeded();
    assert_eq!(s.add_member(&user(3, 2), 77, 1), Err(ServiceError::NotFound));
    assert_eq!(s.join(&user(1, 0), 77), Err(ServiceError::NotFound));
    assert_eq!(s.delete(&user(3, 2), 77), Err(ServiceError::NotFound));
    assert!(s.members_of(77).is_none());
    assert_eq!(s.commit_plan(77), Err(ServiceError::NotFound));
}

#[test]
fn delete_cascades_membership() {
    let mut s = seeded();
    let pid = s.create(&user(1, 0), &draft("apollo", 1, true, "[]")).unwrap();
    let other = s.create(&user(2, 1), &draft("zeus", 2, true, "[]")).unwrap();
    s.add_member(&user(1, 0), pid, 2).unwrap();
    s.add_member(&user(1, 0), pid, 3).unwrap();
    s.delete(&user(1, 0), pid).unwrap();
    assert!(s.members_of(pid).is_none());
    // No orphaned relation remains for the deleted project.
    assert!(s.relations.iter().all(|r| r.project_id != pid));
    // The other project's membership is untouched.
    assert_eq!(s.members_of(other).unwrap().len(), 1);
}

#[test]
fn delete_requires_tier_or_ownership() {
    let mut s = seeded();
    let pid = s.create(&user(1, 0), &draft("apollo", 1, true, "[]")).unwrap();
    assert_eq!(s.delete(&user(2, 1), pid), Err(ServiceError::Unauthorized));
    s.delete(&user(3, 2), pid).unwrap();
    assert!(s.find_project(pid).is_none());
}

#[test]
fn repo_normalization_and_commit_plan_scenario() {
    let mut s = seeded();
    let pid = s
        .create(
            &user(1, 0),
            &draft(
                "apollo",
                1,
                true,
                "[\"https://github.com/acme/widgets\", \"not-a-repo\", \"\"]",
            ),
        )
        .unwrap();
    // Empty entries are dropped; unsupported entries are kept verbatim.
    let stored = project_repos(s.find_project(pid).unwrap());
    assert_eq!(
        stored,
        vec![String::from("https://github.com/acme/widgets"), String::from("not-a-repo")]
    );
    // Aggregation plans only the supported entry.
    let plan = s.commit_plan(pid).unwrap().unwrap();
    assert_eq!(
        plan,
        vec![String::from("https://api.github.com/repos/acme/widgets/commits?per_page=100")]
    );
}

#[test]
fn commit_plan_is_none_without_supported_repos() {
    let mut s = seeded();
    let none_pid = s.create(&user(1, 0), &draft("bare", 1, true, "[]")).unwrap();
    assert_eq!(s.commit_plan(none_pid), Ok(None));
    let odd_pid = s
        .create(&user(1, 0), &draft("odd", 1, true, "[\"not-a-repo\"]"))
        .unwrap();
    assert_eq!(s.commit_plan(odd_pid), Ok(None));
}

#[test]
fn list_and_search_projects() {
    let mut s = seeded();
    s.create(&user(1, 0), &draft("apollo", 1, true, "[]")).unwrap();
    s.create(&user(2, 1), &draft("marsrover", 2, true, "[]")).unwrap();
    s.create(&user(2, 1), &draft("polly", 2, true, "[]")).unwrap();
    assert_eq!(s.filter_projects(None).len(), 3);
    let hits = s.filter_projects(Some("oll"));
    assert_eq!(hits.len(), 2);
    assert_eq!(hits[0].name, "apollo");
    assert_eq!(hits[1].name, "polly");
    assert_eq!(s.filter_projects(Some("zeus")).len(), 0);
}

#[test]
fn find_by_name_returns_first_match() {
    let mut s = seeded();
    let first = s.create(&user(1, 0), &draft("apollo", 1, true, "[]")).unwrap();
    s.create(&user(2, 1), &draft("apollo", 2, true, "[]")).unwrap();
    assert_eq!(s.find_by_name("apollo"), Some(first));
    assert_eq!(s.find_by_name("nothere"), None);
}

#[test]
fn addable_users_excludes_members() {
    let mut s = seeded();
    let pid = s.create(&user(1, 0), &draft("apollo", 1, true, "[]")).unwrap();
    let open_seats = s.addable_users(&user(1, 0), pid).unwrap();
    assert_eq!(open_seats, vec![user(2, 1), user(3, 2)]);
    assert_eq!(
        s.addable_users(&user(5, 0), pid),
        Err(ServiceError::Unauthorized)
    );
}

#[test]
fn error_kinds_surface_distinct_statuses() {
    assert_eq!(ServiceError::NotFound.status_hint(), 404);
    assert_eq!(ServiceError::Unauthorized.status_hint(), 401);
    assert_eq!(ServiceError::Conflict.status_hint(), 409);
    assert_eq!(ServiceError::Upstream.status_hint(), 502);
    assert_eq!(ServiceError::Validation.status_hint(), 400);
}
