use observ::aggregator::{aggregate_plan, collect_fetched, repo_endpoints};
use observ::errors::ServiceError;

fn doc(text: &str) -> serde_json::Value {
    serde_json::from_str::<serde_json::Value>(text).unwrap()
}

#[test]
fn empty_repo_list_yields_no_plan() {
    assert_eq!(aggregate_plan(&Vec::new()), None);
}

#[test]
fn unsupported_entries_yield_no_plan() {
    let repos = vec![String::from("not-a-url")];
    assert_eq!(aggregate_plan(&repos), None);
}

#[test]
fn single_supported_entry_yields_one_fetch() {
    let repos = vec![String::from("https://github.com/x/y")];
    let plan = aggregate_plan(&repos).unwrap();
    assert_eq!(plan.len(), 1);
    assert_eq!(plan[0], "https://api.github.com/repos/x/y/commits?per_page=100");
}

#[test]
fn plan_keeps_input_order_and_drops_unsupported() {
    let repos = vec![
        String::from("https://github.com/a/b"),
        String::from("not-a-repo"),
        String::from("github.com/c/d"),
    ];
    let endpoints = repo_endpoints(&repos);
    assert_eq!(
        endpoints,
        vec![
            String::from("https://api.github.com/repos/a/b/commits?per_page=100"),
            String::from("https://api.github.com/repos/c/d/commits?per_page=100"),
        ]
    );
}

#[test]
fn single_fetch_success_yields_single_element() {
    let repos = vec![String::from("https://github.com/x/y")];
    let plan = aggregate_plan(&repos).unwrap();
    let fetched: Vec<Option<serde_json::Value>> = plan.iter().map(|_| Some(doc("[]"))).collect();
    assert_eq!(fetched.len(), 1);
    let merged = collect_fetched(fetched).unwrap();
    assert_eq!(merged.len(), 1);
    assert_eq!(merged[0], doc("[]"));
}

#[test]
fn all_payloads_present_collects_in_order() {
    let fetched = vec![Some(doc("[1,2]")), Some(doc("{\"sha\":\"abc\"}"))];
    let merged = collect_fetched(fetched).unwrap();
    assert_eq!(merged.len(), 2);
    assert_eq!(merged[0], doc("[1,2]"));
    assert_eq!(merged[1], doc("{\"sha\":\"abc\"}"));
}

#[test]
fn one_failed_fetch_is_fatal() {
    let fetched = vec![Some(doc("[1]")), None, Some(doc("[2]"))];
    assert_eq!(collect_fetched(fetched), Err(ServiceError::Upstream));
}

#[test]
fn no_planned_fetches_collect_to_nothing() {
    let merged = collect_fetched(Vec::new()).unwrap();
    assert_eq!(merged.len(), 0);
}
