use observ::matcher::match_repo_url;

#[test]
fn bare_host_url_matches() {
    assert_eq!(
        match_repo_url("github.com/a/b"),
        Some(String::from("https://api.github.com/repos/a/b/commits?per_page=100"))
    );
}

#[test]
fn https_url_matches() {
    assert_eq!(
        match_repo_url("https://github.com/acme/widgets"),
        Some(String::from("https://api.github.com/repos/acme/widgets/commits?per_page=100"))
    );
}

#[test]
fn http_url_matches() {
    assert_eq!(
        match_repo_url("http://github.com/a/b"),
        Some(String::from("https://api.github.com/repos/a/b/commits?per_page=100"))
    );
}

#[test]
fn trailing_slash_is_dropped() {
    assert_eq!(
        match_repo_url("https://github.com/a/b/"),
        Some(String::from("https://api.github.com/repos/a/b/commits?per_page=100"))
    );
}

#[test]
fn empty_string_does_not_match() {
    assert_eq!(match_repo_url(""), None);
}

#[test]
fn plain_text_does_not_match() {
    assert_eq!(match_repo_url("not-a-url"), None);
}

#[test]
fn other_host_does_not_match() {
    assert_eq!(match_repo_url("https://gitlab.com/a/b"), None);
}

#[test]
fn host_is_case_sensitive() {
    assert_eq!(match_repo_url("GitHub.com/a/b"), None);
}

#[test]
fn owner_without_repo_does_not_match() {
    assert_eq!(match_repo_url("github.com/a"), None);
    assert_eq!(match_repo_url("github.com/a/"), None);
    assert_eq!(match_repo_url("github.com/"), None);
}

#[test]
fn whitespace_in_path_does_not_match() {
    assert_eq!(match_repo_url("github.com/a b/c"), None);
    assert_eq!(match_repo_url("github.com/a/b c"), None);
}

#[test]
fn other_scheme_does_not_match() {
    assert_eq!(match_repo_url("ftp://github.com/a/b"), None);
}

#[test]
fn leading_slash_only_does_not_match() {
    assert_eq!(match_repo_url("github.com//x"), None);
}

#[test]
fn inner_slashes_are_kept_verbatim() {
    assert_eq!(
        match_repo_url("github.com/a/b/c"),
        Some(String::from("https://api.github.com/repos/a/b/c/commits?per_page=100"))
    );
}
