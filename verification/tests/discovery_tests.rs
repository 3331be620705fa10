use signal_hive::discovery::{
    absorb_search_results, code_search_query, discovery_full, issue_page_size, open_issues_only,
    repository_query, search_languages, search_page_size,
};
use signal_hive::models::{GitHubIssue, ScanParams, SearchRepo, SearchRepoOwner};

fn params(query: &str, topics: Vec<&str>, languages: Vec<&str>, min_stars: u32) -> ScanParams {
    ScanParams {
        search_query: query.into(),
        topics: topics.into_iter().map(String::from).collect(),
        languages: languages.into_iter().map(String::from).collect(),
        min_stars,
        max_repos: 8,
        issues_per_repo: 30,
        stale_days: 45,
    }
}

fn found(name: &str) -> SearchRepo {
    SearchRepo {
        name: name.split('/').nth(1).unwrap_or(name).into(),
        full_name: name.into(),
        html_url: format!("https://github.com/{name}"),
        description: None,
        language: None,
        stargazers_count: 1,
        open_issues_count: 0,
        owner: SearchRepoOwner { login: "o".into() },
    }
}

fn issue(number: u32, pr: bool) -> GitHubIssue {
    GitHubIssue {
        number,
        title: format!("issue {number}"),
        html_url: String::new(),
        updated_at: String::new(),
        comments: 0,
        labels: Vec::new(),
        is_pull_request: pr,
    }
}

#[test]
fn repository_query_lists_the_filters() {
    let p = params("  ci flake ", vec![" devtools ", "  ", "testing"], Vec::new(), 0);
    assert_eq!(
        repository_query(&p, "rust"),
        "archived:false is:public stars:>=1 ci flake devtools testing language:rust"
    );
    let p = params("", Vec::new(), Vec::new(), 25);
    assert_eq!(repository_query(&p, " "), "archived:false is:public stars:>=25");
}

#[test]
fn languages_default_to_one_unfiltered_search() {
    assert_eq!(search_languages(&params("", Vec::new(), Vec::new(), 1)), vec![String::new()]);
    assert_eq!(
        search_languages(&params("", Vec::new(), vec!["rust", "go"], 1)),
        vec!["rust".to_string(), "go".to_string()]
    );
}

#[test]
fn page_sizes_are_capped() {
    assert_eq!(search_page_size(8), 8);
    assert_eq!(search_page_size(40), 25);
    assert_eq!(issue_page_size(30), 30);
    assert_eq!(issue_page_size(500), 100);
    assert!(discovery_full(8, 8));
    assert!(!discovery_full(7, 8));
}

#[test]
fn search_results_are_filtered_deduplicated_and_capped() {
    let mut repos = vec![found("org/a")];
    let items = vec![found("org/a"), found("Org/Denied"), found("org/b"), found("org/c"), found("org/d")];
    let deny = vec!["org/denied".to_string()];
    absorb_search_results(&mut repos, items, 3, &Vec::new(), &deny, &Vec::new());
    let names: Vec<&str> = repos.iter().map(|r| r.full_name.as_str()).collect();
    assert_eq!(names, vec!["org/a", "org/b", "org/c"]);
}

#[test]
fn pull_requests_are_left_out() {
    let open = open_issues_only(vec![issue(1, false), issue(2, true), issue(3, false)]);
    let numbers: Vec<u32> = open.iter().map(|i| i.number).collect();
    assert_eq!(numbers, vec![1, 3]);
}

#[test]
fn code_search_query_scopes_the_marker() {
    assert_eq!(code_search_query("TODO", "org/a"), "TODO repo:org/a");
}
