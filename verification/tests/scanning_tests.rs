use signal_hive::models::{RepoSignal, ScanParams, SearchRepo, SearchRepoOwner};
use signal_hive::scanning::{
    add_scan_warning, analysis_failure_warning, capped_marker_counts, check_scan_scope,
    marker_budget_warning, marker_scan_repo_limit, marker_search_in_budget, rank_drafts, rank_signals,
};
use signal_hive::scoring::{IssueAnalysis, RepoAnalysisDraft};

fn params(query: &str, languages: Vec<&str>) -> ScanParams {
    ScanParams {
        search_query: query.into(),
        topics: Vec::new(),
        languages: languages.into_iter().map(String::from).collect(),
        min_stars: 25,
        max_repos: 8,
        issues_per_repo: 30,
        stale_days: 45,
    }
}

fn signal(name: &str, priority_tenths: i64, stars: u32) -> RepoSignal {
    RepoSignal {
        full_name: name.into(),
        repo_url: String::new(),
        description: String::new(),
        language: String::new(),
        stars,
        open_issues: 0,
        sampled_issues: 0,
        stale_issues: 0,
        unlabeled_issues: 0,
        stale_bug_issues: 0,
        stale_high_comment_issues: 0,
        duplicate_candidates: Vec::new(),
        recurring_bug_clusters: Vec::new(),
        todo_count: 0,
        fixme_count: 0,
        todo_available: true,
        fixme_available: true,
        priority_tenths,
        score_breakdown: Vec::new(),
        summary: String::new(),
        signals: Vec::new(),
        issue_examples: Vec::new(),
        warnings: Vec::new(),
        trend: None,
    }
}

fn draft(name: &str, priority: i64, stars: u32) -> RepoAnalysisDraft {
    RepoAnalysisDraft {
        repo: SearchRepo {
            name: name.into(),
            full_name: name.into(),
            html_url: String::new(),
            description: None,
            language: None,
            stargazers_count: stars,
            open_issues_count: 0,
            owner: SearchRepoOwner { login: String::new() },
        },
        issue_analysis: IssueAnalysis {
            sampled_issues: 0,
            stale_issues: 0,
            unlabeled_issues: 0,
            stale_bug_issues: 0,
            stale_high_comment_issues: 0,
            issue_examples: Vec::new(),
            duplicate_candidates: Vec::new(),
            recurring_bug_clusters: Vec::new(),
        },
        issue_only_priority_tenths: priority,
    }
}

#[test]
fn a_scan_needs_something_to_search_for() {
    let err = check_scan_scope(&params("", Vec::new()), &Vec::new()).unwrap_err();
    assert_eq!(err, "Provide at least a search query, topic, or language, or configure an allowlist.");
    assert!(check_scan_scope(&params("", vec!["rust"]), &Vec::new()).is_ok());
    assert!(check_scan_scope(&params("", Vec::new()), &vec!["a/b".to_string()]).is_ok());
}

#[test]
fn signals_rank_by_priority_then_stars() {
    let ranked = rank_signals(vec![
        signal("a", 50, 1),
        signal("b", 90, 1),
        signal("c", 50, 9),
        signal("d", 50, 1),
    ]);
    let names: Vec<&str> = ranked.iter().map(|s| s.full_name.as_str()).collect();
    assert_eq!(names, vec!["b", "c", "a", "d"]);
}

#[test]
fn drafts_rank_by_issue_priority_then_stars() {
    let ranked = rank_drafts(vec![draft("x", 10, 5), draft("y", 30, 1), draft("z", 10, 7)]);
    let names: Vec<&str> = ranked.iter().map(|d| d.repo.full_name.as_str()).collect();
    assert_eq!(names, vec!["y", "z", "x"]);
}

#[test]
fn code_search_budget_and_its_warnings() {
    assert!(marker_search_in_budget(2, 3));
    assert!(!marker_search_in_budget(3, 3));
    assert_eq!(marker_budget_warning(3, 3), None);
    assert_eq!(
        marker_budget_warning(5, 3).unwrap(),
        "SignalHive only ran TODO/FIXME code search on the top 3 repos in this scan to stay within GitHub search limits. Marker counts are unavailable for the rest of the queue."
    );
    let capped = capped_marker_counts();
    assert!(!capped.todo_available && !capped.fixme_available);
    assert_eq!(capped.warnings.len(), 1);
}

#[test]
fn scan_warnings_are_kept_once() {
    let mut warnings = Vec::new();
    add_scan_warning(&mut warnings, analysis_failure_warning("org/a", "timeout"));
    add_scan_warning(&mut warnings, "other".to_string());
    add_scan_warning(&mut warnings, analysis_failure_warning("org/a", "timeout"));
    assert_eq!(
        warnings,
        vec!["SignalHive could not analyze `org/a` in this scan: timeout".to_string(), "other".to_string()]
    );
}

#[test]
fn code_search_budget_reads_its_setting_or_falls_back_to_five() {
    assert_eq!(marker_scan_repo_limit(None), 5);
    assert_eq!(marker_scan_repo_limit(Some("12".to_string())), 12);
    assert_eq!(marker_scan_repo_limit(Some(" +3\n".to_string())), 3);
    assert_eq!(marker_scan_repo_limit(Some("0".to_string())), 0);
    assert_eq!(marker_scan_repo_limit(Some("".to_string())), 5);
    assert_eq!(marker_scan_repo_limit(Some("+".to_string())), 5);
    assert_eq!(marker_scan_repo_limit(Some("-2".to_string())), 5);
    assert_eq!(marker_scan_repo_limit(Some("7 repos".to_string())), 5);
    assert_eq!(marker_scan_repo_limit(Some("99999999999999999999999".to_string())), 5);
}

#[test]
fn scan_parameters_are_held_to_their_bounds() {
    let mut given = params("cli", vec!["rust"]);
    given.max_repos = 0;
    given.issues_per_repo = 500;
    given.stale_days = 0;
    given.min_stars = 7;
    let held = signal_hive::scanning::clamp_params(given);
    assert_eq!((held.max_repos, held.issues_per_repo, held.stale_days, held.min_stars), (1, 100, 1, 7));
    assert_eq!(held.search_query, "cli");
    assert_eq!(held.languages, vec!["rust".to_string()]);
    let mut big = params("", vec![]);
    big.max_repos = 80;
    big.stale_days = 9000;
    let held = signal_hive::scanning::clamp_params(big);
    assert_eq!((held.max_repos, held.issues_per_repo, held.stale_days), (50, 30, 3650));
}
