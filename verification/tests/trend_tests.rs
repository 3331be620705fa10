use signal_hive::models::{RecurringBugCluster, RepoSignal, ScanParams, ScanRecord, ScanSummary};
use signal_hive::trend::{enrich_scan_trend, marker_total, recurring_issue_count, repo_trend_status};

fn repo(name: &str, priority_tenths: i64, stale: u32) -> RepoSignal {
    RepoSignal {
        full_name: name.into(),
        repo_url: format!("https://github.com/{name}"),
        description: String::new(),
        language: "Rust".into(),
        stars: 10,
        open_issues: 2,
        sampled_issues: 2,
        stale_issues: stale,
        unlabeled_issues: 0,
        stale_bug_issues: 0,
        stale_high_comment_issues: 0,
        duplicate_candidates: Vec::new(),
        recurring_bug_clusters: Vec::new(),
        todo_count: 0,
        fixme_count: 0,
        todo_available: true,
        fixme_available: true,
        priority_tenths,
        score_breakdown: Vec::new(),
        summary: String::new(),
        signals: Vec::new(),
        issue_examples: Vec::new(),
        warnings: Vec::new(),
        trend: None,
    }
}

fn scan(id: &str, repos: Vec<RepoSignal>, total_signals: u32) -> ScanRecord {
    ScanRecord {
        id: id.into(),
        created_at: format!("{id}-time"),
        params: ScanParams {
            search_query: String::new(),
            topics: Vec::new(),
            languages: vec!["rust".into()],
            min_stars: 25,
            max_repos: 8,
            issues_per_repo: 30,
            stale_days: 45,
        },
        summary: ScanSummary { total_repos: repos.len() as u32, total_signals, top_repo: String::new() },
        repos,
        warnings: Vec::new(),
        trigger_type: "manual".into(),
        schedule_name: None,
        trend: None,
    }
}

#[test]
fn status_follows_clear_movements() {
    assert_eq!(repo_trend_status(50, 0, 0, 0, 0), "rising");
    assert_eq!(repo_trend_status(49, 1, 0, 2, 0), "steady");
    assert_eq!(repo_trend_status(0, -2, 0, 0, 0), "improving");
    assert_eq!(repo_trend_status(0, 0, 1, 0, -1), "steady");
    assert_eq!(repo_trend_status(0, 0, 0, 3, 0), "rising");
    assert_eq!(repo_trend_status(-50, 0, 0, 0, 0), "improving");
}

#[test]
fn negated_deltas_mirror_the_status() {
    let cases = [(50, 0, 0, 0, 0), (0, 3, 0, 0, 0), (0, 0, 1, -1, 0), (10, 1, 0, 0, 0)];
    for (p, s, d, m, r) in cases {
        let forward = repo_trend_status(p, s, d, m, r);
        let back = repo_trend_status(-p, -s, -d, -m, -r);
        let expected = match forward.as_str() {
            "rising" => "improving",
            "improving" => "rising",
            _ => "steady",
        };
        assert_eq!(back, expected);
    }
}

#[test]
fn marker_totals_count_only_available_searches() {
    assert_eq!(marker_total(3, 4, true, true), 7);
    assert_eq!(marker_total(3, 4, false, true), 4);
    assert_eq!(marker_total(3, 4, false, false), 0);
    let clusters = vec![
        RecurringBugCluster { label: "a".into(), issue_count: 3, shared_terms: Vec::new(), examples: Vec::new() },
        RecurringBugCluster { label: "b".into(), issue_count: 2, shared_terms: Vec::new(), examples: Vec::new() },
    ];
    assert_eq!(recurring_issue_count(&clusters), 5);
}

#[test]
fn trend_compares_each_repo_with_the_previous_scan() {
    let previous = scan(
        "prev",
        vec![repo("org/a", 100, 1), repo("org/b", 80, 5), repo("org/gone", 10, 0)],
        4,
    );
    let mut current = scan(
        "cur",
        vec![repo("org/a", 160, 1), repo("org/b", 80, 2), repo("org/new", 30, 1), repo("org/a", 1, 0)],
        6,
    );
    enrich_scan_trend(&mut current, &previous);
    let statuses: Vec<&str> = current.repos.iter().map(|r| r.trend.as_ref().unwrap().status.as_str()).collect();
    assert_eq!(statuses, vec!["rising", "improving", "new", "new"]);
    let a = current.repos[0].trend.as_ref().unwrap();
    assert_eq!(a.priority_delta_tenths, 60);
    assert_eq!(a.previous_priority_tenths, 100);
    assert_eq!(a.compared_to_scan_id, "prev");
    assert_eq!(a.compared_to_created_at, "prev-time");
    let b = current.repos[1].trend.as_ref().unwrap();
    assert_eq!(b.stale_delta, -3);
    let fresh = current.repos[2].trend.as_ref().unwrap();
    assert_eq!(fresh.priority_delta_tenths, 30);
    assert_eq!(fresh.stale_delta, 1);
    let summary = current.trend.as_ref().unwrap();
    assert_eq!(summary.total_repos_delta, 1);
    assert_eq!(summary.total_signals_delta, 2);
    assert_eq!(summary.new_repos, 2);
    assert_eq!(summary.dropped_repos, 1);
    assert_eq!(summary.rising_repos, 1);
    assert_eq!(summary.improving_repos, 1);
    assert_eq!(summary.steady_repos, 0);
    assert_eq!(
        summary.new_repos + summary.rising_repos + summary.improving_repos + summary.steady_repos,
        current.repos.len() as u32
    );
}

#[test]
fn trend_inputs_are_checked() {
    let ok = scan("a", vec![repo("org/a", 10, 1)], 1);
    assert!(signal_hive::trend::scan_fits_trend(&ok));
    let big = scan("b", vec![repo("org/a", 10, u32::MAX)], 1);
    assert!(!signal_hive::trend::scan_fits_trend(&big));
}

#[test]
fn a_scan_against_itself_is_steady_everywhere() {
    let previous = scan("same", vec![repo("org/a", 100, 1), repo("org/b", 80, 5)], 4);
    let mut current = scan("same", vec![repo("org/a", 100, 1), repo("org/b", 80, 5)], 4);
    enrich_scan_trend(&mut current, &previous);
    for r in &current.repos {
        let t = r.trend.as_ref().unwrap();
        assert_eq!(t.status, "steady");
        assert_eq!((t.priority_delta_tenths, t.stale_delta, t.duplicate_delta, t.marker_delta, t.recurring_delta), (0, 0, 0, 0, 0));
        assert_eq!(t.previous_priority_tenths, r.priority_tenths);
    }
    let summary = current.trend.as_ref().unwrap();
    assert_eq!(
        (summary.new_repos, summary.dropped_repos, summary.rising_repos, summary.improving_repos, summary.steady_repos),
        (0, 0, 0, 0, 2)
    );
}
