use signal_hive::analysis::{
    analyze_repo_issue_draft, collect_marker_counts, finalize_repo_signal, needs_fixme_search,
    marker_found, marker_search_failed, needs_todo_search, MarkerSearch,
};
use signal_hive::models::{DuplicateCandidate, RecurringBugCluster, SearchRepo, SearchRepoOwner};
use signal_hive::scoring::{
    priority_score, summary_from_signals, DensityReading, FactorImpacts, IssueAnalysis, MarkerCounts,
};

fn analysis() -> IssueAnalysis {
    IssueAnalysis {
        sampled_issues: 10,
        stale_issues: 4,
        unlabeled_issues: 3,
        stale_bug_issues: 2,
        stale_high_comment_issues: 0,
        issue_examples: Vec::new(),
        duplicate_candidates: vec![DuplicateCandidate {
            left_number: 1,
            right_number: 2,
            left_title: "crash on start".into(),
            right_title: "crash at start".into(),
            similarity_hundredths: 67,
        }],
        recurring_bug_clusters: vec![RecurringBugCluster {
            label: "crash / start".into(),
            issue_count: 3,
            shared_terms: vec!["crash".into(), "start".into()],
            examples: Vec::new(),
        }],
    }
}

fn impacts() -> FactorImpacts {
    FactorImpacts {
        stale_backlog_tenths: 224,
        stale_bug_tenths: 150,
        stalled_discussion_tenths: 0,
        recurring_bugs_tenths: 119,
        duplicates_tenths: 67,
        triage_gap_tenths: 96,
        markers_tenths: 17,
        density_tenths: 35,
        density_text: "20.0".into(),
    }
}

fn density(high: bool) -> DensityReading {
    DensityReading { high, per_100_stars: "20.0".into() }
}

fn repo() -> SearchRepo {
    SearchRepo {
        name: "example".into(),
        full_name: "patchhive/example".into(),
        html_url: "https://github.com/patchhive/example".into(),
        description: None,
        language: None,
        stargazers_count: 50,
        open_issues_count: 10,
        owner: SearchRepoOwner { login: "patchhive".into() },
    }
}

#[test]
fn breakdown_lists_applying_factors_largest_first() {
    let (total, breakdown) = priority_score(50, 10, &analysis(), 2, 1, &impacts());
    let keys: Vec<&str> = breakdown.iter().map(|f| f.key.as_str()).collect();
    assert_eq!(
        keys,
        vec!["stale_backlog", "stale_bug", "recurring_bugs", "triage_gap", "duplicates", "issue_density", "markers"]
    );
    assert_eq!(total, 224 + 150 + 119 + 96 + 67 + 35 + 17);
    assert_eq!(breakdown[0].label, "Stale backlog");
    assert_eq!(breakdown[0].detail, "4 of 10 sampled issues are stale");
    assert_eq!(
        breakdown[2].detail,
        "1 recurring bug clusters across 3 issues; top pattern 'crash / start' appears in 3 issues"
    );
    assert_eq!(breakdown[4].detail, "1 likely duplicate pairs; strongest pair looks 67% alike");
    assert_eq!(breakdown[5].detail, "10 open issues across 50 stars (20.0 per 100 stars)");
    assert_eq!(breakdown[6].detail, "2 TODO and 1 FIXME markers found");
}

#[test]
fn equal_impacts_keep_their_order_and_total_is_capped() {
    let mut i = impacts();
    i.stale_backlog_tenths = 400;
    i.stale_bug_tenths = 400;
    i.recurring_bugs_tenths = 400;
    let (total, breakdown) = priority_score(50, 10, &analysis(), 0, 0, &i);
    assert_eq!(breakdown[0].key, "stale_backlog");
    assert_eq!(breakdown[1].key, "stale_bug");
    assert_eq!(breakdown[2].key, "recurring_bugs");
    assert!(breakdown.iter().all(|f| f.key != "markers"));
    assert_eq!(total, 1000);
}

#[test]
fn an_empty_analysis_scores_zero() {
    let empty = IssueAnalysis {
        sampled_issues: 0,
        stale_issues: 0,
        unlabeled_issues: 0,
        stale_bug_issues: 0,
        stale_high_comment_issues: 0,
        issue_examples: Vec::new(),
        duplicate_candidates: Vec::new(),
        recurring_bug_clusters: Vec::new(),
    };
    let mut i = impacts();
    i.density_tenths = 0;
    let (total, breakdown) = priority_score(1000, 0, &empty, 0, 0, &i);
    assert_eq!(total, 0);
    assert!(breakdown.is_empty());
}

#[test]
fn summary_lists_signals_then_new_warnings() {
    let warnings = vec![
        "2 stale bug-like issues are still open".to_string(),
        "FIXME search failed".to_string(),
        "FIXME search failed".to_string(),
    ];
    let (summary, signals) = summary_from_signals(&analysis(), 2, 1, true, false, &warnings, &density(true));
    assert_eq!(
        signals,
        vec![
            "Recurring bug pattern 'crash / start' appears across 3 sampled issues".to_string(),
            "2 stale bug-like issues are still open".to_string(),
            "4 of 10 sampled issues look stale".to_string(),
            "1 likely duplicate issue pairs were found".to_string(),
            "3 sampled issues are unlabeled, which points to triage drift".to_string(),
            "FIXME marker counts were unavailable for this repo in this scan".to_string(),
            "Open issue density is high for repo size (20.0 per 100 stars)".to_string(),
            "FIXME search failed".to_string(),
        ]
    );
    assert_eq!(
        summary,
        "Recurring bug pattern 'crash / start' appears across 3 sampled issues · 2 stale bug-like issues are still open"
    );
}

#[test]
fn quiet_repository_gets_the_fallback_signal() {
    let quiet = IssueAnalysis {
        sampled_issues: 3,
        stale_issues: 0,
        unlabeled_issues: 1,
        stale_bug_issues: 0,
        stale_high_comment_issues: 0,
        issue_examples: Vec::new(),
        duplicate_candidates: Vec::new(),
        recurring_bug_clusters: Vec::new(),
    };
    let (summary, signals) = summary_from_signals(&quiet, 0, 0, true, true, &Vec::new(), &density(false));
    assert_eq!(signals, vec!["No major maintenance signals found in the current sample".to_string()]);
    assert_eq!(summary, "No major maintenance signals found in the current sample");
    let (_, signals) = summary_from_signals(&quiet, 0, 0, false, false, &Vec::new(), &density(false));
    assert_eq!(
        signals,
        vec!["TODO/FIXME marker counts were unavailable for this repo in this scan".to_string()]
    );
}

fn search(count: u32, rate_limited: bool, warning: Option<&str>) -> MarkerSearch {
    MarkerSearch { count, available: !rate_limited, warning: warning.map(String::from), rate_limited }
}

#[test]
fn marker_searches_stop_once_rate_limited() {
    assert!(needs_todo_search(false));
    assert!(!needs_todo_search(true));
    let (counts, limited) = collect_marker_counts(true, &None, &None);
    assert!(limited);
    assert!(!counts.todo_available && !counts.fixme_available);
    assert_eq!(counts.warnings.len(), 1);
    assert!(counts.warnings[0].starts_with("GitHub code search was already rate-limited"));

    let todo = Some(search(0, true, Some("TODO search was rate-limited")));
    assert!(!needs_fixme_search(&todo));
    let (counts, limited) = collect_marker_counts(false, &todo, &None);
    assert!(limited);
    assert_eq!(counts.warnings, vec!["TODO search was rate-limited".to_string()]);

    let todo = Some(search(7, false, None));
    assert!(needs_fixme_search(&todo));
    let fixme = Some(search(2, false, None));
    let (counts, limited) = collect_marker_counts(false, &todo, &fixme);
    assert!(!limited);
    assert_eq!((counts.todo_count, counts.fixme_count), (7, 2));
    assert!(counts.todo_available && counts.fixme_available);
    assert!(counts.warnings.is_empty());
}

#[test]
fn finished_signal_carries_draft_markers_and_score() {
    let draft = analyze_repo_issue_draft(repo(), analysis(), &impacts());
    assert_eq!(draft.issue_only_priority_tenths, 224 + 150 + 119 + 96 + 67 + 35);
    let markers = MarkerCounts {
        todo_count: 2,
        fixme_count: 1,
        todo_available: true,
        fixme_available: true,
        warnings: Vec::new(),
    };
    let signal = finalize_repo_signal(draft, markers, &impacts(), &density(false));
    assert_eq!(signal.full_name, "patchhive/example");
    assert_eq!(signal.description, "");
    assert_eq!(signal.language, "unknown");
    assert_eq!(signal.priority_tenths, 708);
    assert_eq!(signal.score_breakdown.len(), 7);
    assert!(signal.trend.is_none());
    assert_eq!(signal.signals[5], "2 TODO and 1 FIXME markers were found in code search");
}

#[test]
fn failed_code_searches_say_why_and_flag_rate_limits() {
    let found = marker_found(17);
    assert_eq!((found.count, found.available, found.rate_limited), (17, true, false));
    assert!(found.warning.is_none());

    let limited = marker_search_failed("o/r", "TODO", "403 Forbidden", Some(403));
    assert_eq!((limited.count, limited.available, limited.rate_limited), (0, false, true));
    assert_eq!(
        limited.warning.as_deref(),
        Some("GitHub code search for TODO markers in `o/r` failed: 403 Forbidden")
    );
    assert!(marker_search_failed("o/r", "FIXME", "429 Too Many Requests", Some(429)).rate_limited);
    assert!(!marker_search_failed("o/r", "FIXME", "500 Internal Server Error", Some(500)).rate_limited);
    assert!(!marker_search_failed("o/r", "FIXME", "connection reset", None).rate_limited);
}

#[test]
fn density_applies_above_ten_open_issues_per_hundred_stars() {
    let keys = |stars: u32, open: u32| -> bool {
        let (_, breakdown) = priority_score(stars, open, &analysis(), 0, 0, &impacts());
        breakdown.iter().any(|f| f.key == "issue_density")
    };
    assert!(!keys(30, 3));
    assert!(keys(30, 4));
    assert!(keys(10, 3));
    assert!(!keys(10, 2));
    assert!(!keys(1000, 100));
    assert!(keys(1000, 101));
}
