use signal_hive::models::{
    RecurringBugCluster, RepoSignal, RepoSignalTrend, ScanParams, ScanRecord, ScanSummary,
    ScanTrendSummary, ScoreFactor,
};
use signal_hive::report::{build_scan_report, format_scope_text};

fn sample_repo() -> RepoSignal {
    RepoSignal {
        full_name: "patchhive/example".into(),
        repo_url: "https://github.com/patchhive/example".into(),
        description: "example".into(),
        language: "Rust".into(),
        stars: 10,
        open_issues: 2,
        sampled_issues: 2,
        stale_issues: 0,
        unlabeled_issues: 0,
        stale_bug_issues: 0,
        stale_high_comment_issues: 0,
        duplicate_candidates: Vec::new(),
        recurring_bug_clusters: Vec::new(),
        todo_count: 1,
        fixme_count: 0,
        todo_available: true,
        fixme_available: true,
        priority_tenths: 98,
        score_breakdown: Vec::new(),
        summary: "1 TODO and 0 FIXME markers were found in code search".into(),
        signals: vec!["1 TODO and 0 FIXME markers were found in code search".into()],
        issue_examples: Vec::new(),
        warnings: Vec::new(),
        trend: None,
    }
}

fn params(query: &str, topics: Vec<&str>, languages: Vec<&str>) -> ScanParams {
    ScanParams {
        search_query: query.into(),
        topics: topics.into_iter().map(String::from).collect(),
        languages: languages.into_iter().map(String::from).collect(),
        min_stars: 25,
        max_repos: 4,
        issues_per_repo: 30,
        stale_days: 45,
    }
}

fn record(repos: Vec<RepoSignal>) -> ScanRecord {
    ScanRecord {
        id: "124d10c2-ef5b-4584-a315-f137c3237624".into(),
        created_at: "2026-04-19T18:19:55Z".into(),
        params: params("", Vec::new(), vec!["rust", "typescript", "python"]),
        summary: ScanSummary {
            total_repos: repos.len() as u32,
            total_signals: 1,
            top_repo: "patchhive/example".into(),
        },
        repos,
        warnings: Vec::new(),
        trigger_type: "manual".into(),
        schedule_name: None,
        trend: None,
    }
}

fn cluster(count: u32) -> RecurringBugCluster {
    RecurringBugCluster {
        label: "crash / startup".into(),
        issue_count: count,
        shared_terms: vec!["crash".into(), "startup".into()],
        examples: Vec::new(),
    }
}

#[test]
fn build_scan_report_uses_clear_scope_labels_and_suppresses_zero_value_callouts() {
    let report = build_scan_report(&record(vec![sample_repo()]));

    assert!(report.markdown.contains(
        "- Scope: no search query filter · no topic filter · languages `rust, typescript, python`"
    ));
    assert!(report
        .markdown
        .contains("- No stale backlog stood out in this scan."));
    assert!(report
        .markdown
        .contains("- No recurring bug cluster stood out in this scan."));
    assert!(!report.markdown.contains("*none*"));
    assert!(!report.markdown.contains("with 0 recurring clusters"));
}

#[test]
fn report_is_named_after_the_first_eight_characters_of_the_id() {
    let report = build_scan_report(&record(vec![sample_repo()]));
    assert_eq!(report.filename, "signalhive-report-124d10c2.md");
    assert!(!report.exported_at.is_empty());
}

#[test]
fn report_renders_header_and_queue_lines_exactly() {
    let report = build_scan_report(&record(vec![sample_repo()]));
    let lines: Vec<&str> = report.markdown.split('\n').collect();
    assert_eq!(lines[0], "# SignalHive by PatchHive");
    assert_eq!(lines[2], "> Maintenance visibility before automation");
    assert_eq!(lines[4], "## Scan 124d10c2-ef5b-4584-a315-f137c3237624");
    assert_eq!(lines[7], "- Trigger: `manual`");
    assert!(report.markdown.contains(
        "- Coverage: 1 repos scanned, 1 signals found, top repo `patchhive/example`"
    ));
    assert!(report
        .markdown
        .contains("- Highest priority repo: `patchhive/example` at 9.8 priority."));
    assert!(report.markdown.contains("### 1. `patchhive/example`"));
    assert!(report.markdown.contains("- Priority: 9.8"));
    assert!(report.markdown.contains(
        "- Stats: stale 0 | unlabeled 0 | duplicates 0 | recurring clusters 0 | TODO 1 | FIXME 0"
    ));
    assert!(report
        .markdown
        .contains("- Signal: 1 TODO and 0 FIXME markers were found in code search"));
    assert!(report.markdown.ends_with("- Signal: 1 TODO and 0 FIXME markers were found in code search\n"));
}

#[test]
fn report_of_an_empty_scan_says_nothing_was_ranked() {
    let report = build_scan_report(&record(Vec::new()));
    assert!(report
        .markdown
        .contains("- No ranked repos were returned in this scan."));
    assert!(report.markdown.ends_with("## Ranked Maintenance Queue\n"));
}

#[test]
fn report_picks_the_last_of_the_largest_backlogs_and_recurring_pressure() {
    let mut a = sample_repo();
    a.full_name = "org/a".into();
    a.stale_issues = 4;
    a.recurring_bug_clusters = vec![cluster(3)];
    let mut b = sample_repo();
    b.full_name = "org/b".into();
    b.stale_issues = 4;
    b.recurring_bug_clusters = vec![cluster(2), cluster(1)];
    let report = build_scan_report(&record(vec![a, b]));
    assert!(report
        .markdown
        .contains("- Largest stale backlog: `org/b` with 4 stale issues."));
    assert!(report.markdown.contains(
        "- Strongest recurring bug pressure: `org/b` with 2 recurring clusters covering 3 issues."
    ));
}

#[test]
fn report_lists_warnings_trend_and_drivers() {
    let mut repo = sample_repo();
    repo.todo_available = false;
    repo.warnings = vec!["code search unavailable".into()];
    repo.score_breakdown = vec![ScoreFactor {
        key: "stale_backlog".into(),
        label: "Stale backlog".into(),
        impact_tenths: 120,
        detail: "3 of 4 sampled issues are stale".into(),
    }];
    repo.trend = Some(RepoSignalTrend {
        status: "rising".into(),
        compared_to_scan_id: "prev".into(),
        compared_to_created_at: "2026-04-01T00:00:00Z".into(),
        previous_priority_tenths: 43,
        priority_delta_tenths: 55,
        stale_delta: 2,
        duplicate_delta: 0,
        marker_delta: -1,
        recurring_delta: 0,
    });
    let mut rec = record(vec![repo]);
    rec.warnings = vec!["rate limited".into()];
    rec.schedule_name = Some("nightly".into());
    rec.trend = Some(ScanTrendSummary {
        compared_to_scan_id: "prev".into(),
        compared_to_created_at: "2026-04-01T00:00:00Z".into(),
        total_repos_delta: -1,
        total_signals_delta: 0,
        new_repos: 0,
        dropped_repos: 1,
        rising_repos: 1,
        improving_repos: 0,
        steady_repos: 0,
    });
    let report = build_scan_report(&rec);
    assert!(report.markdown.contains("- Schedule: `nightly`"));
    assert!(report.markdown.contains("## Scan Warnings\n\n- rate limited\n\n"));
    assert!(report
        .markdown
        .contains("- Compared to `prev` from 2026-04-01T00:00:00Z"));
    assert!(report.markdown.contains("- Signals delta: +0, repos delta: -1"));
    assert!(report.markdown.contains(
        "- Queue movement: 0 new, 1 dropped, 1 rising, 0 improving, 0 steady"
    ));
    assert!(report
        .markdown
        .contains("- Trend: rising (score +5.5, stale +2, recurring +0)"));
    assert!(report.markdown.contains("| TODO n/a | FIXME 0"));
    assert!(report.markdown.contains("- Warning: code search unavailable"));
    assert!(report
        .markdown
        .contains("- Strongest driver: Stale backlog (+12) — 3 of 4 sampled issues are stale"));
}

#[test]
fn report_shows_at_most_ten_repositories() {
    let repos: Vec<RepoSignal> = (0..12)
        .map(|i| {
            let mut r = sample_repo();
            r.full_name = format!("org/repo{i}");
            r
        })
        .collect();
    let report = build_scan_report(&record(repos));
    assert!(report.markdown.contains("### 10. `org/repo9`"));
    assert!(!report.markdown.contains("### 11."));
}

#[test]
fn scope_text_names_each_filter() {
    let p = params("ci flake", vec!["devtools", "testing"], Vec::new());
    assert_eq!(
        format_scope_text(&p),
        "search query `ci flake` · topics `devtools, testing` · no language filter"
    );
}

#[test]
fn report_needs_an_eight_byte_id_prefix() {
    assert!(signal_hive::report::report_ready(&record(vec![sample_repo()])));
    let mut short = record(Vec::new());
    short.id = "abc".into();
    assert!(!signal_hive::report::report_ready(&short));
    let mut split = record(Vec::new());
    split.id = "abcdefgé1234".into();
    assert!(!signal_hive::report::has_byte_prefix(&split.id, 8));
    assert!(signal_hive::report::has_byte_prefix("abcdefé1", 8));
    let mut accented = record(Vec::new());
    accented.id = "abcdefé1-rest".into();
    assert_eq!(build_scan_report(&accented).filename, "signalhive-report-abcdefé.md");
}
