use signal_hive::models::{RepoSignal, ScanParams, ScanSchedule};
use signal_hive::scans::{normalized_signature_parts, params_signature, scan_record_at, scan_summary};
use signal_hive::schedules::{effective_cadence, entry_name, get_scan_schedule, list_scan_schedules, schedule_to_save, StoredSchedule};
use signal_hive::stored::{history_item_from_row, scan_record_from_row, string_list_or_empty, HistoryRow, ScanRow};

fn params(query: &str, topics: Vec<&str>, languages: Vec<&str>) -> ScanParams {
    ScanParams {
        search_query: query.into(),
        topics: topics.into_iter().map(String::from).collect(),
        languages: languages.into_iter().map(String::from).collect(),
        min_stars: 25,
        max_repos: 8,
        issues_per_repo: 30,
        stale_days: 45,
    }
}

fn signal(name: &str, signals: usize) -> RepoSignal {
    RepoSignal {
        full_name: name.into(),
        repo_url: String::new(),
        description: String::new(),
        language: String::new(),
        stars: 0,
        open_issues: 0,
        sampled_issues: 0,
        stale_issues: 0,
        unlabeled_issues: 0,
        stale_bug_issues: 0,
        stale_high_comment_issues: 0,
        duplicate_candidates: Vec::new(),
        recurring_bug_clusters: Vec::new(),
        todo_count: 0,
        fixme_count: 0,
        todo_available: true,
        fixme_available: true,
        priority_tenths: 0,
        score_breakdown: Vec::new(),
        summary: String::new(),
        signals: (0..signals).map(|i| format!("s{i}")).collect(),
        issue_examples: Vec::new(),
        warnings: Vec::new(),
        trend: None,
    }
}

#[test]
fn signature_parts_are_sorted_distinct_and_normalised() {
    let parts = normalized_signature_parts(&vec![" Rust".into(), "go".into(), "".into(), "rust ".into(), "C".into()]);
    assert_eq!(parts, vec!["c".to_string(), "go".to_string(), "rust".to_string()]);
}

#[test]
fn signature_ignores_order_case_spacing_and_repeats() {
    let a = params("  Flaky Tests ", vec!["CI", "devtools"], vec!["Rust", "go", "rust"]);
    let b = params("flaky tests", vec!["devtools ", " ci", ""], vec!["GO", "rust"]);
    assert_eq!(params_signature(&a), params_signature(&b));
    let c = params("flaky tests", vec!["devtools"], vec!["go", "rust"]);
    assert_ne!(params_signature(&a), params_signature(&c));
    let sig = params_signature(&b);
    assert!(sig.contains("\"search_query\":\"flaky tests\""));
    assert!(sig.contains("\"languages\":[\"go\",\"rust\"]"));
    assert!(sig.contains("\"topics\":[\"ci\",\"devtools\"]"));
    assert!(sig.contains("\"stale_days\":45"));
}

#[test]
fn summary_counts_repos_and_signals() {
    let summary = scan_summary(&vec![signal("org/top", 2), signal("org/b", 3)]);
    assert_eq!(summary.total_repos, 2);
    assert_eq!(summary.total_signals, 5);
    assert_eq!(summary.top_repo, "org/top");
    assert_eq!(scan_summary(&Vec::new()).top_repo, "none");
    let record = scan_record_at("id1".into(), "t".into(), params("", Vec::new(), vec!["rust"]), vec![signal("x/y", 1)], Vec::new(), "scheduled", Some("nightly"));
    assert_eq!(record.summary.total_signals, 1);
    assert_eq!(record.trigger_type, "scheduled");
    assert_eq!(record.schedule_name.as_deref(), Some("nightly"));
    assert!(record.trend.is_none());
}

fn schedule(enabled: bool, cadence: u32) -> ScanSchedule {
    ScanSchedule {
        name: "nightly".into(),
        params: params("", Vec::new(), vec!["rust"]),
        cadence_hours: cadence,
        enabled,
        created_at: "c0".into(),
        updated_at: "u0".into(),
        next_run_at: "n0".into(),
        last_run_at: Some("r0".into()),
        last_scan_id: Some("s0".into()),
        last_status: "ok".into(),
        last_error: None,
    }
}

#[test]
fn resaving_a_schedule_keeps_its_next_run() {
    assert_eq!(effective_cadence(0), 1);
    assert_eq!(effective_cadence(24), 24);
    let kept = schedule_to_save(Some(schedule(true, 24)), "nightly", params("", Vec::new(), vec!["go"]), 24, true, "now".into(), "fresh".into());
    assert_eq!(kept.next_run_at, "n0");
    assert_eq!(kept.created_at, "c0");
    assert_eq!(kept.updated_at, "now");
    assert_eq!(kept.last_status, "ok");
    let moved = schedule_to_save(Some(schedule(true, 24)), "nightly", params("", Vec::new(), vec!["go"]), 12, true, "now".into(), "fresh".into());
    assert_eq!(moved.next_run_at, "fresh");
    let new = schedule_to_save(None, "weekly", params("", Vec::new(), vec!["go"]), 0, false, "now".into(), "fresh".into());
    assert_eq!(new.cadence_hours, 1);
    assert_eq!(new.created_at, "now");
    assert_eq!(new.last_status, "idle");
    assert!(new.last_run_at.is_none());
}

fn stored(enabled: i64) -> StoredSchedule {
    StoredSchedule {
        name: "nightly".into(),
        params: params("", Vec::new(), vec!["rust"]),
        cadence_hours: 24,
        enabled,
        created_at: "c".into(),
        updated_at: "u".into(),
        next_run_at: "n".into(),
        last_run_at: None,
        last_scan_id: None,
        last_status: "idle".into(),
        last_error: None,
    }
}

#[test]
fn stored_schedules_read_back_in_order() {
    let list = list_scan_schedules(vec![stored(1), stored(0)]);
    assert_eq!(list.len(), 2);
    assert!(list[0].enabled);
    assert!(!list[1].enabled);
    assert!(get_scan_schedule(None).is_none());
    assert_eq!(get_scan_schedule(Some(stored(2))).unwrap().next_run_at, "n");
}

#[test]
fn json_list_columns_fall_back_to_empty() {
    assert_eq!(string_list_or_empty("[\"a\",\"b\"]"), vec!["a".to_string(), "b".to_string()]);
    assert!(string_list_or_empty("not json").is_empty());
    let item = history_item_from_row(HistoryRow {
        id: "id".into(),
        created_at: "t".into(),
        search_query: "q".into(),
        topics_json: "[\"ci\"]".into(),
        languages_json: "{".into(),
        max_repos: 8,
        total_repos: 2,
        total_signals: 3,
        top_repo: "a/b".into(),
        warnings_json: "[\"w1\",\"w2\"]".into(),
        trigger_type: "manual".into(),
        schedule_name: None,
    });
    assert_eq!(item.topics, vec!["ci".to_string()]);
    assert!(item.languages.is_empty());
    assert_eq!(item.warning_count, 2);
    let record = scan_record_from_row("id".into(), ScanRow {
        created_at: "t".into(),
        search_query: "q".into(),
        topics_json: "[]".into(),
        languages_json: "[\"rust\"]".into(),
        min_stars: 25,
        max_repos: 8,
        issues_per_repo: 30,
        stale_days: 45,
        total_repos: 0,
        total_signals: 0,
        top_repo: "none".into(),
        warnings_json: "".into(),
        trigger_type: "manual".into(),
        schedule_name: Some("nightly".into()),
    });
    assert_eq!(record.params.languages, vec!["rust".to_string()]);
    assert!(record.warnings.is_empty());
    assert!(record.repos.is_empty());
}

#[test]
fn schedule_overview_finds_the_earliest_enabled_run() {
    let mut a = schedule(true, 24);
    a.next_run_at = "2026-05-02T00:00:00Z".into();
    let mut b = schedule(false, 24);
    b.next_run_at = "2026-05-01T00:00:00Z".into();
    let mut c = schedule(true, 24);
    c.next_run_at = "2026-05-01T12:00:00Z".into();
    let (total, enabled, next) = signal_hive::schedules::schedule_overview(&vec![a, b, c]);
    assert_eq!((total, enabled), (3, 2));
    assert_eq!(next.as_deref(), Some("2026-05-01T12:00:00Z"));
    let (_, _, none) = signal_hive::schedules::schedule_overview(&vec![schedule(false, 1)]);
    assert!(none.is_none());
}

#[test]
fn signal_totals_are_checked_before_summing() {
    assert!(signal_hive::scans::signals_fit(&vec![signal("a/b", 3), signal("c/d", 2)]));
    assert!(signal_hive::scans::signals_fit(&Vec::new()));
}

#[test]
fn next_run_is_the_cadence_from_now() {
    let before = chrono::Utc::now();
    let next = signal_hive::schedules::next_run_at(2);
    let parsed = chrono::DateTime::parse_from_rfc3339(&next).unwrap().with_timezone(&chrono::Utc);
    let hours = (parsed - before).num_minutes();
    assert!((119..=121).contains(&hours));
    let zero = signal_hive::schedules::next_run_at(0);
    let parsed = chrono::DateTime::parse_from_rfc3339(&zero).unwrap().with_timezone(&chrono::Utc);
    assert!((parsed - before).num_minutes() >= 59);
    assert!(next.ends_with("+00:00") && next.chars().count() >= 25);
}

#[test]
fn entry_names_are_trimmed_and_blank_ones_refused() {
    assert_eq!(entry_name("  nightly sweep \n"), Some("nightly sweep".to_string()));
    assert_eq!(entry_name("weekly"), Some("weekly".to_string()));
    assert_eq!(entry_name(" \t "), None);
    assert_eq!(entry_name(""), None);
}

#[test]
fn signatures_differ_when_a_normalised_field_differs() {
    let base = params_signature(&params(" CLI ", vec!["b", "a"], vec!["rust"]));
    assert_eq!(base, params_signature(&params("cli", vec!["A", "b", "a"], vec![" Rust "])));
    let mut more = params("cli", vec!["a", "b"], vec!["rust"]);
    more.stale_days = 46;
    assert_ne!(base, params_signature(&more));
    assert_ne!(base, params_signature(&params("cli tool", vec!["a", "b"], vec!["rust"])));
    assert_ne!(base, params_signature(&params("cli", vec!["a"], vec!["rust"])));
}

#[test]
fn new_records_get_a_uuid_and_a_utc_time() {
    let record = signal_hive::scans::new_scan_record(params("q", vec![], vec![]), Vec::new(), Vec::new(), "manual", None);
    assert_eq!(record.id.len(), 36);
    for (i, c) in record.id.chars().enumerate() {
        if [8, 13, 18, 23].contains(&i) {
            assert_eq!(c, '-');
        } else {
            assert!(c.is_ascii_hexdigit() && !c.is_ascii_uppercase());
        }
    }
    assert!(record.created_at.ends_with("+00:00"));
    assert_eq!(record.summary.top_repo, "none");
}
