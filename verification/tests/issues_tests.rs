use signal_hive::clusters::recurring_bug_clusters;
use signal_hive::issues::{issue_counts, stale_issue_examples};
use signal_hive::models::{GitHubIssue, GitHubLabel};
use signal_hive::scoring::issue_signals;

fn issue(number: u32, comments: u32, labelled: bool) -> GitHubIssue {
    GitHubIssue {
        number,
        title: format!("issue {number}"),
        html_url: format!("https://github.com/o/r/issues/{number}"),
        updated_at: "2026-01-01T00:00:00Z".into(),
        comments,
        labels: if labelled { vec![GitHubLabel { name: "bug".into() }] } else { Vec::new() },
        is_pull_request: false,
    }
}

fn terms(words: &[&str]) -> Vec<String> {
    words.iter().map(|w| w.to_string()).collect()
}

#[test]
fn counts_follow_age_labels_bugs_and_comments() {
    let issues = vec![issue(1, 5, true), issue(2, 0, false), issue(3, 3, false), issue(4, 1, true)];
    let ages = vec![60, 10, 45, 90];
    let bugs = vec![true, true, false, true];
    let counts = issue_counts(&issues, 45, &ages, &bugs);
    assert_eq!(counts.sampled_issues, 4);
    assert_eq!(counts.stale_issues, 3);
    assert_eq!(counts.unlabeled_issues, 2);
    assert_eq!(counts.stale_bug_issues, 2);
    assert_eq!(counts.stale_high_comment_issues, 2);
}

#[test]
fn stale_examples_are_the_oldest_three() {
    let issues = vec![issue(1, 5, true), issue(2, 0, false), issue(3, 3, false), issue(4, 1, true), issue(5, 9, true)];
    let ages = vec![60, 10, 60, 90, 50];
    let examples = stale_issue_examples(&issues, 45, &ages);
    let numbers: Vec<u32> = examples.iter().map(|e| e.number).collect();
    assert_eq!(numbers, vec![4, 1, 3]);
    assert_eq!(examples[0].age_days, 90);
    assert_eq!(examples[0].url, "https://github.com/o/r/issues/4");
}

#[test]
fn linked_bug_reports_form_clusters() {
    let issues: Vec<GitHubIssue> = (1..=6).map(|n| issue(n, n, true)).collect();
    let ages = vec![10, 20, 30, 40, 50, 60];
    let bugs = vec![true, true, true, false, true, true];
    let bug_terms = vec![
        terms(&["crash", "startup", "linux"]),
        terms(&["crash", "startup", "windows"]),
        terms(&["startup", "linux", "crash"]),
        terms(&["crash", "startup"]),
        terms(&["memory", "leak"]),
        terms(&["memory", "leak", "cache"]),
    ];
    let clusters = recurring_bug_clusters(&issues, &ages, &bugs, &bug_terms);
    assert_eq!(clusters.len(), 2);
    assert_eq!(clusters[0].issue_count, 3);
    assert_eq!(clusters[0].label, "crash / startup / linux");
    let first: Vec<u32> = clusters[0].examples.iter().map(|e| e.number).collect();
    assert_eq!(first, vec![3, 2, 1]);
    assert_eq!(clusters[1].issue_count, 2);
    assert_eq!(clusters[1].label, "leak / memory");
}

#[test]
fn fewer_than_two_bug_reports_give_no_cluster() {
    let issues = vec![issue(1, 0, true), issue(2, 0, true)];
    let clusters = recurring_bug_clusters(&issues, &vec![1, 2], &vec![true, false], &vec![terms(&["a", "b"]), terms(&["a", "b"])]);
    assert!(clusters.is_empty());
}

#[test]
fn issue_signals_gather_everything() {
    let issues = vec![issue(1, 5, true), issue(2, 0, false)];
    let a = issue_signals(&issues, 30, &vec![40, 5], &vec![true, false], &vec![terms(&["x"]), terms(&["y"])], Vec::new());
    assert_eq!(a.sampled_issues, 2);
    assert_eq!(a.stale_issues, 1);
    assert_eq!(a.stale_bug_issues, 1);
    assert_eq!(a.issue_examples.len(), 1);
    assert!(a.recurring_bug_clusters.is_empty());
    assert!(a.duplicate_candidates.is_empty());
}

#[test]
fn equal_examples_follow_the_walk_order() {
    let issues: Vec<GitHubIssue> = (1..=3).map(|n| issue(n, 2, true)).collect();
    let ages = vec![7, 7, 7];
    let bugs = vec![true, true, true];
    let bug_terms = vec![terms(&["disk", "full", "sync"]), terms(&["disk", "full", "sync"]), terms(&["disk", "full", "sync"])];
    let clusters = recurring_bug_clusters(&issues, &ages, &bugs, &bug_terms);
    assert_eq!(clusters.len(), 1);
    let order: Vec<u32> = clusters[0].examples.iter().map(|e| e.number).collect();
    assert_eq!(order, vec![1, 3, 2]);
    assert_eq!(clusters[0].label, "disk / full / sync");
}

fn cluster_shape(clusters: &[signal_hive::models::RecurringBugCluster]) -> Vec<(String, u32, Vec<u32>)> {
    clusters
        .iter()
        .map(|c| (c.label.clone(), c.issue_count, c.examples.iter().map(|e| e.number).collect()))
        .collect()
}

#[test]
fn non_bug_issues_before_or_after_change_no_cluster() {
    let bug_issues = || -> Vec<GitHubIssue> { (1..=3).map(|n| issue(n, n, true)).collect() };
    let other_issues = || -> Vec<GitHubIssue> { (7..=8).map(|n| issue(n, 9, false)).collect() };
    let ages = vec![10, 20, 30];
    let bugs = vec![true, true, true];
    let bug_terms = || {
        vec![
            terms(&["crash", "startup", "linux"]),
            terms(&["crash", "startup", "windows"]),
            terms(&["memory", "leak"]),
        ]
    };
    let extra_terms = || vec![terms(&["crash", "startup"]), terms(&["crash", "startup", "linux"])];
    let base = cluster_shape(&recurring_bug_clusters(&bug_issues(), &ages, &bugs, &bug_terms()));
    assert_eq!(base, vec![("crash / startup".to_string(), 2, vec![2, 1])]);

    let mut after = bug_issues();
    after.extend(other_issues());
    let mut after_terms = bug_terms();
    after_terms.extend(extra_terms());
    let after_clusters = recurring_bug_clusters(
        &after,
        &vec![10, 20, 30, 90, 99],
        &vec![true, true, true, false, false],
        &after_terms,
    );
    assert_eq!(cluster_shape(&after_clusters), base);

    let mut before = other_issues();
    before.extend(bug_issues());
    let mut before_terms = extra_terms();
    before_terms.extend(bug_terms());
    let before_clusters = recurring_bug_clusters(
        &before,
        &vec![90, 99, 10, 20, 30],
        &vec![false, false, true, true, true],
        &before_terms,
    );
    assert_eq!(cluster_shape(&before_clusters), base);
}
