use signal_hive::issues::issue_ages;
use signal_hive::models::{GitHubIssue, GitHubLabel};
use signal_hive::scoring::analyze_issues;
use signal_hive::terms::{bug_flags, is_bug_issue, issue_bug_terms, recurring_bug_tokens, title_tokens};

fn issue(number: u32, title: &str, labels: &[&str], updated_at: &str) -> GitHubIssue {
    GitHubIssue {
        number,
        title: title.into(),
        html_url: format!("https://github.com/o/r/issues/{number}"),
        updated_at: updated_at.into(),
        comments: 0,
        labels: labels.iter().map(|name| GitHubLabel { name: name.to_string() }).collect(),
        is_pull_request: false,
    }
}

fn words(ws: &[&str]) -> Vec<String> {
    ws.iter().map(|w| w.to_string()).collect()
}

#[test]
fn title_terms_drop_short_and_stop_words() {
    assert_eq!(
        title_tokens("Crash when saving the Settings-page (v2) on Linux"),
        words(&["crash", "saving", "settings", "page", "linux"])
    );
    assert_eq!(title_tokens("Fix: the API and the UI"), words(&["fix", "api"]));
    assert_eq!(title_tokens(""), Vec::<String>::new());
    assert_eq!(title_tokens("login login LOGIN"), words(&["login", "login", "login"]));
}

#[test]
fn non_ascii_letters_stay_inside_words() {
    // "ü" is alphanumeric and is not lower-cased; "é" takes two bytes, so
    // "éa" takes three and is kept.
    assert_eq!(title_tokens("Über-Fehler éa"), words(&["Über", "fehler", "éa"]));
}

#[test]
fn grouping_terms_leave_out_bug_words() {
    assert_eq!(recurring_bug_tokens("App crashes with error on startup"), words(&["app", "startup"]));
    assert_eq!(recurring_bug_tokens("Regression: broken login"), words(&["login"]));
}

#[test]
fn bug_reports_are_found_by_label_or_title() {
    let date = "2026-01-01T00:00:00Z";
    assert!(is_bug_issue(&issue(1, "Something odd", &["Type: Bug"], date)));
    assert!(is_bug_issue(&issue(2, "Something odd", &["debugging"], date)));
    assert!(is_bug_issue(&issue(3, "Upload fails on large files", &[], date)));
    assert!(!is_bug_issue(&issue(4, "Add dark mode", &["enhancement"], date)));
    // "Bugs" is a word of its own, not "bug".
    assert!(!is_bug_issue(&issue(5, "Bugs page layout", &[], date)));
    let issues = vec![
        issue(6, "Crash on exit", &[], date),
        issue(7, "Docs typo", &["docs"], date),
    ];
    assert_eq!(bug_flags(&issues), vec![true, false]);
    assert_eq!(issue_bug_terms(&issues), vec![words(&["exit"]), words(&["docs", "typo"])]);
}

#[test]
fn ages_come_from_the_clock_and_unreadable_times_count_as_zero() {
    let issues = vec![
        issue(1, "Old report", &[], "2000-01-01T00:00:00Z"),
        issue(2, "Odd time", &[], "yesterday"),
    ];
    let ages = issue_ages(&issues);
    assert_eq!(ages.len(), 2);
    assert!(ages[0] > 9000);
    assert_eq!(ages[1], 0);
}

#[test]
fn a_scan_analyses_issues_with_clock_ages() {
    let issues = vec![
        issue(1, "Crash when saving settings", &["bug"], "2000-01-01T00:00:00Z"),
        issue(2, "Crash when saving settings again", &[], "2000-01-02T00:00:00Z"),
        issue(3, "Add dark mode", &[], "2999-01-01T00:00:00Z"),
    ];
    let analysis = analyze_issues(&issues, 30, Vec::new());
    assert_eq!(analysis.sampled_issues, 3);
    assert_eq!(analysis.stale_issues, 2);
    assert_eq!(analysis.stale_bug_issues, 2);
    assert_eq!(analysis.unlabeled_issues, 2);
    assert_eq!(analysis.recurring_bug_clusters.len(), 1);
    assert_eq!(analysis.recurring_bug_clusters[0].issue_count, 2);
}
