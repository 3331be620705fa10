use signal_hive::duplicates::{duplicate_candidates, occurs, pair_overlaps};
use signal_hive::models::GitHubIssue;

fn issue(number: u32, title: &str) -> GitHubIssue {
    GitHubIssue {
        number,
        title: title.into(),
        html_url: format!("https://github.com/o/r/issues/{number}"),
        updated_at: "2026-01-01T00:00:00Z".into(),
        comments: 0,
        labels: Vec::new(),
        is_pull_request: false,
    }
}

fn terms(words: &[&str]) -> Vec<String> {
    words.iter().map(|w| w.to_string()).collect()
}

fn chars(s: &str) -> Vec<char> {
    s.chars().collect()
}

#[test]
fn occurs_finds_inner_text() {
    assert!(occurs(&chars("login fails"), &chars("oauth login fails again")));
    assert!(occurs(&chars(""), &chars("abc")));
    assert!(occurs(&chars("abc"), &chars("abc")));
    assert!(!occurs(&chars("abcd"), &chars("abc")));
    assert!(!occurs(&chars("fails login"), &chars("oauth login fails again")));
}

#[test]
fn pairs_sharing_two_terms_are_compared() {
    let title_terms = vec![
        terms(&["login", "fails", "oauth", "login"]),
        terms(&["login", "fails"]),
        terms(&["dark", "mode"]),
        terms(&[]),
        terms(&["oauth", "login", "page"]),
    ];
    let overlaps = pair_overlaps(&title_terms);
    let summary: Vec<(usize, usize, usize, usize, usize)> =
        overlaps.iter().map(|o| (o.left, o.right, o.shared, o.left_terms, o.right_terms)).collect();
    assert_eq!(summary, vec![(0, 1, 2, 3, 2), (0, 4, 2, 3, 3)]);
    // "login fails" takes eleven bytes and lies inside "login fails oauth login".
    assert!(overlaps[0].contains_match);
    assert!(!overlaps[1].contains_match);
}

#[test]
fn short_phrases_never_match_by_containment() {
    let title_terms = vec![terms(&["api", "bug", "now"]), terms(&["api", "bug"])];
    let overlaps = pair_overlaps(&title_terms);
    assert_eq!(overlaps.len(), 1);
    assert_eq!(overlaps[0].shared, 2);
    assert!(!overlaps[0].contains_match);
}

#[test]
fn the_three_most_alike_pairs_are_kept() {
    let issues = vec![
        issue(10, "a"),
        issue(11, "b"),
        issue(12, "c"),
        issue(13, "d"),
    ];
    let title_terms = vec![
        terms(&["one", "two", "three"]),
        terms(&["one", "two", "four"]),
        terms(&["one", "two", "five"]),
        terms(&["one", "two", "six"]),
    ];
    let overlaps = pair_overlaps(&title_terms);
    assert_eq!(overlaps.len(), 6);
    let similarities = vec![Some(60), None, Some(80), Some(60), Some(90), Some(60)];
    let pairs = duplicate_candidates(&issues, &overlaps, &similarities);
    let shown: Vec<(u32, u32, u32)> =
        pairs.iter().map(|p| (p.left_number, p.right_number, p.similarity_hundredths)).collect();
    // Pairs in order: (0,1) (0,2) (0,3) (1,2) (1,3) (2,3).
    assert_eq!(shown, vec![(11, 13, 90), (10, 13, 80), (10, 11, 60)]);
    assert_eq!(pairs[0].left_title, "b");
    assert_eq!(pairs[0].right_title, "d");
}

#[test]
fn no_similar_pair_gives_no_candidates() {
    let issues = vec![issue(1, "x"), issue(2, "y")];
    let overlaps = pair_overlaps(&vec![terms(&["one", "two"]), terms(&["one", "two"])]);
    let pairs = duplicate_candidates(&issues, &overlaps, &vec![None]);
    assert!(pairs.is_empty());
}

#[test]
fn similarities_outside_the_duplicate_range_are_left_out() {
    let issues = vec![issue(1, "x"), issue(2, "y"), issue(3, "z")];
    let overlaps = pair_overlaps(&vec![terms(&["one", "two"]), terms(&["one", "two"]), terms(&["one", "two"])]);
    assert_eq!(overlaps.len(), 3);
    let pairs = duplicate_candidates(&issues, &overlaps, &vec![Some(57), Some(101), Some(58)]);
    let shown: Vec<(u32, u32, u32)> =
        pairs.iter().map(|p| (p.left_number, p.right_number, p.similarity_hundredths)).collect();
    assert_eq!(shown, vec![(2, 3, 58)]);
}
