//! The records that scans read and produce.
//!
//! Scores are kept in tenths (`priority_tenths == 185` is a score of 18.5)
//! and similarities in hundredths, so every value the library compares,
//! sums and renders is an integer.
use vstd::prelude::*;

verus! {

/// What a scan searches for and how deep it looks.
pub struct ScanParams {
    pub search_query: String,
    pub topics: Vec<String>,
    pub languages: Vec<String>,
    pub min_stars: u32,
    pub max_repos: u32,
    pub issues_per_repo: u32,
    pub stale_days: u32,
}

impl Default for ScanParams {
    /// Rust repositories with at least 25 stars, 8 of them, 30 issues each,
    /// stale after 45 days.
    fn default() -> (p: Self)
        ensures
            p.search_query@ == Seq::<char>::empty(),
            p.topics@.len() == 0,
            p.languages.deep_view() == seq!["rust"@],
            p.min_stars == 25,
            p.max_repos == 8,
            p.issues_per_repo == 30,
            p.stale_days == 45,
    {
        let mut languages: Vec<String> = Vec::new();
        languages.push(String::from_str("rust"));
        assert(languages.deep_view() =~= seq!["rust"@]);
        ScanParams {
            search_query: String::new(),
            topics: Vec::new(),
            languages,
            min_stars: 25,
            max_repos: 8,
            issues_per_repo: 30,
            stale_days: 45,
        }
    }
}

/// One issue shown as an example in a report.
pub struct IssueSample {
    pub number: u32,
    pub title: String,
    pub url: String,
    pub updated_at: String,
    pub age_days: i64,
    pub comments: u32,
}

/// Two issues whose titles look alike; `similarity_hundredths` is the
/// similarity in hundredths (78 stands for 0.78).
pub struct DuplicateCandidate {
    pub left_number: u32,
    pub right_number: u32,
    pub left_title: String,
    pub right_title: String,
    pub similarity_hundredths: u32,
}

/// One contribution to a priority score; `impact_tenths` in tenths.
pub struct ScoreFactor {
    pub key: String,
    pub label: String,
    pub impact_tenths: u32,
    pub detail: String,
}

/// A group of bug reports that share title terms.
pub struct RecurringBugCluster {
    pub label: String,
    pub issue_count: u32,
    pub shared_terms: Vec<String>,
    pub examples: Vec<IssueSample>,
}

/// How a repository moved against the previous similar scan.
pub struct RepoSignalTrend {
    pub status: String,
    pub compared_to_scan_id: String,
    pub compared_to_created_at: String,
    pub previous_priority_tenths: i64,
    pub priority_delta_tenths: i64,
    pub stale_delta: i32,
    pub duplicate_delta: i32,
    pub marker_delta: i32,
    pub recurring_delta: i32,
}

/// The maintenance signals found for one repository.
pub struct RepoSignal {
    pub full_name: String,
    pub repo_url: String,
    pub description: String,
    pub language: String,
    pub stars: u32,
    pub open_issues: u32,
    pub sampled_issues: u32,
    pub stale_issues: u32,
    pub unlabeled_issues: u32,
    pub stale_bug_issues: u32,
    pub stale_high_comment_issues: u32,
    pub duplicate_candidates: Vec<DuplicateCandidate>,
    pub recurring_bug_clusters: Vec<RecurringBugCluster>,
    pub todo_count: u32,
    pub fixme_count: u32,
    pub todo_available: bool,
    pub fixme_available: bool,
    pub priority_tenths: i64,
    pub score_breakdown: Vec<ScoreFactor>,
    pub summary: String,
    pub signals: Vec<String>,
    pub issue_examples: Vec<IssueSample>,
    pub warnings: Vec<String>,
    pub trend: Option<RepoSignalTrend>,
}

/// A repository on the allowlist, denylist or opt-out list.
pub struct RepoListItem {
    pub repo: String,
    pub list_type: String,
    pub added_at: String,
}

/// Totals of one scan.
pub struct ScanSummary {
    pub total_repos: u32,
    pub total_signals: u32,
    pub top_repo: String,
}

/// How a scan as a whole moved against the previous similar scan.
pub struct ScanTrendSummary {
    pub compared_to_scan_id: String,
    pub compared_to_created_at: String,
    pub total_repos_delta: i32,
    pub total_signals_delta: i32,
    pub new_repos: u32,
    pub dropped_repos: u32,
    pub rising_repos: u32,
    pub improving_repos: u32,
    pub steady_repos: u32,
}

/// A stored scan with its ranked repositories.
pub struct ScanRecord {
    pub id: String,
    pub created_at: String,
    pub params: ScanParams,
    pub summary: ScanSummary,
    pub repos: Vec<RepoSignal>,
    pub warnings: Vec<String>,
    pub trigger_type: String,
    pub schedule_name: Option<String>,
    pub trend: Option<ScanTrendSummary>,
}

/// One line of the scan history.
pub struct ScanHistoryItem {
    pub id: String,
    pub created_at: String,
    pub search_query: String,
    pub topics: Vec<String>,
    pub languages: Vec<String>,
    pub max_repos: u32,
    pub total_repos: u32,
    pub total_signals: u32,
    pub top_repo: String,
    pub warning_count: u32,
    pub trigger_type: String,
    pub schedule_name: Option<String>,
}

/// Saved scan parameters under a name.
pub struct ScanPreset {
    pub name: String,
    pub params: ScanParams,
    pub created_at: String,
    pub updated_at: String,
}

/// A scan that runs every `cadence_hours` hours.
pub struct ScanSchedule {
    pub name: String,
    pub params: ScanParams,
    pub cadence_hours: u32,
    pub enabled: bool,
    pub created_at: String,
    pub updated_at: String,
    pub next_run_at: String,
    pub last_run_at: Option<String>,
    pub last_scan_id: Option<String>,
    pub last_status: String,
    pub last_error: Option<String>,
}

/// A rendered Markdown report.
pub struct ScanReport {
    pub filename: String,
    pub markdown: String,
    pub exported_at: String,
}

/// The owner of a repository found by a search.
pub struct SearchRepoOwner {
    pub login: String,
}

/// A repository found by a search.
pub struct SearchRepo {
    pub name: String,
    pub full_name: String,
    pub html_url: String,
    pub description: Option<String>,
    pub language: Option<String>,
    pub stargazers_count: u32,
    pub open_issues_count: u32,
    pub owner: SearchRepoOwner,
}

/// One page of repository search results.
pub struct SearchRepositoriesResponse {
    pub items: Vec<SearchRepo>,
}

/// A label on an issue.
pub struct GitHubLabel {
    pub name: String,
}

/// An open issue as the issue listing returns it; `is_pull_request` tells
/// whether the entry carried a pull-request link.
pub struct GitHubIssue {
    pub number: u32,
    pub title: String,
    pub html_url: String,
    pub updated_at: String,
    pub comments: u32,
    pub labels: Vec<GitHubLabel>,
    pub is_pull_request: bool,
}

/// The total of a code search.
pub struct CodeSearchResponse {
    pub total_count: u32,
}

} // verus!
