//! Per-repository analysis: the draft made from the issues alone, the TODO
//! and FIXME searches, and the finished signal.
use crate::models::{RepoSignal, SearchRepo};
use crate::scoring::{
    analysis_fits, applying_sum, density_applies, factor_applies, factor_candidates, impact_sum, is_breakdown,
    priority_score, FactorText,
    summary_from_signals, summary_line, summary_signals, DensityReading, FactorImpacts,
    IssueAnalysis, MarkerCounts, RepoAnalysisDraft,
};
use crate::text::{chars_of, extend_str, string_from};
use vstd::prelude::*;

verus! {

/// A total of impacts in tenths, capped at 100.0.
pub open spec fn capped(total: nat) -> int {
    if total < 1000 {
        total as int
    } else {
        1000
    }
}

/// `total` is the priority the factors give: the impacts of the applying
/// factors added up, capped at 100.0.
pub open spec fn is_priority(
    total: i64,
    stars: u32,
    open_issues: u32,
    a: IssueAnalysis,
    todo_count: u32,
    fixme_count: u32,
    impacts: FactorImpacts,
) -> bool {
    total == capped(
        applying_sum(
            factor_candidates(stars, open_issues, a, todo_count, fixme_count, impacts),
            factor_applies(stars, open_issues, a, todo_count, fixme_count),
            8,
        ),
    )
}

/// Every factor impact of `i1` is at most that of `i2`.
pub open spec fn impacts_le(i1: FactorImpacts, i2: FactorImpacts) -> bool {
    &&& i1.stale_backlog_tenths <= i2.stale_backlog_tenths
    &&& i1.stale_bug_tenths <= i2.stale_bug_tenths
    &&& i1.stalled_discussion_tenths <= i2.stalled_discussion_tenths
    &&& i1.recurring_bugs_tenths <= i2.recurring_bugs_tenths
    &&& i1.duplicates_tenths <= i2.duplicates_tenths
    &&& i1.triage_gap_tenths <= i2.triage_gap_tenths
    &&& i1.markers_tenths <= i2.markers_tenths
    &&& i1.density_tenths <= i2.density_tenths
}

proof fn lemma_applying_sum_grows(
    c1: Seq<FactorText>,
    ap1: Seq<bool>,
    c2: Seq<FactorText>,
    ap2: Seq<bool>,
    n: int,
)
    requires
        forall|k: int| 0 <= k < n ==> (#[trigger] ap1[k] ==> ap2[k]) && c1[k].2 <= c2[k].2,
    ensures
        applying_sum(c1, ap1, n) <= applying_sum(c2, ap2, n),
    decreases n,
{
    if n > 0 {
        lemma_applying_sum_grows(c1, ap1, c2, ap2, n - 1);
        assert(ap1[n - 1] ==> ap2[n - 1]);
    }
}

/// The score of an analysis never drops when open issues, TODO or FIXME
/// counts grow or stars shrink, as long as no factor's impact drops: every
/// factor that applied still applies (the density one included), and the
/// cap keeps the order. How the impacts themselves grow with the counts is
/// the floating-point formulas' part.
pub proof fn law_score_grows_with_pressure(
    a: IssueAnalysis,
    stars1: u32,
    open1: u32,
    todo1: u32,
    fixme1: u32,
    impacts1: FactorImpacts,
    stars2: u32,
    open2: u32,
    todo2: u32,
    fixme2: u32,
    impacts2: FactorImpacts,
    total1: i64,
    total2: i64,
)
    requires
        stars2 <= stars1,
        open1 <= open2,
        todo1 <= todo2,
        fixme1 <= fixme2,
        impacts_le(impacts1, impacts2),
        is_priority(total1, stars1, open1, a, todo1, fixme1, impacts1),
        is_priority(total2, stars2, open2, a, todo2, fixme2, impacts2),
    ensures
        total1 <= total2,
{
    let c1 = factor_candidates(stars1, open1, a, todo1, fixme1, impacts1);
    let c2 = factor_candidates(stars2, open2, a, todo2, fixme2, impacts2);
    let ap1 = factor_applies(stars1, open1, a, todo1, fixme1);
    let ap2 = factor_applies(stars2, open2, a, todo2, fixme2);
    assert(density_applies(stars1, open1) ==> density_applies(stars2, open2));
    assert forall|k: int| 0 <= k < 8 implies (#[trigger] ap1[k] ==> ap2[k]) && c1[k].2 <= c2[k].2 by {
    }
    lemma_applying_sum_grows(c1, ap1, c2, ap2, 8);
}

/// A repository analysed from its issues, ranked by the priority its issues
/// alone give (no markers counted).
pub fn analyze_repo_issue_draft(repo: SearchRepo, issue_analysis: IssueAnalysis, impacts: &FactorImpacts) -> (draft:
    RepoAnalysisDraft)
    requires
        analysis_fits(issue_analysis),
    ensures
        draft.repo == repo,
        draft.issue_analysis == issue_analysis,
        is_priority(
            draft.issue_only_priority_tenths,
            repo.stargazers_count,
            repo.open_issues_count,
            issue_analysis,
            0,
            0,
            *impacts,
        ),
{
    let (total, _breakdown) = priority_score(
        repo.stargazers_count,
        repo.open_issues_count,
        &issue_analysis,
        0,
        0,
        impacts,
    );
    RepoAnalysisDraft { repo, issue_analysis, issue_only_priority_tenths: total }
}

// ---------------------------------------------------------------------
// TODO and FIXME searches
// ---------------------------------------------------------------------
/// The outcome of one code search for a marker.
pub struct MarkerSearch {
    pub count: u32,
    pub available: bool,
    pub warning: Option<String>,
    pub rate_limited: bool,
}

/// A code search that answered with a total count.
pub fn marker_found(count: u32) -> (s: MarkerSearch)
    ensures
        s.count == count,
        s.available,
        s.warning is None,
        !s.rate_limited,
{
    MarkerSearch { count, available: true, warning: None, rate_limited: false }
}

/// GitHub answers 403 or 429 when code search is rate-limited.
pub open spec fn is_rate_limit_status(status: u16) -> bool {
    status == 403 || status == 429
}

pub open spec fn search_failure_text(marker: Seq<char>, full_name: Seq<char>, reason: Seq<char>) -> Seq<char> {
    "GitHub code search for "@ + marker + " markers in `"@ + full_name + "` failed: "@ + reason
}

/// A code search that failed: with the HTTP status GitHub answered, when it
/// answered, or none when the request or its body failed.
pub fn marker_search_failed(full_name: &str, marker: &str, reason: &str, status: Option<u16>) -> (s: MarkerSearch)
    ensures
        s.count == 0,
        !s.available,
        s.warning matches Some(w) && w@ == search_failure_text(marker@, full_name@, reason@),
        s.rate_limited == (status matches Some(code) && is_rate_limit_status(code)),
{
    let mut text = chars_of("GitHub code search for ");
    extend_str(&mut text, marker);
    extend_str(&mut text, " markers in `");
    extend_str(&mut text, full_name);
    extend_str(&mut text, "` failed: ");
    extend_str(&mut text, reason);
    let rate_limited = match status {
        Some(code) => code == 403 || code == 429,
        None => false,
    };
    MarkerSearch { count: 0, available: false, warning: Some(string_from(&text)), rate_limited }
}

/// The TODO search is made unless code search was rate-limited earlier in
/// the scan.
pub fn needs_todo_search(rate_limited: bool) -> (search: bool)
    ensures
        search == !rate_limited,
{
    !rate_limited
}

/// The FIXME search is made after a TODO search that was not rate-limited.
pub fn needs_fixme_search(todo: &Option<MarkerSearch>) -> (search: bool)
    ensures
        search == (todo matches Some(t) && !t.rate_limited),
{
    match todo {
        Some(t) => !t.rate_limited,
        None => false,
    }
}

pub open spec fn warning_of(s: MarkerSearch) -> Seq<Seq<char>> {
    match s.warning {
        Some(w) => seq![w@],
        None => Seq::empty(),
    }
}

/// The counts of a repository from the searches made (see
/// `needs_todo_search` and `needs_fixme_search`), and whether code search
/// is rate-limited for the rest of the scan.
pub open spec fn marker_outcome(
    rate_limited: bool,
    todo: Option<MarkerSearch>,
    fixme: Option<MarkerSearch>,
    counts: MarkerCounts,
    limited_after: bool,
) -> bool {
    if rate_limited {
        &&& counts.todo_count == 0 && counts.fixme_count == 0
        &&& !counts.todo_available && !counts.fixme_available
        &&& counts.warnings.deep_view() == seq![
            "GitHub code search was already rate-limited earlier in this scan, so later repos do not have TODO/FIXME counts."@,
        ]
        &&& limited_after
    } else {
        match todo {
            Some(t) => if t.rate_limited {
                &&& counts.todo_count == t.count && counts.todo_available == t.available
                &&& counts.fixme_count == 0 && !counts.fixme_available
                &&& counts.warnings.deep_view() == warning_of(t)
                &&& limited_after
            } else {
                match fixme {
                    Some(f) => {
                        &&& counts.todo_count == t.count && counts.todo_available == t.available
                        &&& counts.fixme_count == f.count && counts.fixme_available == f.available
                        &&& counts.warnings.deep_view() == warning_of(t) + warning_of(f)
                        &&& limited_after == f.rate_limited
                    },
                    None => false,
                }
            },
            None => false,
        }
    }
}

fn copy_string(s: &String) -> (c: String)
    ensures
        c@ == s@,
{
    string_from(&chars_of(s.as_str()))
}

fn push_warning(warnings: &mut Vec<String>, s: &MarkerSearch)
    ensures
        final(warnings).deep_view() == old(warnings).deep_view() + warning_of(*s),
{
    match &s.warning {
        Some(w) => {
            let c = copy_string(w);
            warnings.push(c);
            assert(warnings.deep_view() =~= old(warnings).deep_view() + warning_of(*s));
        },
        None => {
            assert(warnings.deep_view() =~= old(warnings).deep_view() + warning_of(*s));
        },
    }
}

/// Combines the marker searches of one repository. `todo` is the TODO
/// search, made when `needs_todo_search(rate_limited)`; `fixme` is the
/// FIXME search, made when `needs_fixme_search(&todo)`.
pub fn collect_marker_counts(rate_limited: bool, todo: &Option<MarkerSearch>, fixme: &Option<MarkerSearch>) -> (result: (
    MarkerCounts,
    bool,
))
    requires
        todo is Some <==> !rate_limited,
        fixme is Some <==> (todo matches Some(t) && !t.rate_limited),
    ensures
        marker_outcome(rate_limited, *todo, *fixme, result.0, result.1),
{
    let mut counts = MarkerCounts::default();
    if rate_limited {
        let w = string_from(
            &chars_of(
                "GitHub code search was already rate-limited earlier in this scan, so later repos do not have TODO/FIXME counts.",
            ),
        );
        counts.warnings.push(w);
        assert(counts.warnings.deep_view() =~= seq![
            "GitHub code search was already rate-limited earlier in this scan, so later repos do not have TODO/FIXME counts."@,
        ]);
        return (counts, true);
    }
    let t = match todo {
        Some(t) => t,
        None => {
            return (counts, false);
        },
    };
    counts.todo_count = t.count;
    counts.todo_available = t.available;
    assert(counts.warnings.deep_view() =~= Seq::<Seq<char>>::empty());
    push_warning(&mut counts.warnings, t);
    if t.rate_limited {
        assert(counts.warnings.deep_view() =~= warning_of(*t));
        return (counts, true);
    }
    let f = match fixme {
        Some(f) => f,
        None => {
            return (counts, false);
        },
    };
    counts.fixme_count = f.count;
    counts.fixme_available = f.available;
    push_warning(&mut counts.warnings, f);
    assert(counts.warnings.deep_view() =~= warning_of(*t) + warning_of(*f));
    (counts, f.rate_limited)
}

// ---------------------------------------------------------------------
// The finished signal
// ---------------------------------------------------------------------
pub open spec fn text_or(o: Option<String>, default: Seq<char>) -> Seq<char> {
    match o {
        Some(s) => s@,
        None => default,
    }
}

/// `signal` is the finished signal of a draft with its marker counts.
pub open spec fn is_finished_signal(
    signal: RepoSignal,
    draft: RepoAnalysisDraft,
    markers: MarkerCounts,
    impacts: FactorImpacts,
    density: DensityReading,
) -> bool {
    let repo = draft.repo;
    let a = draft.issue_analysis;
    let signals = summary_signals(
        a,
        markers.todo_count,
        markers.fixme_count,
        markers.todo_available,
        markers.fixme_available,
        density,
        markers.warnings.deep_view(),
    );
    &&& signal.full_name == repo.full_name
    &&& signal.repo_url == repo.html_url
    &&& signal.description@ == text_or(repo.description, Seq::empty())
    &&& signal.language@ == text_or(repo.language, "unknown"@)
    &&& signal.stars == repo.stargazers_count
    &&& signal.open_issues == repo.open_issues_count
    &&& signal.sampled_issues == a.sampled_issues
    &&& signal.stale_issues == a.stale_issues
    &&& signal.unlabeled_issues == a.unlabeled_issues
    &&& signal.stale_bug_issues == a.stale_bug_issues
    &&& signal.stale_high_comment_issues == a.stale_high_comment_issues
    &&& signal.duplicate_candidates == a.duplicate_candidates
    &&& signal.recurring_bug_clusters == a.recurring_bug_clusters
    &&& signal.todo_count == markers.todo_count
    &&& signal.fixme_count == markers.fixme_count
    &&& signal.todo_available == markers.todo_available
    &&& signal.fixme_available == markers.fixme_available
    &&& is_breakdown(
        factor_candidates(
            repo.stargazers_count,
            repo.open_issues_count,
            a,
            markers.todo_count,
            markers.fixme_count,
            impacts,
        ),
        factor_applies(repo.stargazers_count, repo.open_issues_count, a, markers.todo_count, markers.fixme_count),
        signal.score_breakdown@,
    )
    &&& signal.priority_tenths == capped(impact_sum(signal.score_breakdown@))
    &&& is_priority(
        signal.priority_tenths,
        repo.stargazers_count,
        repo.open_issues_count,
        a,
        markers.todo_count,
        markers.fixme_count,
        impacts,
    )
    &&& signal.signals.deep_view() == signals
    &&& signal.summary@ == summary_line(signals)
    &&& signal.issue_examples == a.issue_examples
    &&& signal.warnings == markers.warnings
    &&& signal.trend is None
}

/// The finished signal of a repository: its draft scored again with the
/// marker counts, its summary, and the warnings of its searches.
pub fn finalize_repo_signal(
    draft: RepoAnalysisDraft,
    marker_counts: MarkerCounts,
    impacts: &FactorImpacts,
    density: &DensityReading,
) -> (signal: RepoSignal)
    requires
        analysis_fits(draft.issue_analysis),
    ensures
        is_finished_signal(signal, draft, marker_counts, *impacts, *density),
{
    let (priority, breakdown) = priority_score(
        draft.repo.stargazers_count,
        draft.repo.open_issues_count,
        &draft.issue_analysis,
        marker_counts.todo_count,
        marker_counts.fixme_count,
        impacts,
    );
    let (summary, signals) = summary_from_signals(
        &draft.issue_analysis,
        marker_counts.todo_count,
        marker_counts.fixme_count,
        marker_counts.todo_available,
        marker_counts.fixme_available,
        &marker_counts.warnings,
        density,
    );
    let repo = draft.repo;
    let a = draft.issue_analysis;
    let description = match repo.description {
        Some(d) => d,
        None => String::new(),
    };
    let language = match repo.language {
        Some(l) => l,
        None => string_from(&chars_of("unknown")),
    };
    RepoSignal {
        full_name: repo.full_name,
        repo_url: repo.html_url,
        description,
        language,
        stars: repo.stargazers_count,
        open_issues: repo.open_issues_count,
        sampled_issues: a.sampled_issues,
        stale_issues: a.stale_issues,
        unlabeled_issues: a.unlabeled_issues,
        stale_bug_issues: a.stale_bug_issues,
        stale_high_comment_issues: a.stale_high_comment_issues,
        duplicate_candidates: a.duplicate_candidates,
        recurring_bug_clusters: a.recurring_bug_clusters,
        todo_count: marker_counts.todo_count,
        fixme_count: marker_counts.fixme_count,
        todo_available: marker_counts.todo_available,
        fixme_available: marker_counts.fixme_available,
        priority_tenths: priority,
        score_breakdown: breakdown,
        summary,
        signals,
        issue_examples: a.issue_examples,
        warnings: marker_counts.warnings,
        trend: None,
    }
}

} // verus!
