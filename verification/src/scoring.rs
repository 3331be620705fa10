//! Scoring a repository: which factors apply, how they are described and
//! ordered, the total priority, and the signal lines of its summary.
//!
//! The impact of each factor is a floating-point formula of ratios; it is
//! evaluated outside the library and handed in, in tenths, as
//! `FactorImpacts`.
use crate::clusters::{clusters_spec, recurring_bug_clusters};
use crate::issues::{
    are_stale_examples, count_indices, issue_ages, issue_counts, stale_at, stale_bug_at, stale_discussed_at,
    stale_issue_examples, unlabeled_at,
};
use crate::models::{DuplicateCandidate, GitHubIssue, IssueSample, RecurringBugCluster, ScoreFactor, SearchRepo};
use crate::ranking::{is_top, key_before, lemma_top_takes_all_eligible, select_top};
use crate::clock::rfc3339_parses;
use crate::duplicates::occurs_in;
use crate::report::first_n;
use crate::terms::{bug_flags, bug_flags_of, bug_terms_of, issue_bug_terms, term_lists};
use crate::text::{chars_eq, chars_of, copy_chars, decimal, extend_str, join, join_chars, push_decimal, string_from, views};
use crate::trend::{recurring_issue_count, recurring_total};
use vstd::prelude::*;

verus! {

/// What the sampled issues of a repository show.
pub struct IssueAnalysis {
    pub sampled_issues: u32,
    pub stale_issues: u32,
    pub unlabeled_issues: u32,
    pub stale_bug_issues: u32,
    pub stale_high_comment_issues: u32,
    pub issue_examples: Vec<IssueSample>,
    pub duplicate_candidates: Vec<DuplicateCandidate>,
    pub recurring_bug_clusters: Vec<RecurringBugCluster>,
}

/// A repository analysed from its issues alone, before code search.
pub struct RepoAnalysisDraft {
    pub repo: SearchRepo,
    pub issue_analysis: IssueAnalysis,
    pub issue_only_priority_tenths: i64,
}

/// TODO and FIXME counts from code search, whether each search succeeded,
/// and the warnings it raised.
pub struct MarkerCounts {
    pub todo_count: u32,
    pub fixme_count: u32,
    pub todo_available: bool,
    pub fixme_available: bool,
    pub warnings: Vec<String>,
}

impl Default for MarkerCounts {
    /// No markers, neither search available, no warnings.
    fn default() -> (m: Self)
        ensures
            m.todo_count == 0,
            m.fixme_count == 0,
            !m.todo_available,
            !m.fixme_available,
            m.warnings@.len() == 0,
    {
        MarkerCounts {
            todo_count: 0,
            fixme_count: 0,
            todo_available: false,
            fixme_available: false,
            warnings: Vec::new(),
        }
    }
}

/// The impact of each factor in tenths, and the open-issue density read
/// as text with one decimal. Whether the density factor applies is decided
/// from the star and open-issue counts (`density_applies`);
/// `density_tenths` is its impact where it does.
pub struct FactorImpacts {
    pub stale_backlog_tenths: u32,
    pub stale_bug_tenths: u32,
    pub stalled_discussion_tenths: u32,
    pub recurring_bugs_tenths: u32,
    pub duplicates_tenths: u32,
    pub triage_gap_tenths: u32,
    pub markers_tenths: u32,
    pub density_tenths: u32,
    pub density_text: String,
}

/// The open-issue density as a signal: whether it counts as high, and the
/// value read as text with one decimal.
pub struct DensityReading {
    pub high: bool,
    pub per_100_stars: String,
}

/// The numbers a score and a summary read from an analysis.
pub open spec fn analysis_fits(a: IssueAnalysis) -> bool {
    &&& a.recurring_bug_clusters@.len() <= 0xffff_ffff
    &&& recurring_total(a.recurring_bug_clusters@) <= u32::MAX
}

/// Whether a score can read an analysis: its recurring issues add up
/// within `u32`.
pub fn analysis_fits_exec(a: &IssueAnalysis) -> (fits: bool)
    ensures
        fits == analysis_fits(*a),
{
    a.recurring_bug_clusters.len() <= 0xffff_ffff && recurring_issue_count(&a.recurring_bug_clusters) <= 0xffff_ffff
}

// ---------------------------------------------------------------------
// Factors
// ---------------------------------------------------------------------
/// A factor as text: key, label, impact in tenths, detail.
pub type FactorText = (Seq<char>, Seq<char>, u32, Seq<char>);

pub open spec fn factor_view(f: ScoreFactor) -> FactorText {
    (f.key@, f.label@, f.impact_tenths, f.detail@)
}

pub open spec fn recurring_strongest(clusters: Seq<RecurringBugCluster>) -> Seq<char> {
    if clusters.len() == 0 {
        "bug reports cluster around repeated symptoms"@
    } else {
        "top pattern '"@ + clusters[0].label@ + "' appears in "@ + decimal(clusters[0].issue_count as nat)
            + " issues"@
    }
}

pub open spec fn duplicate_strongest(pairs: Seq<DuplicateCandidate>) -> Seq<char> {
    if pairs.len() == 0 {
        "title overlap suggests duplicate work"@
    } else {
        "strongest pair looks "@ + decimal(pairs[0].similarity_hundredths as nat) + "% alike"@
    }
}

/// Every factor in the order it is considered.
pub open spec fn factor_candidates(
    stars: u32,
    open_issues: u32,
    a: IssueAnalysis,
    todo_count: u32,
    fixme_count: u32,
    impacts: FactorImpacts,
) -> Seq<FactorText> {
    let clusters = a.recurring_bug_clusters@;
    let pairs = a.duplicate_candidates@;
    seq![
        (
            "stale_backlog"@,
            "Stale backlog"@,
            impacts.stale_backlog_tenths,
            decimal(a.stale_issues as nat) + " of "@ + decimal(a.sampled_issues as nat)
                + " sampled issues are stale"@,
        ),
        (
            "stale_bug"@,
            "Stale bug pressure"@,
            impacts.stale_bug_tenths,
            decimal(a.stale_bug_issues as nat) + " stale bug-like issues are still open"@,
        ),
        (
            "stalled_discussion"@,
            "Stalled discussions"@,
            impacts.stalled_discussion_tenths,
            decimal(a.stale_high_comment_issues as nat) + " stale issues still have active discussion"@,
        ),
        (
            "recurring_bugs"@,
            "Recurring bug pattern"@,
            impacts.recurring_bugs_tenths,
            decimal(clusters.len()) + " recurring bug clusters across "@ + decimal(
                recurring_total(clusters) as nat,
            ) + " issues; "@ + recurring_strongest(clusters),
        ),
        (
            "duplicates"@,
            "Duplicate issue pressure"@,
            impacts.duplicates_tenths,
            decimal(pairs.len()) + " likely duplicate pairs; "@ + duplicate_strongest(pairs),
        ),
        (
            "triage_gap"@,
            "Triage gap"@,
            impacts.triage_gap_tenths,
            decimal(a.unlabeled_issues as nat) + " sampled issues have no labels"@,
        ),
        (
            "markers"@,
            "Code markers"@,
            impacts.markers_tenths,
            decimal(todo_count as nat) + " TODO and "@ + decimal(fixme_count as nat)
                + " FIXME markers found"@,
        ),
        (
            "issue_density"@,
            "Open issue density"@,
            impacts.density_tenths,
            decimal(open_issues as nat) + " open issues across "@ + decimal(stars as nat) + " stars ("@
                + impacts.density_text@ + " per 100 stars)"@,
        ),
    ]
}

/// Open issues per 100 stars (stars counted as at least 25) above 10: the
/// density then adds to the score.
pub open spec fn density_applies(stars: u32, open_issues: u32) -> bool {
    open_issues * 10 > if stars < 25 {
        25
    } else {
        stars
    }
}

fn density_applies_exec(stars: u32, open_issues: u32) -> (r: bool)
    ensures
        r == density_applies(stars, open_issues),
{
    let floor: u64 = if stars < 25 {
        25
    } else {
        stars as u64
    };
    open_issues as u64 * 10 > floor
}

/// Which factors apply: those whose count is positive, markers when any
/// marker was found, density when open issues exceed 10 per 100 stars.
pub open spec fn factor_applies(stars: u32, open_issues: u32, a: IssueAnalysis, todo_count: u32, fixme_count: u32) -> Seq<
    bool,
> {
    seq![
        a.stale_issues > 0,
        a.stale_bug_issues > 0,
        a.stale_high_comment_issues > 0,
        a.recurring_bug_clusters@.len() > 0,
        a.duplicate_candidates@.len() > 0,
        a.unlabeled_issues > 0,
        todo_count > 0 || fixme_count > 0,
        density_applies(stars, open_issues),
    ]
}

pub open spec fn impact_keys(c: Seq<FactorText>) -> Seq<(i64, i64)> {
    c.map_values(|f: FactorText| (f.2 as i64, 0i64))
}

/// The applying factors ordered by impact, largest first, equal impacts in
/// the order they are considered.
pub open spec fn is_breakdown(c: Seq<FactorText>, applies: Seq<bool>, breakdown: Seq<ScoreFactor>) -> bool {
    exists|picked: Seq<usize>|
        {
            &&& is_top(impact_keys(c), applies, 8, picked)
            &&& breakdown.len() == picked.len()
            &&& forall|i: int| 0 <= i < picked.len() ==> factor_view(#[trigger] breakdown[i]) == c[picked[i] as int]
        }
}

/// The keys of the factors, in the order they are considered.
pub open spec fn factor_keys() -> Seq<Seq<char>> {
    seq![
        "stale_backlog"@,
        "stale_bug"@,
        "stalled_discussion"@,
        "recurring_bugs"@,
        "duplicates"@,
        "triage_gap"@,
        "markers"@,
        "issue_density"@,
    ]
}

/// The impact that `impacts` gives the factor with key `key`.
pub open spec fn impact_of_key(impacts: FactorImpacts, key: Seq<char>) -> u32 {
    if key == "stale_backlog"@ {
        impacts.stale_backlog_tenths
    } else if key == "stale_bug"@ {
        impacts.stale_bug_tenths
    } else if key == "stalled_discussion"@ {
        impacts.stalled_discussion_tenths
    } else if key == "recurring_bugs"@ {
        impacts.recurring_bugs_tenths
    } else if key == "duplicates"@ {
        impacts.duplicates_tenths
    } else if key == "triage_gap"@ {
        impacts.triage_gap_tenths
    } else if key == "markers"@ {
        impacts.markers_tenths
    } else {
        impacts.density_tenths
    }
}

proof fn lemma_factor_keys_distinct()
    ensures
        forall|i: int, j: int| 0 <= i < 8 && 0 <= j < 8 && i != j ==> #[trigger] factor_keys()[i] != #[trigger] factor_keys()[j],
{
    reveal_strlit("stale_backlog");
    reveal_strlit("stale_bug");
    reveal_strlit("stalled_discussion");
    reveal_strlit("recurring_bugs");
    reveal_strlit("duplicates");
    reveal_strlit("triage_gap");
    reveal_strlit("markers");
    reveal_strlit("issue_density");
    let k = factor_keys();
    assert forall|i: int, j: int| 0 <= i < 8 && 0 <= j < 8 && i != j implies #[trigger] k[i] != #[trigger] k[j] by {
        if k[i].len() == k[j].len() {
            assert(k[i][0] != k[j][0] || k[i][5] != k[j][5]);
        }
    }
}

/// Every factor of a breakdown carries the impact of its own kind: the
/// factor keyed `stalled_discussion` carries the stalled-discussion impact,
/// and so for every key; so changing one kind's impact changes only the
/// factor of that kind.
pub proof fn law_each_factor_carries_its_own_impact(
    stars: u32,
    open_issues: u32,
    a: IssueAnalysis,
    todo_count: u32,
    fixme_count: u32,
    impacts: FactorImpacts,
    b: Seq<ScoreFactor>,
)
    requires
        is_breakdown(
            factor_candidates(stars, open_issues, a, todo_count, fixme_count, impacts),
            factor_applies(stars, open_issues, a, todo_count, fixme_count),
            b,
        ),
    ensures
        forall|i: int|
            0 <= i < b.len() ==> factor_keys().contains((#[trigger] b[i]).key@) && b[i].impact_tenths
                == impact_of_key(impacts, b[i].key@),
{
    let c = factor_candidates(stars, open_issues, a, todo_count, fixme_count, impacts);
    let applies = factor_applies(stars, open_issues, a, todo_count, fixme_count);
    let picked = choose|picked: Seq<usize>|
        {
            &&& is_top(impact_keys(c), applies, 8, picked)
            &&& b.len() == picked.len()
            &&& forall|i: int| 0 <= i < picked.len() ==> factor_view(#[trigger] b[i]) == c[picked[i] as int]
        };
    lemma_factor_keys_distinct();
    let k = factor_keys();
    assert forall|i: int| 0 <= i < b.len() implies factor_keys().contains((#[trigger] b[i]).key@) && b[i].impact_tenths
        == impact_of_key(impacts, b[i].key@) by {
        assert(factor_view(b[i]) == c[picked[i] as int]);
        let m = picked[i] as int;
        assert(m < 8);
        assert(b[i].key@ == k[m]);
        assert(k[m] != k[0] || m == 0);
        assert(k[m] != k[1] || m == 1);
        assert(k[m] != k[2] || m == 2);
        assert(k[m] != k[3] || m == 3);
        assert(k[m] != k[4] || m == 4);
        assert(k[m] != k[5] || m == 5);
        assert(k[m] != k[6] || m == 6);
    }
}

/// `f` is one of the applying factors.
pub open spec fn is_applying_factor(c: Seq<FactorText>, applies: Seq<bool>, f: ScoreFactor) -> bool {
    exists|k: int| 0 <= k < c.len() && applies[k] && factor_view(f) == c[k]
}

/// The factors behind a score are the applying factors and no others,
/// largest impact first.
pub proof fn law_breakdown_lists_applying_factors(c: Seq<FactorText>, applies: Seq<bool>, b: Seq<ScoreFactor>)
    requires
        c.len() == 8,
        applies.len() == 8,
        is_breakdown(c, applies, b),
    ensures
        forall|i: int, j: int| 0 <= i < j < b.len() ==> #[trigger] b[i].impact_tenths >= #[trigger] b[j].impact_tenths,
        forall|i: int| 0 <= i < b.len() ==> is_applying_factor(c, applies, #[trigger] b[i]),
        forall|k: int|
            0 <= k < 8 && #[trigger] applies[k] ==> exists|i: int| 0 <= i < b.len() && factor_view(b[i]) == c[k],
{
    let picked = choose|picked: Seq<usize>|
        {
            &&& is_top(impact_keys(c), applies, 8, picked)
            &&& b.len() == picked.len()
            &&& forall|i: int| 0 <= i < picked.len() ==> factor_view(#[trigger] b[i]) == c[picked[i] as int]
        };
    let keys = impact_keys(c);
    assert forall|i: int, j: int| 0 <= i < j < b.len() implies #[trigger] b[i].impact_tenths >= #[trigger] b[j].impact_tenths by {
        assert(key_before(keys, picked[i] as int, picked[j] as int));
        assert(factor_view(b[i]) == c[picked[i] as int]);
        assert(factor_view(b[j]) == c[picked[j] as int]);
    }
    lemma_top_takes_all_eligible(keys, applies, 8, picked);
    assert forall|k: int| 0 <= k < 8 && #[trigger] applies[k] implies exists|i: int| 0 <= i < b.len() && factor_view(b[i]) == c[k] by {
        assert(picked.contains(k as usize));
        let i = choose|i: int| 0 <= i < picked.len() && picked[i] == k as usize;
        assert(factor_view(b[i]) == c[picked[i] as int]);
    }
    assert forall|i: int| 0 <= i < b.len() implies is_applying_factor(c, applies, #[trigger] b[i]) by {
        assert(picked[i] < keys.len());
        let k = picked[i] as int;
        assert(applies[k]);
        assert(factor_view(b[i]) == c[k]);
    }
}

/// The impacts of the applying factors among the first `n`, added up.
pub open spec fn applying_sum(c: Seq<FactorText>, applies: Seq<bool>, n: int) -> nat
    decreases n,
{
    if n <= 0 {
        0
    } else {
        applying_sum(c, applies, n - 1) + if applies[n - 1] {
            c[n - 1].2 as nat
        } else {
            0nat
        }
    }
}

spec fn picked_sum(c: Seq<FactorText>, p: Seq<usize>) -> nat
    decreases p.len(),
{
    if p.len() == 0 {
        0
    } else {
        picked_sum(c, p.drop_last()) + c[p.last() as int].2 as nat
    }
}

spec fn member_sum(c: Seq<FactorText>, p: Seq<usize>, n: int) -> nat
    decreases n,
{
    if n <= 0 {
        0
    } else {
        member_sum(c, p, n - 1) + if p.contains((n - 1) as usize) {
            c[n - 1].2 as nat
        } else {
            0nat
        }
    }
}

proof fn lemma_member_sum_push(c: Seq<FactorText>, q: Seq<usize>, x: usize, m: int)
    requires
        !q.contains(x),
        0 <= m <= 8,
        x < 8,
    ensures
        member_sum(c, q.push(x), m) == member_sum(c, q, m) + if (x as int) < m {
            c[x as int].2 as nat
        } else {
            0nat
        },
    decreases m,
{
    if m > 0 {
        lemma_member_sum_push(c, q, x, m - 1);
        let k = (m - 1) as usize;
        assert(q.push(x).contains(k) == (q.contains(k) || k == x)) by {
            if q.push(x).contains(k) {
                let j = choose|j: int| 0 <= j < q.push(x).len() && q.push(x)[j] == k;
                if j < q.len() {
                    assert(q[j] == k);
                }
            }
            if q.contains(k) {
                let j = choose|j: int| 0 <= j < q.len() && q[j] == k;
                assert(q.push(x)[j] == k);
            }
            if k == x {
                assert(q.push(x)[q.len() as int] == k);
            }
        }
    }
}

proof fn lemma_picked_is_member_sum(c: Seq<FactorText>, p: Seq<usize>)
    requires
        forall|a: int| 0 <= a < p.len() ==> (#[trigger] p[a]) < 8,
        forall|a: int, b: int| 0 <= a < b < p.len() ==> #[trigger] p[a] != #[trigger] p[b],
    ensures
        picked_sum(c, p) == member_sum(c, p, 8),
    decreases p.len(),
{
    if p.len() == 0 {
        lemma_member_sum_empty(c, p, 8);
    } else {
        let q = p.drop_last();
        let x = p.last();
        lemma_picked_is_member_sum(c, q);
        assert(!q.contains(x)) by {
            if q.contains(x) {
                let j = choose|j: int| 0 <= j < q.len() && q[j] == x;
                assert(p[j] == p[p.len() - 1]);
            }
        }
        lemma_member_sum_push(c, q, x, 8);
        assert(q.push(x) =~= p);
    }
}

proof fn lemma_member_sum_empty(c: Seq<FactorText>, p: Seq<usize>, m: int)
    requires
        p.len() == 0,
    ensures
        member_sum(c, p, m) == 0,
    decreases m,
{
    if m > 0 {
        lemma_member_sum_empty(c, p, m - 1);
    }
}

proof fn lemma_member_is_applying(c: Seq<FactorText>, p: Seq<usize>, applies: Seq<bool>, m: int)
    requires
        0 <= m <= 8,
        applies.len() == 8,
        forall|k: int| 0 <= k < 8 ==> p.contains(k as usize) == applies[k],
    ensures
        member_sum(c, p, m) == applying_sum(c, applies, m),
    decreases m,
{
    if m > 0 {
        lemma_member_is_applying(c, p, applies, m - 1);
        assert(p.contains((m - 1) as usize) == applies[m - 1]);
    }
}

proof fn lemma_impact_sum_picked(c: Seq<FactorText>, b: Seq<ScoreFactor>, p: Seq<usize>)
    requires
        b.len() == p.len(),
        forall|i: int| 0 <= i < p.len() ==> factor_view(#[trigger] b[i]) == c[p[i] as int],
    ensures
        impact_sum(b) == picked_sum(c, p),
    decreases b.len(),
{
    if b.len() > 0 {
        let b2 = b.drop_last();
        let p2 = p.drop_last();
        assert forall|i: int| 0 <= i < p2.len() implies factor_view(#[trigger] b2[i]) == c[p2[i] as int] by {
            assert(b2[i] == b[i] && p2[i] == p[i]);
        }
        lemma_impact_sum_picked(c, b2, p2);
        assert(factor_view(b[b.len() - 1]) == c[p[p.len() - 1] as int]);
    }
}

/// The impacts behind a score add up to the impacts of the applying
/// factors, whatever their order.
pub proof fn law_breakdown_sums_applying_impacts(c: Seq<FactorText>, applies: Seq<bool>, b: Seq<ScoreFactor>)
    requires
        c.len() == 8,
        applies.len() == 8,
        is_breakdown(c, applies, b),
    ensures
        impact_sum(b) == applying_sum(c, applies, 8),
{
    let keys = impact_keys(c);
    let picked = choose|picked: Seq<usize>|
        {
            &&& is_top(keys, applies, 8, picked)
            &&& b.len() == picked.len()
            &&& forall|i: int| 0 <= i < picked.len() ==> factor_view(#[trigger] b[i]) == c[picked[i] as int]
        };
    lemma_impact_sum_picked(c, b, picked);
    assert forall|a: int, d: int| 0 <= a < d < picked.len() implies #[trigger] picked[a] != #[trigger] picked[d] by {
        assert(key_before(keys, picked[a] as int, picked[d] as int));
    }
    assert forall|a: int| 0 <= a < picked.len() implies (#[trigger] picked[a]) < 8 by {
        assert(picked[a] < keys.len());
    }
    lemma_picked_is_member_sum(c, picked);
    lemma_top_takes_all_eligible(keys, applies, 8, picked);
    assert forall|k: int| 0 <= k < 8 implies picked.contains(k as usize) == applies[k] by {
        if picked.contains(k as usize) {
            let a = choose|a: int| 0 <= a < picked.len() && picked[a] == k as usize;
            assert(applies[picked[a] as int]);
        }
    }
    lemma_member_is_applying(c, picked, applies, 8);
}

pub open spec fn impact_sum(f: Seq<ScoreFactor>) -> nat
    decreases f.len(),
{
    if f.len() == 0 {
        0
    } else {
        impact_sum(f.drop_last()) + f.last().impact_tenths as nat
    }
}

fn make_factor(key: &str, label: &str, impact_tenths: u32, detail: Vec<char>) -> (f: ScoreFactor)
    ensures
        factor_view(f) == (key@, label@, impact_tenths, detail@),
{
    ScoreFactor {
        key: string_from(&chars_of(key)),
        label: string_from(&chars_of(label)),
        impact_tenths,
        detail: string_from(&detail),
    }
}

fn clone_factor(f: &ScoreFactor) -> (g: ScoreFactor)
    ensures
        factor_view(g) == factor_view(*f),
{
    ScoreFactor {
        key: string_from(&chars_of(f.key.as_str())),
        label: string_from(&chars_of(f.label.as_str())),
        impact_tenths: f.impact_tenths,
        detail: string_from(&chars_of(f.detail.as_str())),
    }
}

fn recurring_detail(clusters: &Vec<RecurringBugCluster>) -> (d: Vec<char>)
    requires
        clusters@.len() <= 0xffff_ffff,
        recurring_total(clusters@) <= u32::MAX,
    ensures
        d@ == decimal(clusters@.len()) + " recurring bug clusters across "@ + decimal(
            recurring_total(clusters@) as nat,
        ) + " issues; "@ + recurring_strongest(clusters@),
{
    let mut d = Vec::new();
    push_decimal(&mut d, clusters.len() as u64);
    extend_str(&mut d, " recurring bug clusters across ");
    let total = recurring_issue_count(clusters);
    push_decimal(&mut d, total);
    extend_str(&mut d, " issues; ");
    let ghost pre = d@;
    if clusters.len() == 0 {
        extend_str(&mut d, "bug reports cluster around repeated symptoms");
    } else {
        extend_str(&mut d, "top pattern '");
        extend_str(&mut d, clusters[0].label.as_str());
        extend_str(&mut d, "' appears in ");
        push_decimal(&mut d, clusters[0].issue_count as u64);
        extend_str(&mut d, " issues");
    }
    assert(d@ =~= pre + recurring_strongest(clusters@));
    d
}

fn duplicates_detail(pairs: &Vec<DuplicateCandidate>) -> (d: Vec<char>)
    ensures
        d@ == decimal(pairs@.len()) + " likely duplicate pairs; "@ + duplicate_strongest(pairs@),
{
    let mut d = Vec::new();
    push_decimal(&mut d, pairs.len() as u64);
    extend_str(&mut d, " likely duplicate pairs; ");
    let ghost pre = d@;
    if pairs.len() == 0 {
        extend_str(&mut d, "title overlap suggests duplicate work");
    } else {
        extend_str(&mut d, "strongest pair looks ");
        push_decimal(&mut d, pairs[0].similarity_hundredths as u64);
        extend_str(&mut d, "% alike");
    }
    assert(d@ =~= pre + duplicate_strongest(pairs@));
    d
}

fn count_detail(n: u64, text: &str) -> (d: Vec<char>)
    ensures
        d@ == decimal(n as nat) + text@,
{
    let mut d = Vec::new();
    push_decimal(&mut d, n);
    extend_str(&mut d, text);
    d
}

fn pair_detail(n: u64, middle: &str, m: u64, text: &str) -> (d: Vec<char>)
    ensures
        d@ == decimal(n as nat) + middle@ + decimal(m as nat) + text@,
{
    let mut d = Vec::new();
    push_decimal(&mut d, n);
    extend_str(&mut d, middle);
    push_decimal(&mut d, m);
    extend_str(&mut d, text);
    d
}

fn density_detail(open_issues: u32, stars: u32, density_text: &String) -> (d: Vec<char>)
    ensures
        d@ == decimal(open_issues as nat) + " open issues across "@ + decimal(stars as nat) + " stars ("@
            + density_text@ + " per 100 stars)"@,
{
    let mut d = pair_detail(open_issues as u64, " open issues across ", stars as u64, " stars (");
    extend_str(&mut d, density_text.as_str());
    extend_str(&mut d, " per 100 stars)");
    d
}

/// Every factor, in the order they are considered.
fn candidate_factors(
    stars: u32,
    open_issues: u32,
    a: &IssueAnalysis,
    todo_count: u32,
    fixme_count: u32,
    impacts: &FactorImpacts,
) -> (all: Vec<ScoreFactor>)
    requires
        analysis_fits(*a),
    ensures
        all@.len() == 8,
        forall|i: int|
            0 <= i < 8 ==> factor_view(#[trigger] all@[i]) == factor_candidates(
                stars,
                open_issues,
                *a,
                todo_count,
                fixme_count,
                *impacts,
            )[i],
{
    let mut all: Vec<ScoreFactor> = Vec::new();
    let d = pair_detail(a.stale_issues as u64, " of ", a.sampled_issues as u64, " sampled issues are stale");
    all.push(make_factor("stale_backlog", "Stale backlog", impacts.stale_backlog_tenths, d));
    let d = count_detail(a.stale_bug_issues as u64, " stale bug-like issues are still open");
    all.push(make_factor("stale_bug", "Stale bug pressure", impacts.stale_bug_tenths, d));
    let d = count_detail(a.stale_high_comment_issues as u64, " stale issues still have active discussion");
    all.push(make_factor("stalled_discussion", "Stalled discussions", impacts.stalled_discussion_tenths, d));
    let d = recurring_detail(&a.recurring_bug_clusters);
    all.push(make_factor("recurring_bugs", "Recurring bug pattern", impacts.recurring_bugs_tenths, d));
    let d = duplicates_detail(&a.duplicate_candidates);
    all.push(make_factor("duplicates", "Duplicate issue pressure", impacts.duplicates_tenths, d));
    let d = count_detail(a.unlabeled_issues as u64, " sampled issues have no labels");
    all.push(make_factor("triage_gap", "Triage gap", impacts.triage_gap_tenths, d));
    let d = pair_detail(todo_count as u64, " TODO and ", fixme_count as u64, " FIXME markers found");
    all.push(make_factor("markers", "Code markers", impacts.markers_tenths, d));
    let d = density_detail(open_issues, stars, &impacts.density_text);
    all.push(make_factor("issue_density", "Open issue density", impacts.density_tenths, d));
    all
}

/// The priority of a repository and the factors behind it: the applying
/// factors ordered by impact, largest first, and their total capped at
/// 100.0 (1000 tenths).
pub fn priority_score(
    stars: u32,
    open_issues: u32,
    issue_analysis: &IssueAnalysis,
    todo_count: u32,
    fixme_count: u32,
    impacts: &FactorImpacts,
) -> (scored: (i64, Vec<ScoreFactor>))
    requires
        analysis_fits(*issue_analysis),
    ensures
        is_breakdown(
            factor_candidates(stars, open_issues, *issue_analysis, todo_count, fixme_count, *impacts),
            factor_applies(stars, open_issues, *issue_analysis, todo_count, fixme_count),
            scored.1@,
        ),
        scored.0 == if impact_sum(scored.1@) < 1000 {
            impact_sum(scored.1@) as int
        } else {
            1000
        },
        impact_sum(scored.1@) == applying_sum(
            factor_candidates(stars, open_issues, *issue_analysis, todo_count, fixme_count, *impacts),
            factor_applies(stars, open_issues, *issue_analysis, todo_count, fixme_count),
            8,
        ),
{
    let a = issue_analysis;
    let ghost cands = factor_candidates(stars, open_issues, *a, todo_count, fixme_count, *impacts);
    let all = candidate_factors(stars, open_issues, a, todo_count, fixme_count, impacts);
    let clusters = &a.recurring_bug_clusters;
    let pairs = &a.duplicate_candidates;
    let mut keys: Vec<(i64, i64)> = Vec::new();
    let mut i: usize = 0;
    while i < 8
        invariant
            all@.len() == 8,
            cands.len() == 8,
            forall|j: int| 0 <= j < 8 ==> factor_view(#[trigger] all@[j]) == cands[j],
            i <= 8,
            keys@ == impact_keys(cands).subrange(0, i as int),
        decreases 8 - i,
    {
        assert(factor_view(all@[i as int]) == cands[i as int]);
        keys.push((all[i].impact_tenths as i64, 0i64));
        i += 1;
        assert(keys@ =~= impact_keys(cands).subrange(0, i as int));
    }
    assert(keys@ =~= impact_keys(cands));
    let mut applies: Vec<bool> = Vec::new();
    applies.push(a.stale_issues > 0);
    applies.push(a.stale_bug_issues > 0);
    applies.push(a.stale_high_comment_issues > 0);
    applies.push(clusters.len() > 0);
    applies.push(pairs.len() > 0);
    applies.push(a.unlabeled_issues > 0);
    applies.push(todo_count > 0 || fixme_count > 0);
    applies.push(density_applies_exec(stars, open_issues));
    assert(applies@ =~= factor_applies(stars, open_issues, *a, todo_count, fixme_count));
    let picked = select_top(&keys, &applies, 8);
    let mut breakdown: Vec<ScoreFactor> = Vec::new();
    let mut sum: u64 = 0;
    let mut b: usize = 0;
    while b < picked.len()
        invariant
            all@.len() == 8,
            forall|j: int| 0 <= j < 8 ==> factor_view(#[trigger] all@[j]) == cands[j],
            cands.len() == 8,
            keys@ == impact_keys(cands),
            is_top(keys@, applies@, 8, picked@),
            b <= picked@.len(),
            breakdown@.len() == b,
            forall|j: int| 0 <= j < b ==> factor_view(#[trigger] breakdown@[j]) == cands[picked@[j] as int],
            sum == impact_sum(breakdown@),
            sum <= b * 0xffff_ffff,
        decreases picked@.len() - b,
    {
        let p = picked[b];
        assert(picked@[b as int] < keys@.len());
        let f = clone_factor(&all[p]);
        let ghost before = breakdown@;
        sum = sum + f.impact_tenths as u64;
        breakdown.push(f);
        assert(breakdown@.drop_last() =~= before);
        b += 1;
    }
    let total: i64 = if sum < 1000 {
        sum as i64
    } else {
        1000
    };
    proof {
        law_breakdown_sums_applying_impacts(cands, applies@, breakdown@);
    }
    (total, breakdown)
}

// ---------------------------------------------------------------------
// Summary
// ---------------------------------------------------------------------
pub open spec fn line_if(b: bool, l: Seq<char>) -> Seq<Seq<char>> {
    if b {
        seq![l]
    } else {
        Seq::empty()
    }
}

pub open spec fn marker_signal(todo_count: u32, fixme_count: u32, todo_available: bool, fixme_available: bool) -> Seq<
    Seq<char>,
> {
    if todo_available && fixme_available && (todo_count > 0 || fixme_count > 0) {
        seq![
            decimal(todo_count as nat) + " TODO and "@ + decimal(fixme_count as nat)
                + " FIXME markers were found in code search"@,
        ]
    } else if !todo_available && !fixme_available {
        seq!["TODO/FIXME marker counts were unavailable for this repo in this scan"@]
    } else if !todo_available {
        seq!["TODO marker counts were unavailable for this repo in this scan"@]
    } else if !fixme_available {
        seq!["FIXME marker counts were unavailable for this repo in this scan"@]
    } else {
        Seq::empty()
    }
}

/// The signals an analysis raises, in order of weight.
pub open spec fn base_signals(
    a: IssueAnalysis,
    todo_count: u32,
    fixme_count: u32,
    todo_available: bool,
    fixme_available: bool,
    density: DensityReading,
) -> Seq<Seq<char>> {
    let clusters = a.recurring_bug_clusters@;
    line_if(
        clusters.len() > 0,
        "Recurring bug pattern '"@ + clusters[0].label@ + "' appears across "@ + decimal(
            clusters[0].issue_count as nat,
        ) + " sampled issues"@,
    ) + line_if(
        a.stale_bug_issues > 0,
        decimal(a.stale_bug_issues as nat) + " stale bug-like issues are still open"@,
    ) + line_if(
        a.stale_issues > 0,
        decimal(a.stale_issues as nat) + " of "@ + decimal(a.sampled_issues as nat) + " sampled issues look stale"@,
    ) + line_if(
        a.stale_high_comment_issues > 0,
        decimal(a.stale_high_comment_issues as nat) + " stale issues still have active comment history"@,
    ) + line_if(
        a.duplicate_candidates@.len() > 0,
        decimal(a.duplicate_candidates@.len()) + " likely duplicate issue pairs were found"@,
    ) + line_if(
        a.unlabeled_issues >= 2,
        decimal(a.unlabeled_issues as nat) + " sampled issues are unlabeled, which points to triage drift"@,
    ) + marker_signal(todo_count, fixme_count, todo_available, fixme_available) + line_if(
        density.high,
        "Open issue density is high for repo size ("@ + density.per_100_stars@ + " per 100 stars)"@,
    )
}

pub open spec fn with_fallback(s: Seq<Seq<char>>) -> Seq<Seq<char>> {
    if s.len() == 0 {
        seq!["No major maintenance signals found in the current sample"@]
    } else {
        s
    }
}

/// `s` followed by each of `w` that is not already there.
pub open spec fn add_unique(s: Seq<Seq<char>>, w: Seq<Seq<char>>) -> Seq<Seq<char>>
    decreases w.len(),
{
    if w.len() == 0 {
        s
    } else {
        let r = add_unique(s, w.drop_last());
        if r.contains(w.last()) {
            r
        } else {
            r.push(w.last())
        }
    }
}

pub open spec fn summary_signals(
    a: IssueAnalysis,
    todo_count: u32,
    fixme_count: u32,
    todo_available: bool,
    fixme_available: bool,
    density: DensityReading,
    warnings: Seq<Seq<char>>,
) -> Seq<Seq<char>> {
    add_unique(
        with_fallback(base_signals(a, todo_count, fixme_count, todo_available, fixme_available, density)),
        warnings,
    )
}

proof fn lemma_add_unique_keeps_front(s: Seq<Seq<char>>, w: Seq<Seq<char>>)
    requires
        s.len() > 0,
    ensures
        add_unique(s, w).len() >= s.len(),
        add_unique(s, w)[0] == s[0],
    decreases w.len(),
{
    if w.len() > 0 {
        lemma_add_unique_keeps_front(s, w.drop_last());
    }
}

/// With recurring clusters, the first signal of a summary is about the
/// first (strongest) cluster: it holds that cluster's label and issue count,
/// and it is the same for every analysis whose first cluster has the same
/// label and count, whatever the other clusters, counts and warnings.
pub proof fn law_recurring_signal_names_the_first_cluster(
    a1: IssueAnalysis,
    todo1: u32,
    fixme1: u32,
    todo_ok1: bool,
    fixme_ok1: bool,
    density1: DensityReading,
    warnings1: Seq<Seq<char>>,
    a2: IssueAnalysis,
    todo2: u32,
    fixme2: u32,
    todo_ok2: bool,
    fixme_ok2: bool,
    density2: DensityReading,
    warnings2: Seq<Seq<char>>,
)
    requires
        a1.recurring_bug_clusters@.len() > 0,
        a2.recurring_bug_clusters@.len() > 0,
        a1.recurring_bug_clusters@[0].label@ == a2.recurring_bug_clusters@[0].label@,
        a1.recurring_bug_clusters@[0].issue_count == a2.recurring_bug_clusters@[0].issue_count,
    ensures
        summary_signals(a1, todo1, fixme1, todo_ok1, fixme_ok1, density1, warnings1)[0] == summary_signals(
            a2,
            todo2,
            fixme2,
            todo_ok2,
            fixme_ok2,
            density2,
            warnings2,
        )[0],
        occurs_in(
            a1.recurring_bug_clusters@[0].label@,
            summary_signals(a1, todo1, fixme1, todo_ok1, fixme_ok1, density1, warnings1)[0],
        ),
        occurs_in(
            decimal(a1.recurring_bug_clusters@[0].issue_count as nat),
            summary_signals(a1, todo1, fixme1, todo_ok1, fixme_ok1, density1, warnings1)[0],
        ),
        summary_line(summary_signals(a1, todo1, fixme1, todo_ok1, fixme_ok1, density1, warnings1)).subrange(
            0,
            summary_signals(a1, todo1, fixme1, todo_ok1, fixme_ok1, density1, warnings1)[0].len() as int,
        ) == summary_signals(a1, todo1, fixme1, todo_ok1, fixme_ok1, density1, warnings1)[0],
{
    let b1 = base_signals(a1, todo1, fixme1, todo_ok1, fixme_ok1, density1);
    let b2 = base_signals(a2, todo2, fixme2, todo_ok2, fixme_ok2, density2);
    let c = a1.recurring_bug_clusters@[0];
    let head = "Recurring bug pattern '"@;
    let mid = "' appears across "@;
    let num = decimal(c.issue_count as nat);
    let line = head + c.label@ + mid + num + " sampled issues"@;
    assert(b1[0] == line);
    assert(b2[0] == line);
    assert(with_fallback(b1) == b1);
    assert(with_fallback(b2) == b2);
    lemma_add_unique_keeps_front(b1, warnings1);
    lemma_add_unique_keeps_front(b2, warnings2);
    let s1 = summary_signals(a1, todo1, fixme1, todo_ok1, fixme_ok1, density1, warnings1);
    assert(s1[0] == line);
    let i = head.len() as int;
    assert(line.subrange(i, i + c.label@.len()) =~= c.label@);
    let j = (head.len() + c.label@.len() + mid.len()) as int;
    assert(line.subrange(j, j + num.len()) =~= num);
    let parts = first_n(s1, 2);
    assert(parts[0] == s1[0]);
    if parts.len() == 1 {
        assert(summary_line(s1) == s1[0]);
        assert(summary_line(s1).subrange(0, s1[0].len() as int) =~= s1[0]);
    } else {
        assert(parts.len() == 2);
        assert(parts.drop_last().len() == 1);
        assert(join(parts.drop_last(), " · "@) == parts[0]);
        assert(summary_line(s1).subrange(0, s1[0].len() as int) =~= s1[0]);
    }
}

/// The summary line: the first two signals joined by ` · `.
pub open spec fn summary_line(signals: Seq<Seq<char>>) -> Seq<char> {
    join(first_n(signals, 2), " · "@)
}

fn push_line_if(lines: &mut Vec<Vec<char>>, b: bool, l: Vec<char>)
    ensures
        views(final(lines)@) == views(old(lines)@) + line_if(b, l@),
{
    if b {
        lines.push(l);
    }
    assert(views(lines@) =~= views(old(lines)@) + line_if(b, l@));
}

fn contains_line(lines: &Vec<Vec<char>>, x: &Vec<char>) -> (r: bool)
    ensures
        r == views(lines@).contains(x@),
{
    let mut i: usize = 0;
    while i < lines.len()
        invariant
            i <= lines@.len(),
            forall|k: int| 0 <= k < i ==> views(lines@)[k] != x@,
        decreases lines@.len() - i,
    {
        if chars_eq(&lines[i], x) {
            assert(views(lines@)[i as int] == x@);
            return true;
        }
        i += 1;
    }
    false
}

/// The signals an analysis raises, as lines.
fn base_signal_lines(
    issue_analysis: &IssueAnalysis,
    todo_count: u32,
    fixme_count: u32,
    todo_available: bool,
    fixme_available: bool,
    density: &DensityReading,
) -> (lines: Vec<Vec<char>>)
    ensures
        views(lines@) == base_signals(*issue_analysis, todo_count, fixme_count, todo_available, fixme_available, *density),
{
    let a = issue_analysis;
    let mut lines: Vec<Vec<char>> = Vec::new();
    let clusters = &a.recurring_bug_clusters;
    let mut l = Vec::new();
    if clusters.len() > 0 {
        extend_str(&mut l, "Recurring bug pattern '");
        extend_str(&mut l, clusters[0].label.as_str());
        extend_str(&mut l, "' appears across ");
        push_decimal(&mut l, clusters[0].issue_count as u64);
        extend_str(&mut l, " sampled issues");
    }
    push_line_if(&mut lines, clusters.len() > 0, l);
    let ghost s1 = views(lines@);
    let mut l = Vec::new();
    push_decimal(&mut l, a.stale_bug_issues as u64);
    extend_str(&mut l, " stale bug-like issues are still open");
    push_line_if(&mut lines, a.stale_bug_issues > 0, l);
    let mut l = Vec::new();
    push_decimal(&mut l, a.stale_issues as u64);
    extend_str(&mut l, " of ");
    push_decimal(&mut l, a.sampled_issues as u64);
    extend_str(&mut l, " sampled issues look stale");
    push_line_if(&mut lines, a.stale_issues > 0, l);
    let mut l = Vec::new();
    push_decimal(&mut l, a.stale_high_comment_issues as u64);
    extend_str(&mut l, " stale issues still have active comment history");
    push_line_if(&mut lines, a.stale_high_comment_issues > 0, l);
    let mut l = Vec::new();
    push_decimal(&mut l, a.duplicate_candidates.len() as u64);
    extend_str(&mut l, " likely duplicate issue pairs were found");
    push_line_if(&mut lines, a.duplicate_candidates.len() > 0, l);
    let mut l = Vec::new();
    push_decimal(&mut l, a.unlabeled_issues as u64);
    extend_str(&mut l, " sampled issues are unlabeled, which points to triage drift");
    push_line_if(&mut lines, a.unlabeled_issues >= 2, l);
    let ghost s6 = views(lines@);
    if todo_available && fixme_available && (todo_count > 0 || fixme_count > 0) {
        let mut l = Vec::new();
        push_decimal(&mut l, todo_count as u64);
        extend_str(&mut l, " TODO and ");
        push_decimal(&mut l, fixme_count as u64);
        extend_str(&mut l, " FIXME markers were found in code search");
        lines.push(l);
    } else if !todo_available && !fixme_available {
        lines.push(chars_of("TODO/FIXME marker counts were unavailable for this repo in this scan"));
    } else if !todo_available {
        lines.push(chars_of("TODO marker counts were unavailable for this repo in this scan"));
    } else if !fixme_available {
        lines.push(chars_of("FIXME marker counts were unavailable for this repo in this scan"));
    }
    assert(views(lines@) =~= s6 + marker_signal(todo_count, fixme_count, todo_available, fixme_available));
    let mut l = chars_of("Open issue density is high for repo size (");
    extend_str(&mut l, density.per_100_stars.as_str());
    extend_str(&mut l, " per 100 stars)");
    push_line_if(&mut lines, density.high, l);
    assert(views(lines@) =~= base_signals(*a, todo_count, fixme_count, todo_available, fixme_available, *density));
    lines
}

/// The summary of a repository and its signal lines: the signals the
/// analysis raises (or a line saying there are none), then each warning
/// not already listed; the summary joins the first two with ` · `.
pub fn summary_from_signals(
    issue_analysis: &IssueAnalysis,
    todo_count: u32,
    fixme_count: u32,
    todo_available: bool,
    fixme_available: bool,
    repo_warnings: &Vec<String>,
    density: &DensityReading,
) -> (summary: (String, Vec<String>))
    ensures
        summary.1.deep_view() == summary_signals(
            *issue_analysis,
            todo_count,
            fixme_count,
            todo_available,
            fixme_available,
            *density,
            repo_warnings.deep_view(),
        ),
        summary.0@ == summary_line(summary.1.deep_view()),
{
    let a = issue_analysis;
    let mut lines = base_signal_lines(a, todo_count, fixme_count, todo_available, fixme_available, density);
    let ghost base = base_signals(*a, todo_count, fixme_count, todo_available, fixme_available, *density);
    if lines.len() == 0 {
        lines.push(chars_of("No major maintenance signals found in the current sample"));
    }
    assert(views(lines@) =~= with_fallback(base));
    let ghost start = views(lines@);
    let ghost w = repo_warnings.deep_view();
    let mut k: usize = 0;
    while k < repo_warnings.len()
        invariant
            k <= repo_warnings@.len(),
            w == repo_warnings.deep_view(),
            views(lines@) == add_unique(start, w.subrange(0, k as int)),
        decreases repo_warnings@.len() - k,
    {
        let c = chars_of(repo_warnings[k].as_str());
        assert(w.subrange(0, k + 1).drop_last() =~= w.subrange(0, k as int));
        assert(w[k as int] == c@);
        if !contains_line(&lines, &c) {
            let ghost before = views(lines@);
            lines.push(c);
            assert(views(lines@) =~= before.push(c@));
        }
        k += 1;
    }
    assert(w.subrange(0, repo_warnings@.len() as int) =~= w);
    let mut signals: Vec<String> = Vec::new();
    let mut j: usize = 0;
    while j < lines.len()
        invariant
            j <= lines@.len(),
            signals.deep_view() == views(lines@).subrange(0, j as int),
        decreases lines@.len() - j,
    {
        let ghost before = signals.deep_view();
        signals.push(string_from(&lines[j]));
        assert(signals.deep_view() =~= before.push(lines@[j as int]@));
        j += 1;
        assert(signals.deep_view() =~= views(lines@).subrange(0, j as int));
    }
    assert(views(lines@).subrange(0, lines@.len() as int) =~= views(lines@));
    let mut head: Vec<Vec<char>> = Vec::new();
    let mut h: usize = 0;
    while h < lines.len() && h < 2
        invariant
            h <= lines@.len(),
            h <= 2,
            views(head@) == views(lines@).subrange(0, h as int),
        decreases 2 - h,
    {
        let ghost before = views(head@);
        head.push(copy_chars(&lines[h]));
        assert(views(head@) =~= before.push(lines@[h as int]@));
        h += 1;
        assert(views(head@) =~= views(lines@).subrange(0, h as int));
    }
    assert(views(head@) =~= first_n(views(lines@), 2));
    let sep = chars_of(" · ");
    let joined = join_chars(&head, &sep);
    (string_from(&joined), signals)
}

// ---------------------------------------------------------------------
// Issue analysis
// ---------------------------------------------------------------------
/// `a` is the analysis of the sampled issues, given each issue's age in
/// days, whether it looks like a bug report and the terms of its title,
/// with the duplicate pairs found among them.
pub open spec fn is_issue_analysis(
    a: IssueAnalysis,
    issues: Seq<GitHubIssue>,
    stale_days: u32,
    ages: Seq<i64>,
    bugs: Seq<bool>,
    terms: Seq<Seq<Seq<char>>>,
    duplicates: Seq<DuplicateCandidate>,
) -> bool {
    let n = issues.len() as int;
    &&& a.sampled_issues == n as u32
    &&& a.stale_issues == count_indices(n, stale_at(ages, stale_days)) as u32
    &&& a.unlabeled_issues == count_indices(n, unlabeled_at(issues)) as u32
    &&& a.stale_bug_issues == count_indices(n, stale_bug_at(ages, stale_days, bugs)) as u32
    &&& a.stale_high_comment_issues == count_indices(n, stale_discussed_at(issues, ages, stale_days)) as u32
    &&& are_stale_examples(issues, ages, stale_days, a.issue_examples@)
    &&& a.duplicate_candidates@ == duplicates
    &&& clusters_spec(issues, ages, bugs, terms, a.recurring_bug_clusters@)
}

/// Analyses the sampled issues of a repository.
pub fn issue_signals(
    issues: &Vec<GitHubIssue>,
    stale_days: u32,
    ages: &Vec<i64>,
    bugs: &Vec<bool>,
    bug_terms: &Vec<Vec<String>>,
    duplicate_candidates: Vec<DuplicateCandidate>,
) -> (a: IssueAnalysis)
    requires
        ages@.len() == issues@.len(),
        bugs@.len() == issues@.len(),
        bug_terms@.len() == issues@.len(),
    ensures
        is_issue_analysis(
            a,
            issues@,
            stale_days,
            ages@,
            bugs@,
            bug_terms@.map_values(|t: Vec<String>| t.deep_view()),
            duplicate_candidates@,
        ),
{
    let counts = issue_counts(issues, stale_days, ages, bugs);
    let examples = stale_issue_examples(issues, stale_days, ages);
    let clusters = recurring_bug_clusters(issues, ages, bugs, bug_terms);
    IssueAnalysis {
        sampled_issues: counts.sampled_issues,
        stale_issues: counts.stale_issues,
        unlabeled_issues: counts.unlabeled_issues,
        stale_bug_issues: counts.stale_bug_issues,
        stale_high_comment_issues: counts.stale_high_comment_issues,
        issue_examples: examples,
        duplicate_candidates,
        recurring_bug_clusters: clusters,
    }
}

/// Ages read from the clock for the issues: an update time that does not
/// parse counts as age 0.
pub open spec fn clock_ages(issues: Seq<GitHubIssue>, ages: Seq<i64>) -> bool {
    forall|k: int| 0 <= k < issues.len() && !rfc3339_parses(#[trigger] issues[k].updated_at@) ==> ages[k] == 0
}

/// Analyses the sampled issues of a repository as a scan does: each
/// issue's age is read from the clock, and whether it looks like a bug
/// report and its grouping terms come from its labels and title.
pub fn analyze_issues(
    issues: &Vec<GitHubIssue>,
    stale_days: u32,
    duplicate_candidates: Vec<DuplicateCandidate>,
) -> (a: IssueAnalysis)
    ensures
        exists|ages: Seq<i64>|
            ages.len() == issues@.len() && clock_ages(issues@, ages) && #[trigger] is_issue_analysis(
                a,
                issues@,
                stale_days,
                ages,
                bug_flags_of(issues@),
                bug_terms_of(issues@),
                duplicate_candidates@,
            ),
{
    let ages = issue_ages(issues);
    let bugs = bug_flags(issues);
    let terms = issue_bug_terms(issues);
    assert(term_lists(terms@).len() == bug_terms_of(issues@).len());
    let a = issue_signals(issues, stale_days, &ages, &bugs, &terms, duplicate_candidates);
    assert(term_lists(terms@) == terms@.map_values(|t: Vec<String>| t.deep_view()));
    a
}

} // verus!
