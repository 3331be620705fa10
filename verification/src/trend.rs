//! Comparing a scan with the previous scan of the same parameters: how
//! each repository moved, and how the queue as a whole moved.
use crate::issues::count_indices;
use crate::text::{chars_eq, chars_of};
use crate::models::{RecurringBugCluster, RepoSignal, RepoSignalTrend, ScanRecord, ScanTrendSummary};
use vstd::prelude::*;

verus! {

// ---------------------------------------------------------------------
// Per-repository quantities
// ---------------------------------------------------------------------
/// TODO and FIXME markers counted only where the code search succeeded.
pub open spec fn marker_total_spec(todo: u32, fixme: u32, todo_ok: bool, fixme_ok: bool) -> int {
    (if todo_ok {
        todo as int
    } else {
        0
    }) + (if fixme_ok {
        fixme as int
    } else {
        0
    })
}

pub fn marker_total(todo_count: u32, fixme_count: u32, todo_available: bool, fixme_available: bool) -> (total: u64)
    ensures
        total == marker_total_spec(todo_count, fixme_count, todo_available, fixme_available),
{
    let t: u64 = if todo_available {
        todo_count as u64
    } else {
        0
    };
    let f: u64 = if fixme_available {
        fixme_count as u64
    } else {
        0
    };
    t + f
}

/// The number of issues over all recurring clusters.
pub open spec fn recurring_total(clusters: Seq<RecurringBugCluster>) -> int
    decreases clusters.len(),
{
    if clusters.len() == 0 {
        0
    } else {
        recurring_total(clusters.drop_last()) + clusters.last().issue_count as int
    }
}

proof fn lemma_recurring_total_bound(clusters: Seq<RecurringBugCluster>)
    ensures
        0 <= recurring_total(clusters) <= clusters.len() * 0xffff_ffff,
    decreases clusters.len(),
{
    if clusters.len() > 0 {
        lemma_recurring_total_bound(clusters.drop_last());
    }
}

pub fn recurring_issue_count(clusters: &Vec<RecurringBugCluster>) -> (total: u64)
    requires
        clusters@.len() <= 0xffff_ffff,
    ensures
        total == recurring_total(clusters@),
{
    let mut total: u64 = 0;
    let mut i: usize = 0;
    while i < clusters.len()
        invariant
            i <= clusters@.len(),
            clusters@.len() <= 0xffff_ffff,
            total == recurring_total(clusters@.subrange(0, i as int)),
        decreases clusters@.len() - i,
    {
        proof {
            assert(clusters@.subrange(0, i + 1).drop_last() =~= clusters@.subrange(0, i as int));
            lemma_recurring_total_bound(clusters@.subrange(0, i as int));
            assert(i * 0xffff_ffff + 0xffff_ffff <= 0xffff_ffff * 0xffff_ffff + 0xffff_ffff) by (nonlinear_arith)
                requires
                    i <= 0xffff_ffff,
            ;
        }
        total = total + clusters[i].issue_count as u64;
        i += 1;
    }
    assert(clusters@.subrange(0, clusters@.len() as int) =~= clusters@);
    total
}

// ---------------------------------------------------------------------
// Trend status
// ---------------------------------------------------------------------
/// A repository is rising when something got clearly worse and nothing got
/// clearly better, improving in the opposite case, steady otherwise.
/// Clearly: a priority change of 5 points (50 tenths), 2 stale issues, any
/// duplicate pair or recurring issue, 3 markers.
pub open spec fn trend_status_spec(
    priority_delta_tenths: int,
    stale_delta: int,
    duplicate_delta: int,
    marker_delta: int,
    recurring_delta: int,
) -> Seq<char> {
    let worsening = priority_delta_tenths >= 50 || stale_delta >= 2 || duplicate_delta > 0
        || recurring_delta > 0 || marker_delta >= 3;
    let improving = priority_delta_tenths <= -50 || stale_delta <= -2 || duplicate_delta < 0
        || recurring_delta < 0 || marker_delta <= -3;
    if worsening && !improving {
        "rising"@
    } else if improving && !worsening {
        "improving"@
    } else {
        "steady"@
    }
}

/// Negating every delta swaps `rising` and `improving` and keeps `steady`.
pub proof fn law_status_mirrors(p: int, s: int, d: int, m: int, r: int)
    ensures
        trend_status_spec(-p, -s, -d, -m, -r) == if trend_status_spec(p, s, d, m, r) == "rising"@ {
            "improving"@
        } else if trend_status_spec(p, s, d, m, r) == "improving"@ {
            "rising"@
        } else {
            "steady"@
        },
{
    reveal_strlit("rising");
    reveal_strlit("improving");
    reveal_strlit("steady");
    assert("rising"@ != "improving"@ && "rising"@ != "steady"@ && "improving"@ != "steady"@) by {
        assert("rising"@[0] != "steady"@[0]);
    }
}

/// A repository that gained a likely duplicate pair or a recurring bug
/// issue, with nothing clearly better, is rising, whatever the size of the
/// gain; one that lost such a pair or issue, with nothing clearly worse,
/// is improving.
pub proof fn law_new_duplicates_or_recurring_issues_rise(p: int, s: int, d: int, m: int, r: int)
    requires
        d > 0 || r > 0,
        d >= 0,
        r >= 0,
        p > -50,
        s > -2,
        m > -3,
    ensures
        trend_status_spec(p, s, d, m, r) == "rising"@,
        trend_status_spec(-p, -s, -d, -m, -r) == "improving"@,
{
}

/// A repository whose score, stale issues and markers moved only a little
/// is steady exactly when its duplicate pairs and recurring issues did not
/// change.
pub proof fn law_small_moves_are_steady_only_without_new_pairs_or_issues(p: int, s: int, d: int, m: int, r: int)
    requires
        -50 < p < 50,
        -2 < s < 2,
        -3 < m < 3,
    ensures
        (trend_status_spec(p, s, d, m, r) == "steady"@) <==> (d == 0 && r == 0 || (d > 0 || r > 0) && (d < 0 || r < 0)),
{
    reveal_strlit("rising");
    reveal_strlit("improving");
    reveal_strlit("steady");
    assert("rising"@ != "steady"@) by {
        assert("rising"@[0] != "steady"@[0]);
    }
    assert("improving"@ != "steady"@) by {
        assert("improving"@.len() != "steady"@.len());
    }
}

/// A movement on one measure alone: the score rises clearly from 5 points
/// (50 tenths), stale issues from 2, markers from 3, duplicate pairs and
/// recurring issues from 1; smaller movements leave a repository steady,
/// and the same movements downward make it improving.
pub proof fn law_single_movements(x: int)
    ensures
        trend_status_spec(x, 0, 0, 0, 0) == if x >= 50 {
            "rising"@
        } else if x <= -50 {
            "improving"@
        } else {
            "steady"@
        },
        trend_status_spec(0, x, 0, 0, 0) == if x >= 2 {
            "rising"@
        } else if x <= -2 {
            "improving"@
        } else {
            "steady"@
        },
        trend_status_spec(0, 0, 0, x, 0) == if x >= 3 {
            "rising"@
        } else if x <= -3 {
            "improving"@
        } else {
            "steady"@
        },
        trend_status_spec(0, 0, x, 0, 0) == if x >= 1 {
            "rising"@
        } else if x <= -1 {
            "improving"@
        } else {
            "steady"@
        },
        trend_status_spec(0, 0, 0, 0, x) == if x >= 1 {
            "rising"@
        } else if x <= -1 {
            "improving"@
        } else {
            "steady"@
        },
{
}

pub fn repo_trend_status(
    priority_delta_tenths: i64,
    stale_delta: i64,
    duplicate_delta: i64,
    marker_delta: i64,
    recurring_delta: i64,
) -> (status: String)
    ensures
        status@ == trend_status_spec(
            priority_delta_tenths as int,
            stale_delta as int,
            duplicate_delta as int,
            marker_delta as int,
            recurring_delta as int,
        ),
{
    let worsening = priority_delta_tenths >= 50 || stale_delta >= 2 || duplicate_delta > 0
        || recurring_delta > 0 || marker_delta >= 3;
    let improving = priority_delta_tenths <= -50 || stale_delta <= -2 || duplicate_delta < 0
        || recurring_delta < 0 || marker_delta <= -3;
    if worsening && !improving {
        String::from_str("rising")
    } else if improving && !worsening {
        String::from_str("improving")
    } else {
        String::from_str("steady")
    }
}

// ---------------------------------------------------------------------
// Matching against the previous scan
// ---------------------------------------------------------------------
/// The last position in `repos[..n]` of a repository named `name`, or -1.
pub open spec fn last_index(repos: Seq<RepoSignal>, name: Seq<char>, n: int) -> int
    decreases n,
{
    if n <= 0 {
        -1
    } else if repos[n - 1].full_name@ == name {
        n - 1
    } else {
        last_index(repos, name, n - 1)
    }
}

proof fn lemma_last_index(repos: Seq<RepoSignal>, name: Seq<char>, n: int)
    requires
        0 <= n <= repos.len(),
    ensures
        -1 <= last_index(repos, name, n) < n,
        last_index(repos, name, n) >= 0 ==> repos[last_index(repos, name, n)].full_name@ == name,
        last_index(repos, name, n) == -1 <==> forall|j: int| 0 <= j < n ==> repos[j].full_name@ != name,
        forall|j: int| last_index(repos, name, n) < j < n ==> repos[j].full_name@ != name,
    decreases n,
{
    if n > 0 {
        lemma_last_index(repos, name, n - 1);
    }
}

/// Repository `i` of the scan is the first entry with its name.
pub open spec fn first_of_name(repos: Seq<RepoSignal>, i: int) -> bool {
    forall|k: int| 0 <= k < i ==> repos[k].full_name@ != repos[i].full_name@
}

/// Repository `i` of the scan is compared with the last previous entry of
/// the same name; a later entry of a repeated name counts as new.
pub open spec fn matched_at(current: Seq<RepoSignal>, previous: Seq<RepoSignal>, i: int) -> bool {
    first_of_name(current, i) && last_index(previous, current[i].full_name@, previous.len() as int) >= 0
}

/// The trend of a repository compared with its previous entry.
pub open spec fn compared_trend(
    t: RepoSignalTrend,
    cur: RepoSignal,
    prev: RepoSignal,
    scan: ScanRecord,
) -> bool {
    let marker_delta = marker_total_spec(cur.todo_count, cur.fixme_count, cur.todo_available, cur.fixme_available)
        - marker_total_spec(prev.todo_count, prev.fixme_count, prev.todo_available, prev.fixme_available);
    let recurring_delta = recurring_total(cur.recurring_bug_clusters@) - recurring_total(prev.recurring_bug_clusters@);
    let stale_delta = cur.stale_issues - prev.stale_issues;
    let duplicate_delta = cur.duplicate_candidates@.len() - prev.duplicate_candidates@.len();
    let priority_delta = cur.priority_tenths - prev.priority_tenths;
    &&& t.status@ == trend_status_spec(priority_delta, stale_delta, duplicate_delta, marker_delta, recurring_delta)
    &&& t.compared_to_scan_id == scan.id
    &&& t.compared_to_created_at == scan.created_at
    &&& t.previous_priority_tenths == prev.priority_tenths
    &&& t.priority_delta_tenths == priority_delta
    &&& t.stale_delta == stale_delta
    &&& t.duplicate_delta == duplicate_delta
    &&& t.marker_delta == marker_delta
    &&& t.recurring_delta == recurring_delta
}

/// The trend of a repository the previous scan did not have.
pub open spec fn new_trend(t: RepoSignalTrend, cur: RepoSignal, scan: ScanRecord) -> bool {
    &&& t.status@ == "new"@
    &&& t.compared_to_scan_id == scan.id
    &&& t.compared_to_created_at == scan.created_at
    &&& t.previous_priority_tenths == 0
    &&& t.priority_delta_tenths == cur.priority_tenths
    &&& t.stale_delta == cur.stale_issues
    &&& t.duplicate_delta == cur.duplicate_candidates@.len()
    &&& t.marker_delta == marker_total_spec(cur.todo_count, cur.fixme_count, cur.todo_available, cur.fixme_available)
    &&& t.recurring_delta == recurring_total(cur.recurring_bug_clusters@)
}

pub open spec fn same_except_trend(a: RepoSignal, b: RepoSignal) -> bool {
    &&& a.full_name == b.full_name
    &&& a.repo_url == b.repo_url
    &&& a.description == b.description
    &&& a.language == b.language
    &&& a.stars == b.stars
    &&& a.open_issues == b.open_issues
    &&& a.sampled_issues == b.sampled_issues
    &&& a.stale_issues == b.stale_issues
    &&& a.unlabeled_issues == b.unlabeled_issues
    &&& a.stale_bug_issues == b.stale_bug_issues
    &&& a.stale_high_comment_issues == b.stale_high_comment_issues
    &&& a.duplicate_candidates == b.duplicate_candidates
    &&& a.recurring_bug_clusters == b.recurring_bug_clusters
    &&& a.todo_count == b.todo_count
    &&& a.fixme_count == b.fixme_count
    &&& a.todo_available == b.todo_available
    &&& a.fixme_available == b.fixme_available
    &&& a.priority_tenths == b.priority_tenths
    &&& a.score_breakdown == b.score_breakdown
    &&& a.summary == b.summary
    &&& a.signals == b.signals
    &&& a.issue_examples == b.issue_examples
    &&& a.warnings == b.warnings
}

/// The values that fit the trend fields: counts, markers and recurring
/// totals within `i32`, scores within 2^40 tenths.
pub open spec fn trend_fits(r: RepoSignal) -> bool {
    &&& r.stale_issues <= i32::MAX
    &&& r.duplicate_candidates@.len() <= i32::MAX
    &&& r.recurring_bug_clusters@.len() <= 0xffff_ffff
    &&& recurring_total(r.recurring_bug_clusters@) <= i32::MAX
    &&& marker_total_spec(r.todo_count, r.fixme_count, r.todo_available, r.fixme_available) <= i32::MAX
    &&& -0x100_0000_0000 <= r.priority_tenths <= 0x100_0000_0000
}

/// Repository `i` was compared and came out with status `s`.
pub open spec fn status_at(repos: Seq<RepoSignal>, s: Seq<char>) -> spec_fn(int) -> bool {
    |i: int| repos[i].trend matches Some(t) && t.status@ == s
}

pub open spec fn new_at(current: Seq<RepoSignal>, previous: Seq<RepoSignal>) -> spec_fn(int) -> bool {
    |i: int| !matched_at(current, previous, i)
}

/// Previous entry `j` is the last of its name and no repository of the
/// scan has that name.
pub open spec fn dropped_at(current: Seq<RepoSignal>, previous: Seq<RepoSignal>) -> spec_fn(int) -> bool {
    |j: int|
        last_index(previous, previous[j].full_name@, previous.len() as int) == j && forall|i: int|
            0 <= i < current.len() ==> current[i].full_name@ != previous[j].full_name@
}

fn trend_against(cur: &RepoSignal, prev: &RepoSignal, scan: &ScanRecord) -> (t: RepoSignalTrend)
    requires
        trend_fits(*cur),
        trend_fits(*prev),
    ensures
        compared_trend(t, *cur, *prev, *scan),
{
    let cur_markers = marker_total(cur.todo_count, cur.fixme_count, cur.todo_available, cur.fixme_available) as i64;
    let prev_markers = marker_total(prev.todo_count, prev.fixme_count, prev.todo_available, prev.fixme_available) as i64;
    let marker_delta = cur_markers - prev_markers;
    let recurring_delta = recurring_issue_count(&cur.recurring_bug_clusters) as i64 - recurring_issue_count(&prev.recurring_bug_clusters) as i64;
    let stale_delta = cur.stale_issues as i64 - prev.stale_issues as i64;
    let duplicate_delta = cur.duplicate_candidates.len() as i64 - prev.duplicate_candidates.len() as i64;
    let priority_delta = cur.priority_tenths - prev.priority_tenths;
    let status = repo_trend_status(priority_delta, stale_delta, duplicate_delta, marker_delta, recurring_delta);
    RepoSignalTrend {
        status,
        compared_to_scan_id: scan.id.clone(),
        compared_to_created_at: scan.created_at.clone(),
        previous_priority_tenths: prev.priority_tenths,
        priority_delta_tenths: priority_delta,
        stale_delta: stale_delta as i32,
        duplicate_delta: duplicate_delta as i32,
        marker_delta: marker_delta as i32,
        recurring_delta: recurring_delta as i32,
    }
}

fn trend_new(cur: &RepoSignal, scan: &ScanRecord) -> (t: RepoSignalTrend)
    requires
        trend_fits(*cur),
    ensures
        new_trend(t, *cur, *scan),
{
    let markers = marker_total(cur.todo_count, cur.fixme_count, cur.todo_available, cur.fixme_available);
    let recurring = recurring_issue_count(&cur.recurring_bug_clusters);
    RepoSignalTrend {
        status: String::from_str("new"),
        compared_to_scan_id: scan.id.clone(),
        compared_to_created_at: scan.created_at.clone(),
        previous_priority_tenths: 0,
        priority_delta_tenths: cur.priority_tenths,
        stale_delta: cur.stale_issues as i32,
        duplicate_delta: cur.duplicate_candidates.len() as i32,
        marker_delta: markers as i32,
        recurring_delta: recurring as i32,
    }
}

fn last_index_exec(repos: &Vec<RepoSignal>, name: &String) -> (j: Option<usize>)
    ensures
        match j {
            Some(j) => j as int == last_index(repos@, name@, repos@.len() as int),
            None => last_index(repos@, name@, repos@.len() as int) == -1,
        },
{
    let mut n: usize = repos.len();
    while n > 0
        invariant
            n <= repos@.len(),
            last_index(repos@, name@, repos@.len() as int) == last_index(repos@, name@, n as int),
        decreases n,
    {
        if repos[n - 1].full_name == *name {
            return Some(n - 1);
        }
        n -= 1;
    }
    None
}

fn first_of_name_exec(repos: &Vec<RepoSignal>, i: usize) -> (r: bool)
    requires
        i < repos@.len(),
    ensures
        r == first_of_name(repos@, i as int),
{
    let mut k: usize = 0;
    while k < i
        invariant
            i < repos@.len(),
            k <= i,
            forall|k2: int| 0 <= k2 < k ==> repos@[k2].full_name@ != repos@[i as int].full_name@,
        decreases i - k,
    {
        if repos[k].full_name == repos[i].full_name {
            return false;
        }
        k += 1;
    }
    true
}

fn name_in(repos: &Vec<RepoSignal>, name: &String) -> (r: bool)
    ensures
        r == exists|i: int| 0 <= i < repos@.len() && repos@[i].full_name@ == name@,
{
    let mut i: usize = 0;
    while i < repos.len()
        invariant
            i <= repos@.len(),
            forall|k: int| 0 <= k < i ==> repos@[k].full_name@ != name@,
        decreases repos@.len() - i,
    {
        if repos[i].full_name == *name {
            return true;
        }
        i += 1;
    }
    false
}

/// The number of previous entries that no repository of the scan matched
/// (each name counted once).
fn dropped_count(current: &Vec<RepoSignal>, previous: &Vec<RepoSignal>) -> (c: usize)
    ensures
        c == count_indices(previous@.len() as int, dropped_at(current@, previous@)),
        c <= previous@.len(),
{
    let ghost p = dropped_at(current@, previous@);
    let mut c: usize = 0;
    let mut j: usize = 0;
    while j < previous.len()
        invariant
            j <= previous@.len(),
            p == dropped_at(current@, previous@),
            c == count_indices(j as int, p),
            c <= j,
        decreases previous@.len() - j,
    {
        let last = last_index_exec(previous, &previous[j].full_name);
        let is_last = match last {
            Some(l) => l == j,
            None => false,
        };
        if is_last && !name_in(current, &previous[j].full_name) {
            c += 1;
        }
        j += 1;
    }
    c
}

pub proof fn lemma_count_congruent(n: int, p: spec_fn(int) -> bool, q: spec_fn(int) -> bool)
    requires
        forall|k: int| 0 <= k < n ==> #[trigger] p(k) == q(k),
    ensures
        count_indices(n, p) == count_indices(n, q),
    decreases n,
{
    if n > 0 {
        lemma_count_congruent(n - 1, p, q);
    }
}

proof fn lemma_count_none(n: int, p: spec_fn(int) -> bool)
    requires
        forall|k: int| 0 <= k < n ==> !#[trigger] p(k),
    ensures
        count_indices(n, p) == 0,
    decreases n,
{
    if n > 0 {
        lemma_count_none(n - 1, p);
    }
}

proof fn lemma_count_all(n: int, p: spec_fn(int) -> bool)
    requires
        n >= 0,
        forall|k: int| 0 <= k < n ==> #[trigger] p(k),
    ensures
        count_indices(n, p) == n,
    decreases n,
{
    if n > 0 {
        lemma_count_all(n - 1, p);
    }
}

/// No two repositories of the list share a name.
pub open spec fn distinct_names(repos: Seq<RepoSignal>) -> bool {
    forall|a: int, b: int| 0 <= a < b < repos.len() ==> #[trigger] repos[a].full_name@ != #[trigger] repos[b].full_name@
}

/// A scan compared with itself is steady everywhere: every repository is
/// matched with itself, with no change in score, stale issues, duplicate
/// pairs, markers or recurring issues, and the summary counts no new,
/// dropped, rising or improving repository. `after` stands for the
/// repositories as `enrich_scan_trend` leaves them.
pub proof fn law_scan_against_itself_is_steady(scan: ScanRecord, after: Seq<RepoSignal>)
    requires
        distinct_names(scan.repos@),
        after.len() == scan.repos@.len(),
        forall|i: int|
            0 <= i < after.len() ==> ((#[trigger] after[i]).trend matches Some(t) && repo_trend_ok(
                scan.repos@,
                scan,
                i,
                t,
            )),
    ensures
        forall|i: int|
            0 <= i < after.len() ==> ((#[trigger] after[i]).trend matches Some(t) && {
                &&& t.status@ == "steady"@
                &&& t.previous_priority_tenths == scan.repos@[i].priority_tenths
                &&& t.priority_delta_tenths == 0
                &&& t.stale_delta == 0 && t.duplicate_delta == 0
                &&& t.marker_delta == 0 && t.recurring_delta == 0
            }),
        count_indices(after.len() as int, new_at(scan.repos@, scan.repos@)) == 0,
        count_indices(scan.repos@.len() as int, dropped_at(scan.repos@, scan.repos@)) == 0,
        count_indices(after.len() as int, status_at(after, "rising"@)) == 0,
        count_indices(after.len() as int, status_at(after, "improving"@)) == 0,
        count_indices(after.len() as int, status_at(after, "steady"@)) == after.len(),
{
    let repos = scan.repos@;
    let n = repos.len() as int;
    reveal_strlit("steady");
    reveal_strlit("rising");
    reveal_strlit("improving");
    assert forall|i: int| 0 <= i < n implies matched_at(repos, repos, i)
        && last_index(repos, repos[i].full_name@, n) == i by {
        lemma_last_index(repos, repos[i].full_name@, n);
        let j = last_index(repos, repos[i].full_name@, n);
        if j != i {
            if j < i {
                assert(repos[j].full_name@ != repos[i].full_name@);
            } else {
                assert(repos[i].full_name@ != repos[j].full_name@);
            }
        }
        assert forall|k: int| 0 <= k < i implies repos[k].full_name@ != repos[i].full_name@ by {
            assert(repos[k].full_name@ != repos[i].full_name@);
        }
    }
    assert forall|i: int| 0 <= i < n implies ((#[trigger] after[i]).trend matches Some(t) && {
        &&& t.status@ == "steady"@
        &&& t.previous_priority_tenths == repos[i].priority_tenths
        &&& t.priority_delta_tenths == 0
        &&& t.stale_delta == 0 && t.duplicate_delta == 0
        &&& t.marker_delta == 0 && t.recurring_delta == 0
    }) by {
        assert(matched_at(repos, repos, i) && last_index(repos, repos[i].full_name@, n) == i);
    }
    lemma_count_none(n, new_at(repos, repos));
    assert forall|j: int| 0 <= j < n implies !#[trigger] dropped_at(repos, repos)(j) by {
        assert(repos[j].full_name@ == repos[j].full_name@);
    }
    lemma_count_none(n, dropped_at(repos, repos));
    assert("steady"@[0] != "rising"@[0]);
    assert("steady"@.len() != "improving"@.len());
    assert forall|k: int| 0 <= k < n implies !#[trigger] status_at(after, "rising"@)(k)
        && !status_at(after, "improving"@)(k) by {
        assert(after[k].trend matches Some(t) && t.status@ == "steady"@);
    }
    lemma_count_none(n, status_at(after, "rising"@));
    lemma_count_none(n, status_at(after, "improving"@));
    lemma_count_all(n, status_at(after, "steady"@));
}

pub open spec fn scan_fits(r: ScanRecord) -> bool {
    &&& r.repos@.len() <= u32::MAX
    &&& r.summary.total_repos <= i32::MAX
    &&& r.summary.total_signals <= i32::MAX
    &&& forall|i: int| 0 <= i < r.repos@.len() ==> trend_fits(#[trigger] r.repos@[i])
}

/// Whether the trend fields can hold a repository's values.
pub fn repo_fits_trend(r: &RepoSignal) -> (fits: bool)
    ensures
        fits == trend_fits(*r),
{
    if r.stale_issues > 0x7fff_ffff || r.duplicate_candidates.len() > 0x7fff_ffff || r.recurring_bug_clusters.len()
        > 0xffff_ffff {
        return false;
    }
    if r.priority_tenths < -0x100_0000_0000 || r.priority_tenths > 0x100_0000_0000 {
        return false;
    }
    let recurring = recurring_issue_count(&r.recurring_bug_clusters);
    let markers = marker_total(r.todo_count, r.fixme_count, r.todo_available, r.fixme_available);
    recurring <= 0x7fff_ffff && markers <= 0x7fff_ffff
}

/// Whether a scan can be compared: its repositories and totals fit the
/// trend fields.
pub fn scan_fits_trend(r: &ScanRecord) -> (fits: bool)
    ensures
        fits == scan_fits(*r),
{
    if r.repos.len() > 0xffff_ffff || r.summary.total_repos > 0x7fff_ffff || r.summary.total_signals > 0x7fff_ffff {
        return false;
    }
    let mut i: usize = 0;
    while i < r.repos.len()
        invariant
            i <= r.repos@.len(),
            forall|k: int| 0 <= k < i ==> trend_fits(#[trigger] r.repos@[k]),
        decreases r.repos@.len() - i,
    {
        if !repo_fits_trend(&r.repos[i]) {
            return false;
        }
        i += 1;
    }
    true
}

/// The trend of repository `i` of the scan against the previous scan.
pub open spec fn repo_trend_ok(current: Seq<RepoSignal>, previous: ScanRecord, i: int, t: RepoSignalTrend) -> bool {
    if matched_at(current, previous.repos@, i) {
        compared_trend(
            t,
            current[i],
            previous.repos@[last_index(previous.repos@, current[i].full_name@, previous.repos@.len() as int)],
            previous,
        )
    } else {
        new_trend(t, current[i], previous)
    }
}

/// Compares a scan with the previous scan of the same parameters. Every
/// repository gets a trend: against the last previous entry of its name, or
/// `new`. The scan gets a summary: the differences in totals, and how many
/// repositories are new, dropped (previous names no longer present),
/// rising, improving and steady.
pub fn enrich_scan_trend(record: &mut ScanRecord, previous: &ScanRecord)
    requires
        scan_fits(*old(record)),
        scan_fits(*previous),
    ensures
        final(record).id == old(record).id,
        final(record).created_at == old(record).created_at,
        final(record).params == old(record).params,
        final(record).summary == old(record).summary,
        final(record).warnings == old(record).warnings,
        final(record).trigger_type == old(record).trigger_type,
        final(record).schedule_name == old(record).schedule_name,
        final(record).repos@.len() == old(record).repos@.len(),
        forall|i: int|
            0 <= i < old(record).repos@.len() ==> {
                &&& same_except_trend(#[trigger] final(record).repos@[i], old(record).repos@[i])
                &&& final(record).repos@[i].trend matches Some(t) && repo_trend_ok(old(record).repos@, *previous, i, t)
            },
        final(record).trend matches Some(s) && {
            &&& s.compared_to_scan_id == previous.id
            &&& s.compared_to_created_at == previous.created_at
            &&& s.total_repos_delta == old(record).summary.total_repos - previous.summary.total_repos
            &&& s.total_signals_delta == old(record).summary.total_signals - previous.summary.total_signals
            &&& s.new_repos == count_indices(old(record).repos@.len() as int, new_at(old(record).repos@, previous.repos@))
            &&& s.dropped_repos == count_indices(previous.repos@.len() as int, dropped_at(old(record).repos@, previous.repos@))
            &&& s.rising_repos == count_indices(old(record).repos@.len() as int, status_at(final(record).repos@, "rising"@))
            &&& s.improving_repos == count_indices(old(record).repos@.len() as int, status_at(final(record).repos@, "improving"@))
            &&& s.steady_repos == count_indices(old(record).repos@.len() as int, status_at(final(record).repos@, "steady"@))
            &&& s.new_repos + s.rising_repos + s.improving_repos + s.steady_repos == old(record).repos@.len()
        },
{
    let ghost cur = record.repos@;
    let ghost prev = previous.repos@;
    let n = record.repos.len();
    let dropped = dropped_count(&record.repos, &previous.repos);
    // For each repository, the previous entry it is compared with.
    let mut matches: Vec<Option<usize>> = Vec::new();
    let mut m: usize = 0;
    while m < n
        invariant
            n == cur.len(),
            cur == record.repos@,
            prev == previous.repos@,
            m <= n,
            matches@.len() == m,
            forall|k: int|
                0 <= k < m ==> match #[trigger] matches@[k] {
                    Some(j) => matched_at(cur, prev, k) && j as int == last_index(prev, cur[k].full_name@, prev.len() as int),
                    None => !matched_at(cur, prev, k),
                },
        decreases n - m,
    {
        let first = first_of_name_exec(&record.repos, m);
        let last = last_index_exec(&previous.repos, &record.repos[m].full_name);
        let entry = if first {
            last
        } else {
            None
        };
        matches.push(entry);
        m += 1;
    }
    let mut new_repos: u32 = 0;
    let mut rising: u32 = 0;
    let mut improving: u32 = 0;
    let mut steady: u32 = 0;
    let mut i: usize = 0;
    while i < n
        invariant
            n == cur.len(),
            prev == previous.repos@,
            scan_fits(*previous),
            n <= u32::MAX,
            forall|k: int| 0 <= k < n ==> trend_fits(#[trigger] cur[k]),
            matches@.len() == n,
            forall|k: int|
                0 <= k < n ==> match #[trigger] matches@[k] {
                    Some(j) => matched_at(cur, prev, k) && j as int == last_index(prev, cur[k].full_name@, prev.len() as int),
                    None => !matched_at(cur, prev, k),
                },
            record.repos@.len() == n,
            record.id == old(record).id,
            record.created_at == old(record).created_at,
            record.params == old(record).params,
            record.summary == old(record).summary,
            record.warnings == old(record).warnings,
            record.trigger_type == old(record).trigger_type,
            record.schedule_name == old(record).schedule_name,
            cur == old(record).repos@,
            i <= n,
            forall|k: int| i <= k < n ==> #[trigger] record.repos@[k] == cur[k],
            forall|k: int|
                0 <= k < i ==> {
                    &&& same_except_trend(#[trigger] record.repos@[k], cur[k])
                    &&& record.repos@[k].trend matches Some(t) && repo_trend_ok(cur, *previous, k, t)
                },
            new_repos == count_indices(i as int, new_at(cur, prev)),
            rising == count_indices(i as int, status_at(record.repos@, "rising"@)),
            improving == count_indices(i as int, status_at(record.repos@, "improving"@)),
            steady == count_indices(i as int, status_at(record.repos@, "steady"@)),
            new_repos + rising + improving + steady == i,
        decreases n - i,
    {
        let entry = matches[i];
        proof {
            lemma_last_index(prev, cur[i as int].full_name@, prev.len() as int);
        }
        let t = match entry {
            Some(j) => trend_against(&record.repos[i], &previous.repos[j], previous),
            None => trend_new(&record.repos[i], previous),
        };
        let ghost before = record.repos@;
        let ghost tv = t;
        let status = chars_of(t.status.as_str());
        let is_rising = eq_lit(&status, "rising");
        let is_improving = eq_lit(&status, "improving");
        record.repos[i].trend = Some(t);
        assert(record.repos@ =~= before.update(i as int, record.repos@[i as int]));
        proof {
            lemma_count_congruent(i as int, status_at(record.repos@, "rising"@), status_at(before, "rising"@));
            lemma_count_congruent(i as int, status_at(record.repos@, "improving"@), status_at(before, "improving"@));
            lemma_count_congruent(i as int, status_at(record.repos@, "steady"@), status_at(before, "steady"@));
        }
        proof {
            let after = record.repos@;
            assert(after[i as int].trend == Some(tv));
            assert(status_at(after, "rising"@)(i as int) == (tv.status@ == "rising"@));
            assert(status_at(after, "improving"@)(i as int) == (tv.status@ == "improving"@));
            assert(status_at(after, "steady"@)(i as int) == (tv.status@ == "steady"@));
            assert(new_at(cur, prev)(i as int) == entry.is_none());
            reveal_strlit("new");
            reveal_strlit("rising");
            reveal_strlit("improving");
            reveal_strlit("steady");
            assert("new"@.len() == 3 && "rising"@.len() == 6 && "improving"@.len() == 9 && "steady"@.len() == 6);
            assert("new"@ != "rising"@ && "new"@ != "improving"@ && "new"@ != "steady"@);
            assert("rising"@ != "improving"@ && "rising"@ != "steady"@ && "improving"@ != "steady"@) by {
                assert("rising"@[0] != "steady"@[0]);
            }
            if entry.is_none() {
                assert(tv.status@ == "new"@);
            } else {
                assert(tv.status@ == "rising"@ || tv.status@ == "improving"@ || tv.status@ == "steady"@);
            }
            assert(is_rising == (tv.status@ == "rising"@));
            assert(is_improving == (tv.status@ == "improving"@));
            assert(count_indices(i + 1, status_at(after, "rising"@)) == count_indices(i as int, status_at(after, "rising"@))
                + if tv.status@ == "rising"@ { 1nat } else { 0nat });
            assert(count_indices(i + 1, status_at(after, "improving"@)) == count_indices(i as int, status_at(after, "improving"@))
                + if tv.status@ == "improving"@ { 1nat } else { 0nat });
            assert(count_indices(i + 1, status_at(after, "steady"@)) == count_indices(i as int, status_at(after, "steady"@))
                + if tv.status@ == "steady"@ { 1nat } else { 0nat });
            assert(count_indices(i + 1, new_at(cur, prev)) == count_indices(i as int, new_at(cur, prev))
                + if entry.is_none() { 1nat } else { 0nat });
        }
        if entry.is_none() {
            new_repos += 1;
        } else if is_rising {
            rising += 1;
        } else if is_improving {
            improving += 1;
        } else {
            steady += 1;
        }
        i += 1;
    }
    let total_repos_delta = record.summary.total_repos as i32 - previous.summary.total_repos as i32;
    let total_signals_delta = record.summary.total_signals as i32 - previous.summary.total_signals as i32;
    record.trend = Some(ScanTrendSummary {
        compared_to_scan_id: previous.id.clone(),
        compared_to_created_at: previous.created_at.clone(),
        total_repos_delta,
        total_signals_delta,
        new_repos,
        dropped_repos: dropped as u32,
        rising_repos: rising,
        improving_repos: improving,
        steady_repos: steady,
    });
}

fn eq_lit(v: &Vec<char>, lit: &str) -> (r: bool)
    ensures
        r == (v@ == lit@),
{
    let l = chars_of(lit);
    chars_eq(v, &l)
}

} // verus!
