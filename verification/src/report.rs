//! The Markdown report of a scan: scope, executive readout, warnings, the
//! trend against the previous similar scan and the ranked queue.
use crate::clock::now_rfc3339;
use crate::models::{RepoSignal, RepoSignalTrend, ScanParams, ScanRecord, ScanReport, ScanTrendSummary, ScoreFactor};
use crate::text::{
    chars_of, decimal, extend_chars, extend_str, join, join_chars, plus_decimal, push_decimal,
    push_plus_signed, push_tenths_fixed, push_tenths_plus, push_tenths_short, string_from,
    strings_chars, tenths_fixed, tenths_plus, tenths_short, views,
};
use crate::trend::{recurring_issue_count, recurring_total};
use vstd::prelude::*;

verus! {

// ---------------------------------------------------------------------
// Scope
// ---------------------------------------------------------------------
pub open spec fn query_scope(q: Seq<char>) -> Seq<char> {
    if q.len() == 0 {
        "no search query filter"@
    } else {
        "search query `"@ + q + "`"@
    }
}

pub open spec fn list_scope(values: Seq<Seq<char>>, none: Seq<char>, name: Seq<char>) -> Seq<char> {
    if values.len() == 0 {
        none
    } else {
        name + " `"@ + join(values, ", "@) + "`"@
    }
}

/// The scope of a scan in words: the search query, the topics and the
/// languages, each or the absence of that filter, separated by ` · `.
pub open spec fn scope_text(p: ScanParams) -> Seq<char> {
    query_scope(p.search_query@) + " · "@ + list_scope(p.topics.deep_view(), "no topic filter"@, "topics"@)
        + " · "@ + list_scope(p.languages.deep_view(), "no language filter"@, "languages"@)
}

fn push_list_scope(out: &mut Vec<char>, values: &Vec<String>, none: &str, name: &str)
    ensures
        final(out)@ == old(out)@ + list_scope(values.deep_view(), none@, name@),
{
    if values.len() == 0 {
        extend_str(out, none);
    } else {
        let parts = strings_chars(values);
        let sep = chars_of(", ");
        let joined = join_chars(&parts, &sep);
        extend_str(out, name);
        extend_str(out, " `");
        extend_chars(out, &joined);
        extend_str(out, "`");
        assert(final(out)@ =~= old(out)@ + list_scope(values.deep_view(), none@, name@));
    }
}

pub fn format_scope_text(params: &ScanParams) -> (text: String)
    ensures
        text@ == scope_text(*params),
{
    let mut out: Vec<char> = Vec::new();
    if params.search_query.unicode_len() == 0 {
        extend_str(&mut out, "no search query filter");
    } else {
        extend_str(&mut out, "search query `");
        extend_str(&mut out, params.search_query.as_str());
        extend_str(&mut out, "`");
    }
    let ghost q = out@;
    assert(q =~= query_scope(params.search_query@));
    extend_str(&mut out, " · ");
    push_list_scope(&mut out, &params.topics, "no topic filter", "topics");
    extend_str(&mut out, " · ");
    push_list_scope(&mut out, &params.languages, "no language filter", "languages");
    assert(out@ =~= scope_text(*params));
    string_from(&out)
}

// ---------------------------------------------------------------------
// The largest value, the later one on ties
// ---------------------------------------------------------------------
/// The position that `Iterator::max_by_key` returns over `keys[..n]`: the
/// last of the largest keys.
pub open spec fn last_max(keys: Seq<int>, n: int) -> int
    decreases n,
{
    if n <= 1 {
        0
    } else {
        let j = last_max(keys, n - 1);
        if keys[n - 1] >= keys[j] {
            n - 1
        } else {
            j
        }
    }
}

pub open spec fn int_keys(keys: Seq<u64>) -> Seq<int> {
    keys.map_values(|k: u64| k as int)
}

fn last_max_index(keys: &Vec<u64>) -> (j: usize)
    requires
        keys@.len() >= 1,
    ensures
        j as int == last_max(int_keys(keys@), keys@.len() as int),
        j < keys@.len(),
{
    let mut j: usize = 0;
    let mut i: usize = 1;
    while i < keys.len()
        invariant
            1 <= i <= keys@.len(),
            j as int == last_max(int_keys(keys@), i as int),
            j < i,
        decreases keys@.len() - i,
    {
        if keys[i] >= keys[j] {
            j = i;
        }
        i += 1;
    }
    j
}

pub open spec fn stale_keys(repos: Seq<RepoSignal>) -> Seq<int> {
    repos.map_values(|r: RepoSignal| r.stale_issues as int)
}

pub open spec fn recurring_keys(repos: Seq<RepoSignal>) -> Seq<int> {
    repos.map_values(|r: RepoSignal| recurring_total(r.recurring_bug_clusters@))
}

/// What a report can render: cluster lists whose issue counts add up
/// within `u32`.
pub open spec fn reportable(r: RepoSignal) -> bool {
    &&& r.recurring_bug_clusters@.len() <= 0xffff_ffff
    &&& recurring_total(r.recurring_bug_clusters@) <= u32::MAX
}

// ---------------------------------------------------------------------
// The sections
// ---------------------------------------------------------------------
pub open spec fn schedule_lines(name: Option<String>) -> Seq<Seq<char>> {
    match name {
        Some(name) => seq!["- Schedule: `"@ + name@ + "`"@],
        None => Seq::empty(),
    }
}

pub open spec fn header_lines(r: ScanRecord) -> Seq<Seq<char>> {
    seq![
        "# SignalHive by PatchHive"@,
        Seq::empty(),
        "> Maintenance visibility before automation"@,
        Seq::empty(),
        "## Scan "@ + r.id@,
        Seq::empty(),
        "- Scan ID: `"@ + r.id@ + "`"@,
        "- Trigger: `"@ + r.trigger_type@ + "`"@,
    ] + schedule_lines(r.schedule_name) + seq![
        "- Scope: "@ + scope_text(r.params),
        "- Coverage: "@ + decimal(r.summary.total_repos as nat) + " repos scanned, "@ + decimal(
            r.summary.total_signals as nat,
        ) + " signals found, top repo `"@ + r.summary.top_repo@ + "`"@,
        Seq::empty(),
    ]
}

pub open spec fn top_repo_line(repos: Seq<RepoSignal>) -> Seq<char> {
    if repos.len() == 0 {
        "- No ranked repos were returned in this scan."@
    } else {
        "- Highest priority repo: `"@ + repos[0].full_name@ + "` at "@ + tenths_fixed(
            repos[0].priority_tenths as int,
        ) + " priority."@
    }
}

pub open spec fn stale_line(repos: Seq<RepoSignal>) -> Seq<char> {
    let s = repos[last_max(stale_keys(repos), repos.len() as int)];
    if repos.len() > 0 && s.stale_issues > 0 {
        "- Largest stale backlog: `"@ + s.full_name@ + "` with "@ + decimal(s.stale_issues as nat)
            + " stale issues."@
    } else {
        "- No stale backlog stood out in this scan."@
    }
}

pub open spec fn recurring_line(repos: Seq<RepoSignal>) -> Seq<char> {
    let c = repos[last_max(recurring_keys(repos), repos.len() as int)];
    if repos.len() > 0 && c.recurring_bug_clusters@.len() > 0 {
        "- Strongest recurring bug pressure: `"@ + c.full_name@ + "` with "@ + decimal(
            c.recurring_bug_clusters@.len(),
        ) + " recurring clusters covering "@ + decimal(
            recurring_total(c.recurring_bug_clusters@) as nat,
        ) + " issues."@
    } else {
        "- No recurring bug cluster stood out in this scan."@
    }
}

proof fn lemma_last_max(keys: Seq<int>, n: int)
    requires
        1 <= n <= keys.len(),
    ensures
        0 <= last_max(keys, n) < n,
        forall|k: int| 0 <= k < n ==> #[trigger] keys[k] <= keys[last_max(keys, n)],
        forall|k: int| last_max(keys, n) < k < n ==> #[trigger] keys[k] < keys[last_max(keys, n)],
    decreases n,
{
    if n > 1 {
        lemma_last_max(keys, n - 1);
    }
}

/// The repository the strongest-recurring line names has the largest
/// number of issues in recurring clusters, and the last such repository
/// when several tie: the line for the whole queue is the line for that
/// repository alone.
pub proof fn law_strongest_recurring_has_most_recurring_issues(repos: Seq<RepoSignal>)
    requires
        repos.len() >= 1,
    ensures
        exists|j: int|
            {
                &&& 0 <= j < repos.len()
                &&& forall|k: int|
                    0 <= k < repos.len() ==> recurring_total(#[trigger] repos[k].recurring_bug_clusters@)
                        <= recurring_total(repos[j].recurring_bug_clusters@)
                &&& forall|k: int|
                    j < k < repos.len() ==> recurring_total(#[trigger] repos[k].recurring_bug_clusters@)
                        < recurring_total(repos[j].recurring_bug_clusters@)
                &&& recurring_line(repos) == recurring_line(seq![repos[j]])
            },
{
    let keys = recurring_keys(repos);
    let n = repos.len() as int;
    lemma_last_max(keys, n);
    let j = last_max(keys, n);
    assert forall|k: int| 0 <= k < n implies keys[k] == recurring_total(#[trigger] repos[k].recurring_bug_clusters@) by {
    }
    assert(last_max(recurring_keys(seq![repos[j]]), 1) == 0);
    assert(seq![repos[j]][0] == repos[j]);
    assert forall|k: int| 0 <= k < repos.len() implies recurring_total(#[trigger] repos[k].recurring_bug_clusters@)
        <= recurring_total(repos[j].recurring_bug_clusters@) by {
        assert(keys[k] <= keys[j]);
    }
    assert forall|k: int| j < k < repos.len() implies recurring_total(#[trigger] repos[k].recurring_bug_clusters@)
        < recurring_total(repos[j].recurring_bug_clusters@) by {
        assert(keys[k] < keys[j]);
    }
}

/// The same for the largest-stale-backlog line: it names the repository
/// with the most stale issues, the last one on ties.
pub proof fn law_largest_backlog_has_most_stale_issues(repos: Seq<RepoSignal>)
    requires
        repos.len() >= 1,
    ensures
        exists|j: int|
            {
                &&& 0 <= j < repos.len()
                &&& forall|k: int| 0 <= k < repos.len() ==> (#[trigger] repos[k]).stale_issues <= repos[j].stale_issues
                &&& forall|k: int| j < k < repos.len() ==> (#[trigger] repos[k]).stale_issues < repos[j].stale_issues
                &&& stale_line(repos) == stale_line(seq![repos[j]])
            },
{
    let keys = stale_keys(repos);
    let n = repos.len() as int;
    lemma_last_max(keys, n);
    let j = last_max(keys, n);
    assert(last_max(stale_keys(seq![repos[j]]), 1) == 0);
    assert(seq![repos[j]][0] == repos[j]);
    assert forall|k: int| 0 <= k < repos.len() implies (#[trigger] repos[k]).stale_issues <= repos[j].stale_issues by {
        assert(keys[k] <= keys[j]);
    }
    assert forall|k: int| j < k < repos.len() implies (#[trigger] repos[k]).stale_issues < repos[j].stale_issues by {
        assert(keys[k] < keys[j]);
    }
}

pub open spec fn readout_lines(r: ScanRecord) -> Seq<Seq<char>> {
    seq![
        "## Executive Readout"@,
        Seq::empty(),
        "- "@ + decimal(r.summary.total_repos as nat) + " repos scanned and "@ + decimal(
            r.summary.total_signals as nat,
        ) + " maintenance signals surfaced."@,
        top_repo_line(r.repos@),
        stale_line(r.repos@),
        recurring_line(r.repos@),
        Seq::empty(),
    ]
}

/// Each item behind a prefix, one line each.
pub open spec fn prefixed(prefix: Seq<char>, items: Seq<Seq<char>>) -> Seq<Seq<char>> {
    items.map_values(|x: Seq<char>| prefix + x)
}

pub open spec fn warning_section(warnings: Seq<Seq<char>>) -> Seq<Seq<char>> {
    if warnings.len() == 0 {
        Seq::empty()
    } else {
        seq!["## Scan Warnings"@, Seq::empty()] + prefixed("- "@, warnings) + seq![Seq::empty()]
    }
}

pub open spec fn trend_section(t: Option<ScanTrendSummary>) -> Seq<Seq<char>> {
    match t {
        None => Seq::empty(),
        Some(t) => seq![
            "## Trend vs Previous Similar Scan"@,
            Seq::empty(),
            "- Compared to `"@ + t.compared_to_scan_id@ + "` from "@ + t.compared_to_created_at@,
            "- Signals delta: "@ + plus_decimal(t.total_signals_delta as int) + ", repos delta: "@
                + plus_decimal(t.total_repos_delta as int),
            "- Queue movement: "@ + decimal(t.new_repos as nat) + " new, "@ + decimal(
                t.dropped_repos as nat,
            ) + " dropped, "@ + decimal(t.rising_repos as nat) + " rising, "@ + decimal(
                t.improving_repos as nat,
            ) + " improving, "@ + decimal(t.steady_repos as nat) + " steady"@,
            Seq::empty(),
        ],
    }
}

pub open spec fn marker_text(count: u32, available: bool) -> Seq<char> {
    if available {
        decimal(count as nat)
    } else {
        "n/a"@
    }
}

pub open spec fn stats_line(r: RepoSignal) -> Seq<char> {
    "- Stats: stale "@ + decimal(r.stale_issues as nat) + " | unlabeled "@ + decimal(
        r.unlabeled_issues as nat,
    ) + " | duplicates "@ + decimal(r.duplicate_candidates@.len()) + " | recurring clusters "@
        + decimal(r.recurring_bug_clusters@.len()) + " | TODO "@ + marker_text(
        r.todo_count,
        r.todo_available,
    ) + " | FIXME "@ + marker_text(r.fixme_count, r.fixme_available)
}

pub open spec fn repo_trend_lines(t: Option<RepoSignalTrend>) -> Seq<Seq<char>> {
    match t {
        None => Seq::empty(),
        Some(t) => seq![
            "- Trend: "@ + t.status@ + " (score "@ + tenths_plus(t.priority_delta_tenths as int)
                + ", stale "@ + plus_decimal(t.stale_delta as int) + ", recurring "@ + plus_decimal(
                t.recurring_delta as int,
            ) + ")"@,
        ],
    }
}

pub open spec fn driver_lines(factors: Seq<ScoreFactor>) -> Seq<Seq<char>> {
    if factors.len() == 0 {
        Seq::empty()
    } else {
        seq![
            "- Strongest driver: "@ + factors[0].label@ + " (+"@ + tenths_short(
                factors[0].impact_tenths as int,
            ) + ") — "@ + factors[0].detail@,
        ]
    }
}

pub open spec fn first_n<A>(s: Seq<A>, n: int) -> Seq<A> {
    if s.len() <= n {
        s
    } else {
        s.take(n)
    }
}

/// The entry of the repository at position `i` of the queue.
pub open spec fn repo_lines(i: nat, r: RepoSignal) -> Seq<Seq<char>> {
    seq![
        "### "@ + decimal(i + 1) + ". `"@ + r.full_name@ + "`"@,
        "- Priority: "@ + tenths_fixed(r.priority_tenths as int),
        "- Summary: "@ + r.summary@,
        stats_line(r),
    ] + repo_trend_lines(r.trend) + prefixed("- Signal: "@, first_n(r.signals.deep_view(), 3))
        + prefixed("- Warning: "@, r.warnings.deep_view()) + driver_lines(r.score_breakdown@)
        + seq![Seq::<char>::empty()]
}

pub open spec fn queue_lines(repos: Seq<RepoSignal>, n: int) -> Seq<Seq<char>>
    decreases n,
{
    if n <= 0 {
        Seq::empty()
    } else {
        queue_lines(repos, n - 1) + repo_lines((n - 1) as nat, repos[n - 1])
    }
}

/// The lines of the report; the first ten repositories of the queue are
/// listed.
pub open spec fn report_lines(r: ScanRecord) -> Seq<Seq<char>> {
    let shown = if r.repos@.len() < 10 {
        r.repos@.len() as int
    } else {
        10
    };
    header_lines(r) + readout_lines(r) + warning_section(r.warnings.deep_view()) + trend_section(
        r.trend,
    ) + seq!["## Ranked Maintenance Queue"@, Seq::empty()] + queue_lines(r.repos@, shown)
}

pub open spec fn report_markdown(r: ScanRecord) -> Seq<char> {
    join(report_lines(r), "\n"@)
}

// ---------------------------------------------------------------------
// Building the lines
// ---------------------------------------------------------------------
fn push_line(lines: &mut Vec<Vec<char>>, l: Vec<char>)
    ensures
        views(final(lines)@) == views(old(lines)@).push(l@),
{
    lines.push(l);
    assert(views(lines@) =~= views(old(lines)@).push(l@));
}

fn push_empty(lines: &mut Vec<Vec<char>>)
    ensures
        views(final(lines)@) == views(old(lines)@).push(Seq::<char>::empty()),
{
    let l: Vec<char> = Vec::new();
    assert(l@ =~= Seq::<char>::empty());
    push_line(lines, l);
}

/// Appends `prefix + items[k]` for the first `n` items.
fn push_prefixed(lines: &mut Vec<Vec<char>>, prefix: &str, items: &Vec<String>, n: usize)
    requires
        n <= items@.len(),
    ensures
        views(final(lines)@) == views(old(lines)@) + prefixed(prefix@, items.deep_view().take(n as int)),
{
    let mut k: usize = 0;
    while k < n
        invariant
            n <= items@.len(),
            k <= n,
            views(lines@) == views(old(lines)@) + prefixed(prefix@, items.deep_view().take(k as int)),
        decreases n - k,
    {
        let ghost before = views(lines@);
        let mut l = chars_of(prefix);
        extend_str(&mut l, items[k].as_str());
        push_line(lines, l);
        assert(items.deep_view()[k as int] == items@[k as int]@);
        assert(prefixed(prefix@, items.deep_view().take(k + 1)) =~= prefixed(prefix@, items.deep_view().take(k as int)).push(
            prefix@ + items@[k as int]@,
        ));
        k += 1;
    }
}

fn push_header(lines: &mut Vec<Vec<char>>, r: &ScanRecord)
    ensures
        views(final(lines)@) == views(old(lines)@) + header_lines(*r),
{
    let ghost start = views(lines@);
    push_line(lines, chars_of("# SignalHive by PatchHive"));
    push_empty(lines);
    push_line(lines, chars_of("> Maintenance visibility before automation"));
    push_empty(lines);
    let mut l = chars_of("## Scan ");
    extend_str(&mut l, r.id.as_str());
    push_line(lines, l);
    push_empty(lines);
    let mut l = chars_of("- Scan ID: `");
    extend_str(&mut l, r.id.as_str());
    extend_str(&mut l, "`");
    push_line(lines, l);
    let mut l = chars_of("- Trigger: `");
    extend_str(&mut l, r.trigger_type.as_str());
    extend_str(&mut l, "`");
    push_line(lines, l);
    let ghost first = seq![
        "# SignalHive by PatchHive"@,
        Seq::empty(),
        "> Maintenance visibility before automation"@,
        Seq::empty(),
        "## Scan "@ + r.id@,
        Seq::empty(),
        "- Scan ID: `"@ + r.id@ + "`"@,
        "- Trigger: `"@ + r.trigger_type@ + "`"@,
    ];
    assert(views(lines@) =~= start + first);
    let ghost schedule = schedule_lines(r.schedule_name);
    match &r.schedule_name {
        Some(name) => {
            let mut l = chars_of("- Schedule: `");
            extend_str(&mut l, name.as_str());
            extend_str(&mut l, "`");
            push_line(lines, l);
        },
        None => {},
    }
    assert(views(lines@) =~= start + first + schedule);
    let ghost mid = views(lines@);
    let scope = format_scope_text(&r.params);
    let mut l = chars_of("- Scope: ");
    extend_str(&mut l, scope.as_str());
    push_line(lines, l);
    let mut l = chars_of("- Coverage: ");
    push_decimal(&mut l, r.summary.total_repos as u64);
    extend_str(&mut l, " repos scanned, ");
    push_decimal(&mut l, r.summary.total_signals as u64);
    extend_str(&mut l, " signals found, top repo `");
    extend_str(&mut l, r.summary.top_repo.as_str());
    extend_str(&mut l, "`");
    push_line(lines, l);
    push_empty(lines);
    assert(views(lines@) =~= mid + seq![
        "- Scope: "@ + scope_text(r.params),
        "- Coverage: "@ + decimal(r.summary.total_repos as nat) + " repos scanned, "@ + decimal(
            r.summary.total_signals as nat,
        ) + " signals found, top repo `"@ + r.summary.top_repo@ + "`"@,
        Seq::empty(),
    ]);
    assert(views(lines@) =~= start + header_lines(*r));
}

fn stale_key_vec(repos: &Vec<RepoSignal>) -> (keys: Vec<u64>)
    ensures
        int_keys(keys@) == stale_keys(repos@),
        keys@.len() == repos@.len(),
{
    let mut keys: Vec<u64> = Vec::new();
    let mut i: usize = 0;
    while i < repos.len()
        invariant
            i <= repos@.len(),
            keys@.len() == i,
            forall|k: int| 0 <= k < i ==> #[trigger] keys@[k] == repos@[k].stale_issues,
        decreases repos@.len() - i,
    {
        keys.push(repos[i].stale_issues as u64);
        i += 1;
    }
    assert(int_keys(keys@) =~= stale_keys(repos@));
    keys
}

fn recurring_key_vec(repos: &Vec<RepoSignal>) -> (keys: Vec<u64>)
    requires
        forall|k: int| 0 <= k < repos@.len() ==> reportable(#[trigger] repos@[k]),
    ensures
        int_keys(keys@) == recurring_keys(repos@),
        keys@.len() == repos@.len(),
{
    let mut keys: Vec<u64> = Vec::new();
    let mut i: usize = 0;
    while i < repos.len()
        invariant
            i <= repos@.len(),
            keys@.len() == i,
            forall|k: int| 0 <= k < repos@.len() ==> reportable(#[trigger] repos@[k]),
            forall|k: int| 0 <= k < i ==> #[trigger] keys@[k] == recurring_total(repos@[k].recurring_bug_clusters@),
        decreases repos@.len() - i,
    {
        assert(reportable(repos@[i as int]));
        let total = recurring_issue_count(&repos[i].recurring_bug_clusters);
        keys.push(total);
        i += 1;
    }
    assert(int_keys(keys@) =~= recurring_keys(repos@));
    keys
}

fn push_readout(lines: &mut Vec<Vec<char>>, r: &ScanRecord)
    requires
        forall|k: int| 0 <= k < r.repos@.len() ==> reportable(#[trigger] r.repos@[k]),
    ensures
        views(final(lines)@) == views(old(lines)@) + readout_lines(*r),
{
    let ghost start = views(lines@);
    push_line(lines, chars_of("## Executive Readout"));
    push_empty(lines);
    let mut l = chars_of("- ");
    push_decimal(&mut l, r.summary.total_repos as u64);
    extend_str(&mut l, " repos scanned and ");
    push_decimal(&mut l, r.summary.total_signals as u64);
    extend_str(&mut l, " maintenance signals surfaced.");
    push_line(lines, l);
    let n = r.repos.len();
    if n == 0 {
        push_line(lines, chars_of("- No ranked repos were returned in this scan."));
        push_line(lines, chars_of("- No stale backlog stood out in this scan."));
        push_line(lines, chars_of("- No recurring bug cluster stood out in this scan."));
    } else {
        let top = &r.repos[0];
        let mut l = chars_of("- Highest priority repo: `");
        extend_str(&mut l, top.full_name.as_str());
        extend_str(&mut l, "` at ");
        push_tenths_fixed(&mut l, top.priority_tenths);
        extend_str(&mut l, " priority.");
        push_line(lines, l);
        let stale = stale_key_vec(&r.repos);
        let si = last_max_index(&stale);
        let s = &r.repos[si];
        if s.stale_issues > 0 {
            let mut l = chars_of("- Largest stale backlog: `");
            extend_str(&mut l, s.full_name.as_str());
            extend_str(&mut l, "` with ");
            push_decimal(&mut l, s.stale_issues as u64);
            extend_str(&mut l, " stale issues.");
            push_line(lines, l);
        } else {
            push_line(lines, chars_of("- No stale backlog stood out in this scan."));
        }
        let recurring = recurring_key_vec(&r.repos);
        let ci = last_max_index(&recurring);
        let c = &r.repos[ci];
        if c.recurring_bug_clusters.len() > 0 {
            assert(reportable(r.repos@[ci as int]));
            let mut l = chars_of("- Strongest recurring bug pressure: `");
            extend_str(&mut l, c.full_name.as_str());
            extend_str(&mut l, "` with ");
            push_decimal(&mut l, c.recurring_bug_clusters.len() as u64);
            extend_str(&mut l, " recurring clusters covering ");
            let total = recurring_issue_count(&c.recurring_bug_clusters);
            push_decimal(&mut l, total);
            extend_str(&mut l, " issues.");
            push_line(lines, l);
        } else {
            push_line(lines, chars_of("- No recurring bug cluster stood out in this scan."));
        }
    }
    push_empty(lines);
    assert(views(lines@) =~= start + readout_lines(*r));
}

fn push_warning_section(lines: &mut Vec<Vec<char>>, warnings: &Vec<String>)
    ensures
        views(final(lines)@) == views(old(lines)@) + warning_section(warnings.deep_view()),
{
    if warnings.len() > 0 {
        let ghost start = views(lines@);
        push_line(lines, chars_of("## Scan Warnings"));
        push_empty(lines);
        let ghost mid = views(lines@);
        push_prefixed(lines, "- ", warnings, warnings.len());
        assert(warnings.deep_view().take(warnings@.len() as int) =~= warnings.deep_view());
        push_empty(lines);
        assert(views(lines@) =~= start + warning_section(warnings.deep_view()));
    } else {
        assert(views(lines@) =~= views(old(lines)@) + warning_section(warnings.deep_view()));
    }
}

fn push_trend_section(lines: &mut Vec<Vec<char>>, trend: &Option<ScanTrendSummary>)
    ensures
        views(final(lines)@) == views(old(lines)@) + trend_section(*trend),
{
    match trend {
        None => {
            assert(views(lines@) =~= views(old(lines)@) + trend_section(*trend));
        },
        Some(t) => {
            let ghost start = views(lines@);
            push_line(lines, chars_of("## Trend vs Previous Similar Scan"));
            push_empty(lines);
            let mut l = chars_of("- Compared to `");
            extend_str(&mut l, t.compared_to_scan_id.as_str());
            extend_str(&mut l, "` from ");
            extend_str(&mut l, t.compared_to_created_at.as_str());
            push_line(lines, l);
            let mut l = chars_of("- Signals delta: ");
            push_plus_signed(&mut l, t.total_signals_delta as i64);
            extend_str(&mut l, ", repos delta: ");
            push_plus_signed(&mut l, t.total_repos_delta as i64);
            push_line(lines, l);
            let mut l = chars_of("- Queue movement: ");
            push_decimal(&mut l, t.new_repos as u64);
            extend_str(&mut l, " new, ");
            push_decimal(&mut l, t.dropped_repos as u64);
            extend_str(&mut l, " dropped, ");
            push_decimal(&mut l, t.rising_repos as u64);
            extend_str(&mut l, " rising, ");
            push_decimal(&mut l, t.improving_repos as u64);
            extend_str(&mut l, " improving, ");
            push_decimal(&mut l, t.steady_repos as u64);
            extend_str(&mut l, " steady");
            push_line(lines, l);
            push_empty(lines);
            assert(views(lines@) =~= start + trend_section(*trend));
        },
    }
}

fn push_marker_text(out: &mut Vec<char>, count: u32, available: bool)
    ensures
        final(out)@ == old(out)@ + marker_text(count, available),
{
    if available {
        push_decimal(out, count as u64);
    } else {
        extend_str(out, "n/a");
    }
}

fn stats_text(r: &RepoSignal) -> (l: Vec<char>)
    ensures
        l@ == stats_line(*r),
{
    let mut l = chars_of("- Stats: stale ");
    push_decimal(&mut l, r.stale_issues as u64);
    extend_str(&mut l, " | unlabeled ");
    push_decimal(&mut l, r.unlabeled_issues as u64);
    extend_str(&mut l, " | duplicates ");
    push_decimal(&mut l, r.duplicate_candidates.len() as u64);
    extend_str(&mut l, " | recurring clusters ");
    push_decimal(&mut l, r.recurring_bug_clusters.len() as u64);
    extend_str(&mut l, " | TODO ");
    push_marker_text(&mut l, r.todo_count, r.todo_available);
    extend_str(&mut l, " | FIXME ");
    push_marker_text(&mut l, r.fixme_count, r.fixme_available);
    l
}

fn push_repo(lines: &mut Vec<Vec<char>>, i: usize, r: &RepoSignal)
    requires
        i < 10,
    ensures
        views(final(lines)@) == views(old(lines)@) + repo_lines(i as nat, *r),
{
    let ghost start = views(lines@);
    let mut l = chars_of("### ");
    push_decimal(&mut l, i as u64 + 1);
    extend_str(&mut l, ". `");
    extend_str(&mut l, r.full_name.as_str());
    extend_str(&mut l, "`");
    push_line(lines, l);
    let mut l = chars_of("- Priority: ");
    push_tenths_fixed(&mut l, r.priority_tenths);
    push_line(lines, l);
    let mut l = chars_of("- Summary: ");
    extend_str(&mut l, r.summary.as_str());
    push_line(lines, l);
    push_line(lines, stats_text(r));
    let ghost a = views(lines@);
    assert(a =~= start + seq![
        "### "@ + decimal((i as nat) + 1) + ". `"@ + r.full_name@ + "`"@,
        "- Priority: "@ + tenths_fixed(r.priority_tenths as int),
        "- Summary: "@ + r.summary@,
        stats_line(*r),
    ]);
    match &r.trend {
        Some(t) => {
            let mut l = chars_of("- Trend: ");
            extend_str(&mut l, t.status.as_str());
            extend_str(&mut l, " (score ");
            push_tenths_plus(&mut l, t.priority_delta_tenths);
            extend_str(&mut l, ", stale ");
            push_plus_signed(&mut l, t.stale_delta as i64);
            extend_str(&mut l, ", recurring ");
            push_plus_signed(&mut l, t.recurring_delta as i64);
            extend_str(&mut l, ")");
            push_line(lines, l);
        },
        None => {},
    }
    let ghost b = views(lines@);
    assert(b =~= a + repo_trend_lines(r.trend));
    let shown = if r.signals.len() < 3 {
        r.signals.len()
    } else {
        3
    };
    push_prefixed(lines, "- Signal: ", &r.signals, shown);
    assert(first_n(r.signals.deep_view(), 3) =~= r.signals.deep_view().take(shown as int));
    push_prefixed(lines, "- Warning: ", &r.warnings, r.warnings.len());
    assert(r.warnings.deep_view().take(r.warnings@.len() as int) =~= r.warnings.deep_view());
    let ghost c = views(lines@);
    if r.score_breakdown.len() > 0 {
        let f = &r.score_breakdown[0];
        let mut l = chars_of("- Strongest driver: ");
        extend_str(&mut l, f.label.as_str());
        extend_str(&mut l, " (+");
        push_tenths_short(&mut l, f.impact_tenths as i64);
        extend_str(&mut l, ") — ");
        extend_str(&mut l, f.detail.as_str());
        push_line(lines, l);
    }
    assert(views(lines@) =~= c + driver_lines(r.score_breakdown@));
    push_empty(lines);
    assert(views(lines@) =~= start + repo_lines(i as nat, *r));
}

fn push_queue(lines: &mut Vec<Vec<char>>, repos: &Vec<RepoSignal>, shown: usize)
    requires
        shown <= 10,
        shown <= repos@.len(),
    ensures
        views(final(lines)@) == views(old(lines)@) + queue_lines(repos@, shown as int),
{
    let mut i: usize = 0;
    while i < shown
        invariant
            shown <= 10,
            shown <= repos@.len(),
            i <= shown,
            views(lines@) == views(old(lines)@) + queue_lines(repos@, i as int),
        decreases shown - i,
    {
        let ghost before = views(lines@);
        push_repo(lines, i, &repos[i]);
        assert(queue_lines(repos@, i + 1) == queue_lines(repos@, i as int) + repo_lines(i as nat, repos@[i as int]));
        assert(views(lines@) =~= views(old(lines)@) + queue_lines(repos@, i + 1));
        i += 1;
    }
}

// ---------------------------------------------------------------------
// The report
// ---------------------------------------------------------------------
/// The number of bytes that UTF-8 takes for a character.
pub open spec fn utf8_width(c: char) -> nat {
    if (c as u32) < 0x80 {
        1
    } else if (c as u32) < 0x800 {
        2
    } else if (c as u32) < 0x10000 {
        3
    } else {
        4
    }
}

/// The number of bytes that UTF-8 takes for a string.
pub open spec fn utf8_len(s: Seq<char>) -> nat
    decreases s.len(),
{
    if s.len() == 0 {
        0
    } else {
        utf8_len(s.drop_last()) + utf8_width(s.last())
    }
}

/// The first `k` characters take exactly `bytes` bytes: `&s[..bytes]` is
/// those characters.
pub open spec fn byte_prefix_at(s: Seq<char>, bytes: nat, k: int) -> bool {
    0 <= k <= s.len() && utf8_len(s.subrange(0, k)) == bytes
}

pub(crate) proof fn lemma_utf8_prefix_grows(s: Seq<char>, i: int, j: int)
    requires
        0 <= i < j <= s.len(),
    ensures
        utf8_len(s.subrange(0, i)) < utf8_len(s.subrange(0, j)),
    decreases j - i,
{
    assert(s.subrange(0, j).drop_last() =~= s.subrange(0, j - 1));
    if i < j - 1 {
        lemma_utf8_prefix_grows(s, i, j - 1);
    }
}

pub open spec fn report_filename(id_prefix: Seq<char>) -> Seq<char> {
    "signalhive-report-"@ + id_prefix + ".md"@
}

pub(crate) fn utf8_width_exec(c: char) -> (w: usize)
    ensures
        w == utf8_width(c),
{
    let v = c as u32;
    if v < 0x80 {
        1
    } else if v < 0x800 {
        2
    } else if v < 0x10000 {
        3
    } else {
        4
    }
}

/// Whether a character sequence takes more than `limit` bytes in UTF-8.
pub(crate) fn longer_than_bytes(v: &Vec<char>, limit: usize) -> (r: bool)
    ensures
        r == (utf8_len(v@) > limit),
{
    let mut used: usize = 0;
    let mut i: usize = 0;
    while i < v.len()
        invariant
            i <= v@.len(),
            used == utf8_len(v@.subrange(0, i as int)),
            used <= limit,
        decreases v@.len() - i,
    {
        assert(v@.subrange(0, i + 1).drop_last() =~= v@.subrange(0, i as int));
        let w = utf8_width_exec(v[i]);
        if w > limit - used {
            proof {
                if i + 1 < v@.len() {
                    lemma_utf8_prefix_grows(v@, i + 1, v@.len() as int);
                }
                assert(v@.subrange(0, v@.len() as int) =~= v@);
            }
            return true;
        }
        used = used + w;
        i += 1;
    }
    assert(v@.subrange(0, v@.len() as int) =~= v@);
    false
}

/// The characters that make up the first `bytes` bytes of `id`.
fn byte_prefix(id: &str, bytes: usize) -> (p: Vec<char>)
    requires
        exists|k: int| byte_prefix_at(id@, bytes as nat, k),
    ensures
        forall|k: int| byte_prefix_at(id@, bytes as nat, k) ==> p@ == id@.subrange(0, k),
{
    let ghost target = choose|k: int| byte_prefix_at(id@, bytes as nat, k);
    let chars = chars_of(id);
    let mut i: usize = 0;
    let mut used: usize = 0;
    while used < bytes
        invariant
            chars@ == id@,
            byte_prefix_at(id@, bytes as nat, target),
            0 <= i <= target,
            used == utf8_len(id@.subrange(0, i as int)),
        decreases target - i,
    {
        assert(i < target);
        proof {
            lemma_utf8_prefix_grows(id@, i as int, target);
            if i + 1 < target {
                lemma_utf8_prefix_grows(id@, i + 1, target);
            }
        }
        assert(id@.subrange(0, i + 1).drop_last() =~= id@.subrange(0, i as int));
        let w = utf8_width_exec(chars[i]);
        used = used + w;
        i += 1;
    }
    proof {
        if (i as int) < target {
            lemma_utf8_prefix_grows(id@, i as int, target);
        }
    }
    let mut p: Vec<char> = Vec::new();
    let mut j: usize = 0;
    while j < i
        invariant
            chars@ == id@,
            i <= id@.len(),
            j <= i,
            p@ == id@.subrange(0, j as int),
        decreases i - j,
    {
        p.push(chars[j]);
        j += 1;
        assert(p@ =~= id@.subrange(0, j as int));
    }
    proof {
        assert forall|k: int| byte_prefix_at(id@, bytes as nat, k) implies p@ == id@.subrange(0, k) by {
            if k < i {
                lemma_utf8_prefix_grows(id@, k, i as int);
            } else if k > i {
                lemma_utf8_prefix_grows(id@, i as int, k);
            }
        }
    }
    p
}

/// Whether the first `bytes` bytes of `s` end on a character boundary.
pub fn has_byte_prefix(s: &str, bytes: usize) -> (found: bool)
    ensures
        found == exists|k: int| byte_prefix_at(s@, bytes as nat, k),
{
    let chars = chars_of(s);
    let mut i: usize = 0;
    let mut used: usize = 0;
    while i < chars.len() && used < bytes
        invariant
            chars@ == s@,
            i <= s@.len(),
            used == utf8_len(s@.subrange(0, i as int)),
            used <= bytes,
            forall|k: int| 0 <= k < i ==> utf8_len(s@.subrange(0, k)) < bytes,
        decreases s@.len() - i,
    {
        assert(s@.subrange(0, i + 1).drop_last() =~= s@.subrange(0, i as int));
        let w = utf8_width_exec(chars[i]);
        if w > bytes - used {
            proof {
                assert forall|k: int| 0 <= k <= s@.len() implies !byte_prefix_at(s@, bytes as nat, k) by {
                    if k > i {
                        if k > i + 1 {
                            lemma_utf8_prefix_grows(s@, i + 1, k);
                        }
                    }
                }
            }
            return false;
        }
        used = used + w;
        i += 1;
    }
    if used == bytes {
        assert(byte_prefix_at(s@, bytes as nat, i as int));
        true
    } else {
        proof {
            assert(i == s@.len());
            assert forall|k: int| 0 <= k <= s@.len() implies !byte_prefix_at(s@, bytes as nat, k) by {
                if k < i {
                    lemma_utf8_prefix_grows(s@, k, i as int);
                }
            }
        }
        false
    }
}

fn all_reportable(repos: &Vec<RepoSignal>) -> (ok: bool)
    ensures
        ok == forall|k: int| 0 <= k < repos@.len() ==> reportable(#[trigger] repos@[k]),
{
    let mut i: usize = 0;
    while i < repos.len()
        invariant
            i <= repos@.len(),
            forall|k: int| 0 <= k < i ==> reportable(#[trigger] repos@[k]),
        decreases repos@.len() - i,
    {
        let clusters = &repos[i].recurring_bug_clusters;
        if clusters.len() > 0xffff_ffff {
            return false;
        }
        if recurring_issue_count(clusters) > 0xffff_ffff {
            return false;
        }
        i += 1;
    }
    true
}

/// Whether `build_scan_report` can render a scan: the first eight bytes of
/// its id end on a character boundary, and every repository's recurring
/// issues add up within `u32`.
pub fn report_ready(record: &ScanRecord) -> (ready: bool)
    ensures
        ready == ((exists|k: int| byte_prefix_at(record.id@, 8, k)) && forall|k: int|
            0 <= k < record.repos@.len() ==> reportable(#[trigger] record.repos@[k])),
{
    has_byte_prefix(record.id.as_str(), 8) && all_reportable(&record.repos)
}

/// Renders a scan as a Markdown report named after the first eight bytes of
/// its id, with the time of export.
pub fn build_scan_report(record: &ScanRecord) -> (report: ScanReport)
    requires
        exists|k: int| byte_prefix_at(record.id@, 8, k),
        forall|k: int| 0 <= k < record.repos@.len() ==> reportable(#[trigger] record.repos@[k]),
    ensures
        report.markdown@ == report_markdown(*record),
        forall|k: int|
            byte_prefix_at(record.id@, 8, k) ==> report.filename@ == report_filename(
                record.id@.subrange(0, k),
            ),
        crate::clock::utc_rfc3339_shape(report.exported_at@),
{
    let mut lines: Vec<Vec<char>> = Vec::new();
    push_header(&mut lines, record);
    push_readout(&mut lines, record);
    push_warning_section(&mut lines, &record.warnings);
    push_trend_section(&mut lines, &record.trend);
    push_line(&mut lines, chars_of("## Ranked Maintenance Queue"));
    push_empty(&mut lines);
    let shown = if record.repos.len() < 10 {
        record.repos.len()
    } else {
        10
    };
    push_queue(&mut lines, &record.repos, shown);
    assert(views(lines@) =~= report_lines(*record));
    let newline = chars_of("\n");
    let markdown = join_chars(&lines, &newline);
    let prefix = byte_prefix(record.id.as_str(), 8);
    let mut name = chars_of("signalhive-report-");
    extend_chars(&mut name, &prefix);
    extend_str(&mut name, ".md");
    ScanReport { filename: string_from(&name), markdown: string_from(&markdown), exported_at: now_rfc3339() }
}

} // verus!
