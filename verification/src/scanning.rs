//! The decisions of a scan run between its network calls: whether the
//! scan has a scope, in which order repositories are analysed and ranked,
//! how far code search goes, and which warnings the scan keeps.
use crate::models::{RepoSignal, ScanParams};
use crate::repo_lists::no_duplicates;
use crate::ranking::{is_top, key_before, lemma_top_takes_all_eligible, select_top};
use crate::scoring::{MarkerCounts, RepoAnalysisDraft};
use crate::text::{chars_of, extend_str, push_decimal, string_from, trim, trim_str};
use vstd::prelude::*;

verus! {

/// `v` held between `lo` and `hi`.
pub open spec fn clamp_spec(v: u32, lo: u32, hi: u32) -> u32 {
    if v < lo {
        lo
    } else if v > hi {
        hi
    } else {
        v
    }
}

/// The parameters a scan runs with: at most 50 repositories and at least
/// one, 1 to 100 issues per repository (one page of GitHub's issue list),
/// a staleness threshold of 1 to 3650 days; query, topics, languages and
/// the star floor as given.
pub open spec fn is_clamped(given: ScanParams, p: ScanParams) -> bool {
    &&& p.search_query == given.search_query
    &&& p.topics == given.topics
    &&& p.languages == given.languages
    &&& p.min_stars == given.min_stars
    &&& p.max_repos == clamp_spec(given.max_repos, 1, 50)
    &&& p.issues_per_repo == clamp_spec(given.issues_per_repo, 1, 100)
    &&& p.stale_days == clamp_spec(given.stale_days, 1, 3650)
}

fn clamp_u32(v: u32, lo: u32, hi: u32) -> (r: u32)
    requires
        lo <= hi,
    ensures
        r == clamp_spec(v, lo, hi),
{
    if v < lo {
        lo
    } else if v > hi {
        hi
    } else {
        v
    }
}

/// Holds a scan's parameters to the bounds a scan runs with.
pub fn clamp_params(params: ScanParams) -> (clamped: ScanParams)
    ensures
        is_clamped(params, clamped),
{
    let max_repos = clamp_u32(params.max_repos, 1, 50);
    let issues_per_repo = clamp_u32(params.issues_per_repo, 1, 100);
    let stale_days = clamp_u32(params.stale_days, 1, 3650);
    ScanParams { max_repos, issues_per_repo, stale_days, ..params }
}

/// The message of a scan that has nothing to search for.
pub open spec fn no_scope_message() -> Seq<char> {
    "Provide at least a search query, topic, or language, or configure an allowlist."@
}

/// A scan needs a search query, a topic, a language or an allowlist.
pub fn check_scan_scope(params: &ScanParams, allowlist: &Vec<String>) -> (checked: Result<(), String>)
    ensures
        checked is Err <==> (params.search_query@.len() == 0 && params.topics@.len() == 0
            && params.languages@.len() == 0 && allowlist@.len() == 0),
        checked matches Err(e) ==> e@ == no_scope_message(),
{
    if params.search_query.unicode_len() == 0 && params.topics.len() == 0 && params.languages.len() == 0
        && allowlist.len() == 0 {
        Err(string_from(&chars_of("Provide at least a search query, topic, or language, or configure an allowlist.")))
    } else {
        Ok(())
    }
}

// ---------------------------------------------------------------------
// Ordering
// ---------------------------------------------------------------------
pub open spec fn all_eligible(n: nat) -> Seq<bool> {
    Seq::new(n, |i: int| true)
}

/// `order` lists distinct positions below `n`.
pub open spec fn distinct_below(order: Seq<usize>, n: int) -> bool {
    &&& forall|a: int| 0 <= a < order.len() ==> (#[trigger] order[a]) < n
    &&& forall|a: int, b: int| 0 <= a < b < order.len() ==> #[trigger] order[a] != #[trigger] order[b]
}

proof fn lemma_top_distinct(keys: Seq<(i64, i64)>, eligible: Seq<bool>, k: int, picked: Seq<usize>)
    requires
        is_top(keys, eligible, k, picked),
    ensures
        distinct_below(picked, keys.len() as int),
{
    assert forall|a: int, b: int| 0 <= a < b < picked.len() implies #[trigger] picked[a] != #[trigger] picked[b] by {
        assert(key_before(keys, picked[a] as int, picked[b] as int));
    }
}

/// The items at the given positions, in that order.
pub fn take_in_order<T>(items: Vec<T>, order: &Vec<usize>) -> (out: Vec<T>)
    requires
        distinct_below(order@, items@.len() as int),
    ensures
        out@.len() == order@.len(),
        forall|a: int| 0 <= a < order@.len() ==> #[trigger] out@[a] == items@[order@[a] as int],
{
    let ghost orig = items@;
    let n = items.len();
    let mut slots: Vec<Option<T>> = Vec::new();
    let mut rest = items;
    let ghost mut taken: int = 0;
    while rest.len() > 0
        invariant
            0 <= taken <= orig.len(),
            n == orig.len(),
            rest@ == orig.subrange(taken, orig.len() as int),
            slots@.len() == taken,
            forall|i: int| 0 <= i < taken ==> #[trigger] slots@[i] == Some(orig[i]),
        decreases rest@.len(),
    {
        let ghost before = rest@;
        let x = rest.remove(0);
        assert(before[0] == orig[taken]);
        slots.push(Some(x));
        proof {
            taken = taken + 1;
            assert(rest@ =~= orig.subrange(taken, orig.len() as int));
        }
    }
    let mut out: Vec<T> = Vec::new();
    let mut a: usize = 0;
    while a < order.len()
        invariant
            distinct_below(order@, n as int),
            n == orig.len(),
            slots@.len() == n,
            a <= order@.len(),
            out@.len() == a,
            forall|b: int| 0 <= b < a ==> #[trigger] out@[b] == orig[order@[b] as int],
            forall|i: int|
                0 <= i < n ==> #[trigger] slots@[i] == if (exists|b: int| 0 <= b < a && order@[b] == i) {
                    None
                } else {
                    Some(orig[i])
                },
        decreases order@.len() - a,
    {
        let p = order[a];
        assert(order@[a as int] < n);
        assert(!(exists|b: int| 0 <= b < a && order@[b] == p as int)) by {
            assert forall|b: int| 0 <= b < a implies order@[b] != p as int by {
                assert(order@[b] != order@[a as int]);
            }
        }
        assert(slots@[p as int] == Some(orig[p as int]));
        let mut slot: Option<T> = None;
        let ghost before = slots@;
        std::mem::swap(&mut slot, &mut slots[p]);
        assert(slots@ =~= before.update(p as int, None));
        match slot {
            Some(x) => {
                out.push(x);
            },
            None => {
                assert(false);
            },
        }
        a += 1;
        assert forall|i: int| 0 <= i < n implies #[trigger] slots@[i] == if (exists|b: int| 0 <= b < a && order@[b] == i) {
            None
        } else {
            Some(orig[i])
        } by {
            if i == p as int {
                assert(order@[a - 1] == i);
            } else {
                assert(slots@[i] == before[i]);
                if exists|b: int| 0 <= b < a && order@[b] == i {
                    let b = choose|b: int| 0 <= b < a && order@[b] == i;
                    assert(b < a - 1);
                }
            }
        }
    }
    out
}

/// Drafts are analysed in order of their issue-only priority, then stars,
/// both descending; ties keep their order.
pub open spec fn draft_keys(drafts: Seq<RepoAnalysisDraft>) -> Seq<(i64, i64)> {
    Seq::new(drafts.len(), |i: int| (drafts[i].issue_only_priority_tenths, drafts[i].repo.stargazers_count as i64))
}

pub open spec fn is_ranked<T>(items: Seq<T>, keys: Seq<(i64, i64)>, out: Seq<T>) -> bool {
    exists|picked: Seq<usize>|
        {
            &&& is_top(keys, all_eligible(items.len()), items.len() as int, picked)
            &&& out.len() == picked.len()
            &&& forall|a: int| 0 <= a < picked.len() ==> #[trigger] out[a] == items[picked[a] as int]
        }
}

pub fn rank_drafts(drafts: Vec<RepoAnalysisDraft>) -> (ranked: Vec<RepoAnalysisDraft>)
    ensures
        is_ranked(drafts@, draft_keys(drafts@), ranked@),
{
    let mut keys: Vec<(i64, i64)> = Vec::new();
    let mut eligible: Vec<bool> = Vec::new();
    let mut i: usize = 0;
    while i < drafts.len()
        invariant
            i <= drafts@.len(),
            keys@ == draft_keys(drafts@).subrange(0, i as int),
            eligible@ == all_eligible(drafts@.len()).subrange(0, i as int),
        decreases drafts@.len() - i,
    {
        keys.push((drafts[i].issue_only_priority_tenths, drafts[i].repo.stargazers_count as i64));
        eligible.push(true);
        i += 1;
        assert(keys@ =~= draft_keys(drafts@).subrange(0, i as int));
        assert(eligible@ =~= all_eligible(drafts@.len()).subrange(0, i as int));
    }
    assert(keys@ =~= draft_keys(drafts@));
    assert(eligible@ =~= all_eligible(drafts@.len()));
    let picked = select_top(&keys, &eligible, drafts.len());
    proof {
        lemma_top_distinct(keys@, eligible@, drafts@.len() as int, picked@);
    }
    take_in_order(drafts, &picked)
}

/// Finished signals are listed by priority, then stars, both descending;
/// ties keep their order.
pub open spec fn signal_keys(signals: Seq<RepoSignal>) -> Seq<(i64, i64)> {
    Seq::new(signals.len(), |i: int| (signals[i].priority_tenths, signals[i].stars as i64))
}

/// Ranking keeps every finished signal exactly once and lists them by
/// priority, then stars, both descending.
pub proof fn law_signals_ranked(signals: Seq<RepoSignal>, ranked: Seq<RepoSignal>)
    requires
        is_ranked(signals, signal_keys(signals), ranked),
        signals.len() <= usize::MAX,
    ensures
        ranked.len() == signals.len(),
        forall|i: int| 0 <= i < signals.len() ==> ranked.contains(#[trigger] signals[i]),
        forall|a: int, b: int|
            0 <= a < b < ranked.len() ==> (#[trigger] ranked[a]).priority_tenths > (#[trigger] ranked[b]).priority_tenths
                || (ranked[a].priority_tenths == ranked[b].priority_tenths && ranked[a].stars >= ranked[b].stars),
{
    let keys = signal_keys(signals);
    let n = signals.len() as int;
    let picked = choose|picked: Seq<usize>|
        {
            &&& is_top(keys, all_eligible(signals.len()), n, picked)
            &&& ranked.len() == picked.len()
            &&& forall|a: int| 0 <= a < picked.len() ==> #[trigger] ranked[a] == signals[picked[a] as int]
        };
    lemma_top_takes_all_eligible(keys, all_eligible(signals.len()), n, picked);
    lemma_top_distinct(keys, all_eligible(signals.len()), n, picked);
    assert forall|i: int| 0 <= i < signals.len() implies ranked.contains(#[trigger] signals[i]) by {
        assert(all_eligible(signals.len())[i]);
        assert(picked.contains(i as usize));
        let a = choose|a: int| 0 <= a < picked.len() && picked[a] == i as usize;
        assert(picked[a] as int == i);
        assert(ranked[a] == signals[i]);
    }
    assert forall|a: int, b: int| 0 <= a < b < ranked.len() implies (#[trigger] ranked[a]).priority_tenths
        > (#[trigger] ranked[b]).priority_tenths || (ranked[a].priority_tenths == ranked[b].priority_tenths
        && ranked[a].stars >= ranked[b].stars) by {
        assert(key_before(keys, picked[a] as int, picked[b] as int));
        assert(ranked[a] == signals[picked[a] as int]);
        assert(ranked[b] == signals[picked[b] as int]);
    }
    // The chosen positions are exactly 0..n.
    let ps = picked.map_values(|v: usize| v as int);
    assert(ps.no_duplicates()) by {
        assert forall|a: int, b: int| 0 <= a < ps.len() && 0 <= b < ps.len() && a != b implies ps[a] != ps[b] by {
            if a < b {
                assert(picked[a] != picked[b]);
            } else {
                assert(picked[b] != picked[a]);
            }
        }
    }
    ps.unique_seq_to_set();
    vstd::set_lib::lemma_int_range(0, n);
    let range = vstd::set_lib::set_int_range(0, n);
    assert(ps.to_set() =~= range) by {
        assert forall|v: int| range.contains(v) implies ps.to_set().contains(v) by {
            assert(all_eligible(signals.len())[v]);
            assert(picked.contains(v as usize));
            let a = choose|a: int| 0 <= a < picked.len() && picked[a] == v as usize;
            assert(picked[a] as int == v);
            assert(ps[a] == v);
        }
        assert forall|v: int| ps.to_set().contains(v) implies range.contains(v) by {
            let a = choose|a: int| 0 <= a < ps.len() && ps[a] == v;
            assert(picked[a] < n);
        }
    }
}

pub fn rank_signals(signals: Vec<RepoSignal>) -> (ranked: Vec<RepoSignal>)
    ensures
        is_ranked(signals@, signal_keys(signals@), ranked@),
{
    let mut keys: Vec<(i64, i64)> = Vec::new();
    let mut eligible: Vec<bool> = Vec::new();
    let mut i: usize = 0;
    while i < signals.len()
        invariant
            i <= signals@.len(),
            keys@ == signal_keys(signals@).subrange(0, i as int),
            eligible@ == all_eligible(signals@.len()).subrange(0, i as int),
        decreases signals@.len() - i,
    {
        keys.push((signals[i].priority_tenths, signals[i].stars as i64));
        eligible.push(true);
        i += 1;
        assert(keys@ =~= signal_keys(signals@).subrange(0, i as int));
        assert(eligible@ =~= all_eligible(signals@.len()).subrange(0, i as int));
    }
    assert(keys@ =~= signal_keys(signals@));
    assert(eligible@ =~= all_eligible(signals@.len()));
    let picked = select_top(&keys, &eligible, signals.len());
    proof {
        lemma_top_distinct(keys@, eligible@, signals@.len() as int, picked@);
    }
    take_in_order(signals, &picked)
}

// ---------------------------------------------------------------------
// Code search budget and warnings
// ---------------------------------------------------------------------
/// The value of a run of decimal digits.
pub open spec fn digits_value(d: Seq<char>) -> int
    decreases d.len(),
{
    if d.len() == 0 {
        0
    } else {
        digits_value(d.drop_last()) * 10 + (d.last() as int - '0' as int)
    }
}

pub open spec fn all_digits(d: Seq<char>) -> bool {
    forall|i: int| 0 <= i < d.len() ==> '0' <= #[trigger] d[i] && d[i] <= '9'
}

/// What `str::parse::<usize>` reads from a text: an optional `+`, then at
/// least one decimal digit and nothing else, with a value that fits.
pub open spec fn parsed_usize(s: Seq<char>) -> Option<int> {
    let d = if s.len() > 0 && s[0] == '+' {
        s.drop_first()
    } else {
        s
    };
    if d.len() > 0 && all_digits(d) && digits_value(d) <= usize::MAX {
        Some(digits_value(d))
    } else {
        None
    }
}

/// How many repositories code search covers in one scan: the configured
/// number when the setting, trimmed, reads as one; 5 otherwise.
pub open spec fn marker_limit(setting: Option<Seq<char>>) -> int {
    match setting {
        Some(t) => match parsed_usize(trim(t)) {
            Some(v) => v,
            None => 5,
        },
        None => 5,
    }
}

proof fn lemma_digits_value_nonneg(d: Seq<char>)
    requires
        all_digits(d),
    ensures
        digits_value(d) >= 0,
    decreases d.len(),
{
    if d.len() > 0 {
        lemma_digits_value_nonneg(d.drop_last());
    }
}

proof fn lemma_digits_value_grows(d: Seq<char>, i: int)
    requires
        all_digits(d),
        0 <= i <= d.len(),
    ensures
        digits_value(d.subrange(0, i)) <= digits_value(d),
    decreases d.len() - i,
{
    if i < d.len() {
        lemma_digits_value_grows(d, i + 1);
        assert(d.subrange(0, i + 1).drop_last() =~= d.subrange(0, i));
        lemma_digits_value_nonneg(d.subrange(0, i));
    } else {
        assert(d.subrange(0, i) =~= d);
    }
}

pub open spec fn setting_view(setting: Option<String>) -> Option<Seq<char>> {
    match setting {
        Some(t) => Some(t@),
        None => None,
    }
}

/// Reads the code-search budget from its setting (the text of
/// `SIGNAL_MARKER_REPO_LIMIT`, when set).
pub fn marker_scan_repo_limit(setting: Option<String>) -> (limit: usize)
    ensures
        limit == marker_limit(setting_view(setting)),
{
    let ghost goal = marker_limit(setting_view(setting));
    let text = match setting {
        Some(t) => t,
        None => return 5,
    };
    let t = trim_str(text.as_str());
    assert(goal == match parsed_usize(t@) {
        Some(v) => v,
        None => 5,
    });
    let start: usize = if t.len() > 0 && t[0] == '+' {
        1
    } else {
        0
    };
    let ghost d = if t@.len() > 0 && t@[0] == '+' {
        t@.drop_first()
    } else {
        t@
    };
    assert(d =~= t@.subrange(start as int, t@.len() as int));
    if start >= t.len() {
        return 5;
    }
    let mut value: usize = 0;
    let mut i: usize = start;
    while i < t.len()
        invariant
            start <= i <= t@.len(),
            d == t@.subrange(start as int, t@.len() as int),
            d == (if t@.len() > 0 && t@[0] == '+' {
                t@.drop_first()
            } else {
                t@
            }),
            d.len() > 0,
            goal == marker_limit(setting_view(setting)),
            goal == match parsed_usize(t@) {
                Some(v) => v,
                None => 5,
            },
            all_digits(d.subrange(0, i - start)),
            value == digits_value(d.subrange(0, i - start)),
        decreases t@.len() - i,
    {
        let c = t[i];
        assert(d[i - start] == c);
        if c < '0' || c > '9' {
            assert(!all_digits(d));
            return 5;
        }
        let digit = (c as u32 - '0' as u32) as usize;
        assert(d.subrange(0, i + 1 - start).drop_last() =~= d.subrange(0, i - start));
        match value.checked_mul(10) {
            Some(tens) => match tens.checked_add(digit) {
                Some(next) => {
                    value = next;
                },
                None => {
                    proof {
                        assert(all_digits(d.subrange(0, i + 1 - start)));
                        if all_digits(d) {
                            lemma_digits_value_grows(d, i + 1 - start);
                        }
                    }
                    return 5;
                },
            },
            None => {
                proof {
                    assert(all_digits(d.subrange(0, i + 1 - start)));
                    lemma_digits_value_nonneg(d.subrange(0, i - start));
                    if all_digits(d) {
                        lemma_digits_value_grows(d, i + 1 - start);
                    }
                }
                return 5;
            },
        }
        i += 1;
        assert(all_digits(d.subrange(0, i - start)));
    }
    assert(d.subrange(0, d.len() as int) =~= d);
    value
}

/// The repository at `index` of the analysis order gets code search when
/// it is among the first `limit`.
pub fn marker_search_in_budget(index: usize, limit: usize) -> (in_budget: bool)
    ensures
        in_budget == (index < limit),
{
    index < limit
}

pub open spec fn budget_warning_text(limit: nat) -> Seq<char> {
    "SignalHive only ran TODO/FIXME code search on the top "@ + crate::text::decimal(limit)
        + " repos in this scan to stay within GitHub search limits. Marker counts are unavailable for the rest of the queue."@
}

/// The warning a scan carries when more repositories were analysed than
/// code search covers.
pub fn marker_budget_warning(analysed: usize, limit: usize) -> (warning: Option<String>)
    ensures
        warning is Some <==> analysed > limit,
        warning matches Some(w) ==> w@ == budget_warning_text(limit as nat),
{
    if analysed > limit {
        let mut t = chars_of("SignalHive only ran TODO/FIXME code search on the top ");
        push_decimal(&mut t, limit as u64);
        extend_str(
            &mut t,
            " repos in this scan to stay within GitHub search limits. Marker counts are unavailable for the rest of the queue.",
        );
        Some(string_from(&t))
    } else {
        None
    }
}

pub open spec fn capped_warning_text() -> Seq<char> {
    "SignalHive capped TODO/FIXME code search to the highest-priority repos in this scan, so the rest of the queue does not include marker counts."@
}

/// The marker counts of a repository beyond the code-search budget: none,
/// unavailable, with a warning saying so.
pub fn capped_marker_counts() -> (counts: MarkerCounts)
    ensures
        counts.todo_count == 0 && counts.fixme_count == 0,
        !counts.todo_available && !counts.fixme_available,
        counts.warnings.deep_view() == seq![capped_warning_text()],
{
    let mut counts = MarkerCounts::default();
    counts.warnings.push(
        string_from(
            &chars_of(
                "SignalHive capped TODO/FIXME code search to the highest-priority repos in this scan, so the rest of the queue does not include marker counts.",
            ),
        ),
    );
    assert(counts.warnings.deep_view() =~= seq![capped_warning_text()]);
    counts
}

/// The warning for a repository whose analysis failed.
pub fn analysis_failure_warning(full_name: &str, error: &str) -> (warning: String)
    ensures
        warning@ == "SignalHive could not analyze `"@ + full_name@ + "` in this scan: "@ + error@,
{
    let mut t = chars_of("SignalHive could not analyze `");
    extend_str(&mut t, full_name);
    extend_str(&mut t, "` in this scan: ");
    extend_str(&mut t, error);
    string_from(&t)
}

/// Adding warnings one by one never lists a warning twice.
pub proof fn law_scan_warnings_stay_distinct(warnings: Seq<Seq<char>>, warning: Seq<char>)
    requires
        no_duplicates(warnings),
    ensures
        no_duplicates(
            if warnings.contains(warning) {
                warnings
            } else {
                warnings.push(warning)
            },
        ),
{
    if !warnings.contains(warning) {
        let w = warnings.push(warning);
        assert forall|i: int, j: int| 0 <= i < j < w.len() implies w[i] != w[j] by {
            if j == warnings.len() {
                assert(warnings[i] == w[i]);
            }
        }
    }
}

/// Adds a warning to the scan unless it is already there.
pub fn add_scan_warning(warnings: &mut Vec<String>, warning: String)
    ensures
        final(warnings).deep_view() == if old(warnings).deep_view().contains(warning@) {
            old(warnings).deep_view()
        } else {
            old(warnings).deep_view().push(warning@)
        },
{
    let mut i: usize = 0;
    while i < warnings.len()
        invariant
            warnings.deep_view() == old(warnings).deep_view(),
            i <= warnings@.len(),
            forall|k: int| 0 <= k < i ==> warnings.deep_view()[k] != warning@,
        decreases warnings@.len() - i,
    {
        if warnings[i] == warning {
            assert(warnings.deep_view()[i as int] == warning@);
            return;
        }
        i += 1;
    }
    let ghost before = warnings.deep_view();
    warnings.push(warning);
    assert(warnings.deep_view() =~= before.push(warning@));
}

} // verus!
