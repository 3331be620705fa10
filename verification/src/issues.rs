//! Issue sampling: which sampled issues are stale, unlabeled or bug-like,
//! and which stale issues a report shows as examples.
use crate::clock::{days_since_rfc3339, rfc3339_parses};
use crate::models::{GitHubIssue, IssueSample};
use crate::ranking::{is_top, select_top};
use vstd::prelude::*;

verus! {

/// The number of positions `0 <= i < n` that satisfy `p`.
pub open spec fn count_indices(n: int, p: spec_fn(int) -> bool) -> nat
    decreases n,
{
    if n <= 0 {
        0
    } else {
        count_indices(n - 1, p) + if p(n - 1) {
            1nat
        } else {
            0nat
        }
    }
}

/// Issue `i` has gone `stale_days` days or more without an update.
pub open spec fn stale_at(ages: Seq<i64>, stale_days: u32) -> spec_fn(int) -> bool {
    |i: int| ages[i] >= stale_days as i64
}

pub open spec fn unlabeled_at(issues: Seq<GitHubIssue>) -> spec_fn(int) -> bool {
    |i: int| issues[i].labels@.len() == 0
}

pub open spec fn stale_bug_at(ages: Seq<i64>, stale_days: u32, bugs: Seq<bool>) -> spec_fn(
    int,
) -> bool {
    |i: int| ages[i] >= stale_days as i64 && bugs[i]
}

pub open spec fn stale_discussed_at(
    issues: Seq<GitHubIssue>,
    ages: Seq<i64>,
    stale_days: u32,
) -> spec_fn(int) -> bool {
    |i: int| ages[i] >= stale_days as i64 && issues[i].comments >= 3
}

/// A selection never counts more issues than a wider selection.
pub proof fn lemma_count_within(n: int, p: spec_fn(int) -> bool, q: spec_fn(int) -> bool)
    requires
        forall|i: int| 0 <= i < n && #[trigger] p(i) ==> q(i),
    ensures
        count_indices(n, p) <= count_indices(n, q),
    decreases n,
{
    if n > 0 {
        lemma_count_within(n - 1, p, q);
    }
}

/// Only stale issues count as stalled discussions or stale bug reports:
/// an issue younger than `stale_days` never counts towards either, so
/// neither count exceeds the stale count; and a stalled discussion is one
/// with at least 3 comments.
pub proof fn law_only_stale_issues_stall(
    issues: Seq<GitHubIssue>,
    ages: Seq<i64>,
    stale_days: u32,
    bugs: Seq<bool>,
)
    ensures
        forall|i: int|
            0 <= i < ages.len() && ages[i] < stale_days ==> !#[trigger] stale_discussed_at(issues, ages, stale_days)(i)
                && !stale_bug_at(ages, stale_days, bugs)(i),
        forall|i: int|
            0 <= i < ages.len() && issues[i].comments < 3 ==> !#[trigger] stale_discussed_at(issues, ages, stale_days)(
                i,
            ),
        count_indices(ages.len() as int, stale_discussed_at(issues, ages, stale_days)) <= count_indices(
            ages.len() as int,
            stale_at(ages, stale_days),
        ),
        count_indices(ages.len() as int, stale_bug_at(ages, stale_days, bugs)) <= count_indices(
            ages.len() as int,
            stale_at(ages, stale_days),
        ),
{
    lemma_count_within(ages.len() as int, stale_discussed_at(issues, ages, stale_days), stale_at(ages, stale_days));
    lemma_count_within(ages.len() as int, stale_bug_at(ages, stale_days, bugs), stale_at(ages, stale_days));
}

proof fn lemma_count_all_true(n: int)
    requires
        n >= 0,
    ensures
        count_indices(n, |i: int| true) == n,
    decreases n,
{
    if n > 0 {
        lemma_count_all_true(n - 1);
    }
}

/// The issues a count selects.
#[derive(Clone, Copy, PartialEq, Eq, Structural)]
pub enum IssueFilter {
    Stale,
    Unlabeled,
    StaleBug,
    StaleDiscussed,
}

pub open spec fn filter_at(
    filter: IssueFilter,
    issues: Seq<GitHubIssue>,
    ages: Seq<i64>,
    stale_days: u32,
    bugs: Seq<bool>,
) -> spec_fn(int) -> bool {
    match filter {
        IssueFilter::Stale => stale_at(ages, stale_days),
        IssueFilter::Unlabeled => unlabeled_at(issues),
        IssueFilter::StaleBug => stale_bug_at(ages, stale_days, bugs),
        IssueFilter::StaleDiscussed => stale_discussed_at(issues, ages, stale_days),
    }
}

/// The number of issues the filter selects, truncated to `u32` as
/// `count() as u32` truncates it.
fn count_issues(
    issues: &Vec<GitHubIssue>,
    ages: &Vec<i64>,
    stale_days: u32,
    bugs: &Vec<bool>,
    filter: IssueFilter,
) -> (c: u32)
    requires
        bugs@.len() == ages@.len(),
        issues@.len() == ages@.len(),
    ensures
        c == count_indices(ages@.len() as int, filter_at(filter, issues@, ages@, stale_days, bugs@)) as u32,
{
    let ghost p = filter_at(filter, issues@, ages@, stale_days, bugs@);
    let mut count: usize = 0;
    let mut i: usize = 0;
    while i < ages.len()
        invariant
            i <= ages@.len(),
            bugs@.len() == ages@.len(),
            issues@.len() == ages@.len(),
            p == filter_at(filter, issues@, ages@, stale_days, bugs@),
            count == count_indices(i as int, p),
            count <= i,
        decreases ages@.len() - i,
    {
        let stale = ages[i] >= stale_days as i64;
        let hit = match filter {
            IssueFilter::Stale => stale,
            IssueFilter::Unlabeled => issues[i].labels.len() == 0,
            IssueFilter::StaleBug => stale && bugs[i],
            IssueFilter::StaleDiscussed => stale && issues[i].comments >= 3,
        };
        assert(hit == p(i as int));
        if hit {
            count += 1;
        }
        i += 1;
    }
    count as u32
}

/// The counts of one issue sample.
pub struct IssueCounts {
    pub sampled_issues: u32,
    pub stale_issues: u32,
    pub unlabeled_issues: u32,
    pub stale_bug_issues: u32,
    pub stale_high_comment_issues: u32,
}

/// Counts over the sampled issues, given each issue's age in days and
/// whether it looks like a bug report: all of them; those `stale_days` or
/// more old; those without labels; the stale bug reports; the stale ones
/// with 3 comments or more.
pub fn issue_counts(
    issues: &Vec<GitHubIssue>,
    stale_days: u32,
    ages: &Vec<i64>,
    bugs: &Vec<bool>,
) -> (counts: IssueCounts)
    requires
        ages@.len() == issues@.len(),
        bugs@.len() == issues@.len(),
    ensures
        counts.sampled_issues == issues@.len() as u32,
        counts.stale_issues == count_indices(issues@.len() as int, stale_at(ages@, stale_days)) as u32,
        counts.unlabeled_issues == count_indices(issues@.len() as int, unlabeled_at(issues@)) as u32,
        counts.stale_bug_issues == count_indices(
            issues@.len() as int,
            stale_bug_at(ages@, stale_days, bugs@),
        ) as u32,
        counts.stale_high_comment_issues == count_indices(
            issues@.len() as int,
            stale_discussed_at(issues@, ages@, stale_days),
        ) as u32,
        issues@.len() <= u32::MAX ==> counts.stale_high_comment_issues <= counts.stale_issues
            && counts.stale_bug_issues <= counts.stale_issues && counts.stale_issues <= counts.sampled_issues
            && counts.unlabeled_issues <= counts.sampled_issues,
{
    proof {
        law_only_stale_issues_stall(issues@, ages@, stale_days, bugs@);
        lemma_count_within(issues@.len() as int, stale_at(ages@, stale_days), |i: int| true);
        lemma_count_within(issues@.len() as int, unlabeled_at(issues@), |i: int| true);
        lemma_count_all_true(issues@.len() as int);
    }
    IssueCounts {
        sampled_issues: issues.len() as u32,
        stale_issues: count_issues(issues, ages, stale_days, bugs, IssueFilter::Stale),
        unlabeled_issues: count_issues(issues, ages, stale_days, bugs, IssueFilter::Unlabeled),
        stale_bug_issues: count_issues(issues, ages, stale_days, bugs, IssueFilter::StaleBug),
        stale_high_comment_issues: count_issues(issues, ages, stale_days, bugs, IssueFilter::StaleDiscussed),
    }
}

/// `sample` shows `issue` with the given age.
pub open spec fn is_sample_of(sample: IssueSample, issue: GitHubIssue, age: i64) -> bool {
    &&& sample.number == issue.number
    &&& sample.title@ == issue.title@
    &&& sample.url@ == issue.html_url@
    &&& sample.updated_at@ == issue.updated_at@
    &&& sample.age_days == age
    &&& sample.comments == issue.comments
}

pub fn sample_of(issue: &GitHubIssue, age: i64) -> (sample: IssueSample)
    ensures
        is_sample_of(sample, *issue, age),
{
    IssueSample {
        number: issue.number,
        title: issue.title.clone(),
        url: issue.html_url.clone(),
        updated_at: issue.updated_at.clone(),
        age_days: age,
        comments: issue.comments,
    }
}

/// Stale examples are ranked by age, then by comments, both descending.
pub open spec fn age_comment_keys(issues: Seq<GitHubIssue>, ages: Seq<i64>) -> Seq<(i64, i64)> {
    Seq::new(issues.len(), |i: int| (ages[i], issues[i].comments as i64))
}

pub open spec fn stale_flags(ages: Seq<i64>, stale_days: u32) -> Seq<bool> {
    Seq::new(ages.len(), |i: int| ages[i] >= stale_days as i64)
}

/// The up to three stale issues a report shows: the stale issues ordered
/// by age, then comments, both descending (ties in sample order), first
/// three.
pub open spec fn are_stale_examples(
    issues: Seq<GitHubIssue>,
    ages: Seq<i64>,
    stale_days: u32,
    examples: Seq<IssueSample>,
) -> bool {
    exists|picked: Seq<usize>|
        {
            &&& is_top(age_comment_keys(issues, ages), stale_flags(ages, stale_days), 3, picked)
            &&& examples.len() == picked.len()
            &&& forall|a: int|
                0 <= a < picked.len() ==> is_sample_of(
                    #[trigger] examples[a],
                    issues[picked[a] as int],
                    ages[picked[a] as int],
                )
        }
}

pub fn stale_issue_examples(issues: &Vec<GitHubIssue>, stale_days: u32, ages: &Vec<i64>) -> (examples: Vec<IssueSample>)
    requires
        ages@.len() == issues@.len(),
    ensures
        are_stale_examples(issues@, ages@, stale_days, examples@),
{
    let mut keys: Vec<(i64, i64)> = Vec::new();
    let mut eligible: Vec<bool> = Vec::new();
    let mut i: usize = 0;
    while i < issues.len()
        invariant
            i <= issues@.len(),
            ages@.len() == issues@.len(),
            keys@ == age_comment_keys(issues@, ages@).subrange(0, i as int),
            eligible@ == stale_flags(ages@, stale_days).subrange(0, i as int),
        decreases issues@.len() - i,
    {
        keys.push((ages[i], issues[i].comments as i64));
        eligible.push(ages[i] >= stale_days as i64);
        i += 1;
        assert(keys@ =~= age_comment_keys(issues@, ages@).subrange(0, i as int));
        assert(eligible@ =~= stale_flags(ages@, stale_days).subrange(0, i as int));
    }
    assert(keys@ =~= age_comment_keys(issues@, ages@));
    assert(eligible@ =~= stale_flags(ages@, stale_days));
    let picked = select_top(&keys, &eligible, 3);
    let mut examples: Vec<IssueSample> = Vec::new();
    let mut a: usize = 0;
    while a < picked.len()
        invariant
            a <= picked@.len(),
            ages@.len() == issues@.len(),
            is_top(keys@, eligible@, 3, picked@),
            keys@ == age_comment_keys(issues@, ages@),
            examples@.len() == a,
            forall|b: int|
                0 <= b < a ==> is_sample_of(
                    #[trigger] examples@[b],
                    issues@[picked@[b] as int],
                    ages@[picked@[b] as int],
                ),
        decreases picked@.len() - a,
    {
        let p = picked[a];
        assert(p < keys@.len());
        examples.push(sample_of(&issues[p], ages[p]));
        a += 1;
    }
    examples
}

/// Each issue's age in whole days since its last update, read from the
/// clock; an update time that does not parse counts as age 0.
pub fn issue_ages(issues: &Vec<GitHubIssue>) -> (ages: Vec<i64>)
    ensures
        ages@.len() == issues@.len(),
        forall|k: int|
            0 <= k < issues@.len() && !rfc3339_parses(#[trigger] issues@[k].updated_at@) ==> ages@[k] == 0,
{
    let mut ages: Vec<i64> = Vec::new();
    let mut k: usize = 0;
    while k < issues.len()
        invariant
            k <= issues@.len(),
            ages@.len() == k,
            forall|j: int| 0 <= j < k && !rfc3339_parses(#[trigger] issues@[j].updated_at@) ==> ages@[j] == 0,
        decreases issues@.len() - k,
    {
        let age = match days_since_rfc3339(issues[k].updated_at.as_str()) {
            Some(days) => days,
            None => 0,
        };
        ages.push(age);
        k += 1;
    }
    ages
}

} // verus!
