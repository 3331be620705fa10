//! The terms of an issue title: its alphanumeric runs, lower-cased, without
//! short words and stop words; the terms by which bug reports are grouped;
//! and whether an issue looks like a bug report.
use crate::duplicates::{occurs, occurs_in};
use crate::models::GitHubIssue;
use crate::report::{longer_than_bytes, utf8_len};
use crate::text::{chars_eq, chars_of, lemma_filter_keeps, lemma_filter_step, lower, lower_chars, string_from, views};
use vstd::prelude::*;

verus! {

/// What `char::is_alphanumeric` answers for a character.
pub uninterp spec fn alphanumeric(c: char) -> bool;

/// Calls `char::is_alphanumeric`, which the standard library documents as
/// whether the character is alphabetic or numeric in Unicode. The contract
/// names that answer `alphanumeric`; the Unicode tables are not restated.
#[verifier::external_body]
fn is_alphanumeric(c: char) -> (r: bool)
    ensures
        r == alphanumeric(c),
{
    c.is_alphanumeric()
}

/// The runs of a text between characters that are not alphanumeric, empty
/// runs included: what `str::split` gives with that separator.
pub open spec fn pieces(s: Seq<char>) -> Seq<Seq<char>>
    decreases s.len(),
{
    if s.len() == 0 {
        seq![Seq::<char>::empty()]
    } else {
        let p = pieces(s.drop_last());
        if alphanumeric(s.last()) {
            p.update(p.len() - 1, p.last().push(s.last()))
        } else {
            p.push(Seq::<char>::empty())
        }
    }
}

/// Words that carry no meaning in a title.
pub open spec fn stop_words() -> Seq<Seq<char>> {
    seq![
        "a"@, "an"@, "and"@, "are"@, "as"@, "at"@, "be"@, "by"@, "for"@, "from"@, "in"@, "is"@, "it"@,
        "of"@, "on"@, "or"@, "the"@, "to"@, "when"@, "with"@,
    ]
}

/// Words that mark a title as a bug report.
pub open spec fn bug_words() -> Seq<Seq<char>> {
    seq![
        "bug"@, "crash"@, "crashes"@, "error"@, "errors"@, "fail"@, "fails"@, "failed"@, "failure"@,
        "panic"@, "broken"@, "regression"@, "exception"@,
    ]
}

/// A lower-cased word is a term when it takes more than two bytes and is
/// no stop word.
pub open spec fn is_term(w: Seq<char>) -> bool {
    utf8_len(w) > 2 && !stop_words().contains(w)
}

/// The terms of a title, in order, repeats kept.
pub open spec fn title_terms(title: Seq<char>) -> Seq<Seq<char>> {
    pieces(title).map_values(|p: Seq<char>| lower(p)).filter(|w: Seq<char>| is_term(w))
}

/// The terms of a title that are no bug words.
pub open spec fn bug_terms(title: Seq<char>) -> Seq<Seq<char>> {
    title_terms(title).filter(|w: Seq<char>| !bug_words().contains(w))
}

/// An issue looks like a bug report when a label names a bug, whatever
/// its case, or a term of its title is a bug word.
pub open spec fn looks_like_bug(issue: GitHubIssue) -> bool {
    ||| exists|k: int| 0 <= k < issue.labels.len() && occurs_in("bug"@, lower(#[trigger] issue.labels@[k].name@))
    ||| exists|k: int|
        0 <= k < title_terms(issue.title@).len() && bug_words().contains(#[trigger] title_terms(issue.title@)[k])
}

proof fn lemma_lower_idempotent(p: Seq<char>)
    ensures
        lower(lower(p)) == lower(p),
{
    assert forall|i: int| 0 <= i < p.len() implies #[trigger] lower(lower(p))[i] == lower(p)[i] by {
        let c = p[i];
        if 'A' <= c && c <= 'Z' {
            assert((c as u32) + 32 <= 'z' as u32);
            assert((((c as u32) + 32) as char) as u32 == (c as u32) + 32);
        }
    }
    assert(lower(lower(p)) =~= lower(p));
}

/// Every term of a title is in lower case, takes more than two bytes and
/// is no stop word.
pub proof fn law_terms_are_lower_case_and_meaningful(title: Seq<char>)
    ensures
        forall|k: int|
            0 <= k < title_terms(title).len() ==> lower(#[trigger] title_terms(title)[k]) == title_terms(title)[k]
                && is_term(title_terms(title)[k]),
{
    let lowered = pieces(title).map_values(|p: Seq<char>| lower(p));
    let keep = |w: Seq<char>| is_term(w);
    let good = |w: Seq<char>| lower(w) == w && is_term(w);
    assert forall|i: int| 0 <= i < lowered.len() && keep(lowered[i]) implies good(#[trigger] lowered[i]) by {
        lemma_lower_idempotent(pieces(title)[i]);
    }
    lemma_filter_keeps(lowered, keep, good);
    assert forall|k: int| 0 <= k < title_terms(title).len() implies lower(#[trigger] title_terms(title)[k])
        == title_terms(title)[k] && is_term(title_terms(title)[k]) by {
        assert(good(lowered.filter(keep)[k]));
    }
}

fn stop_word_list() -> (v: Vec<&'static str>)
    ensures
        v@.map_values(|s: &str| s@) == stop_words(),
{
    let v = vec![
        "a", "an", "and", "are", "as", "at", "be", "by", "for", "from", "in", "is", "it", "of", "on", "or",
        "the", "to", "when", "with",
    ];
    assert(v@.map_values(|s: &str| s@) =~= stop_words());
    v
}

fn bug_word_list() -> (v: Vec<&'static str>)
    ensures
        v@.map_values(|s: &str| s@) == bug_words(),
{
    let v = vec![
        "bug", "crash", "crashes", "error", "errors", "fail", "fails", "failed", "failure", "panic",
        "broken", "regression", "exception",
    ];
    assert(v@.map_values(|s: &str| s@) =~= bug_words());
    v
}

/// Whether `w` is one of `words`.
fn word_in(w: &Vec<char>, words: &Vec<&'static str>) -> (r: bool)
    ensures
        r == words@.map_values(|s: &str| s@).contains(w@),
{
    let ghost ws = words@.map_values(|s: &str| s@);
    let mut i: usize = 0;
    while i < words.len()
        invariant
            ws == words@.map_values(|s: &str| s@),
            i <= words@.len(),
            forall|k: int| 0 <= k < i ==> ws[k] != w@,
        decreases words@.len() - i,
    {
        let candidate = chars_of(words[i]);
        if chars_eq(&candidate, w) {
            assert(ws[i as int] == w@);
            return true;
        }
        i += 1;
    }
    false
}

/// The runs of `v` between characters that are not alphanumeric.
fn split_pieces(v: &Vec<char>) -> (r: Vec<Vec<char>>)
    ensures
        views(r@) == pieces(v@),
{
    let mut done: Vec<Vec<char>> = Vec::new();
    let mut cur: Vec<char> = Vec::new();
    let mut i: usize = 0;
    while i < v.len()
        invariant
            i <= v@.len(),
            views(done@).push(cur@) == pieces(v@.subrange(0, i as int)),
        decreases v@.len() - i,
    {
        let c = v[i];
        let ghost before = pieces(v@.subrange(0, i as int));
        assert(v@.subrange(0, i + 1).drop_last() =~= v@.subrange(0, i as int));
        if is_alphanumeric(c) {
            cur.push(c);
            assert(views(done@).push(cur@) =~= before.update(before.len() - 1, before.last().push(c)));
        } else {
            let ghost old_done = done@;
            let ghost old_cur = cur@;
            done.push(cur);
            cur = Vec::new();
            assert(views(done@) =~= views(old_done).push(old_cur));
            assert(views(done@).push(cur@) =~= before.push(Seq::<char>::empty()));
        }
        i += 1;
    }
    assert(v@.subrange(0, v@.len() as int) =~= v@);
    done.push(cur);
    done
}

/// The terms of a title, in order, repeats kept.
pub fn title_tokens(title: &str) -> (tokens: Vec<String>)
    ensures
        tokens.deep_view() == title_terms(title@),
{
    let ps = split_pieces(&chars_of(title));
    let ghost lowered = pieces(title@).map_values(|p: Seq<char>| lower(p));
    let ghost keep = |w: Seq<char>| is_term(w);
    let stop = stop_word_list();
    let mut tokens: Vec<String> = Vec::new();
    let mut k: usize = 0;
    while k < ps.len()
        invariant
            views(ps@) == pieces(title@),
            lowered == pieces(title@).map_values(|p: Seq<char>| lower(p)),
            keep == (|w: Seq<char>| is_term(w)),
            stop@.map_values(|s: &str| s@) == stop_words(),
            k <= ps@.len(),
            tokens.deep_view() == lowered.subrange(0, k as int).filter(keep),
        decreases ps@.len() - k,
    {
        assert(views(ps@)[k as int] == ps@[k as int]@);
        let w = lower_chars(&ps[k]);
        assert(w@ == lowered[k as int]);
        proof {
            lemma_filter_step(lowered, keep, k as int);
        }
        if longer_than_bytes(&w, 2) && !word_in(&w, &stop) {
            let ghost before = tokens.deep_view();
            tokens.push(string_from(&w));
            assert(tokens.deep_view() =~= before.push(w@));
        }
        k += 1;
    }
    assert(lowered.subrange(0, lowered.len() as int) =~= lowered);
    tokens
}

/// The terms of a title that are no bug words: the terms by which bug
/// reports are grouped.
pub fn recurring_bug_tokens(title: &str) -> (tokens: Vec<String>)
    ensures
        tokens.deep_view() == bug_terms(title@),
{
    let all = title_tokens(title);
    let ghost ts = title_terms(title@);
    let ghost keep = |w: Seq<char>| !bug_words().contains(w);
    let bugs = bug_word_list();
    let mut tokens: Vec<String> = Vec::new();
    let mut k: usize = 0;
    while k < all.len()
        invariant
            all.deep_view() == ts,
            ts == title_terms(title@),
            keep == (|w: Seq<char>| !bug_words().contains(w)),
            bugs@.map_values(|s: &str| s@) == bug_words(),
            k <= all@.len(),
            tokens.deep_view() == ts.subrange(0, k as int).filter(keep),
        decreases all@.len() - k,
    {
        let w = chars_of(all[k].as_str());
        assert(w@ == ts[k as int]);
        proof {
            lemma_filter_step(ts, keep, k as int);
        }
        if !word_in(&w, &bugs) {
            let ghost before = tokens.deep_view();
            tokens.push(all[k].clone());
            assert(tokens.deep_view() =~= before.push(w@));
        }
        k += 1;
    }
    assert(ts.subrange(0, ts.len() as int) =~= ts);
    tokens
}

/// Whether an issue looks like a bug report.
pub fn is_bug_issue(issue: &GitHubIssue) -> (r: bool)
    ensures
        r == looks_like_bug(*issue),
{
    let bug = chars_of("bug");
    let mut k: usize = 0;
    while k < issue.labels.len()
        invariant
            bug@ == "bug"@,
            k <= issue.labels@.len(),
            forall|m: int| 0 <= m < k ==> !occurs_in("bug"@, lower(#[trigger] issue.labels@[m].name@)),
        decreases issue.labels@.len() - k,
    {
        let name = lower_chars(&chars_of(issue.labels[k].name.as_str()));
        if occurs(&bug, &name) {
            return true;
        }
        k += 1;
    }
    let terms = title_tokens(issue.title.as_str());
    let words = bug_word_list();
    let mut j: usize = 0;
    while j < terms.len()
        invariant
            terms.deep_view() == title_terms(issue.title@),
            words@.map_values(|s: &str| s@) == bug_words(),
            j <= terms@.len(),
            forall|m: int| 0 <= m < j ==> !bug_words().contains(#[trigger] title_terms(issue.title@)[m]),
        decreases terms@.len() - j,
    {
        let w = chars_of(terms[j].as_str());
        assert(w@ == title_terms(issue.title@)[j as int]);
        if word_in(&w, &words) {
            return true;
        }
        j += 1;
    }
    false
}

/// Whether each issue looks like a bug report.
pub open spec fn bug_flags_of(issues: Seq<GitHubIssue>) -> Seq<bool> {
    issues.map_values(|i: GitHubIssue| looks_like_bug(i))
}

/// The grouping terms of each issue's title.
pub open spec fn bug_terms_of(issues: Seq<GitHubIssue>) -> Seq<Seq<Seq<char>>> {
    issues.map_values(|i: GitHubIssue| bug_terms(i.title@))
}

/// The terms held by a vector of term lists.
pub open spec fn term_lists(terms: Seq<Vec<String>>) -> Seq<Seq<Seq<char>>> {
    terms.map_values(|t: Vec<String>| t.deep_view())
}

/// Whether each issue looks like a bug report.
pub fn bug_flags(issues: &Vec<GitHubIssue>) -> (flags: Vec<bool>)
    ensures
        flags@ == bug_flags_of(issues@),
{
    let mut flags: Vec<bool> = Vec::new();
    let mut k: usize = 0;
    while k < issues.len()
        invariant
            k <= issues@.len(),
            flags@.len() == k,
            forall|j: int| 0 <= j < k ==> #[trigger] flags@[j] == looks_like_bug(issues@[j]),
        decreases issues@.len() - k,
    {
        flags.push(is_bug_issue(&issues[k]));
        k += 1;
    }
    assert(flags@ =~= bug_flags_of(issues@));
    flags
}

/// The grouping terms of each issue's title.
pub fn issue_bug_terms(issues: &Vec<GitHubIssue>) -> (terms: Vec<Vec<String>>)
    ensures
        term_lists(terms@) == bug_terms_of(issues@),
{
    let mut terms: Vec<Vec<String>> = Vec::new();
    let mut k: usize = 0;
    while k < issues.len()
        invariant
            k <= issues@.len(),
            terms@.len() == k,
            forall|j: int| 0 <= j < k ==> #[trigger] terms@[j].deep_view() == bug_terms(issues@[j].title@),
        decreases issues@.len() - k,
    {
        terms.push(recurring_bug_tokens(issues[k].title.as_str()));
        k += 1;
    }
    assert(term_lists(terms@) =~= bug_terms_of(issues@));
    terms
}

} // verus!
