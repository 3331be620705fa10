//! What the scanner asks GitHub and how it takes the answers in: the
//! repository search query, page sizes, the merge of search results into
//! the candidate list, the issue filter and the code-search query.
use crate::models::{GitHubIssue, ScanParams, SearchRepo};
use crate::repo_lists::{repo_allowed, repo_allowed_spec};
use crate::text::{
    chars_of, copy_chars, decimal, extend_chars, extend_str, join, join_chars, push_decimal,
    string_from, trim, trim_str, views,
};
use vstd::prelude::*;

verus! {

// ---------------------------------------------------------------------
// Repository search
// ---------------------------------------------------------------------
/// The languages searched one after the other; with none configured, a
/// single search without a language filter.
pub open spec fn search_languages_spec(languages: Seq<Seq<char>>) -> Seq<Seq<char>> {
    if languages.len() == 0 {
        seq![Seq::empty()]
    } else {
        languages
    }
}

pub fn search_languages(params: &ScanParams) -> (languages: Vec<String>)
    ensures
        languages.deep_view() == search_languages_spec(params.languages.deep_view()),
{
    let mut out: Vec<String> = Vec::new();
    if params.languages.len() == 0 {
        out.push(String::new());
        assert(out.deep_view() =~= seq![Seq::<char>::empty()]);
        return out;
    }
    let mut i: usize = 0;
    while i < params.languages.len()
        invariant
            i <= params.languages@.len(),
            out.deep_view() == params.languages.deep_view().subrange(0, i as int),
        decreases params.languages@.len() - i,
    {
        let ghost before = out.deep_view();
        out.push(string_from(&chars_of(params.languages[i].as_str())));
        assert(out.deep_view() =~= before.push(params.languages@[i as int]@));
        i += 1;
        assert(out.deep_view() =~= params.languages.deep_view().subrange(0, i as int));
    }
    assert(params.languages.deep_view().subrange(0, params.languages@.len() as int) =~= params.languages.deep_view());
    out
}

/// The topics of a scan, trimmed, the empty ones left out.
pub open spec fn trimmed_topics(topics: Seq<Seq<char>>) -> Seq<Seq<char>>
    decreases topics.len(),
{
    if topics.len() == 0 {
        Seq::empty()
    } else {
        let rest = trimmed_topics(topics.drop_last());
        if trim(topics.last()).len() > 0 {
            rest.push(trim(topics.last()))
        } else {
            rest
        }
    }
}

/// The terms of one repository search: public, unarchived repositories with
/// at least `max(min_stars, 1)` stars, the trimmed search query and topics
/// where not empty, and the language where not blank.
pub open spec fn query_terms(params: ScanParams, language: Seq<char>) -> Seq<Seq<char>> {
    let q = trim(params.search_query@);
    let stars: nat = if params.min_stars < 1 {
        1
    } else {
        params.min_stars as nat
    };
    seq!["archived:false"@, "is:public"@, "stars:>="@ + decimal(stars)] + (if q.len() > 0 {
        seq![q]
    } else {
        Seq::empty()
    }) + trimmed_topics(params.topics.deep_view()) + (if trim(language).len() > 0 {
        seq!["language:"@ + language]
    } else {
        Seq::empty()
    })
}

pub open spec fn repository_query_spec(params: ScanParams, language: Seq<char>) -> Seq<char> {
    join(query_terms(params, language), " "@)
}

/// The query text of one repository search.
pub fn repository_query(params: &ScanParams, language: &str) -> (query: String)
    ensures
        query@ == repository_query_spec(*params, language@),
{
    let mut terms: Vec<Vec<char>> = Vec::new();
    terms.push(chars_of("archived:false"));
    terms.push(chars_of("is:public"));
    let mut s = chars_of("stars:>=");
    let stars: u32 = if params.min_stars < 1 {
        1
    } else {
        params.min_stars
    };
    push_decimal(&mut s, stars as u64);
    terms.push(s);
    let q = trim_str(params.search_query.as_str());
    let ghost star_term = views(terms@);
    let ghost qv = q@;
    if q.len() > 0 {
        terms.push(q);
    }
    let ghost head = views(terms@);
    assert(head =~= star_term + if qv.len() > 0 {
        seq![qv]
    } else {
        Seq::empty()
    });
    let topics = &params.topics;
    let ghost tv = topics.deep_view();
    let mut i: usize = 0;
    while i < topics.len()
        invariant
            i <= topics@.len(),
            tv == topics.deep_view(),
            views(terms@) == head + trimmed_topics(tv.subrange(0, i as int)),
        decreases topics@.len() - i,
    {
        let t = trim_str(topics[i].as_str());
        assert(tv.subrange(0, i + 1).drop_last() =~= tv.subrange(0, i as int));
        assert(tv[i as int] == topics@[i as int]@);
        let ghost before = views(terms@);
        if t.len() > 0 {
            terms.push(t);
            assert(views(terms@) =~= before.push(t@));
        }
        i += 1;
    }
    assert(tv.subrange(0, topics@.len() as int) =~= tv);
    let ghost before = views(terms@);
    let lt = trim_str(language);
    if lt.len() > 0 {
        let mut l = chars_of("language:");
        extend_str(&mut l, language);
        terms.push(l);
    }
    assert(views(terms@) =~= before + if trim(language@).len() > 0 {
        seq!["language:"@ + language@]
    } else {
        Seq::empty()
    });
    let ghost stars: nat = if params.min_stars < 1 {
        1
    } else {
        params.min_stars as nat
    };
    assert(star_term =~= seq!["archived:false"@, "is:public"@, "stars:>="@ + decimal(stars)]);
    assert(views(terms@) =~= query_terms(*params, language@));
    let sep = chars_of(" ");
    let joined = join_chars(&terms, &sep);
    string_from(&joined)
}

/// Results per search page: at most 25.
pub fn search_page_size(max_repos: u32) -> (size: u32)
    ensures
        size == if max_repos < 25 {
            max_repos
        } else {
            25
        },
{
    if max_repos < 25 {
        max_repos
    } else {
        25
    }
}

/// Discovery stops once `max_repos` repositories were found.
pub fn discovery_full(found: usize, max_repos: u32) -> (full: bool)
    ensures
        full == (found >= max_repos),
{
    found >= max_repos as usize
}

pub open spec fn names(repos: Seq<SearchRepo>) -> Seq<Seq<char>> {
    repos.map_values(|r: SearchRepo| r.full_name@)
}

/// Taking in one page of search results, in order: a repository the lists
/// refuse is skipped; one not yet found is added; the page is left once
/// `max_repos` repositories were found.
pub open spec fn absorbed(
    repos: Seq<SearchRepo>,
    items: Seq<SearchRepo>,
    max_repos: int,
    allow: Seq<Seq<char>>,
    deny: Seq<Seq<char>>,
    opt_out: Seq<Seq<char>>,
) -> Seq<SearchRepo>
    decreases items.len(),
{
    if items.len() == 0 {
        repos
    } else {
        let item = items[0];
        if !repo_allowed_spec(item.full_name@, allow, deny, opt_out) {
            absorbed(repos, items.drop_first(), max_repos, allow, deny, opt_out)
        } else {
            let next = if names(repos).contains(item.full_name@) {
                repos
            } else {
                repos.push(item)
            };
            if next.len() >= max_repos {
                next
            } else {
                absorbed(next, items.drop_first(), max_repos, allow, deny, opt_out)
            }
        }
    }
}

pub open spec fn all_allowed(
    repos: Seq<SearchRepo>,
    allow: Seq<Seq<char>>,
    deny: Seq<Seq<char>>,
    opt_out: Seq<Seq<char>>,
) -> bool {
    forall|i: int| 0 <= i < repos.len() ==> repo_allowed_spec(#[trigger] repos[i].full_name@, allow, deny, opt_out)
}

pub open spec fn distinct_names(repos: Seq<SearchRepo>) -> bool {
    forall|i: int, j: int| 0 <= i < j < repos.len() ==> #[trigger] repos[i].full_name@ != #[trigger] repos[j].full_name@
}

/// Taking in search results keeps what was found, admits only repositories
/// the lists allow, never the same name twice, and stops at `max_repos`.
pub proof fn law_absorbed_allowed_and_distinct(
    repos: Seq<SearchRepo>,
    items: Seq<SearchRepo>,
    max_repos: int,
    allow: Seq<Seq<char>>,
    deny: Seq<Seq<char>>,
    opt_out: Seq<Seq<char>>,
)
    requires
        all_allowed(repos, allow, deny, opt_out),
        distinct_names(repos),
    ensures
        ({
            let r = absorbed(repos, items, max_repos, allow, deny, opt_out);
            &&& r.len() >= repos.len()
            &&& r.subrange(0, repos.len() as int) == repos
            &&& all_allowed(r, allow, deny, opt_out)
            &&& distinct_names(r)
            &&& repos.len() < max_repos ==> r.len() <= max_repos
        }),
    decreases items.len(),
{
    let r = absorbed(repos, items, max_repos, allow, deny, opt_out);
    if items.len() == 0 {
        assert(r.subrange(0, repos.len() as int) =~= repos);
    } else {
        let item = items[0];
        if !repo_allowed_spec(item.full_name@, allow, deny, opt_out) {
            law_absorbed_allowed_and_distinct(repos, items.drop_first(), max_repos, allow, deny, opt_out);
        } else {
            let next = if names(repos).contains(item.full_name@) {
                repos
            } else {
                repos.push(item)
            };
            assert(all_allowed(next, allow, deny, opt_out));
            assert(distinct_names(next)) by {
                if !names(repos).contains(item.full_name@) {
                    assert forall|i: int, j: int| 0 <= i < j < next.len() implies #[trigger] next[i].full_name@
                        != #[trigger] next[j].full_name@ by {
                        if j == repos.len() {
                            assert(names(repos)[i] == repos[i].full_name@);
                        }
                    }
                }
            }
            assert(next.subrange(0, repos.len() as int) =~= repos);
            if next.len() >= max_repos {
                assert(r == next);
            } else {
                law_absorbed_allowed_and_distinct(next, items.drop_first(), max_repos, allow, deny, opt_out);
                assert(r.subrange(0, repos.len() as int) =~= r.subrange(0, next.len() as int).subrange(0, repos.len() as int));
                assert(r.subrange(0, repos.len() as int) == repos);
            }
        }
    }
}

fn name_found(repos: &Vec<SearchRepo>, name: &String) -> (found: bool)
    ensures
        found == names(repos@).contains(name@),
{
    let mut i: usize = 0;
    while i < repos.len()
        invariant
            i <= repos@.len(),
            forall|k: int| 0 <= k < i ==> names(repos@)[k] != name@,
        decreases repos@.len() - i,
    {
        if repos[i].full_name == *name {
            assert(names(repos@)[i as int] == name@);
            return true;
        }
        i += 1;
    }
    false
}

/// Adds one page of repository search results to the repositories found
/// so far.
pub fn absorb_search_results(
    repos: &mut Vec<SearchRepo>,
    items: Vec<SearchRepo>,
    max_repos: u32,
    allowlist: &Vec<String>,
    denylist: &Vec<String>,
    opt_out: &Vec<String>,
)
    ensures
        final(repos)@ == absorbed(
            old(repos)@,
            items@,
            max_repos as int,
            allowlist.deep_view(),
            denylist.deep_view(),
            opt_out.deep_view(),
        ),
{
    let ghost all = items@;
    let ghost allow = allowlist.deep_view();
    let ghost deny = denylist.deep_view();
    let ghost opt = opt_out.deep_view();
    let ghost goal = absorbed(repos@, all, max_repos as int, allow, deny, opt);
    let mut rest = items;
    let ghost mut taken: int = 0;
    while rest.len() > 0
        invariant
            0 <= taken <= all.len(),
            rest@ == all.subrange(taken, all.len() as int),
            allow == allowlist.deep_view(),
            deny == denylist.deep_view(),
            opt == opt_out.deep_view(),
            goal == absorbed(repos@, rest@, max_repos as int, allow, deny, opt),
            goal == absorbed(old(repos)@, items@, max_repos as int, allow, deny, opt),
        decreases rest@.len(),
    {
        let ghost before = rest@;
        let ghost r0 = repos@;
        let item = rest.remove(0);
        assert(rest@ =~= before.drop_first());
        assert(before[0] == item);
        proof {
            taken = taken + 1;
            assert(rest@ =~= all.subrange(taken, all.len() as int));
        }
        if !repo_allowed(item.full_name.as_str(), allowlist, denylist, opt_out) {
            continue;
        }
        if !name_found(repos, &item.full_name) {
            repos.push(item);
        }
        assert(repos@ == if names(r0).contains(before[0].full_name@) {
            r0
        } else {
            r0.push(before[0])
        });
        if repos.len() >= max_repos as usize {
            assert(absorbed(r0, before, max_repos as int, allow, deny, opt) == repos@);
            return;
        }
    }
}

// ---------------------------------------------------------------------
// Issues and code search
// ---------------------------------------------------------------------
/// Issues per page: at most 100.
pub fn issue_page_size(per_page: u32) -> (size: u32)
    ensures
        size == if per_page < 100 {
            per_page
        } else {
            100
        },
{
    if per_page < 100 {
        per_page
    } else {
        100
    }
}

pub open spec fn is_issue() -> spec_fn(GitHubIssue) -> bool {
    |i: GitHubIssue| !i.is_pull_request
}

/// The issue listing with its pull requests left out.
pub fn open_issues_only(issues: Vec<GitHubIssue>) -> (open: Vec<GitHubIssue>)
    ensures
        open@ == issues@.filter(is_issue()),
{
    let ghost all = issues@;
    let mut rest = issues;
    let mut open: Vec<GitHubIssue> = Vec::new();
    let ghost mut taken: int = 0;
    while rest.len() > 0
        invariant
            0 <= taken <= all.len(),
            rest@ == all.subrange(taken, all.len() as int),
            open@ == all.subrange(0, taken).filter(is_issue()),
        decreases rest@.len(),
    {
        let ghost before = rest@;
        let issue = rest.remove(0);
        proof {
            crate::text::lemma_filter_step(all, is_issue(), taken);
            taken = taken + 1;
            assert(rest@ =~= all.subrange(taken, all.len() as int));
        }
        if !issue.is_pull_request {
            open.push(issue);
        }
    }
    assert(all.subrange(0, all.len() as int) =~= all);
    open
}

/// The code-search query for a marker in one repository.
pub fn code_search_query(marker: &str, full_name: &str) -> (query: String)
    ensures
        query@ == marker@ + " repo:"@ + full_name@,
{
    let mut q = chars_of(marker);
    extend_str(&mut q, " repo:");
    extend_str(&mut q, full_name);
    string_from(&q)
}

} // verus!
