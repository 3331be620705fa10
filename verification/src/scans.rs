//! Scan records: the parameter signature that groups similar scans, the
//! totals of a scan, and a new record ready to store.
use crate::clock::now_rfc3339;
use crate::models::{RepoSignal, ScanParams, ScanRecord, ScanSummary};
use crate::text::{
    chars_eq, chars_of, lemma_lex_asymmetric, lemma_lex_irreflexive, lemma_lex_total,
    lemma_lex_transitive, lex_lt, lex_lt_chars, lower, lower_chars, string_from, trim, trim_chars,
    views,
};
use vstd::prelude::*;

verus! {

// ---------------------------------------------------------------------
// Signature parts
// ---------------------------------------------------------------------
pub open spec fn strictly_sorted(s: Seq<Seq<char>>) -> bool {
    forall|i: int, j: int| 0 <= i < j < s.len() ==> lex_lt(#[trigger] s[i], #[trigger] s[j])
}

/// `x` is one of the values, trimmed and ASCII lower-cased, and not empty.
pub open spec fn is_signature_part(values: Seq<Seq<char>>, x: Seq<char>) -> bool {
    x.len() > 0 && exists|i: int| 0 <= i < values.len() && x == lower(trim(#[trigger] values[i]))
}

pub open spec fn lists_parts_of(s: Seq<Seq<char>>, values: Seq<Seq<char>>) -> bool {
    strictly_sorted(s) && forall|x: Seq<char>| s.contains(x) <==> is_signature_part(values, x)
}

/// The distinct non-empty normalised values in increasing order.
pub open spec fn signature_parts(values: Seq<Seq<char>>) -> Seq<Seq<char>> {
    choose|s: Seq<Seq<char>>| lists_parts_of(s, values)
}

/// Two increasing sequences with the same elements are equal.
pub proof fn lemma_sorted_unique(s1: Seq<Seq<char>>, s2: Seq<Seq<char>>)
    requires
        strictly_sorted(s1),
        strictly_sorted(s2),
        forall|x: Seq<char>| s1.contains(x) <==> s2.contains(x),
    ensures
        s1 == s2,
    decreases s1.len(),
{
    if s1.len() == 0 {
        if s2.len() > 0 {
            assert(s2.contains(s2[0]));
        }
        assert(s1 =~= s2);
    } else {
        assert(s1.contains(s1[0]));
        let j = choose|j: int| 0 <= j < s2.len() && s2[j] == s1[0];
        assert(s2.contains(s2[0]));
        let k = choose|k: int| 0 <= k < s1.len() && s1[k] == s2[0];
        if j > 0 {
            assert(lex_lt(s2[0], s2[j]));
            lemma_lex_irreflexive(s1[0]);
            if k > 0 {
                assert(lex_lt(s1[0], s1[k]));
                lemma_lex_asymmetric(s1[0], s2[0]);
            }
        }
        assert(s1[0] == s2[0]);
        let t1 = s1.drop_first();
        let t2 = s2.drop_first();
        assert forall|x: Seq<char>| t1.contains(x) implies t2.contains(x) by {
            let a = choose|a: int| 0 <= a < t1.len() && t1[a] == x;
            assert(s1[a + 1] == x);
            assert(lex_lt(s1[0], s1[a + 1]));
            lemma_lex_irreflexive(x);
            assert(s2.contains(x));
            let b = choose|b: int| 0 <= b < s2.len() && s2[b] == x;
            assert(b != 0);
            assert(t2[b - 1] == x);
        }
        assert forall|x: Seq<char>| t2.contains(x) implies t1.contains(x) by {
            let a = choose|a: int| 0 <= a < t2.len() && t2[a] == x;
            assert(s2[a + 1] == x);
            assert(lex_lt(s2[0], s2[a + 1]));
            lemma_lex_irreflexive(x);
            assert(s1.contains(x));
            let b = choose|b: int| 0 <= b < s1.len() && s1[b] == x;
            assert(b != 0);
            assert(t1[b - 1] == x);
        }
        assert forall|a: int, b: int| 0 <= a < b < t1.len() implies lex_lt(
            #[trigger] t1[a],
            #[trigger] t1[b],
        ) by {
            assert(t1[a] == s1[a + 1] && t1[b] == s1[b + 1]);
        }
        assert forall|a: int, b: int| 0 <= a < b < t2.len() implies lex_lt(
            #[trigger] t2[a],
            #[trigger] t2[b],
        ) by {
            assert(t2[a] == s2[a + 1] && t2[b] == s2[b + 1]);
        }
        lemma_sorted_unique(t1, t2);
        assert(s1 =~= seq![s1[0]] + t1);
        assert(s2 =~= seq![s2[0]] + t2);
    }
}

/// Any sequence that lists the parts of `values` is `signature_parts(values)`.
pub proof fn lemma_signature_parts_is(s: Seq<Seq<char>>, values: Seq<Seq<char>>)
    requires
        lists_parts_of(s, values),
    ensures
        signature_parts(values) == s,
{
    let c = signature_parts(values);
    assert(lists_parts_of(c, values));
    lemma_sorted_unique(c, s);
}

/// `x` placed into an increasing list, unless it is there already.
spec fn sorted_insert(s: Seq<Seq<char>>, x: Seq<char>) -> Seq<Seq<char>>
    decreases s.len(),
{
    if s.len() == 0 {
        seq![x]
    } else if s[0] == x {
        s
    } else if lex_lt(x, s[0]) {
        seq![x] + s
    } else {
        seq![s[0]] + sorted_insert(s.drop_first(), x)
    }
}

proof fn lemma_sorted_insert(s: Seq<Seq<char>>, x: Seq<char>)
    requires
        strictly_sorted(s),
    ensures
        strictly_sorted(sorted_insert(s, x)),
        forall|y: Seq<char>| #[trigger] sorted_insert(s, x).contains(y) <==> (s.contains(y) || y == x),
    decreases s.len(),
{
    let r = sorted_insert(s, x);
    if s.len() == 0 {
        assert(r =~= seq![x]);
        assert(r[0] == x);
        assert(r.contains(x));
    } else if s[0] == x {
    } else if lex_lt(x, s[0]) {
        assert forall|i: int, j: int| 0 <= i < j < r.len() implies lex_lt(#[trigger] r[i], #[trigger] r[j]) by {
            if i == 0 {
                if j > 1 {
                    assert(lex_lt(s[0], s[j - 1]));
                    lemma_lex_transitive(x, s[0], s[j - 1]);
                }
            } else {
                assert(r[i] == s[i - 1] && r[j] == s[j - 1]);
            }
        }
        assert forall|y: Seq<char>| r.contains(y) <==> (s.contains(y) || y == x) by {
            if s.contains(y) {
                let k = choose|k: int| 0 <= k < s.len() && s[k] == y;
                assert(r[k + 1] == y);
            }
            if y == x {
                assert(r[0] == x);
            }
            if r.contains(y) {
                let k = choose|k: int| 0 <= k < r.len() && r[k] == y;
                if k > 0 {
                    assert(s[k - 1] == y);
                }
            }
        }
    } else {
        lemma_lex_total(x, s[0]);
        let t = s.drop_first();
        assert forall|i: int, j: int| 0 <= i < j < t.len() implies lex_lt(#[trigger] t[i], #[trigger] t[j]) by {
            assert(t[i] == s[i + 1] && t[j] == s[j + 1]);
        }
        lemma_sorted_insert(t, x);
        let rt = sorted_insert(t, x);
        assert(rt.contains(x));
        assert(r == seq![s[0]] + rt);
        assert forall|i: int, j: int| 0 <= i < j < r.len() implies lex_lt(#[trigger] r[i], #[trigger] r[j]) by {
            if i == 0 {
                assert(r[j] == rt[j - 1]);
                assert(rt.contains(rt[j - 1]));
                if rt[j - 1] != x {
                    assert(t.contains(rt[j - 1]));
                    let k = choose|k: int| 0 <= k < t.len() && t[k] == rt[j - 1];
                    assert(s[k + 1] == t[k]);
                    assert(lex_lt(s[0], s[k + 1]));
                }
            } else {
                assert(r[i] == rt[i - 1] && r[j] == rt[j - 1]);
            }
        }
        assert forall|y: Seq<char>| r.contains(y) <==> (s.contains(y) || y == x) by {
            if s.contains(y) {
                let k = choose|k: int| 0 <= k < s.len() && s[k] == y;
                if k == 0 {
                    assert(r[0] == y);
                } else {
                    assert(t[k - 1] == y);
                    assert(t.contains(y));
                    assert(rt.contains(y));
                    let m = choose|m: int| 0 <= m < rt.len() && rt[m] == y;
                    assert(r[m + 1] == y);
                }
            }
            if y == x {
                assert(rt.contains(x));
                let m = choose|m: int| 0 <= m < rt.len() && rt[m] == x;
                assert(r[m + 1] == x);
            }
            if r.contains(y) {
                let k = choose|k: int| 0 <= k < r.len() && r[k] == y;
                if k > 0 {
                    assert(rt[k - 1] == y);
                    assert(rt.contains(y));
                    if y != x {
                        assert(t.contains(y));
                        let m = choose|m: int| 0 <= m < t.len() && t[m] == y;
                        assert(s[m + 1] == y);
                    }
                }
            }
        }
    }
}

/// The parts of the first `n` values, built by insertion.
spec fn parts_upto(values: Seq<Seq<char>>, n: int) -> Seq<Seq<char>>
    decreases n,
{
    if n <= 0 {
        Seq::empty()
    } else {
        let p = parts_upto(values, n - 1);
        let x = lower(trim(values[n - 1]));
        if x.len() > 0 {
            sorted_insert(p, x)
        } else {
            p
        }
    }
}

proof fn lemma_parts_upto(values: Seq<Seq<char>>, n: int)
    requires
        0 <= n <= values.len(),
    ensures
        lists_parts_of(parts_upto(values, n), values.subrange(0, n)),
    decreases n,
{
    if n > 0 {
        lemma_parts_upto(values, n - 1);
        let p = parts_upto(values, n - 1);
        let x = lower(trim(values[n - 1]));
        let pre = values.subrange(0, n - 1);
        let post = values.subrange(0, n);
        if x.len() > 0 {
            lemma_sorted_insert(p, x);
        }
        assert forall|y: Seq<char>| parts_upto(values, n).contains(y) <==> is_signature_part(post, y) by {
            if is_signature_part(post, y) {
                let j = choose|j: int| 0 <= j < post.len() && y == lower(trim(#[trigger] post[j]));
                if j < n - 1 {
                    assert(pre[j] == post[j]);
                    assert(is_signature_part(pre, y));
                }
            }
            if is_signature_part(pre, y) {
                let j = choose|j: int| 0 <= j < pre.len() && y == lower(trim(#[trigger] pre[j]));
                assert(post[j] == pre[j]);
            }
            if x.len() > 0 && y == x {
                assert(post[n - 1] == values[n - 1]);
            }
        }
    } else {
        assert forall|y: Seq<char>| !is_signature_part(values.subrange(0, n), y) by {}
    }
}

/// Every list of values has its parts listed by some increasing sequence.
proof fn lemma_parts_exist(values: Seq<Seq<char>>)
    ensures
        lists_parts_of(signature_parts(values), values),
{
    lemma_parts_upto(values, values.len() as int);
    assert(values.subrange(0, values.len() as int) =~= values);
}

/// The signature parts of two lists are equal when the lists have the same
/// normalised values.
proof fn lemma_parts_follow_values(v1: Seq<Seq<char>>, v2: Seq<Seq<char>>)
    requires
        forall|x: Seq<char>| is_signature_part(v1, x) <==> is_signature_part(v2, x),
    ensures
        signature_parts(v1) == signature_parts(v2),
{
    lemma_parts_exist(v1);
    lemma_parts_exist(v2);
    lemma_sorted_unique(signature_parts(v1), signature_parts(v2));
}

fn insert_sorted(r: &mut Vec<Vec<char>>, x: Vec<char>)
    requires
        strictly_sorted(views(old(r)@)),
    ensures
        strictly_sorted(views(final(r)@)),
        forall|y: Seq<char>|
            views(final(r)@).contains(y) <==> (views(old(r)@).contains(y) || y == x@),
{
    let ghost before = views(r@);
    let mut p: usize = 0;
    while p < r.len() && lex_lt_chars(&r[p], &x)
        invariant
            before == views(r@),
            strictly_sorted(before),
            p <= r@.len(),
            forall|k: int| 0 <= k < p ==> lex_lt(#[trigger] before[k], x@),
        decreases r@.len() - p,
    {
        p += 1;
    }
    if p < r.len() && chars_eq(&r[p], &x) {
        assert(before[p as int] == x@);
        return;
    }
    let ghost xv = x@;
    r.insert(p, x);
    let ghost after = views(r@);
    assert(after =~= before.insert(p as int, xv));
    proof {
        if p < before.len() {
            assert(!lex_lt(before[p as int], xv));
            lemma_lex_total(before[p as int], xv);
            assert(lex_lt(xv, before[p as int]));
        }
        assert forall|k: int| p < k < after.len() implies lex_lt(xv, #[trigger] after[k]) by {
            assert(after[k] == before[k - 1]);
            if k - 1 > p {
                assert(lex_lt(before[p as int], before[k - 1]));
                lemma_lex_transitive(xv, before[p as int], before[k - 1]);
            }
        }
        assert forall|i: int, j: int| 0 <= i < j < after.len() implies lex_lt(
            #[trigger] after[i],
            #[trigger] after[j],
        ) by {
            if j < p {
                assert(after[i] == before[i] && after[j] == before[j]);
            } else if j == p {
                assert(after[i] == before[i]);
            } else if i == p {
            } else if i < p {
                assert(after[i] == before[i] && after[j] == before[j - 1]);
                assert(lex_lt(before[i], xv));
                assert(lex_lt(xv, after[j]));
                lemma_lex_transitive(before[i], xv, after[j]);
            } else {
                assert(after[i] == before[i - 1] && after[j] == before[j - 1]);
            }
        }
        assert forall|y: Seq<char>| after.contains(y) <==> (before.contains(y) || y == xv) by {
            if after.contains(y) {
                let k = choose|k: int| 0 <= k < after.len() && after[k] == y;
                if k < p {
                    assert(before[k] == y);
                } else if k > p {
                    assert(before[k - 1] == y);
                }
            }
            if before.contains(y) {
                let k = choose|k: int| 0 <= k < before.len() && before[k] == y;
                if k < p {
                    assert(after[k] == y);
                } else {
                    assert(after[k + 1] == y);
                }
            }
            if y == xv {
                assert(after[p as int] == y);
            }
        }
    }
}

/// Normalised list values for the signature: each value trimmed and ASCII
/// lower-cased, empty ones dropped, sorted and without repetition.
pub fn normalized_signature_parts(values: &Vec<String>) -> (parts: Vec<String>)
    ensures
        parts.deep_view() == signature_parts(values.deep_view()),
        lists_parts_of(parts.deep_view(), values.deep_view()),
{
    let ghost vs = values.deep_view();
    let mut r: Vec<Vec<char>> = Vec::new();
    let mut i: usize = 0;
    while i < values.len()
        invariant
            vs == values.deep_view(),
            i <= values@.len(),
            strictly_sorted(views(r@)),
            forall|x: Seq<char>|
                views(r@).contains(x) <==> is_signature_part(vs.subrange(0, i as int), x),
        decreases values@.len() - i,
    {
        let cs = chars_of(values[i].as_str());
        let t = trim_chars(&cs);
        let n = lower_chars(&t);
        assert(vs[i as int] == values@[i as int]@);
        let ghost pre = vs.subrange(0, i as int);
        let ghost post = vs.subrange(0, i + 1);
        assert forall|x: Seq<char>| is_signature_part(pre, x) implies is_signature_part(post, x) by {
            let j = choose|j: int| 0 <= j < pre.len() && x == lower(trim(#[trigger] pre[j]));
            assert(post[j] == pre[j]);
        }
        if n.len() > 0 {
            let ghost nv = n@;
            insert_sorted(&mut r, n);
            assert forall|x: Seq<char>| views(r@).contains(x) <==> is_signature_part(post, x) by {
                if is_signature_part(post, x) {
                    let j = choose|j: int| 0 <= j < post.len() && x == lower(trim(#[trigger] post[j]));
                    if j < i {
                        assert(pre[j] == post[j]);
                    }
                }
                if x == nv {
                    assert(post[i as int] == vs[i as int]);
                }
            }
        } else {
            assert forall|x: Seq<char>| views(r@).contains(x) <==> is_signature_part(post, x) by {
                if is_signature_part(post, x) {
                    let j = choose|j: int| 0 <= j < post.len() && x == lower(trim(#[trigger] post[j]));
                    if j < i {
                        assert(pre[j] == post[j]);
                    }
                }
            }
        }
        i += 1;
    }
    assert(vs.subrange(0, vs.len() as int) =~= vs);
    let mut out: Vec<String> = Vec::new();
    let mut k: usize = 0;
    while k < r.len()
        invariant
            k <= r@.len(),
            out.deep_view() == views(r@).subrange(0, k as int),
        decreases r@.len() - k,
    {
        let s = string_from(&r[k]);
        let ghost before = out.deep_view();
        out.push(s);
        assert(out.deep_view() =~= before.push(r@[k as int]@));
        k += 1;
        assert(out.deep_view() =~= views(r@).subrange(0, k as int));
    }
    assert(views(r@).subrange(0, r@.len() as int) =~= views(r@));
    proof {
        lemma_signature_parts_is(out.deep_view(), vs);
    }
    out
}

// ---------------------------------------------------------------------
// Parameter signature
// ---------------------------------------------------------------------
/// The compact JSON text that `serde_json` writes for the object
/// `{"search_query", "topics", "languages", "min_stars", "max_repos",
/// "issues_per_repo", "stale_days"}` holding these values.
pub uninterp spec fn params_json(
    search_query: Seq<char>,
    topics: Seq<Seq<char>>,
    languages: Seq<Seq<char>>,
    min_stars: u32,
    max_repos: u32,
    issues_per_repo: u32,
    stale_days: u32,
) -> Seq<char>;

/// Builds a `serde_json::Map` with the seven entries, in this order, wraps it
/// in `serde_json::Value::Object` and renders it with `to_string`. The
/// contract names the text `params_json` of the arguments, and states that
/// the text determines them: the compact serializer writes every string
/// between quotes with its special characters escaped
/// (`format_escaped_str`), every integer in decimal, and every array and
/// object with its separators, so `serde_json::from_str` reads the same
/// value back and no two values give the same text.
#[verifier::external_body]
fn params_json_string(
    search_query: &str,
    topics: &Vec<String>,
    languages: &Vec<String>,
    min_stars: u32,
    max_repos: u32,
    issues_per_repo: u32,
    stale_days: u32,
) -> (json: String)
    ensures
        json@ == params_json(
            search_query@,
            topics.deep_view(),
            languages.deep_view(),
            min_stars,
            max_repos,
            issues_per_repo,
            stale_days,
        ),
        forall|q: Seq<char>, t: Seq<Seq<char>>, l: Seq<Seq<char>>, a: u32, b: u32, c: u32, d: u32|
            #[trigger] params_json(q, t, l, a, b, c, d) == json@ ==> {
                &&& q == search_query@
                &&& t == topics.deep_view()
                &&& l == languages.deep_view()
                &&& a == min_stars && b == max_repos && c == issues_per_repo && d == stale_days
            },
{
    let mut map = serde_json::Map::new();
    map.insert("search_query".to_string(), serde_json::Value::from(search_query));
    map.insert("topics".to_string(), serde_json::Value::from(topics.clone()));
    map.insert("languages".to_string(), serde_json::Value::from(languages.clone()));
    map.insert("min_stars".to_string(), serde_json::Value::from(min_stars));
    map.insert("max_repos".to_string(), serde_json::Value::from(max_repos));
    map.insert("issues_per_repo".to_string(), serde_json::Value::from(issues_per_repo));
    map.insert("stale_days".to_string(), serde_json::Value::from(stale_days));
    serde_json::Value::Object(map).to_string()
}

/// The signature of a scan's parameters: query trimmed and lower-cased,
/// topics and languages normalised into sorted distinct lists, numbers as
/// they are.
pub open spec fn params_signature_spec(
    search_query: Seq<char>,
    topics: Seq<Seq<char>>,
    languages: Seq<Seq<char>>,
    min_stars: u32,
    max_repos: u32,
    issues_per_repo: u32,
    stale_days: u32,
) -> Seq<char> {
    params_json(
        lower(trim(search_query)),
        signature_parts(topics),
        signature_parts(languages),
        min_stars,
        max_repos,
        issues_per_repo,
        stale_days,
    )
}

/// Scans whose queries agree once trimmed and lower-cased, whose topics and
/// languages hold the same values up to order, case, surrounding spaces,
/// repetition and empty entries, and whose numbers agree, share a
/// signature, and so are compared with each other.
pub proof fn law_signature_ignores_order_case_and_repeats(
    query1: Seq<char>,
    topics1: Seq<Seq<char>>,
    languages1: Seq<Seq<char>>,
    query2: Seq<char>,
    topics2: Seq<Seq<char>>,
    languages2: Seq<Seq<char>>,
    min_stars: u32,
    max_repos: u32,
    issues_per_repo: u32,
    stale_days: u32,
)
    requires
        lower(trim(query1)) == lower(trim(query2)),
        forall|x: Seq<char>| is_signature_part(topics1, x) <==> is_signature_part(topics2, x),
        forall|x: Seq<char>| is_signature_part(languages1, x) <==> is_signature_part(languages2, x),
    ensures
        params_signature_spec(query1, topics1, languages1, min_stars, max_repos, issues_per_repo, stale_days)
            == params_signature_spec(query2, topics2, languages2, min_stars, max_repos, issues_per_repo, stale_days),
{
    lemma_parts_follow_values(topics1, topics2);
    lemma_parts_follow_values(languages1, languages2);
}

/// The signature of a scan's parameters. Two scans share a signature
/// exactly when their queries agree once trimmed and lower-cased, their
/// topics and languages normalise to the same lists, and their numbers
/// agree.
pub fn params_signature(params: &ScanParams) -> (signature: String)
    ensures
        signature@ == params_signature_spec(
            params.search_query@,
            params.topics.deep_view(),
            params.languages.deep_view(),
            params.min_stars,
            params.max_repos,
            params.issues_per_repo,
            params.stale_days,
        ),
        forall|q: Seq<char>, t: Seq<Seq<char>>, l: Seq<Seq<char>>, a: u32, b: u32, c: u32, d: u32|
            #[trigger] params_signature_spec(q, t, l, a, b, c, d) == signature@ <==> {
                &&& lower(trim(q)) == lower(trim(params.search_query@))
                &&& signature_parts(t) == signature_parts(params.topics.deep_view())
                &&& signature_parts(l) == signature_parts(params.languages.deep_view())
                &&& a == params.min_stars && b == params.max_repos
                &&& c == params.issues_per_repo && d == params.stale_days
            },
{
    let q = chars_of(params.search_query.as_str());
    let qt = trim_chars(&q);
    let ql = lower_chars(&qt);
    let query = string_from(&ql);
    let topics = normalized_signature_parts(&params.topics);
    let languages = normalized_signature_parts(&params.languages);
    params_json_string(
        query.as_str(),
        &topics,
        &languages,
        params.min_stars,
        params.max_repos,
        params.issues_per_repo,
        params.stale_days,
    )
}

// ---------------------------------------------------------------------
// Scan totals and records
// ---------------------------------------------------------------------
/// The number of signals over all repositories.
pub open spec fn signal_total(repos: Seq<RepoSignal>) -> nat
    decreases repos.len(),
{
    if repos.len() == 0 {
        0
    } else {
        signal_total(repos.drop_last()) + repos.last().signals@.len()
    }
}

/// Whether the signals of a scan add up within `u32`.
pub fn signals_fit(repos: &Vec<RepoSignal>) -> (fits: bool)
    ensures
        fits == (signal_total(repos@) <= u32::MAX),
{
    let mut total: u64 = 0;
    let mut i: usize = 0;
    while i < repos.len()
        invariant
            i <= repos@.len(),
            total == signal_total(repos@.subrange(0, i as int)),
            total <= u32::MAX,
        decreases repos@.len() - i,
    {
        proof {
            assert(repos@.subrange(0, i + 1).drop_last() =~= repos@.subrange(0, i as int));
        }
        let n = repos[i].signals.len();
        if n as u64 > 0xffff_ffff - total {
            proof {
                lemma_signal_total_prefix(repos@, i + 1);
            }
            return false;
        }
        total = total + n as u64;
        i += 1;
    }
    assert(repos@.subrange(0, repos@.len() as int) =~= repos@);
    true
}

/// Totals of a scan: the number of repositories, the number of signals over
/// all of them, and the first (highest-ranked) repository or `none`.
pub fn scan_summary(repos: &Vec<RepoSignal>) -> (summary: ScanSummary)
    requires
        signal_total(repos@) <= u32::MAX,
    ensures
        summary.total_repos == repos@.len() as u32,
        summary.total_signals == signal_total(repos@),
        summary.top_repo@ == if repos@.len() > 0 {
            repos@[0].full_name@
        } else {
            "none"@
        },
{
    let mut total: u32 = 0;
    let mut i: usize = 0;
    while i < repos.len()
        invariant
            i <= repos@.len(),
            signal_total(repos@) <= u32::MAX,
            total == signal_total(repos@.subrange(0, i as int)),
        decreases repos@.len() - i,
    {
        proof {
            assert(repos@.subrange(0, i + 1).drop_last() =~= repos@.subrange(0, i as int));
            lemma_signal_total_prefix(repos@, i + 1);
        }
        total = total + repos[i].signals.len() as u32;
        i += 1;
    }
    assert(repos@.subrange(0, repos@.len() as int) =~= repos@);
    let top_repo = if repos.len() > 0 {
        repos[0].full_name.clone()
    } else {
        String::from_str("none")
    };
    ScanSummary { total_repos: repos.len() as u32, total_signals: total, top_repo }
}

proof fn lemma_signal_total_prefix(repos: Seq<RepoSignal>, n: int)
    requires
        0 <= n <= repos.len(),
    ensures
        signal_total(repos.subrange(0, n)) <= signal_total(repos),
    decreases repos.len() - n,
{
    if n < repos.len() {
        lemma_signal_total_prefix(repos, n + 1);
        assert(repos.subrange(0, n + 1).drop_last() =~= repos.subrange(0, n));
    } else {
        assert(repos.subrange(0, n) =~= repos);
    }
}

/// A new scan record with the given id and time, before any trend is known.
pub fn scan_record_at(
    id: String,
    created_at: String,
    params: ScanParams,
    repos: Vec<RepoSignal>,
    warnings: Vec<String>,
    trigger_type: &str,
    schedule_name: Option<&str>,
) -> (record: ScanRecord)
    requires
        signal_total(repos@) <= u32::MAX,
    ensures
        record.id == id,
        record.created_at == created_at,
        record.params == params,
        record.repos == repos,
        record.warnings == warnings,
        record.trigger_type@ == trigger_type@,
        match (record.schedule_name, schedule_name) {
            (Some(a), Some(b)) => a@ == b@,
            (None, None) => true,
            _ => false,
        },
        record.trend is None,
        record.summary.total_repos == repos@.len() as u32,
        record.summary.total_signals == signal_total(repos@),
        record.summary.top_repo@ == if repos@.len() > 0 {
            repos@[0].full_name@
        } else {
            "none"@
        },
{
    let summary = scan_summary(&repos);
    let schedule_name = match schedule_name {
        Some(s) => Some(String::from_str(s)),
        None => None,
    };
    ScanRecord {
        id,
        created_at,
        params,
        summary,
        repos,
        warnings,
        trigger_type: String::from_str(trigger_type),
        schedule_name,
        trend: None,
    }
}

/// A new scan record with a fresh random id (a hyphenated v4 UUID) and the
/// current time.
pub fn new_scan_record(
    params: ScanParams,
    repos: Vec<RepoSignal>,
    warnings: Vec<String>,
    trigger_type: &str,
    schedule_name: Option<&str>,
) -> (record: ScanRecord)
    requires
        signal_total(repos@) <= u32::MAX,
    ensures
        crate::auth::is_uuid_text(record.id@),
        crate::clock::utc_rfc3339_shape(record.created_at@),
        record.params == params,
        record.repos == repos,
        record.warnings == warnings,
        record.trigger_type@ == trigger_type@,
        match (record.schedule_name, schedule_name) {
            (Some(a), Some(b)) => a@ == b@,
            (None, None) => true,
            _ => false,
        },
        record.trend is None,
        record.summary.total_repos == repos@.len() as u32,
        record.summary.total_signals == signal_total(repos@),
        record.summary.top_repo@ == if repos@.len() > 0 {
            repos@[0].full_name@
        } else {
            "none"@
        },
{
    let id = crate::auth::new_uuid_v4();
    let created_at = now_rfc3339();
    scan_record_at(id, created_at, params, repos, warnings, trigger_type, schedule_name)
}

} // verus!
