//! Likely duplicate issues: pairs of titles that share terms, what they
//! share, and the strongest pairs. How alike two titles are is a ratio
//! read outside the library; given that reading, the choice of pairs is
//! made here.
use crate::clusters::{is_term_set, set_views, shared_count, term_set};
use crate::models::{DuplicateCandidate, GitHubIssue};
use crate::ranking::{is_top, select_top};
use crate::report::{longer_than_bytes, utf8_len};
use crate::text::{chars_eq, chars_of, join, join_chars, views};
use vstd::prelude::*;

verus! {

/// What two titles have in common: the distinct terms they share, how
/// many distinct terms each has, and whether the phrase of one holds the
/// phrase of the other.
///
/// The terms in either title number `left_terms + right_terms - shared`.
pub struct PairOverlap {
    pub left: usize,
    pub right: usize,
    pub shared: usize,
    pub left_terms: usize,
    pub right_terms: usize,
    pub contains_match: bool,
}

pub type OverlapView = (int, int, int, int, int, bool);

pub open spec fn overlap_view(o: PairOverlap) -> OverlapView {
    (o.left as int, o.right as int, o.shared as int, o.left_terms as int, o.right_terms as int, o.contains_match)
}

/// The phrase of a title: its terms joined by single spaces.
pub open spec fn phrase(terms: Seq<Seq<char>>) -> Seq<char> {
    join(terms, " "@)
}

/// `t` occurs in `s`.
pub open spec fn occurs_in(t: Seq<char>, s: Seq<char>) -> bool {
    exists|i: int| 0 <= i <= s.len() - t.len() && #[trigger] s.subrange(i, i + t.len()) == t
}

/// Both phrases are longer than ten bytes and one holds the other.
pub open spec fn phrases_match(a: Seq<char>, b: Seq<char>) -> bool {
    utf8_len(a) > 10 && utf8_len(b) > 10 && (occurs_in(b, a) || occurs_in(a, b))
}

/// Titles `i` and `j` are compared when both have terms and they share at
/// least two.
pub open spec fn pair_qualifies(sets: Seq<Seq<Seq<char>>>, i: int, j: int) -> bool {
    sets[i].len() > 0 && sets[j].len() > 0 && shared_count(sets[i], sets[j]) >= 2
}

pub open spec fn overlap_of(sets: Seq<Seq<Seq<char>>>, phrases: Seq<Seq<char>>, i: int, j: int) -> OverlapView {
    (
        i,
        j,
        shared_count(sets[i], sets[j]) as int,
        sets[i].len() as int,
        sets[j].len() as int,
        phrases_match(phrases[i], phrases[j]),
    )
}

/// The compared pairs `(i, j)` with `i < j < end`, in increasing `j`.
pub open spec fn row_overlaps(sets: Seq<Seq<Seq<char>>>, phrases: Seq<Seq<char>>, i: int, end: int) -> Seq<
    OverlapView,
>
    decreases end - i,
{
    if end <= i + 1 {
        Seq::empty()
    } else {
        row_overlaps(sets, phrases, i, end - 1) + if pair_qualifies(sets, i, end - 1) {
            seq![overlap_of(sets, phrases, i, end - 1)]
        } else {
            Seq::empty()
        }
    }
}

/// The compared pairs with a left title below `end`, in order of the left
/// title, then the right.
pub open spec fn all_overlaps(sets: Seq<Seq<Seq<char>>>, phrases: Seq<Seq<char>>, end: int) -> Seq<OverlapView>
    decreases end,
{
    if end <= 0 {
        Seq::empty()
    } else {
        all_overlaps(sets, phrases, end - 1) + row_overlaps(sets, phrases, end - 1, sets.len() as int)
    }
}

pub open spec fn overlap_views(o: Seq<PairOverlap>) -> Seq<OverlapView> {
    o.map_values(|x: PairOverlap| overlap_view(x))
}

pub open spec fn title_phrases(terms: Seq<Seq<Seq<char>>>) -> Seq<Seq<char>> {
    terms.map_values(|t: Seq<Seq<char>>| phrase(t))
}

/// `overlaps` lists every compared pair of titles, given each title's
/// terms in order.
pub open spec fn is_overlap_list(terms: Seq<Seq<Seq<char>>>, overlaps: Seq<PairOverlap>) -> bool {
    exists|sets: Seq<Seq<Seq<char>>>|
        {
            &&& sets.len() == terms.len()
            &&& forall|k: int| 0 <= k < terms.len() ==> is_term_set(terms[k], #[trigger] sets[k])
            &&& overlap_views(overlaps) == all_overlaps(sets, title_phrases(terms), terms.len() as int)
        }
}

proof fn lemma_row_pairs(sets: Seq<Seq<Seq<char>>>, phrases: Seq<Seq<char>>, i: int, end: int)
    ensures
        forall|k: int|
            0 <= k < row_overlaps(sets, phrases, i, end).len() ==> {
                let o = #[trigger] row_overlaps(sets, phrases, i, end)[k];
                &&& o.0 == i
                &&& i < o.1 < end
                &&& o.2 >= 2
            },
    decreases end - i,
{
    if end > i + 1 {
        lemma_row_pairs(sets, phrases, i, end - 1);
        let prev = row_overlaps(sets, phrases, i, end - 1);
        let cur = row_overlaps(sets, phrases, i, end);
        assert forall|k: int| 0 <= k < cur.len() implies {
            let o = #[trigger] cur[k];
            &&& o.0 == i
            &&& i < o.1 < end
            &&& o.2 >= 2
        } by {
            if k < prev.len() {
                assert(cur[k] == prev[k]);
            }
        }
    }
}

proof fn lemma_all_pairs(sets: Seq<Seq<Seq<char>>>, phrases: Seq<Seq<char>>, end: int)
    ensures
        forall|k: int|
            0 <= k < all_overlaps(sets, phrases, end).len() ==> {
                let o = #[trigger] all_overlaps(sets, phrases, end)[k];
                &&& 0 <= o.0 < o.1 < sets.len()
                &&& o.2 >= 2
            },
    decreases end,
{
    if end > 0 {
        lemma_all_pairs(sets, phrases, end - 1);
        lemma_row_pairs(sets, phrases, end - 1, sets.len() as int);
        let prev = all_overlaps(sets, phrases, end - 1);
        let row = row_overlaps(sets, phrases, end - 1, sets.len() as int);
        let cur = all_overlaps(sets, phrases, end);
        assert forall|k: int| 0 <= k < cur.len() implies {
            let o = #[trigger] cur[k];
            &&& 0 <= o.0 < o.1 < sets.len()
            &&& o.2 >= 2
        } by {
            if k < prev.len() {
                assert(cur[k] == prev[k]);
            } else {
                assert(cur[k] == row[k - prev.len()]);
            }
        }
    }
}

/// Every compared pair names two distinct titles, the first before the
/// second, that share at least two terms.
pub proof fn law_compared_pairs_share_two_terms(terms: Seq<Seq<Seq<char>>>, overlaps: Seq<PairOverlap>)
    requires
        is_overlap_list(terms, overlaps),
    ensures
        forall|k: int|
            0 <= k < overlaps.len() ==> (#[trigger] overlaps[k]).left < overlaps[k].right < terms.len()
                && overlaps[k].shared >= 2,
{
    let sets = choose|sets: Seq<Seq<Seq<char>>>|
        {
            &&& sets.len() == terms.len()
            &&& forall|k: int| 0 <= k < terms.len() ==> is_term_set(terms[k], #[trigger] sets[k])
            &&& overlap_views(overlaps) == all_overlaps(sets, title_phrases(terms), terms.len() as int)
        };
    lemma_all_pairs(sets, title_phrases(terms), terms.len() as int);
    assert forall|k: int| 0 <= k < overlaps.len() implies (#[trigger] overlaps[k]).left < overlaps[k].right
        < terms.len() && overlaps[k].shared >= 2 by {
        assert(overlap_views(overlaps)[k] == overlap_view(overlaps[k]));
    }
}

fn matches_at(s: &Vec<char>, t: &Vec<char>, i: usize) -> (r: bool)
    requires
        i + t@.len() <= s@.len(),
    ensures
        r == (s@.subrange(i as int, i + t@.len()) == t@),
{
    let mut k: usize = 0;
    while k < t.len()
        invariant
            i + t@.len() <= s@.len(),
            k <= t@.len(),
            forall|m: int| 0 <= m < k ==> s@[i + m] == t@[m],
        decreases t@.len() - k,
    {
        let len = s.len();
        assert(i + k < len);
        if s[i + k] != t[k] {
            assert(s@.subrange(i as int, i + t@.len())[k as int] != t@[k as int]);
            return false;
        }
        k += 1;
    }
    assert(s@.subrange(i as int, i + t@.len()) =~= t@);
    true
}

/// Whether `t` occurs in `s`.
pub fn occurs(t: &Vec<char>, s: &Vec<char>) -> (r: bool)
    ensures
        r == occurs_in(t@, s@),
{
    if t.len() > s.len() {
        return false;
    }
    let last = s.len() - t.len();
    let mut i: usize = 0;
    loop
        invariant
            last == s@.len() - t@.len(),
            t@.len() <= s@.len(),
            i <= last,
            forall|j: int| 0 <= j < i ==> #[trigger] s@.subrange(j, j + t@.len()) != t@,
        decreases last - i,
    {
        if matches_at(s, t, i) {
            return true;
        }
        if i == last {
            return false;
        }
        i += 1;
    }
}

/// Every compared pair of titles, given each title's terms in order.
pub fn pair_overlaps(title_terms: &Vec<Vec<String>>) -> (overlaps: Vec<PairOverlap>)
    ensures
        is_overlap_list(title_terms@.map_values(|t: Vec<String>| t.deep_view()), overlaps@),
{
    let ghost terms = title_terms@.map_values(|t: Vec<String>| t.deep_view());
    let n = title_terms.len();
    let mut sets: Vec<Vec<Vec<char>>> = Vec::new();
    let mut phrases: Vec<Vec<char>> = Vec::new();
    let mut k: usize = 0;
    while k < n
        invariant
            n == title_terms@.len(),
            terms == title_terms@.map_values(|t: Vec<String>| t.deep_view()),
            k <= n,
            sets@.len() == k,
            phrases@.len() == k,
            forall|m: int| 0 <= m < k ==> is_term_set(terms[m], #[trigger] set_views(sets@)[m]),
            forall|m: int| 0 <= m < k ==> #[trigger] phrases@[m]@ == phrase(terms[m]),
        decreases n - k,
    {
        let set = term_set(&title_terms[k]);
        let parts = crate::text::strings_chars(&title_terms[k]);
        let sep = chars_of(" ");
        let p = join_chars(&parts, &sep);
        let ghost old_sets = sets@;
        let ghost old_phrases = phrases@;
        sets.push(set);
        phrases.push(p);
        assert(terms[k as int] == title_terms@[k as int].deep_view());
        assert forall|m: int| 0 <= m < k + 1 implies is_term_set(terms[m], #[trigger] set_views(sets@)[m]) by {
            if m < k {
                assert(sets@[m] == old_sets[m]);
                assert(set_views(sets@)[m] == set_views(old_sets)[m]);
            } else {
                assert(set_views(sets@)[m] == views(set@));
            }
        }
        assert forall|m: int| 0 <= m < k + 1 implies #[trigger] phrases@[m]@ == phrase(terms[m]) by {
            if m < k {
                assert(phrases@[m] == old_phrases[m]);
            }
        }
        k += 1;
    }
    let ghost vs = set_views(sets@);
    let ghost ps = title_phrases(terms);
    assert(views(phrases@) =~= ps);
    let mut overlaps: Vec<PairOverlap> = Vec::new();
    let mut i: usize = 0;
    while i < n
        invariant
            n == sets@.len(),
            n == phrases@.len(),
            vs == set_views(sets@),
            ps == views(phrases@),
            ps.len() == n,
            i <= n,
            overlap_views(overlaps@) == all_overlaps(vs, ps, i as int),
        decreases n - i,
    {
        let ghost base = overlap_views(overlaps@);
        let mut j: usize = i + 1;
        assert(row_overlaps(vs, ps, i as int, j as int) =~= Seq::<OverlapView>::empty());
        while j < n
            invariant
                n == sets@.len(),
                n == phrases@.len(),
                vs == set_views(sets@),
                ps == views(phrases@),
                ps.len() == n,
                i < n,
                i + 1 <= j <= n,
                overlap_views(overlaps@) == base + row_overlaps(vs, ps, i as int, j as int),
            decreases n - j,
        {
            let a = &sets[i];
            let b = &sets[j];
            assert(vs[i as int] == views(a@) && vs[j as int] == views(b@));
            if a.len() > 0 && b.len() > 0 {
                let shared = crate::clusters::count_shared(a, b);
                if shared >= 2 {
                    let pa = &phrases[i];
                    let pb = &phrases[j];
                    assert(ps[i as int] == pa@ && ps[j as int] == pb@);
                    let contains_match = longer_than_bytes(pa, 10) && longer_than_bytes(pb, 10) && (occurs(pb, pa)
                        || occurs(pa, pb));
                    let o = PairOverlap {
                        left: i,
                        right: j,
                        shared,
                        left_terms: a.len(),
                        right_terms: b.len(),
                        contains_match,
                    };
                    let ghost before = overlaps@;
                    overlaps.push(o);
                    assert(overlap_views(overlaps@) =~= overlap_views(before).push(overlap_view(o)));
                }
            }
            assert(overlap_views(overlaps@) =~= base + row_overlaps(vs, ps, i as int, j + 1));
            j += 1;
        }
        i += 1;
    }
    assert(forall|m: int| 0 <= m < terms.len() ==> is_term_set(terms[m], #[trigger] vs[m]));
    overlaps
}

// ---------------------------------------------------------------------
// The strongest pairs
// ---------------------------------------------------------------------
pub open spec fn similarity_keys(similarities: Seq<Option<u32>>) -> Seq<(i64, i64)> {
    similarities.map_values(
        |s: Option<u32>|
            match s {
                Some(h) => (h as i64, 0i64),
                None => (0i64, 0i64),
            },
    )
}

/// A pair counts as a likely duplicate when its similarity was read and
/// lies between 0.58 and 1.00.
pub open spec fn duplicate_similarity(s: Option<u32>) -> bool {
    match s {
        Some(h) => 58 <= h <= 100,
        None => false,
    }
}

pub open spec fn similar_enough(similarities: Seq<Option<u32>>) -> Seq<bool> {
    similarities.map_values(|s: Option<u32>| duplicate_similarity(s))
}

/// `d` shows the compared pair `o` with similarity `h` hundredths.
pub open spec fn is_candidate_of(d: DuplicateCandidate, o: PairOverlap, issues: Seq<GitHubIssue>, h: u32) -> bool {
    &&& d.left_number == issues[o.left as int].number
    &&& d.right_number == issues[o.right as int].number
    &&& d.left_title@ == issues[o.left as int].title@
    &&& d.right_title@ == issues[o.right as int].title@
    &&& d.similarity_hundredths == h
}

/// `d` shows the compared pair `o`, whose similarity `s` was read.
pub open spec fn shows_pair(d: DuplicateCandidate, o: PairOverlap, issues: Seq<GitHubIssue>, s: Option<u32>) -> bool {
    match s {
        Some(h) => is_candidate_of(d, o, issues, h),
        None => false,
    }
}

/// The likely duplicate pairs: among the compared pairs whose similarity
/// (in hundredths, `None` where it is too low) was read as 58 to 100, the
/// three most alike, equal similarities in order of the pairs.
pub fn duplicate_candidates(
    issues: &Vec<GitHubIssue>,
    overlaps: &Vec<PairOverlap>,
    similarities: &Vec<Option<u32>>,
) -> (pairs: Vec<DuplicateCandidate>)
    requires
        similarities@.len() == overlaps@.len(),
        forall|k: int|
            0 <= k < overlaps@.len() ==> (#[trigger] overlaps@[k]).left < issues@.len() && overlaps@[k].right
                < issues@.len(),
    ensures
        exists|picked: Seq<usize>|
            {
                &&& is_top(similarity_keys(similarities@), similar_enough(similarities@), 3, picked)
                &&& pairs@.len() == picked.len()
                &&& forall|a: int|
                    0 <= a < picked.len() ==> shows_pair(
                        #[trigger] pairs@[a],
                        overlaps@[picked[a] as int],
                        issues@,
                        similarities@[picked[a] as int],
                    )
            },
        pairs@.len() <= 3,
        forall|a: int|
            0 <= a < pairs@.len() ==> 58 <= (#[trigger] pairs@[a]).similarity_hundredths
                <= 100,
{
    let mut keys: Vec<(i64, i64)> = Vec::new();
    let mut eligible: Vec<bool> = Vec::new();
    let mut k: usize = 0;
    while k < similarities.len()
        invariant
            k <= similarities@.len(),
            keys@ == similarity_keys(similarities@).subrange(0, k as int),
            eligible@ == similar_enough(similarities@).subrange(0, k as int),
        decreases similarities@.len() - k,
    {
        let key = match similarities[k] {
            Some(h) => (h as i64, 0i64),
            None => (0i64, 0i64),
        };
        keys.push(key);
        let ok = match similarities[k] {
            Some(h) => 58 <= h && h <= 100,
            None => false,
        };
        eligible.push(ok);
        k += 1;
        assert(keys@ =~= similarity_keys(similarities@).subrange(0, k as int));
        assert(eligible@ =~= similar_enough(similarities@).subrange(0, k as int));
    }
    assert(keys@ =~= similarity_keys(similarities@));
    assert(eligible@ =~= similar_enough(similarities@));
    let picked = select_top(&keys, &eligible, 3);
    let mut pairs: Vec<DuplicateCandidate> = Vec::new();
    let mut a: usize = 0;
    while a < picked.len()
        invariant
            similarities@.len() == overlaps@.len(),
            forall|k2: int|
                0 <= k2 < overlaps@.len() ==> (#[trigger] overlaps@[k2]).left < issues@.len() && overlaps@[k2].right
                    < issues@.len(),
            keys@ == similarity_keys(similarities@),
            eligible@ == similar_enough(similarities@),
            is_top(keys@, eligible@, 3, picked@),
            a <= picked@.len(),
            pairs@.len() == a,
            forall|b: int| 0 <= b < a ==> 58 <= (#[trigger] pairs@[b]).similarity_hundredths <= 100,
            forall|b: int|
                0 <= b < a ==> shows_pair(
                    #[trigger] pairs@[b],
                    overlaps@[picked@[b] as int],
                    issues@,
                    similarities@[picked@[b] as int],
                ),
        decreases picked@.len() - a,
    {
        let p = picked[a];
        assert(p < keys@.len() && eligible@[p as int]);
        let o = &overlaps[p];
        let h = match similarities[p] {
            Some(h) => h,
            None => 0,
        };
        pairs.push(
            DuplicateCandidate {
                left_number: issues[o.left].number,
                right_number: issues[o.right].number,
                left_title: issues[o.left].title.clone(),
                right_title: issues[o.right].title.clone(),
                similarity_hundredths: h,
            },
        );
        a += 1;
    }
    pairs
}

} // verus!
