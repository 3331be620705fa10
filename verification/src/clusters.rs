//! Recurring bug patterns: bug reports whose titles share enough terms are
//! linked, and each connected group of two or more reports is a cluster.
use crate::issues::{count_indices, is_sample_of, sample_of};
use crate::models::{GitHubIssue, IssueSample, RecurringBugCluster};
use crate::ranking::{is_top, key_before, select_top};
use crate::text::{
    chars_eq, chars_of, copy_chars, extend_chars, join, join_chars, lemma_lex_asymmetric,
    lemma_lex_irreflexive, lemma_lex_total, lemma_lex_transitive, lex_lt, lex_lt_chars,
    string_from, views,
};
use vstd::prelude::*;

verus! {

// ---------------------------------------------------------------------
// Links between bug reports
// ---------------------------------------------------------------------
/// The number of terms of `a` that `b` also holds (`a` without repeats).
pub open spec fn shared_count(a: Seq<Seq<char>>, b: Seq<Seq<char>>) -> nat {
    count_indices(a.len() as int, |i: int| b.contains(a[i]))
}

/// Two term sets are linked when both are non-empty, they share at least
/// two terms, and the shared terms are at least 34% of their union
/// (`shared / union >= 0.34`, compared exactly as `100 * shared >= 34 *
/// union`).
pub open spec fn sets_linked(a: Seq<Seq<char>>, b: Seq<Seq<char>>) -> bool {
    let shared = shared_count(a, b);
    let union = a.len() + b.len() - shared;
    a.len() > 0 && b.len() > 0 && shared >= 2 && 100 * shared >= 34 * union
}

/// Reports `m` and `p` (positions among the bug reports) are linked; the
/// pair is always measured from the lower position, as the scan does.
pub open spec fn linked(sets: Seq<Seq<Seq<char>>>, m: int, p: int) -> bool {
    &&& 0 <= m < sets.len()
    &&& 0 <= p < sets.len()
    &&& m != p
    &&& if m < p {
        sets_linked(sets[m], sets[p])
    } else {
        sets_linked(sets[p], sets[m])
    }
}

/// A walk along links.
pub open spec fn is_path(sets: Seq<Seq<Seq<char>>>, path: Seq<int>) -> bool {
    &&& path.len() >= 1
    &&& 0 <= path[0] < sets.len()
    &&& forall|k: int| 0 <= k < path.len() - 1 ==> linked(sets, #[trigger] path[k], path[k + 1])
}

/// Report `b` can be reached from report `a` along links.
pub open spec fn connected(sets: Seq<Seq<Seq<char>>>, a: int, b: int) -> bool {
    exists|path: Seq<int>| is_path(sets, path) && path[0] == a && path.last() == b
}

pub proof fn lemma_connected_self(sets: Seq<Seq<Seq<char>>>, a: int)
    requires
        0 <= a < sets.len(),
    ensures
        connected(sets, a, a),
{
    let path = seq![a];
    assert(is_path(sets, path) && path[0] == a && path.last() == a);
}

pub proof fn lemma_connected_step(sets: Seq<Seq<Seq<char>>>, a: int, v: int, w: int)
    requires
        connected(sets, a, v),
        linked(sets, v, w),
    ensures
        connected(sets, a, w),
{
    let path = choose|path: Seq<int>| is_path(sets, path) && path[0] == a && path.last() == v;
    let p2 = path.push(w);
    assert forall|k: int| 0 <= k < p2.len() - 1 implies linked(sets, #[trigger] p2[k], p2[k + 1]) by {
        if k < path.len() - 1 {
            assert(p2[k] == path[k] && p2[k + 1] == path[k + 1]);
        } else {
            assert(p2[k] == v);
        }
    }
    assert(is_path(sets, p2) && p2[0] == a && p2.last() == w);
}

/// A set of reports that holds `a` and every report linked to one of its
/// members holds every report reachable from `a`.
pub proof fn lemma_closed_holds_connected(
    sets: Seq<Seq<Seq<char>>>,
    member: spec_fn(int) -> bool,
    a: int,
    b: int,
)
    requires
        member(a),
        forall|v: int, w: int| member(v) && #[trigger] linked(sets, v, w) ==> member(w),
        connected(sets, a, b),
    ensures
        member(b),
{
    let path = choose|path: Seq<int>| is_path(sets, path) && path[0] == a && path.last() == b;
    assert forall|k: int| 0 <= k < path.len() implies member(#[trigger] path[k]) by {
        lemma_path_members(sets, member, path, k);
    }
    assert(member(path[path.len() - 1]));
}

proof fn lemma_path_members(
    sets: Seq<Seq<Seq<char>>>,
    member: spec_fn(int) -> bool,
    path: Seq<int>,
    k: int,
)
    requires
        is_path(sets, path),
        member(path[0]),
        forall|v: int, w: int| member(v) && #[trigger] linked(sets, v, w) ==> member(w),
        0 <= k < path.len(),
    ensures
        member(path[k]),
    decreases k,
{
    if k > 0 {
        lemma_path_members(sets, member, path, k - 1);
        assert(linked(sets, path[k - 1], path[k]));
    }
}

pub proof fn lemma_linked_symmetric(sets: Seq<Seq<Seq<char>>>, m: int, p: int)
    ensures
        linked(sets, m, p) == linked(sets, p, m),
{
}

// ---------------------------------------------------------------------
// Bug reports and their term sets
// ---------------------------------------------------------------------
/// `idx` lists, in increasing order, exactly the positions flagged as bugs.
pub open spec fn bug_positions(bugs: Seq<bool>, idx: Seq<usize>) -> bool {
    &&& forall|a: int, b: int| 0 <= a < b < idx.len() ==> #[trigger] idx[a] < #[trigger] idx[b]
    &&& forall|a: int| 0 <= a < idx.len() ==> (#[trigger] idx[a]) < bugs.len() && bugs[idx[a] as int]
    &&& forall|i: int| 0 <= i < bugs.len() && #[trigger] bugs[i] ==> idx.contains(i as usize)
}

pub fn bug_indices(bugs: &Vec<bool>) -> (idx: Vec<usize>)
    ensures
        bug_positions(bugs@, idx@),
{
    let mut idx: Vec<usize> = Vec::new();
    let mut i: usize = 0;
    while i < bugs.len()
        invariant
            i <= bugs@.len(),
            forall|a: int, b: int| 0 <= a < b < idx@.len() ==> #[trigger] idx@[a] < #[trigger] idx@[b],
            forall|a: int| 0 <= a < idx@.len() ==> (#[trigger] idx@[a]) < i && bugs@[idx@[a] as int],
            forall|j: int| 0 <= j < i && #[trigger] bugs@[j] ==> idx@.contains(j as usize),
        decreases bugs@.len() - i,
    {
        if bugs[i] {
            let ghost before = idx@;
            idx.push(i);
            assert forall|j: int| 0 <= j < i + 1 && #[trigger] bugs@[j] implies idx@.contains(j as usize) by {
                if j < i {
                    let a = choose|a: int| 0 <= a < before.len() && before[a] == j as usize;
                    assert(idx@[a] == j as usize);
                } else {
                    assert(idx@[before.len() as int] == j as usize);
                }
            }
        }
        i += 1;
    }
    idx
}

pub open spec fn no_repeats(s: Seq<Seq<char>>) -> bool {
    forall|a: int, b: int| 0 <= a < b < s.len() ==> s[a] != s[b]
}

/// `set` holds each term of `terms` exactly once.
pub open spec fn is_term_set(terms: Seq<Seq<char>>, set: Seq<Seq<char>>) -> bool {
    no_repeats(set) && forall|t: Seq<char>| set.contains(t) <==> terms.contains(t)
}

fn contains_chars(v: &Vec<Vec<char>>, x: &Vec<char>) -> (r: bool)
    ensures
        r == views(v@).contains(x@),
{
    let mut i: usize = 0;
    while i < v.len()
        invariant
            i <= v@.len(),
            forall|k: int| 0 <= k < i ==> views(v@)[k] != x@,
        decreases v@.len() - i,
    {
        assert(views(v@)[i as int] == v@[i as int]@);
        if chars_eq(&v[i], x) {
            return true;
        }
        i += 1;
    }
    false
}

/// The distinct terms of a title, each where it first occurs.
pub open spec fn distinct_terms(terms: Seq<Seq<char>>) -> Seq<Seq<char>>
    decreases terms.len(),
{
    if terms.len() == 0 {
        Seq::empty()
    } else {
        let d = distinct_terms(terms.drop_last());
        if d.contains(terms.last()) {
            d
        } else {
            d.push(terms.last())
        }
    }
}

/// The distinct terms of one title.
pub fn term_set(terms: &Vec<String>) -> (set: Vec<Vec<char>>)
    ensures
        is_term_set(terms.deep_view(), views(set@)),
        views(set@) == distinct_terms(terms.deep_view()),
{
    let ghost ts = terms.deep_view();
    let mut set: Vec<Vec<char>> = Vec::new();
    let mut i: usize = 0;
    while i < terms.len()
        invariant
            ts == terms.deep_view(),
            i <= terms@.len(),
            no_repeats(views(set@)),
            forall|t: Seq<char>| views(set@).contains(t) <==> ts.subrange(0, i as int).contains(t),
            views(set@) == distinct_terms(ts.subrange(0, i as int)),
        decreases terms@.len() - i,
    {
        let t = chars_of(terms[i].as_str());
        assert(ts[i as int] == t@);
        let ghost pre = ts.subrange(0, i as int);
        let ghost post = ts.subrange(0, i + 1);
        assert(post =~= pre.push(t@));
        assert(post.drop_last() =~= pre);
        if !contains_chars(&set, &t) {
            let ghost before = views(set@);
            assert(forall|t3: Seq<char>| before.contains(t3) <==> pre.contains(t3));
            set.push(t);
            assert(views(set@) =~= before.push(ts[i as int]));
            assert forall|t2: Seq<char>| views(set@).contains(t2) <==> post.contains(t2) by {
                if t2 == ts[i as int] {
                    assert(views(set@)[before.len() as int] == t2);
                    assert(post[i as int] == t2);
                } else {
                    if views(set@).contains(t2) {
                        let k = choose|k: int| 0 <= k < views(set@).len() && views(set@)[k] == t2;
                        assert(before[k] == t2);
                        assert(before.contains(t2));
                        let m = choose|m: int| 0 <= m < pre.len() && pre[m] == t2;
                        assert(post[m] == t2);
                    }
                    if post.contains(t2) {
                        let k = choose|k: int| 0 <= k < post.len() && post[k] == t2;
                        assert(pre[k] == t2);
                        assert(pre.contains(t2));
                        let m = choose|m: int| 0 <= m < before.len() && before[m] == t2;
                        assert(views(set@)[m] == t2);
                    }
                }
            }
        } else {
            assert forall|t2: Seq<char>| views(set@).contains(t2) <==> post.contains(t2) by {
                if post.contains(t2) && t2 != ts[i as int] {
                    let k = choose|k: int| 0 <= k < post.len() && post[k] == t2;
                    assert(pre[k] == t2);
                }
                if views(set@).contains(t2) {
                    let k = choose|k: int| 0 <= k < views(set@).len() && views(set@)[k] == t2;
                    if t2 != ts[i as int] {
                        assert(pre.contains(t2));
                        let m = choose|m: int| 0 <= m < pre.len() && pre[m] == t2;
                        assert(post[m] == t2);
                    } else {
                        assert(post[i as int] == t2);
                    }
                }
            }
        }
        i += 1;
    }
    assert(ts.subrange(0, ts.len() as int) =~= ts);
    set
}

/// The number of terms of `a` that `b` holds.
pub(crate) fn count_shared(a: &Vec<Vec<char>>, b: &Vec<Vec<char>>) -> (c: usize)
    ensures
        c == shared_count(views(a@), views(b@)),
        c <= a@.len(),
{
    let ghost p = |i: int| views(b@).contains(views(a@)[i]);
    let mut c: usize = 0;
    let mut i: usize = 0;
    while i < a.len()
        invariant
            i <= a@.len(),
            p == (|i: int| views(b@).contains(views(a@)[i])),
            c == count_indices(i as int, p),
            c <= i,
        decreases a@.len() - i,
    {
        assert(views(a@)[i as int] == a@[i as int]@);
        if contains_chars(b, &a[i]) {
            c += 1;
        }
        i += 1;
    }
    c
}

/// The term sets held by a vector of term-set vectors.
pub open spec fn set_views(sets: Seq<Vec<Vec<char>>>) -> Seq<Seq<Seq<char>>> {
    sets.map_values(|s: Vec<Vec<char>>| views(s@))
}

/// Whether the reports at positions `m` and `p` are linked.
pub fn linked_exec(sets: &Vec<Vec<Vec<char>>>, m: usize, p: usize) -> (r: bool)
    requires
        m < sets@.len(),
        p < sets@.len(),
    ensures
        r == linked(set_views(sets@), m as int, p as int),
{
    let ghost vs = set_views(sets@);
    if m == p {
        return false;
    }
    let (lo, hi) = if m < p {
        (m, p)
    } else {
        (p, m)
    };
    let a = &sets[lo];
    let b = &sets[hi];
    assert(vs[lo as int] == views(a@) && vs[hi as int] == views(b@));
    if a.len() == 0 || b.len() == 0 {
        return false;
    }
    let shared = count_shared(a, b);
    proof {
        assert(shared <= a@.len());
    }
    let union: u128 = a.len() as u128 + b.len() as u128 - shared as u128;
    shared >= 2 && 100 * (shared as u128) >= 34 * union
}

// ---------------------------------------------------------------------
// Neighbour lists
// ---------------------------------------------------------------------
/// The positions `0..n`, in order.
pub open spec fn indices(n: nat) -> Seq<usize> {
    Seq::new(n, |y: int| y as usize)
}

pub open spec fn linked_to(sets: Seq<Seq<Seq<char>>>, x: int) -> spec_fn(usize) -> bool {
    |y: usize| linked(sets, x, y as int)
}

/// The reports linked to report `x`, in increasing order.
pub open spec fn neighbours(sets: Seq<Seq<Seq<char>>>, x: int) -> Seq<usize> {
    indices(sets.len()).filter(linked_to(sets, x))
}

/// `adj[x]` lists, in increasing order, the reports linked to report `x`.
pub open spec fn is_adjacency(sets: Seq<Seq<Seq<char>>>, adj: Seq<Vec<usize>>) -> bool {
    &&& adj.len() == sets.len()
    &&& forall|x: int, a: int, b: int|
        0 <= x < adj.len() && 0 <= a < b < adj[x]@.len() ==> #[trigger] adj[x]@[a] < #[trigger] adj[x]@[b]
    &&& forall|x: int, a: int|
        0 <= x < adj.len() && 0 <= a < adj[x]@.len() ==> linked(sets, x, #[trigger] adj[x]@[a] as int)
    &&& forall|x: int, y: int| #[trigger] linked(sets, x, y) ==> adj[x]@.contains(y as usize)
    &&& forall|x: int| 0 <= x < adj.len() ==> #[trigger] adj[x]@ == neighbours(sets, x)
}

pub fn adjacency(sets: &Vec<Vec<Vec<char>>>) -> (adj: Vec<Vec<usize>>)
    ensures
        is_adjacency(set_views(sets@), adj@),
{
    let ghost vs = set_views(sets@);
    let n = sets.len();
    let mut adj: Vec<Vec<usize>> = Vec::new();
    let mut x: usize = 0;
    while x < n
        invariant
            n == sets@.len(),
            vs == set_views(sets@),
            x <= n,
            adj@.len() == x,
            forall|z: int, a: int, b: int|
                0 <= z < x && 0 <= a < b < adj@[z]@.len() ==> #[trigger] adj@[z]@[a]
                    < #[trigger] adj@[z]@[b],
            forall|z: int, a: int|
                0 <= z < x && 0 <= a < adj@[z]@.len() ==> linked(vs, z, #[trigger] adj@[z]@[a] as int),
            forall|z: int, y: int| 0 <= z < x && #[trigger] linked(vs, z, y) ==> adj@[z]@.contains(y as usize),
            forall|z: int| 0 <= z < x ==> #[trigger] adj@[z]@ == neighbours(vs, z),
        decreases n - x,
    {
        let mut row: Vec<usize> = Vec::new();
        let mut y: usize = 0;
        while y < n
            invariant
                n == sets@.len(),
                vs == set_views(sets@),
                x < n,
                y <= n,
                forall|a: int, b: int| 0 <= a < b < row@.len() ==> #[trigger] row@[a] < #[trigger] row@[b],
                forall|a: int| 0 <= a < row@.len() ==> (#[trigger] row@[a]) < y && linked(vs, x as int, row@[a] as int),
                forall|w: int| 0 <= w < y && #[trigger] linked(vs, x as int, w) ==> row@.contains(w as usize),
                row@ == indices(n as nat).subrange(0, y as int).filter(linked_to(vs, x as int)),
            decreases n - y,
        {
            proof {
                crate::text::lemma_filter_step(indices(n as nat), linked_to(vs, x as int), y as int);
                assert(indices(n as nat)[y as int] == y);
            }
            if linked_exec(sets, x, y) {
                let ghost before = row@;
                row.push(y);
                assert forall|w: int| 0 <= w < y + 1 && #[trigger] linked(vs, x as int, w) implies row@.contains(w as usize) by {
                    if w < y {
                        let a = choose|a: int| 0 <= a < before.len() && before[a] == w as usize;
                        assert(row@[a] == w as usize);
                    } else {
                        assert(row@[before.len() as int] == w as usize);
                    }
                }
            }
            y += 1;
        }
        assert(indices(n as nat).subrange(0, n as int) =~= indices(n as nat));
        let ghost before_adj = adj@;
        adj.push(row);
        assert forall|z: int, y2: int| 0 <= z < x + 1 && #[trigger] linked(vs, z, y2) implies adj@[z]@.contains(y2 as usize) by {
            if z < x {
                assert(adj@[z] == before_adj[z]);
            } else {
                assert(0 <= y2 < n);
            }
        }
        assert forall|z: int, a: int|
            0 <= z < x + 1 && 0 <= a < adj@[z]@.len() implies linked(vs, z, #[trigger] adj@[z]@[a] as int) by {
            if z < x {
                assert(adj@[z] == before_adj[z]);
            }
        }
        assert forall|z: int, a: int, b: int|
            0 <= z < x + 1 && 0 <= a < b < adj@[z]@.len() implies #[trigger] adj@[z]@[a] < #[trigger] adj@[z]@[b] by {
            if z < x {
                assert(adj@[z] == before_adj[z]);
            }
        }
        assert forall|z: int| 0 <= z < x + 1 implies #[trigger] adj@[z]@ == neighbours(vs, z) by {
            if z < x {
                assert(adj@[z] == before_adj[z]);
            }
        }
        x += 1;
    }
    adj
}

// ---------------------------------------------------------------------
// Connected groups
// ---------------------------------------------------------------------
/// `comp` lists, without repeats, the reports reachable from its first
/// entry, which is the lowest of them.
pub open spec fn is_component(sets: Seq<Seq<Seq<char>>>, comp: Seq<usize>) -> bool {
    &&& comp.len() >= 1
    &&& forall|a: int, b: int| 0 <= a < b < comp.len() ==> #[trigger] comp[a] != #[trigger] comp[b]
    &&& forall|a: int|
        0 <= a < comp.len() ==> (#[trigger] comp[a]) < sets.len() && comp[0] <= comp[a]
            && connected(sets, comp[0] as int, comp[a] as int)
    &&& forall|x: int| 0 <= x < sets.len() && #[trigger] connected(sets, comp[0] as int, x) ==> comp.contains(x as usize)
}

/// The reports not yet visited.
pub open spec fn unvisited_count(visited: Seq<bool>) -> nat {
    count_indices(visited.len() as int, |x: int| !visited[x])
}

proof fn lemma_count_visit(visited: Seq<bool>, j: int, n: int)
    requires
        0 <= j < visited.len(),
        !visited[j],
        0 <= n <= visited.len(),
    ensures
        count_indices(n, |x: int| !visited.update(j, true)[x]) + (if j < n {
            1nat
        } else {
            0nat
        }) == count_indices(n, |x: int| !visited[x]),
    decreases n,
{
    if n > 0 {
        lemma_count_visit(visited, j, n - 1);
    }
}

/// The groups of two or more linked reports, each listed from its lowest
/// report in the order the depth-first walk reaches them, in increasing
/// order of that lowest report.
pub open spec fn big_components(sets: Seq<Seq<Seq<char>>>, comps: Seq<Vec<usize>>) -> bool {
    &&& forall|c: int| 0 <= c < comps.len() ==> is_component(sets, #[trigger] comps[c]@) && comps[c]@.len() >= 2
    &&& forall|c: int| 0 <= c < comps.len() ==> #[trigger] comps[c]@ == walk_order(sets, comps[c]@[0] as int)
    &&& forall|c: int, d: int| 0 <= c < d < comps.len() ==> #[trigger] comps[c]@[0] < #[trigger] comps[d]@[0]
    &&& forall|x: int, y: int|
        #[trigger] linked(sets, x, y) ==> exists|c: int| 0 <= c < comps.len() && #[trigger] comps[c]@.contains(x as usize)
}

/// The reports not yet visited, as a filter.
pub open spec fn not_visited(visited: Seq<bool>) -> spec_fn(usize) -> bool {
    |w: usize| !visited[w as int]
}

/// The depth-first walk over the links, for at most `fuel` steps: the top
/// of the stack is popped; a visited report is skipped; otherwise it is
/// marked, appended to the group, and its unvisited neighbours are pushed
/// in increasing order.
pub open spec fn walk(
    sets: Seq<Seq<Seq<char>>>,
    visited: Seq<bool>,
    stack: Seq<usize>,
    comp: Seq<usize>,
    fuel: nat,
) -> Seq<usize>
    decreases fuel,
{
    if fuel == 0 || stack.len() == 0 {
        comp
    } else {
        let i = stack.last();
        let rest = stack.drop_last();
        if visited[i as int] {
            walk(sets, visited, rest, comp, (fuel - 1) as nat)
        } else {
            let marked = visited.update(i as int, true);
            walk(
                sets,
                marked,
                rest + neighbours(sets, i as int).filter(not_visited(marked)),
                comp.push(i),
                (fuel - 1) as nat,
            )
        }
    }
}

/// Enough steps for any walk over `n` reports.
pub open spec fn walk_fuel(n: nat) -> nat {
    n * (n + 1) + 1
}

/// The order in which the depth-first walk from `s` reaches the reports
/// of its group.
pub open spec fn walk_order(sets: Seq<Seq<Seq<char>>>, s: int) -> Seq<usize> {
    walk(sets, none_visited(sets.len()), seq![s as usize], Seq::empty(), walk_fuel(sets.len()))
}

pub open spec fn none_visited(n: nat) -> Seq<bool> {
    Seq::new(n, |x: int| false)
}

proof fn lemma_count_le(n: int, p: spec_fn(int) -> bool)
    requires
        n >= 0,
    ensures
        count_indices(n, p) <= n,
    decreases n,
{
    if n > 0 {
        lemma_count_le(n - 1, p);
    }
}

/// The bound on walk steps: each step either marks a report or shrinks
/// the stack, and marking pushes at most `n` entries.
pub open spec fn walk_potential(visited: Seq<bool>, stack: Seq<usize>, n: nat) -> nat {
    unvisited_count(visited) * (n + 1) + stack.len()
}

proof fn lemma_filter_len<A>(s: Seq<A>, p: spec_fn(A) -> bool)
    ensures
        s.filter(p).len() <= s.len(),
    decreases s.len(),
{
    reveal(Seq::filter);
    if s.len() > 0 {
        lemma_filter_len(s.drop_last(), p);
    }
}

proof fn lemma_filter_congruent<A>(s: Seq<A>, p: spec_fn(A) -> bool, q: spec_fn(A) -> bool)
    requires
        forall|j: int| 0 <= j < s.len() ==> p(#[trigger] s[j]) == q(s[j]),
    ensures
        s.filter(p) == s.filter(q),
    decreases s.len(),
{
    reveal(Seq::filter);
    if s.len() > 0 {
        let t = s.drop_last();
        assert forall|j: int| 0 <= j < t.len() implies p(#[trigger] t[j]) == q(t[j]) by {
            assert(t[j] == s[j]);
        }
        lemma_filter_congruent(t, p, q);
        assert(p(s[s.len() - 1]) == q(s[s.len() - 1]));
    }
}

proof fn lemma_neighbours_linked(sets: Seq<Seq<Seq<char>>>, x: int)
    ensures
        forall|j: int| 0 <= j < neighbours(sets, x).len() ==> linked(sets, x, #[trigger] neighbours(sets, x)[j] as int),
        neighbours(sets, x).len() <= sets.len(),
{
    let ids = indices(sets.len());
    crate::text::lemma_filter_keeps(ids, linked_to(sets, x), |y: usize| linked(sets, x, y as int));
    lemma_filter_len(ids, linked_to(sets, x));
}

/// Two walks whose visited marks agree on a set of reports closed under
/// links, with the stack inside that set, go the same way.
proof fn lemma_walk_agrees(
    sets: Seq<Seq<Seq<char>>>,
    v1: Seq<bool>,
    v2: Seq<bool>,
    stack: Seq<usize>,
    comp: Seq<usize>,
    fuel: nat,
    member: spec_fn(int) -> bool,
)
    requires
        v1.len() == sets.len(),
        v2.len() == sets.len(),
        forall|v: int, w: int| member(v) && #[trigger] linked(sets, v, w) ==> member(w),
        forall|x: int| #[trigger] member(x) ==> 0 <= x < sets.len() && v1[x] == v2[x],
        forall|e: int| 0 <= e < stack.len() ==> member(#[trigger] stack[e] as int),
    ensures
        walk(sets, v1, stack, comp, fuel) == walk(sets, v2, stack, comp, fuel),
    decreases fuel,
{
    if fuel > 0 && stack.len() > 0 {
        let i = stack.last();
        let rest = stack.drop_last();
        assert(member(stack[stack.len() - 1] as int));
        assert forall|e: int| 0 <= e < rest.len() implies member(#[trigger] rest[e] as int) by {
            assert(rest[e] == stack[e]);
        }
        if v1[i as int] {
            lemma_walk_agrees(sets, v1, v2, rest, comp, (fuel - 1) as nat, member);
        } else {
            let m1 = v1.update(i as int, true);
            let m2 = v2.update(i as int, true);
            let nb = neighbours(sets, i as int);
            lemma_neighbours_linked(sets, i as int);
            assert forall|j: int| 0 <= j < nb.len() implies member(#[trigger] nb[j] as int) by {
                assert(linked(sets, i as int, nb[j] as int));
            }
            assert forall|j: int| 0 <= j < nb.len() implies not_visited(m1)(#[trigger] nb[j]) == not_visited(m2)(nb[j]) by {
                assert(member(nb[j] as int));
            }
            lemma_filter_congruent(nb, not_visited(m1), not_visited(m2));
            let pushed = nb.filter(not_visited(m1));
            crate::text::lemma_filter_keeps(nb, not_visited(m1), |y: usize| member(y as int));
            let st = rest + pushed;
            assert forall|e: int| 0 <= e < st.len() implies member(#[trigger] st[e] as int) by {
                if e < rest.len() {
                    assert(st[e] == rest[e]);
                } else {
                    assert(st[e] == pushed[e - rest.len()]);
                }
            }
            assert forall|x: int| #[trigger] member(x) implies 0 <= x < sets.len() && m1[x] == m2[x] by {}
            lemma_walk_agrees(sets, m1, m2, st, comp.push(i), (fuel - 1) as nat, member);
        }
    }
}

pub open spec fn closed(sets: Seq<Seq<Seq<char>>>, visited: Seq<bool>) -> bool {
    forall|v: int, w: int| #[trigger] linked(sets, v, w) && visited[v] ==> visited[w]
}

/// Pushes the unvisited neighbours of `index` onto the stack.
fn push_neighbours(
    sets: &Vec<Vec<Vec<char>>>,
    adj: &Vec<Vec<usize>>,
    visited: &Vec<bool>,
    index: usize,
    stack: &mut Vec<usize>,
    Ghost(s): Ghost<int>,
)
    requires
        is_adjacency(set_views(sets@), adj@),
        visited@.len() == sets@.len(),
        index < sets@.len(),
        connected(set_views(sets@), s, index as int),
        forall|e: int|
            0 <= e < old(stack)@.len() ==> (#[trigger] old(stack)@[e]) < sets@.len() && connected(
                set_views(sets@),
                s,
                old(stack)@[e] as int,
            ),
    ensures
        forall|e: int|
            0 <= e < final(stack)@.len() ==> (#[trigger] final(stack)@[e]) < sets@.len() && connected(
                set_views(sets@),
                s,
                final(stack)@[e] as int,
            ),
        old(stack)@.len() <= final(stack)@.len(),
        forall|e: int| 0 <= e < old(stack)@.len() ==> #[trigger] final(stack)@[e] == old(stack)@[e],
        forall|w: int|
            #[trigger] linked(set_views(sets@), index as int, w) ==> visited@[w] || final(stack)@.contains(
                w as usize,
            ),
        final(stack)@ == old(stack)@ + adj@[index as int]@.filter(not_visited(visited@)),
{
    let ghost vs = set_views(sets@);
    let ghost start = stack@;
    let n = sets.len();
    let mut k: usize = 0;
    while k < adj[index].len()
        invariant
            n == sets@.len(),
            vs == set_views(sets@),
            is_adjacency(vs, adj@),
            visited@.len() == n,
            index < n,
            k <= adj@[index as int]@.len(),
            forall|e: int| 0 <= e < stack@.len() ==> (#[trigger] stack@[e]) < n && connected(vs, s, stack@[e] as int),
            forall|e: int| 0 <= e < start.len() ==> #[trigger] stack@[e] == start[e],
            start.len() <= stack@.len(),
            forall|a: int| 0 <= a < k ==> visited@[#[trigger] adj@[index as int]@[a] as int] || stack@.contains(adj@[index as int]@[a]),
            connected(vs, s, index as int),
            stack@ == start + adj@[index as int]@.subrange(0, k as int).filter(not_visited(visited@)),
        decreases adj@[index as int]@.len() - k,
    {
        proof {
            crate::text::lemma_filter_step(adj@[index as int]@, not_visited(visited@), k as int);
        }
        let nb = adj[index][k];
        proof {
            lemma_connected_step(vs, s, index as int, nb as int);
        }
        if !visited[nb] {
            let ghost st = stack@;
            stack.push(nb);
            assert forall|a: int| 0 <= a < k + 1 implies visited@[#[trigger] adj@[index as int]@[a] as int] || stack@.contains(adj@[index as int]@[a]) by {
                if a < k && !visited@[adj@[index as int]@[a] as int] {
                    let e = choose|e: int| 0 <= e < st.len() && st[e] == adj@[index as int]@[a];
                    assert(stack@[e] == adj@[index as int]@[a]);
                }
                if a == k {
                    assert(stack@[st.len() as int] == nb);
                }
            }
        }
        k += 1;
    }
    assert(adj@[index as int]@.subrange(0, adj@[index as int]@.len() as int) =~= adj@[index as int]@);
    assert forall|w: int| #[trigger] linked(vs, index as int, w) implies visited@[w] || stack@.contains(w as usize) by {
        assert(adj@[index as int]@.contains(w as usize));
        let b = choose|b: int| 0 <= b < adj@[index as int]@.len() && adj@[index as int]@[b] == w as usize;
        assert(visited@[adj@[index as int]@[b] as int] || stack@.contains(adj@[index as int]@[b]));
    }
}

/// The depth-first walk from `s`: marks and returns the group of `s`.
#[verifier::rlimit(40)]
fn walk_from(
    sets: &Vec<Vec<Vec<char>>>,
    adj: &Vec<Vec<usize>>,
    visited: &mut Vec<bool>,
    s: usize,
) -> (comp: Vec<usize>)
    requires
        is_adjacency(set_views(sets@), adj@),
        old(visited)@.len() == sets@.len(),
        s < sets@.len(),
        !old(visited)@[s as int],
        forall|x: int| 0 <= x < s ==> #[trigger] old(visited)@[x],
        closed(set_views(sets@), old(visited)@),
    ensures
        final(visited)@.len() == sets@.len(),
        is_component(set_views(sets@), comp@),
        comp@[0] == s,
        forall|x: int|
            0 <= x < sets@.len() ==> (#[trigger] final(visited)@[x] <==> (old(visited)@[x]
                || comp@.contains(x as usize))),
        forall|a: int| 0 <= a < comp@.len() ==> !old(visited)@[#[trigger] comp@[a] as int],
        closed(set_views(sets@), final(visited)@),
        comp@.len() == 1 ==> forall|w: int| !linked(set_views(sets@), s as int, w),
        comp@ == walk_order(set_views(sets@), s as int),
{
    let ghost vs = set_views(sets@);
    let ghost before = visited@;
    let n = sets.len();
    proof {
        lemma_connected_self(vs, s as int);
    }
    let mut comp: Vec<usize> = Vec::new();
    let mut stack: Vec<usize> = Vec::new();
    visited.set(s, true);
    comp.push(s);
    assert forall|x: int| 0 <= x < n implies (#[trigger] visited@[x] <==> (before[x] || comp@.contains(x as usize))) by {
        if x == s {
            assert(comp@[0] == s);
        }
        if comp@.contains(x as usize) {
            let a = choose|a: int| 0 <= a < comp@.len() && comp@[a] == x as usize;
            assert(a == 0);
        }
    }
    let ghost goal = walk(vs, before, seq![s], Seq::empty(), walk_fuel(n as nat));
    let ghost marked = visited@;
    push_neighbours(sets, adj, visited, s, &mut stack, Ghost(s as int));
    let ghost mut fuel: nat = (walk_fuel(n as nat) - 1) as nat;
    proof {
        assert(marked == before.update(s as int, true));
        assert(adj@[s as int]@ == neighbours(vs, s as int));
        assert(seq![s].drop_last() =~= Seq::<usize>::empty());
        assert(Seq::<usize>::empty() + neighbours(vs, s as int).filter(not_visited(marked)) =~= stack@);
        assert(Seq::<usize>::empty().push(s) =~= comp@);
        assert(goal == walk(vs, visited@, stack@, comp@, fuel));
        lemma_count_visit(before, s as int, n as int);
        lemma_count_le(n as int, |x: int| !before[x]);
        lemma_neighbours_linked(vs, s as int);
        lemma_filter_len(neighbours(vs, s as int), not_visited(marked));
        let u = unvisited_count(visited@);
        assert(u + 1 <= n);
        assert(u * (n + 1) + stack@.len() <= n * (n + 1)) by (nonlinear_arith)
            requires
                u + 1 <= n,
                stack@.len() <= n,
        ;
    }
    loop
        invariant
            n == sets@.len(),
            vs == set_views(sets@),
            is_adjacency(vs, adj@),
            visited@.len() == n,
            before.len() == n,
            s < n,
            !before[s as int],
            forall|x: int| 0 <= x < s ==> #[trigger] before[x],
            closed(vs, before),
            forall|x: int| 0 <= x < n ==> (#[trigger] visited@[x] <==> (before[x] || comp@.contains(x as usize))),
            comp@.len() >= 1,
            comp@[0] == s,
            forall|a: int| 0 <= a < comp@.len() ==> (#[trigger] comp@[a]) < n && !before[comp@[a] as int] && connected(vs, s as int, comp@[a] as int),
            forall|a: int, b: int| 0 <= a < b < comp@.len() ==> #[trigger] comp@[a] != #[trigger] comp@[b],
            forall|e: int| 0 <= e < stack@.len() ==> (#[trigger] stack@[e]) < n && connected(vs, s as int, stack@[e] as int),
            forall|a: int, w: int|
                0 <= a < comp@.len() && #[trigger] linked(vs, comp@[a] as int, w) ==> visited@[w] || stack@.contains(w as usize),
            goal == walk(vs, visited@, stack@, comp@, fuel),
            fuel >= walk_potential(visited@, stack@, n as nat),
        ensures
            stack@.len() == 0,
        decreases unvisited_count(visited@), stack@.len(),
    {
        if stack.len() == 0 {
            break;
        }
        let ghost old_stack = stack@;
        let popped = stack.pop().unwrap();
        assert(old_stack =~= stack@.push(popped));
        proof {
            assert(old_stack.last() == popped);
            assert(old_stack.drop_last() =~= stack@);
        }
        if visited[popped] {
            proof {
                assert(goal == walk(vs, visited@, stack@, comp@, (fuel - 1) as nat));
                fuel = (fuel - 1) as nat;
            }
            assert forall|a: int, w: int|
                0 <= a < comp@.len() && #[trigger] linked(vs, comp@[a] as int, w) implies visited@[w] || stack@.contains(w as usize) by {
                if !visited@[w] {
                    assert(old_stack.contains(w as usize));
                    let e = choose|e: int| 0 <= e < old_stack.len() && old_stack[e] == w as usize;
                    if e < stack@.len() {
                        assert(stack@[e] == w as usize);
                    }
                }
            }
            continue;
        }
        let index = popped;
        let ghost old_visited = visited@;
        let ghost old_comp = comp@;
        proof {
            lemma_count_visit(old_visited, index as int, n as int);
        }
        visited.set(index, true);
        assert(visited@ == old_visited.update(index as int, true));
        comp.push(index);
        assert forall|x: int| 0 <= x < n implies (#[trigger] visited@[x] <==> (before[x] || comp@.contains(x as usize))) by {
            if comp@.contains(x as usize) && x != index {
                let a = choose|a: int| 0 <= a < comp@.len() && comp@[a] == x as usize;
                assert(old_comp[a] == x as usize);
            }
            if old_comp.contains(x as usize) {
                let a = choose|a: int| 0 <= a < old_comp.len() && old_comp[a] == x as usize;
                assert(comp@[a] == x as usize);
            }
            if x == index {
                assert(comp@[old_comp.len() as int] == index);
            }
        }
        assert forall|a: int, b: int| 0 <= a < b < comp@.len() implies #[trigger] comp@[a] != #[trigger] comp@[b] by {
            if b == old_comp.len() {
                assert(comp@[a] == old_comp[a]);
                assert(old_visited[comp@[a] as int]);
            }
        }
        let ghost mid_stack = stack@;
        push_neighbours(sets, adj, visited, index, &mut stack, Ghost(s as int));
        proof {
            assert(adj@[index as int]@ == neighbours(vs, index as int));
            assert(goal == walk(vs, visited@, stack@, comp@, (fuel - 1) as nat));
            lemma_neighbours_linked(vs, index as int);
            lemma_filter_len(neighbours(vs, index as int), not_visited(visited@));
            let u0 = unvisited_count(old_visited);
            let u1 = unvisited_count(visited@);
            assert(u1 + 1 == u0);
            assert(stack@.len() <= mid_stack.len() + n);
            assert(old_stack.len() == mid_stack.len() + 1);
            assert(u1 * (n + 1) + stack@.len() + 1 <= u0 * (n + 1) + old_stack.len()) by (nonlinear_arith)
                requires
                    u1 + 1 == u0,
                    stack@.len() <= mid_stack.len() + n,
                    old_stack.len() == mid_stack.len() + 1,
            ;
            fuel = (fuel - 1) as nat;
        }
        assert forall|a: int, w: int|
            0 <= a < comp@.len() && #[trigger] linked(vs, comp@[a] as int, w) implies visited@[w] || stack@.contains(w as usize) by {
            if a == old_comp.len() {
                assert(linked(vs, index as int, w));
            } else {
                assert(comp@[a] == old_comp[a]);
                if !visited@[w] {
                    assert(!old_visited[w]);
                    assert(old_stack.contains(w as usize));
                    let e = choose|e: int| 0 <= e < old_stack.len() && old_stack[e] == w as usize;
                    if e < mid_stack.len() {
                        assert(stack@[e] == w as usize);
                    } else {
                        assert(w as usize == index);
                    }
                }
            }
        }
    }
    // The walk is complete and went as the walk order says.
    proof {
        assert(comp@ == goal);
        let member = |x: int| 0 <= x < n && connected(vs, s as int, x) && !before[x];
        assert forall|v: int, w: int| member(v) && #[trigger] linked(vs, v, w) implies member(w) by {
            lemma_connected_step(vs, s as int, v, w);
            if before[w] {
                lemma_linked_symmetric(vs, v, w);
            }
        }
        lemma_connected_self(vs, s as int);
        assert(member(s as int));
        assert forall|e: int| 0 <= e < seq![s].len() implies member(#[trigger] seq![s][e] as int) by {}
        lemma_walk_agrees(vs, before, none_visited(n as nat), seq![s], Seq::empty(), walk_fuel(n as nat), member);
    }
    // The walk is complete: the group is closed under links.
    assert forall|a: int, w: int| 0 <= a < comp@.len() && #[trigger] linked(vs, comp@[a] as int, w) implies comp@.contains(w as usize) by {
        assert(visited@[w]);
        if before[w] {
            lemma_linked_symmetric(vs, comp@[a] as int, w);
            assert(before[comp@[a] as int]);
        }
    }
    let ghost member = |x: int| comp@.contains(x as usize);
    assert forall|x: int| 0 <= x < n && #[trigger] connected(vs, s as int, x) implies comp@.contains(x as usize) by {
        assert(comp@[0] == s);
        assert(member(s as int));
        assert forall|v: int, w: int| member(v) && #[trigger] linked(vs, v, w) implies member(w) by {
            let a = choose|a: int| 0 <= a < comp@.len() && comp@[a] == v as usize;
            assert(linked(vs, comp@[a] as int, w));
        }
        lemma_closed_holds_connected(vs, member, s as int, x);
    }
    assert forall|a: int| 0 <= a < comp@.len() implies s <= #[trigger] comp@[a] by {
        if comp@[a] < s {
            assert(before[comp@[a] as int]);
        }
    }
    assert(is_component(vs, comp@));
    assert forall|v: int, w: int| #[trigger] linked(vs, v, w) && visited@[v] implies visited@[w] by {
        if !before[v] {
            assert(comp@.contains(v as usize));
            let a = choose|a: int| 0 <= a < comp@.len() && comp@[a] == v as usize;
            assert(linked(vs, comp@[a] as int, w));
        }
    }
    if comp.len() == 1 {
        assert forall|w: int| !linked(vs, s as int, w) by {
            if linked(vs, s as int, w) {
                assert(linked(vs, comp@[0] as int, w));
                assert(comp@.contains(w as usize));
                let a = choose|a: int| 0 <= a < comp@.len() && comp@[a] == w as usize;
                lemma_linked_symmetric(vs, s as int, w);
            }
        }
    }
    comp
}

pub fn components(sets: &Vec<Vec<Vec<char>>>, adj: &Vec<Vec<usize>>) -> (comps: Vec<Vec<usize>>)
    requires
        is_adjacency(set_views(sets@), adj@),
    ensures
        big_components(set_views(sets@), comps@),
{
    let ghost vs = set_views(sets@);
    let n = sets.len();
    let mut visited: Vec<bool> = Vec::new();
    let mut t: usize = 0;
    while t < n
        invariant
            t <= n,
            visited@.len() == t,
            forall|x: int| 0 <= x < t ==> !(#[trigger] visited@[x]),
        decreases n - t,
    {
        visited.push(false);
        t += 1;
    }
    let mut comps: Vec<Vec<usize>> = Vec::new();
    let mut s: usize = 0;
    while s < n
        invariant
            n == sets@.len(),
            vs == set_views(sets@),
            is_adjacency(vs, adj@),
            visited@.len() == n,
            s <= n,
            forall|x: int| 0 <= x < s ==> #[trigger] visited@[x],
            closed(vs, visited@),
            forall|c: int| 0 <= c < comps@.len() ==> is_component(vs, #[trigger] comps@[c]@) && comps@[c]@.len() >= 2,
            forall|c: int| 0 <= c < comps@.len() ==> #[trigger] comps@[c]@ == walk_order(vs, comps@[c]@[0] as int),
            forall|c: int, d: int| 0 <= c < d < comps@.len() ==> #[trigger] comps@[c]@[0] < #[trigger] comps@[d]@[0],
            forall|c: int| 0 <= c < comps@.len() ==> (#[trigger] comps@[c]@)[0] < s,
            forall|c: int, a: int| 0 <= c < comps@.len() && 0 <= a < comps@[c]@.len() ==> visited@[#[trigger] comps@[c]@[a] as int],
            forall|x: int, y: int|
                #[trigger] linked(vs, x, y) && visited@[x] ==> exists|c: int| 0 <= c < comps@.len() && #[trigger] comps@[c]@.contains(x as usize),
        decreases n - s,
    {
        if visited[s] {
            s += 1;
            continue;
        }
        let ghost before = visited@;
        let comp = walk_from(sets, adj, &mut visited, s);
        let ghost old_comps = comps@;
        let ghost final_comp = comp@;
        let big = comp.len() >= 2;
        if big {
            comps.push(comp);
        }
        assert forall|x: int, y: int|
            #[trigger] linked(vs, x, y) && visited@[x] implies exists|c: int| 0 <= c < comps@.len() && #[trigger] comps@[c]@.contains(x as usize) by {
            if before[x] {
                let c = choose|c: int| 0 <= c < old_comps.len() && #[trigger] old_comps[c]@.contains(x as usize);
                assert(comps@[c] == old_comps[c]);
            } else {
                assert(final_comp.contains(x as usize));
                if !big {
                    assert(final_comp.len() == 1);
                    assert(final_comp[0] == s);
                    assert(x == s);
                }
                assert(comps@[old_comps.len() as int]@ == final_comp);
            }
        }
        assert forall|c: int, a: int| 0 <= c < comps@.len() && 0 <= a < comps@[c]@.len() implies visited@[#[trigger] comps@[c]@[a] as int] by {
            if c < old_comps.len() {
                assert(comps@[c] == old_comps[c]);
                assert(before[comps@[c]@[a] as int]);
            } else {
                assert(final_comp.contains(comps@[c]@[a]));
            }
        }
        assert forall|c: int| 0 <= c < comps@.len() implies is_component(vs, #[trigger] comps@[c]@) && comps@[c]@.len() >= 2 by {
            if c < old_comps.len() {
                assert(comps@[c] == old_comps[c]);
            }
        }
        assert forall|c: int| 0 <= c < comps@.len() implies #[trigger] comps@[c]@ == walk_order(vs, comps@[c]@[0] as int) by {
            if c < old_comps.len() {
                assert(comps@[c] == old_comps[c]);
            }
        }
        assert forall|c: int, d: int| 0 <= c < d < comps@.len() implies #[trigger] comps@[c]@[0] < #[trigger] comps@[d]@[0] by {
            if d < old_comps.len() {
                assert(comps@[c] == old_comps[c] && comps@[d] == old_comps[d]);
            } else {
                assert(comps@[c] == old_comps[c]);
            }
        }
        s += 1;
    }
    comps
}

// ---------------------------------------------------------------------
// Shared terms of a group
// ---------------------------------------------------------------------
/// The term sets of a group's members, in the group's order.
pub open spec fn member_sets(sets: Seq<Seq<Seq<char>>>, comp: Seq<usize>) -> Seq<Seq<Seq<char>>> {
    Seq::new(comp.len(), |k: int| sets[comp[k] as int])
}

pub open spec fn holds_term(ms: Seq<Seq<Seq<char>>>, t: Seq<char>) -> spec_fn(int) -> bool {
    |k: int| ms[k].contains(t)
}

/// How many members of the group use the term.
pub open spec fn term_count(ms: Seq<Seq<Seq<char>>>, t: Seq<char>) -> nat {
    count_indices(ms.len() as int, holds_term(ms, t))
}

/// Shared terms are ranked by how many members use them, then
/// alphabetically.
pub open spec fn term_before(ms: Seq<Seq<Seq<char>>>, t: Seq<char>, u: Seq<char>) -> bool {
    term_count(ms, t) > term_count(ms, u) || (term_count(ms, t) == term_count(ms, u) && lex_lt(
        t,
        u,
    ))
}

/// `r` lists the first three terms, in rank order, among the terms used by
/// two or more members.
pub open spec fn is_top_terms(ms: Seq<Seq<Seq<char>>>, r: Seq<Seq<char>>) -> bool {
    &&& r.len() <= 3
    &&& forall|a: int| 0 <= a < r.len() ==> term_count(ms, #[trigger] r[a]) >= 2
    &&& forall|a: int, b: int| 0 <= a < b < r.len() ==> term_before(ms, #[trigger] r[a], #[trigger] r[b])
    &&& forall|t: Seq<char>|
        term_count(ms, t) >= 2 && !#[trigger] r.contains(t) ==> {
            &&& r.len() == 3
            &&& forall|a: int| 0 <= a < r.len() ==> term_before(ms, #[trigger] r[a], t)
        }
}

proof fn lemma_count_positive(n: int, p: spec_fn(int) -> bool)
    requires
        count_indices(n, p) > 0,
    ensures
        exists|k: int| 0 <= k < n && #[trigger] p(k),
    decreases n,
{
    if n > 0 {
        if !p(n - 1) {
            lemma_count_positive(n - 1, p);
            let k = choose|k: int| 0 <= k < n - 1 && #[trigger] p(k);
            assert(p(k));
        } else {
            assert(p(n - 1));
        }
    }
}

/// The distinct terms used by the members of a group.
fn group_terms(sets: &Vec<Vec<Vec<char>>>, comp: &Vec<usize>) -> (all: Vec<Vec<char>>)
    requires
        forall|k: int| 0 <= k < comp@.len() ==> (#[trigger] comp@[k]) < sets@.len(),
    ensures
        no_repeats(views(all@)),
        forall|t: Seq<char>|
            views(all@).contains(t) <==> exists|k: int|
                0 <= k < comp@.len() && (#[trigger] member_sets(set_views(sets@), comp@)[k]).contains(t),
{
    let ghost ms = member_sets(set_views(sets@), comp@);
    let mut all: Vec<Vec<char>> = Vec::new();
    let mut k: usize = 0;
    while k < comp.len()
        invariant
            ms == member_sets(set_views(sets@), comp@),
            forall|k2: int| 0 <= k2 < comp@.len() ==> (#[trigger] comp@[k2]) < sets@.len(),
            k <= comp@.len(),
            no_repeats(views(all@)),
            forall|t: Seq<char>|
                views(all@).contains(t) <==> exists|k2: int| 0 <= k2 < k && (#[trigger] ms[k2]).contains(t),
        decreases comp@.len() - k,
    {
        let set = &sets[comp[k]];
        assert(ms[k as int] == views(set@));
        let mut j: usize = 0;
        while j < set.len()
            invariant
                ms == member_sets(set_views(sets@), comp@),
                k < comp@.len(),
                ms[k as int] == views(set@),
                j <= set@.len(),
                no_repeats(views(all@)),
                forall|t: Seq<char>|
                    views(all@).contains(t) <==> (exists|k2: int| 0 <= k2 < k && (#[trigger] ms[k2]).contains(t))
                        || views(set@).subrange(0, j as int).contains(t),
            decreases set@.len() - j,
        {
            let t = &set[j];
            assert(views(set@)[j as int] == t@);
            let ghost before = views(all@);
            assert(forall|t3: Seq<char>| before.contains(t3) <==> ((exists|k2: int| 0 <= k2 < k && (#[trigger] ms[k2]).contains(t3))
                || views(set@).subrange(0, j as int).contains(t3)));
            if !contains_chars(&all, t) {
                all.push(copy_chars(t));
                assert(views(all@) =~= before.push(t@));
            }
            assert forall|t2: Seq<char>|
                views(all@).contains(t2) <==> (exists|k2: int| 0 <= k2 < k && (#[trigger] ms[k2]).contains(t2))
                    || views(set@).subrange(0, j + 1).contains(t2) by {
                let pre = views(set@).subrange(0, j as int);
                let post = views(set@).subrange(0, j + 1);
                if pre.contains(t2) {
                    let m = choose|m: int| 0 <= m < pre.len() && pre[m] == t2;
                    assert(post[m] == t2);
                }
                if post.contains(t2) && t2 != t@ {
                    let m = choose|m: int| 0 <= m < post.len() && post[m] == t2;
                    assert(pre[m] == t2);
                }
                if t2 == t@ {
                    assert(post[j as int] == t2);
                }
                if views(all@).contains(t2) && t2 != t@ {
                    let m = choose|m: int| 0 <= m < views(all@).len() && views(all@)[m] == t2;
                    assert(before[m] == t2);
                    assert(before.contains(t2));
                }
                if before.contains(t2) {
                    let m = choose|m: int| 0 <= m < before.len() && before[m] == t2;
                    assert(views(all@)[m] == t2);
                }
                if t2 == t@ && !before.contains(t2) {
                    assert(views(all@)[before.len() as int] == t2);
                }
            }
            j += 1;
        }
        assert(views(set@).subrange(0, set@.len() as int) =~= views(set@));
        assert forall|t: Seq<char>|
            views(all@).contains(t) <==> exists|k2: int| 0 <= k2 < k + 1 && (#[trigger] ms[k2]).contains(t) by {
            if views(all@).contains(t) && !(exists|k2: int| 0 <= k2 < k && (#[trigger] ms[k2]).contains(t)) {
                assert(ms[k as int].contains(t));
            }
            if exists|k2: int| 0 <= k2 < k + 1 && (#[trigger] ms[k2]).contains(t) {
                let k2 = choose|k2: int| 0 <= k2 < k + 1 && (#[trigger] ms[k2]).contains(t);
                if k2 == k {
                    assert(views(set@).contains(t));
                }
            }
        }
        k += 1;
    }
    all
}

fn term_count_exec(sets: &Vec<Vec<Vec<char>>>, comp: &Vec<usize>, t: &Vec<char>) -> (c: usize)
    requires
        forall|k: int| 0 <= k < comp@.len() ==> (#[trigger] comp@[k]) < sets@.len(),
    ensures
        c == term_count(member_sets(set_views(sets@), comp@), t@),
        c <= comp@.len(),
{
    let ghost ms = member_sets(set_views(sets@), comp@);
    let mut c: usize = 0;
    let mut k: usize = 0;
    while k < comp.len()
        invariant
            ms == member_sets(set_views(sets@), comp@),
            forall|k2: int| 0 <= k2 < comp@.len() ==> (#[trigger] comp@[k2]) < sets@.len(),
            k <= comp@.len(),
            c == count_indices(k as int, holds_term(ms, t@)),
            c <= k,
        decreases comp@.len() - k,
    {
        assert(ms[k as int] == views(sets@[comp@[k as int] as int]@));
        if contains_chars(&sets[comp[k]], t) {
            c += 1;
        }
        k += 1;
    }
    c
}

pub open spec fn idx_before(all: Seq<Seq<char>>, counts: Seq<usize>, i: int, j: int) -> bool {
    counts[i] > counts[j] || (counts[i] == counts[j] && lex_lt(all[i], all[j]))
}

fn idx_before_exec(all: &Vec<Vec<char>>, counts: &Vec<usize>, i: usize, j: usize) -> (r: bool)
    requires
        i < all@.len(),
        j < all@.len(),
        counts@.len() == all@.len(),
    ensures
        r == idx_before(views(all@), counts@, i as int, j as int),
{
    assert(views(all@)[i as int] == all@[i as int]@ && views(all@)[j as int] == all@[j as int]@);
    counts[i] > counts[j] || (counts[i] == counts[j] && lex_lt_chars(&all[i], &all[j]))
}

proof fn lemma_idx_order(all: Seq<Seq<char>>, counts: Seq<usize>, i: int, j: int, x: int)
    requires
        no_repeats(all),
        counts.len() == all.len(),
        0 <= i < all.len(),
        0 <= j < all.len(),
        0 <= x < all.len(),
    ensures
        i != j ==> idx_before(all, counts, i, j) || idx_before(all, counts, j, i),
        !idx_before(all, counts, i, i),
        idx_before(all, counts, i, j) ==> !idx_before(all, counts, j, i),
        idx_before(all, counts, i, j) && idx_before(all, counts, j, x) ==> idx_before(all, counts, i, x),
{
    lemma_lex_irreflexive(all[i]);
    lemma_lex_asymmetric(all[i], all[j]);
    lemma_lex_transitive(all[i], all[j], all[x]);
    if i != j {
        if i < j {
            assert(all[i] != all[j]);
        } else {
            assert(all[j] != all[i]);
        }
        lemma_lex_total(all[i], all[j]);
    }
}

/// The positions of the first three terms used by two or more members.
fn top_term_positions(all: &Vec<Vec<char>>, counts: &Vec<usize>) -> (picked: Vec<usize>)
    requires
        counts@.len() == all@.len(),
        no_repeats(views(all@)),
    ensures
        picked@.len() <= 3,
        forall|a: int| 0 <= a < picked@.len() ==> (#[trigger] picked@[a]) < all@.len() && counts@[picked@[a] as int] >= 2,
        forall|a: int, b: int| 0 <= a < b < picked@.len() ==> idx_before(views(all@), counts@, #[trigger] picked@[a] as int, #[trigger] picked@[b] as int),
        forall|x: int| 0 <= x < all@.len() && #[trigger] counts@[x] >= 2 && !picked@.contains(x as usize) ==> {
            &&& picked@.len() == 3
            &&& forall|a: int| 0 <= a < picked@.len() ==> idx_before(views(all@), counts@, #[trigger] picked@[a] as int, x)
        },
{
    let ghost va = views(all@);
    let n = all.len();
    let mut taken: Vec<bool> = Vec::new();
    let mut t: usize = 0;
    while t < n
        invariant
            t <= n,
            taken@.len() == t,
            forall|x: int| 0 <= x < t ==> !(#[trigger] taken@[x]),
        decreases n - t,
    {
        taken.push(false);
        t += 1;
    }
    let mut picked: Vec<usize> = Vec::new();
    while picked.len() < 3
        invariant
            n == all@.len(),
            va == views(all@),
            counts@.len() == n,
            no_repeats(va),
            taken@.len() == n,
            picked@.len() <= 3,
            forall|x: int| 0 <= x < n ==> (#[trigger] taken@[x] <==> picked@.contains(x as usize)),
            forall|a: int| 0 <= a < picked@.len() ==> (#[trigger] picked@[a]) < n && counts@[picked@[a] as int] >= 2,
            forall|a: int, b: int| 0 <= a < b < picked@.len() ==> idx_before(va, counts@, #[trigger] picked@[a] as int, #[trigger] picked@[b] as int),
            forall|x: int| 0 <= x < n && counts@[x] >= 2 && !(#[trigger] taken@[x]) ==> forall|a: int|
                0 <= a < picked@.len() ==> idx_before(va, counts@, #[trigger] picked@[a] as int, x),
        decreases 3 - picked@.len(),
    {
        let mut best: usize = n;
        let mut i: usize = 0;
        while i < n
            invariant
                n == all@.len(),
                va == views(all@),
                counts@.len() == n,
                no_repeats(va),
                taken@.len() == n,
                i <= n,
                best == n || (best < i && counts@[best as int] >= 2 && !taken@[best as int]),
                best == n ==> forall|x: int| 0 <= x < i ==> #[trigger] counts@[x] < 2 || taken@[x],
                best < n ==> forall|x: int|
                    0 <= x < i && #[trigger] counts@[x] >= 2 && !taken@[x] && x != best ==> idx_before(va, counts@, best as int, x),
            decreases n - i,
        {
            if counts[i] >= 2 && !taken[i] {
                if best == n {
                    best = i;
                } else if idx_before_exec(all, counts, i, best) {
                    proof {
                        assert forall|x: int|
                            0 <= x < i + 1 && #[trigger] counts@[x] >= 2 && !taken@[x] && x != i implies idx_before(va, counts@, i as int, x) by {
                            if x != best as int {
                                lemma_idx_order(va, counts@, i as int, best as int, x);
                            }
                        }
                    }
                    best = i;
                } else {
                    proof {
                        lemma_idx_order(va, counts@, i as int, best as int, i as int);
                    }
                }
            }
            i += 1;
        }
        if best == n {
            assert forall|x: int| 0 <= x < n && #[trigger] counts@[x] >= 2 && !picked@.contains(x as usize) implies {
                &&& picked@.len() == 3
                &&& forall|a: int| 0 <= a < picked@.len() ==> idx_before(va, counts@, #[trigger] picked@[a] as int, x)
            } by {
                assert(taken@[x]);
            }
            return picked;
        }
        let ghost old_picked = picked@;
        taken.set(best, true);
        picked.push(best);
        assert forall|x: int| 0 <= x < n implies (#[trigger] taken@[x] <==> picked@.contains(x as usize)) by {
            if x == best {
                assert(picked@[old_picked.len() as int] == best);
            } else {
                if picked@.contains(x as usize) {
                    let a = choose|a: int| 0 <= a < picked@.len() && picked@[a] == x as usize;
                    assert(old_picked[a] == x as usize);
                }
                if old_picked.contains(x as usize) {
                    let a = choose|a: int| 0 <= a < old_picked.len() && old_picked[a] == x as usize;
                    assert(picked@[a] == x as usize);
                }
            }
        }
        assert forall|a: int, b: int| 0 <= a < b < picked@.len() implies idx_before(
            va,
            counts@,
            #[trigger] picked@[a] as int,
            #[trigger] picked@[b] as int,
        ) by {
            if b == old_picked.len() {
                assert(picked@[a] == old_picked[a]);
            } else {
                assert(picked@[a] == old_picked[a] && picked@[b] == old_picked[b]);
            }
        }
        assert forall|x: int|
            0 <= x < n && counts@[x] >= 2 && !(#[trigger] taken@[x]) implies forall|a: int|
                0 <= a < picked@.len() ==> idx_before(va, counts@, #[trigger] picked@[a] as int, x) by {
            assert forall|a: int| 0 <= a < picked@.len() implies idx_before(
                va,
                counts@,
                #[trigger] picked@[a] as int,
                x,
            ) by {
                if a < old_picked.len() {
                    assert(picked@[a] == old_picked[a]);
                } else {
                    assert(picked@[a] == best);
                }
            }
        }
    }
    assert forall|x: int| 0 <= x < n && #[trigger] counts@[x] >= 2 && !picked@.contains(x as usize) implies {
        &&& picked@.len() == 3
        &&& forall|a: int| 0 <= a < picked@.len() ==> idx_before(va, counts@, #[trigger] picked@[a] as int, x)
    } by {
        assert(!taken@[x]);
    }
    picked
}

/// The shared terms of a group: the first three, in rank order, of the
/// terms used by two or more members.
pub fn shared_terms(sets: &Vec<Vec<Vec<char>>>, comp: &Vec<usize>) -> (terms: Vec<String>)
    requires
        forall|k: int| 0 <= k < comp@.len() ==> (#[trigger] comp@[k]) < sets@.len(),
    ensures
        is_top_terms(member_sets(set_views(sets@), comp@), terms.deep_view()),
{
    let ghost ms = member_sets(set_views(sets@), comp@);
    let all = group_terms(sets, comp);
    let ghost va = views(all@);
    let mut counts: Vec<usize> = Vec::new();
    let mut i: usize = 0;
    while i < all.len()
        invariant
            forall|k: int| 0 <= k < comp@.len() ==> (#[trigger] comp@[k]) < sets@.len(),
            ms == member_sets(set_views(sets@), comp@),
            va == views(all@),
            i <= all@.len(),
            counts@.len() == i,
            forall|j: int| 0 <= j < i ==> #[trigger] counts@[j] == term_count(ms, va[j]),
        decreases all@.len() - i,
    {
        assert(va[i as int] == all@[i as int]@);
        let c = term_count_exec(sets, comp, &all[i]);
        counts.push(c);
        i += 1;
    }
    let picked = top_term_positions(&all, &counts);
    let mut terms: Vec<String> = Vec::new();
    let mut a: usize = 0;
    while a < picked.len()
        invariant
            va == views(all@),
            a <= picked@.len(),
            forall|b: int| 0 <= b < picked@.len() ==> (#[trigger] picked@[b]) < all@.len(),
            terms.deep_view().len() == a,
            forall|b: int| 0 <= b < a ==> #[trigger] terms.deep_view()[b] == va[picked@[b] as int],
        decreases picked@.len() - a,
    {
        let p = picked[a];
        let ghost before = terms.deep_view();
        let t = string_from(&all[p]);
        terms.push(t);
        assert(terms.deep_view() =~= before.push(va[p as int]));
        a += 1;
    }
    let ghost r = terms.deep_view();
    proof {
        assert forall|a: int| 0 <= a < r.len() implies term_count(ms, #[trigger] r[a]) >= 2 by {
            assert(counts@[picked@[a] as int] >= 2);
        }
        assert forall|a: int, b: int| 0 <= a < b < r.len() implies term_before(ms, #[trigger] r[a], #[trigger] r[b]) by {
            assert(idx_before(va, counts@, picked@[a] as int, picked@[b] as int));
        }
        assert forall|t: Seq<char>| term_count(ms, t) >= 2 && !#[trigger] r.contains(t) implies {
            &&& r.len() == 3
            &&& forall|a: int| 0 <= a < r.len() ==> term_before(ms, #[trigger] r[a], t)
        } by {
            lemma_count_positive(ms.len() as int, holds_term(ms, t));
            let k = choose|k: int| 0 <= k < ms.len() && #[trigger] holds_term(ms, t)(k);
            assert(ms[k].contains(t));
            assert(va.contains(t));
            let x = choose|x: int| 0 <= x < va.len() && va[x] == t;
            assert(counts@[x] >= 2);
            if picked@.contains(x as usize) {
                let a = choose|a: int| 0 <= a < picked@.len() && picked@[a] == x as usize;
                assert(r[a] == t);
            }
            assert forall|a: int| 0 <= a < r.len() implies term_before(ms, #[trigger] r[a], t) by {
                assert(idx_before(va, counts@, picked@[a] as int, x));
            }
        }
    }
    terms
}

// ---------------------------------------------------------------------
// One cluster
// ---------------------------------------------------------------------
/// The label of a cluster: its shared terms joined by `" / "`, or
/// `Repeated bug pattern` when it has none.
pub open spec fn cluster_label(terms: Seq<Seq<char>>) -> Seq<char> {
    if terms.len() == 0 {
        "Repeated bug pattern"@
    } else {
        join(terms, " / "@)
    }
}

/// Examples of a cluster are ranked by comments, then age, both descending.
pub open spec fn example_keys(
    issues: Seq<GitHubIssue>,
    ages: Seq<i64>,
    bug_idx: Seq<usize>,
    comp: Seq<usize>,
) -> Seq<(i64, i64)> {
    Seq::new(
        comp.len(),
        |k: int| (issues[bug_idx[comp[k] as int] as int].comments as i64, ages[bug_idx[comp[k] as int] as int]),
    )
}

pub open spec fn all_true(n: nat) -> Seq<bool> {
    Seq::new(n, |k: int| true)
}

/// `cl` is the cluster of the group `comp` (positions among the bug
/// reports, in the order the walk reached them).
pub open spec fn cluster_matches(
    cl: RecurringBugCluster,
    issues: Seq<GitHubIssue>,
    ages: Seq<i64>,
    bug_idx: Seq<usize>,
    sets: Seq<Seq<Seq<char>>>,
    comp: Seq<usize>,
) -> bool {
    &&& cl.issue_count == comp.len() as u32
    &&& is_top_terms(member_sets(sets, comp), cl.shared_terms.deep_view())
    &&& cl.label@ == cluster_label(cl.shared_terms.deep_view())
    &&& exists|picked: Seq<usize>|
        {
            &&& is_top(example_keys(issues, ages, bug_idx, comp), all_true(comp.len()), 3, picked)
            &&& cl.examples@.len() == picked.len()
            &&& forall|a: int|
                0 <= a < picked.len() ==> {
                    let g = bug_idx[comp[picked[a] as int] as int] as int;
                    is_sample_of(#[trigger] cl.examples@[a], issues[g], ages[g])
                }
        }
}

fn cluster_for(
    issues: &Vec<GitHubIssue>,
    ages: &Vec<i64>,
    bug_idx: &Vec<usize>,
    sets: &Vec<Vec<Vec<char>>>,
    comp: &Vec<usize>,
) -> (cl: RecurringBugCluster)
    requires
        ages@.len() == issues@.len(),
        bug_idx@.len() == sets@.len(),
        forall|m: int| 0 <= m < bug_idx@.len() ==> (#[trigger] bug_idx@[m]) < issues@.len(),
        forall|k: int| 0 <= k < comp@.len() ==> (#[trigger] comp@[k]) < sets@.len(),
    ensures
        cluster_matches(cl, issues@, ages@, bug_idx@, set_views(sets@), comp@),
{
    let mut keys: Vec<(i64, i64)> = Vec::new();
    let mut eligible: Vec<bool> = Vec::new();
    let mut k: usize = 0;
    while k < comp.len()
        invariant
            ages@.len() == issues@.len(),
            forall|m: int| 0 <= m < bug_idx@.len() ==> (#[trigger] bug_idx@[m]) < issues@.len(),
            forall|k2: int| 0 <= k2 < comp@.len() ==> (#[trigger] comp@[k2]) < sets@.len(),
            bug_idx@.len() == sets@.len(),
            k <= comp@.len(),
            keys@ == example_keys(issues@, ages@, bug_idx@, comp@).subrange(0, k as int),
            eligible@ == all_true(comp@.len()).subrange(0, k as int),
        decreases comp@.len() - k,
    {
        let g = bug_idx[comp[k]];
        keys.push((issues[g].comments as i64, ages[g]));
        eligible.push(true);
        k += 1;
        assert(keys@ =~= example_keys(issues@, ages@, bug_idx@, comp@).subrange(0, k as int));
        assert(eligible@ =~= all_true(comp@.len()).subrange(0, k as int));
    }
    assert(keys@ =~= example_keys(issues@, ages@, bug_idx@, comp@));
    assert(eligible@ =~= all_true(comp@.len()));
    let picked = select_top(&keys, &eligible, 3);
    let mut examples: Vec<IssueSample> = Vec::new();
    let mut a: usize = 0;
    while a < picked.len()
        invariant
            ages@.len() == issues@.len(),
            forall|m: int| 0 <= m < bug_idx@.len() ==> (#[trigger] bug_idx@[m]) < issues@.len(),
            forall|k2: int| 0 <= k2 < comp@.len() ==> (#[trigger] comp@[k2]) < sets@.len(),
            bug_idx@.len() == sets@.len(),
            is_top(keys@, eligible@, 3, picked@),
            keys@.len() == comp@.len(),
            a <= picked@.len(),
            examples@.len() == a,
            forall|b: int|
                0 <= b < a ==> {
                    let g = bug_idx@[comp@[picked@[b] as int] as int] as int;
                    is_sample_of(#[trigger] examples@[b], issues@[g], ages@[g])
                },
        decreases picked@.len() - a,
    {
        let p = picked[a];
        let g = bug_idx[comp[p]];
        examples.push(sample_of(&issues[g], ages[g]));
        a += 1;
    }
    let terms = shared_terms(sets, comp);
    let label = if terms.len() == 0 {
        String::from_str("Repeated bug pattern")
    } else {
        let mut parts: Vec<Vec<char>> = Vec::new();
        let mut j: usize = 0;
        while j < terms.len()
            invariant
                j <= terms@.len(),
                views(parts@) == terms.deep_view().subrange(0, j as int),
            decreases terms@.len() - j,
        {
            let ghost before = views(parts@);
            parts.push(chars_of(terms[j].as_str()));
            assert(views(parts@) =~= before.push(terms.deep_view()[j as int]));
            j += 1;
            assert(views(parts@) =~= terms.deep_view().subrange(0, j as int));
        }
        assert(views(parts@) =~= terms.deep_view());
        let sep = chars_of(" / ");
        let joined = join_chars(&parts, &sep);
        string_from(&joined)
    };
    let cl = RecurringBugCluster {
        label,
        issue_count: comp.len() as u32,
        shared_terms: terms,
        examples,
    };
    assert(is_top(example_keys(issues@, ages@, bug_idx@, comp@), all_true(comp@.len()), 3, picked@));
    cl
}

// ---------------------------------------------------------------------
// All clusters
// ---------------------------------------------------------------------
/// Clusters are ranked by size, then by the comments on their first
/// example, both descending; ties in discovery order.
pub open spec fn cluster_keys(all: Seq<RecurringBugCluster>) -> Seq<(i64, i64)> {
    Seq::new(
        all.len(),
        |c: int|
            (all[c].issue_count as i64, if all[c].examples@.len() > 0 {
                all[c].examples@[0].comments as i64
            } else {
                0
            }),
    )
}

/// The recurring bug clusters of a sample: among the reports flagged as
/// bugs, those whose term sets are linked form groups; every group of two
/// or more is a cluster; the first three clusters in rank order are kept.
/// With fewer than two bug reports there are none.
pub open spec fn clusters_spec(
    issues: Seq<GitHubIssue>,
    ages: Seq<i64>,
    bugs: Seq<bool>,
    terms: Seq<Seq<Seq<char>>>,
    clusters: Seq<RecurringBugCluster>,
) -> bool {
    exists|
        bug_idx: Seq<usize>,
        sets: Seq<Seq<Seq<char>>>,
        comps: Seq<Vec<usize>>,
        all: Seq<RecurringBugCluster>,
        picked: Seq<usize>,
    |
        #[trigger] clusters_witness(issues, ages, bugs, terms, clusters, bug_idx, sets, comps, all, picked)
}

/// `clusters_spec` with its intermediate values named: the bug positions,
/// their term sets, the groups, every group's cluster, and the positions of
/// the clusters kept.
pub open spec fn clusters_witness(
    issues: Seq<GitHubIssue>,
    ages: Seq<i64>,
    bugs: Seq<bool>,
    terms: Seq<Seq<Seq<char>>>,
    clusters: Seq<RecurringBugCluster>,
    bug_idx: Seq<usize>,
    sets: Seq<Seq<Seq<char>>>,
    comps: Seq<Vec<usize>>,
    all: Seq<RecurringBugCluster>,
    picked: Seq<usize>,
) -> bool {
    &&& bug_positions(bugs, bug_idx)
    &&& sets.len() == bug_idx.len()
    &&& forall|m: int| 0 <= m < sets.len() ==> is_term_set(terms[bug_idx[m] as int], #[trigger] sets[m])
    &&& forall|m: int| 0 <= m < sets.len() ==> #[trigger] sets[m] == distinct_terms(terms[bug_idx[m] as int])
    &&& if bug_idx.len() < 2 {
        clusters.len() == 0
    } else {
        &&& big_components(sets, comps)
        &&& all.len() == comps.len()
        &&& forall|c: int|
            0 <= c < all.len() ==> cluster_matches(#[trigger] all[c], issues, ages, bug_idx, sets, comps[c]@)
        &&& is_top(cluster_keys(all), all_true(all.len()), 3, picked)
        &&& clusters.len() == picked.len()
        &&& forall|a: int| 0 <= a < picked.len() ==> #[trigger] clusters[a] == all[picked[a] as int]
    }
}

/// Recurring bug clusters, given for each sampled issue its age, whether it
/// looks like a bug report, and the terms of its title.
pub fn recurring_bug_clusters(
    issues: &Vec<GitHubIssue>,
    ages: &Vec<i64>,
    bugs: &Vec<bool>,
    bug_terms: &Vec<Vec<String>>,
) -> (clusters: Vec<RecurringBugCluster>)
    requires
        ages@.len() == issues@.len(),
        bugs@.len() == issues@.len(),
        bug_terms@.len() == issues@.len(),
    ensures
        clusters_spec(
            issues@,
            ages@,
            bugs@,
            bug_terms@.map_values(|t: Vec<String>| t.deep_view()),
            clusters@,
        ),
{
    let ghost terms = bug_terms@.map_values(|t: Vec<String>| t.deep_view());
    let bug_idx = bug_indices(bugs);
    let mut sets: Vec<Vec<Vec<char>>> = Vec::new();
    let mut m: usize = 0;
    while m < bug_idx.len()
        invariant
            bug_positions(bugs@, bug_idx@),
            bugs@.len() == issues@.len(),
            bug_terms@.len() == issues@.len(),
            terms == bug_terms@.map_values(|t: Vec<String>| t.deep_view()),
            m <= bug_idx@.len(),
            sets@.len() == m,
            forall|m2: int| 0 <= m2 < m ==> is_term_set(terms[bug_idx@[m2] as int], #[trigger] set_views(sets@)[m2]),
            forall|m2: int| 0 <= m2 < m ==> #[trigger] set_views(sets@)[m2] == distinct_terms(terms[bug_idx@[m2] as int]),
        decreases bug_idx@.len() - m,
    {
        let g = bug_idx[m];
        let set = term_set(&bug_terms[g]);
        let ghost before = sets@;
        sets.push(set);
        assert forall|m2: int| 0 <= m2 < m + 1 implies is_term_set(terms[bug_idx@[m2] as int], #[trigger] set_views(sets@)[m2]) by {
            if m2 < m {
                assert(set_views(sets@)[m2] == set_views(before)[m2]);
            }
        }
        assert forall|m2: int| 0 <= m2 < m + 1 implies #[trigger] set_views(sets@)[m2] == distinct_terms(terms[bug_idx@[m2] as int]) by {
            if m2 < m {
                assert(set_views(sets@)[m2] == set_views(before)[m2]);
            }
        }
        m += 1;
    }
    let ghost vs = set_views(sets@);
    if bug_idx.len() < 2 {
        let clusters: Vec<RecurringBugCluster> = Vec::new();
        assert(clusters_spec(issues@, ages@, bugs@, terms, clusters@)) by {
            let comps: Seq<Vec<usize>> = Seq::empty();
            let all: Seq<RecurringBugCluster> = Seq::empty();
            let picked: Seq<usize> = Seq::empty();
            assert(forall|m2: int| 0 <= m2 < vs.len() ==> is_term_set(terms[bug_idx@[m2] as int], #[trigger] vs[m2]));
            assert(forall|m2: int| 0 <= m2 < vs.len() ==> #[trigger] vs[m2] == distinct_terms(terms[bug_idx@[m2] as int]));
            assert(clusters_witness(issues@, ages@, bugs@, terms, clusters@, bug_idx@, vs, comps, all, picked));
        }
        return clusters;
    }
    let adj = adjacency(&sets);
    let comps = components(&sets, &adj);
    let mut all: Vec<Option<RecurringBugCluster>> = Vec::new();
    let mut keys: Vec<(i64, i64)> = Vec::new();
    let mut eligible: Vec<bool> = Vec::new();
    let ghost mut all_seq: Seq<RecurringBugCluster> = Seq::empty();
    let mut c: usize = 0;
    while c < comps.len()
        invariant
            ages@.len() == issues@.len(),
            bug_positions(bugs@, bug_idx@),
            bugs@.len() == issues@.len(),
            bug_idx@.len() == sets@.len(),
            vs == set_views(sets@),
            big_components(vs, comps@),
            c <= comps@.len(),
            all@.len() == c,
            all_seq.len() == c,
            forall|c2: int| 0 <= c2 < c ==> #[trigger] all@[c2] == Some(all_seq[c2]),
            forall|c2: int| 0 <= c2 < c ==> cluster_matches(#[trigger] all_seq[c2], issues@, ages@, bug_idx@, vs, comps@[c2]@),
            keys@ == cluster_keys(all_seq),
            eligible@ == all_true(c as nat),
        decreases comps@.len() - c,
    {
        assert(is_component(vs, comps@[c as int]@));
        assert forall|m2: int| 0 <= m2 < bug_idx@.len() implies (#[trigger] bug_idx@[m2]) < issues@.len() by {
            assert(bug_idx@[m2] < bugs@.len());
        }
        let cl = cluster_for(issues, ages, &bug_idx, &sets, &comps[c]);
        let first_comments: i64 = if cl.examples.len() > 0 {
            cl.examples[0].comments as i64
        } else {
            0
        };
        keys.push((cl.issue_count as i64, first_comments));
        eligible.push(true);
        proof {
            all_seq = all_seq.push(cl);
        }
        all.push(Some(cl));
        assert(keys@ =~= cluster_keys(all_seq));
        assert(eligible@ =~= all_true((c + 1) as nat));
        c += 1;
    }
    let picked = select_top(&keys, &eligible, 3);
    let mut clusters: Vec<RecurringBugCluster> = Vec::new();
    let mut a: usize = 0;
    while a < picked.len()
        invariant
            all@.len() == all_seq.len(),
            keys@.len() == all_seq.len(),
            is_top(keys@, eligible@, 3, picked@),
            a <= picked@.len(),
            clusters@.len() == a,
            forall|b: int| 0 <= b < a ==> #[trigger] clusters@[b] == all_seq[picked@[b] as int],
            forall|x: int| 0 <= x < all@.len() ==> (#[trigger] all@[x] == Some(all_seq[x]) || picked@.subrange(0, a as int).contains(x as usize)),
        decreases picked@.len() - a,
    {
        let p = picked[a];
        assert(all@[p as int] == Some(all_seq[p as int])) by {
            if picked@.subrange(0, a as int).contains(p) {
                let b = choose|b: int| 0 <= b < a && picked@.subrange(0, a as int)[b] == p;
                assert(picked@[b] == p);
                assert(key_before(keys@, picked@[b] as int, picked@[a as int] as int));
            }
        }
        let ghost before_all = all@;
        let slot = all[p].take();
        let cl = slot.unwrap();
        clusters.push(cl);
        assert forall|x: int| 0 <= x < all@.len() implies (#[trigger] all@[x] == Some(all_seq[x]) || picked@.subrange(0, a + 1).contains(x as usize)) by {
            if x == p as int {
                assert(picked@.subrange(0, a + 1)[a as int] == p);
            } else {
                assert(all@[x] == before_all[x]);
                if picked@.subrange(0, a as int).contains(x as usize) {
                    let b = choose|b: int| 0 <= b < a && picked@.subrange(0, a as int)[b] == x as usize;
                    assert(picked@.subrange(0, a + 1)[b] == x as usize);
                }
            }
        }
        a += 1;
    }
    proof {
        assert(clusters_spec(issues@, ages@, bugs@, terms, clusters@)) by {
            assert(forall|m2: int| 0 <= m2 < vs.len() ==> is_term_set(terms[bug_idx@[m2] as int], #[trigger] vs[m2]));
            assert(forall|m2: int| 0 <= m2 < vs.len() ==> #[trigger] vs[m2] == distinct_terms(terms[bug_idx@[m2] as int]));
            assert(is_top(cluster_keys(all_seq), all_true(all_seq.len()), 3, picked@));
            assert(clusters_witness(issues@, ages@, bugs@, terms, clusters@, bug_idx@, vs, comps@, all_seq, picked@));
        }
    }
    clusters
}

// ---------------------------------------------------------------------
// Issues that are not bug reports
// ---------------------------------------------------------------------
/// Two samples hold the same bug reports at the positions `idx1` and
/// `idx2`: the same issues, ages and terms.
pub open spec fn same_bug_reports(
    issues1: Seq<GitHubIssue>,
    ages1: Seq<i64>,
    terms1: Seq<Seq<Seq<char>>>,
    idx1: Seq<usize>,
    issues2: Seq<GitHubIssue>,
    ages2: Seq<i64>,
    terms2: Seq<Seq<Seq<char>>>,
    idx2: Seq<usize>,
) -> bool {
    &&& idx1.len() == idx2.len()
    &&& forall|m: int|
        0 <= m < idx1.len() ==> {
            &&& issues2[#[trigger] idx2[m] as int] == issues1[idx1[m] as int]
            &&& ages2[idx2[m] as int] == ages1[idx1[m] as int]
            &&& terms2[idx2[m] as int] == terms1[idx1[m] as int]
        }
}

proof fn lemma_witness_transfer(
    issues1: Seq<GitHubIssue>,
    ages1: Seq<i64>,
    bugs1: Seq<bool>,
    terms1: Seq<Seq<Seq<char>>>,
    issues2: Seq<GitHubIssue>,
    ages2: Seq<i64>,
    bugs2: Seq<bool>,
    terms2: Seq<Seq<Seq<char>>>,
    clusters: Seq<RecurringBugCluster>,
    idx1: Seq<usize>,
    idx2: Seq<usize>,
    sets: Seq<Seq<Seq<char>>>,
    comps: Seq<Vec<usize>>,
    all: Seq<RecurringBugCluster>,
    picked: Seq<usize>,
)
    requires
        clusters_witness(issues1, ages1, bugs1, terms1, clusters, idx1, sets, comps, all, picked),
        bug_positions(bugs2, idx2),
        same_bug_reports(issues1, ages1, terms1, idx1, issues2, ages2, terms2, idx2),
    ensures
        clusters_witness(issues2, ages2, bugs2, terms2, clusters, idx2, sets, comps, all, picked),
{
    assert forall|m: int| 0 <= m < sets.len() implies is_term_set(terms2[idx2[m] as int], #[trigger] sets[m]) by {
        assert(terms2[idx2[m] as int] == terms1[idx1[m] as int]);
    }
    if idx1.len() >= 2 {
        assert forall|c: int| 0 <= c < all.len() implies cluster_matches(
            #[trigger] all[c],
            issues2,
            ages2,
            idx2,
            sets,
            comps[c]@,
        ) by {
            let comp = comps[c]@;
            assert(cluster_matches(all[c], issues1, ages1, idx1, sets, comp));
            assert(is_component(sets, comp));
            let p = choose|p: Seq<usize>|
                {
                    &&& is_top(example_keys(issues1, ages1, idx1, comp), all_true(comp.len()), 3, p)
                    &&& all[c].examples@.len() == p.len()
                    &&& forall|a: int|
                        0 <= a < p.len() ==> {
                            let g = idx1[comp[p[a] as int] as int] as int;
                            is_sample_of(#[trigger] all[c].examples@[a], issues1[g], ages1[g])
                        }
                };
            assert forall|k: int| 0 <= k < comp.len() implies #[trigger] example_keys(issues2, ages2, idx2, comp)[k]
                == example_keys(issues1, ages1, idx1, comp)[k] by {
                assert(comp[k] < sets.len());
                assert(issues2[idx2[comp[k] as int] as int] == issues1[idx1[comp[k] as int] as int]);
            }
            assert(example_keys(issues2, ages2, idx2, comp) =~= example_keys(issues1, ages1, idx1, comp));
            assert forall|a: int| 0 <= a < p.len() implies {
                let g = idx2[comp[p[a] as int] as int] as int;
                is_sample_of(#[trigger] all[c].examples@[a], issues2[g], ages2[g])
            } by {
                assert(p[a] < comp.len());
                assert(comp[p[a] as int] < sets.len());
                let m = comp[p[a] as int] as int;
                assert(issues2[idx2[m] as int] == issues1[idx1[m] as int]);
                assert(ages2[idx2[m] as int] == ages1[idx1[m] as int]);
            }
        }
    }
}

/// Bug positions that stay bug positions when non-bug entries follow.
proof fn lemma_positions_appended(bugs: Seq<bool>, extra: Seq<bool>, idx: Seq<usize>)
    requires
        forall|k: int| 0 <= k < extra.len() ==> !#[trigger] extra[k],
    ensures
        bug_positions(bugs, idx) <==> bug_positions(bugs + extra, idx),
{
    let all = bugs + extra;
    if bug_positions(all, idx) {
        assert forall|a: int| 0 <= a < idx.len() implies (#[trigger] idx[a]) < bugs.len() && bugs[idx[a] as int] by {
            if idx[a] >= bugs.len() {
                assert(!extra[idx[a] - bugs.len()]);
                assert(all[idx[a] as int] == extra[idx[a] - bugs.len()]);
            }
        }
        assert forall|i: int| 0 <= i < bugs.len() && #[trigger] bugs[i] implies idx.contains(i as usize) by {
            assert(all[i] == bugs[i]);
        }
    }
    if bug_positions(bugs, idx) {
        assert forall|i: int| 0 <= i < all.len() && #[trigger] all[i] implies idx.contains(i as usize) by {
            if i >= bugs.len() {
                assert(!extra[i - bugs.len()]);
            } else {
                assert(bugs[i]);
            }
        }
    }
}

/// Positions shifted by `k` when `k` non-bug entries come first.
pub open spec fn shifted(idx: Seq<usize>, k: int) -> Seq<usize> {
    idx.map_values(|x: usize| (x + k) as usize)
}

pub open spec fn unshifted(idx: Seq<usize>, k: int) -> Seq<usize> {
    idx.map_values(|x: usize| (x - k) as usize)
}

proof fn lemma_positions_prepended(extra: Seq<bool>, bugs: Seq<bool>, idx: Seq<usize>)
    requires
        forall|k: int| 0 <= k < extra.len() ==> !#[trigger] extra[k],
        extra.len() + bugs.len() <= usize::MAX,
    ensures
        bug_positions(bugs, idx) ==> bug_positions(extra + bugs, shifted(idx, extra.len() as int)),
        bug_positions(extra + bugs, idx) ==> bug_positions(bugs, unshifted(idx, extra.len() as int))
            && shifted(unshifted(idx, extra.len() as int), extra.len() as int) == idx,
{
    let k = extra.len() as int;
    let all = extra + bugs;
    if bug_positions(bugs, idx) {
        let s = shifted(idx, k);
        assert forall|a: int, b: int| 0 <= a < b < s.len() implies #[trigger] s[a] < #[trigger] s[b] by {
            assert(idx[a] < idx[b]);
        }
        assert forall|a: int| 0 <= a < s.len() implies (#[trigger] s[a]) < all.len() && all[s[a] as int] by {
            assert(idx[a] < bugs.len() && bugs[idx[a] as int]);
            assert(all[idx[a] + k] == bugs[idx[a] as int]);
        }
        assert forall|i: int| 0 <= i < all.len() && #[trigger] all[i] implies s.contains(i as usize) by {
            if i < k {
                assert(!extra[i]);
            } else {
                assert(bugs[i - k] == all[i]);
                assert(idx.contains((i - k) as usize));
                let a = choose|a: int| 0 <= a < idx.len() && idx[a] == (i - k) as usize;
                assert(s[a] == i as usize);
            }
        }
    }
    if bug_positions(all, idx) {
        let u = unshifted(idx, k);
        assert forall|a: int| 0 <= a < idx.len() implies (#[trigger] idx[a]) >= k by {
            if idx[a] < k {
                assert(!extra[idx[a] as int]);
                assert(all[idx[a] as int] == extra[idx[a] as int]);
            }
        }
        assert forall|a: int, b: int| 0 <= a < b < u.len() implies #[trigger] u[a] < #[trigger] u[b] by {
            assert(idx[a] < idx[b]);
            assert(idx[a] >= k && idx[b] >= k);
        }
        assert forall|a: int| 0 <= a < u.len() implies (#[trigger] u[a]) < bugs.len() && bugs[u[a] as int] by {
            assert(idx[a] >= k);
            assert(all[idx[a] as int] == bugs[idx[a] - k]);
        }
        assert forall|i: int| 0 <= i < bugs.len() && #[trigger] bugs[i] implies u.contains(i as usize) by {
            assert(all[i + k] == bugs[i]);
            assert(idx.contains((i + k) as usize));
            let a = choose|a: int| 0 <= a < idx.len() && idx[a] == (i + k) as usize;
            assert(idx[a] >= k);
            assert(u[a] == i as usize);
        }
        assert forall|a: int| 0 <= a < idx.len() implies #[trigger] shifted(u, k)[a] == idx[a] by {
            assert(idx[a] >= k);
        }
        assert(shifted(u, k) =~= idx);
    }
}

/// Issues that are not bug reports, added after or before a sample, leave
/// its recurring bug clusters as they are: a cluster list fits the larger
/// sample exactly when it fits the sample.
pub proof fn law_non_bug_issues_leave_clusters(
    issues: Seq<GitHubIssue>,
    ages: Seq<i64>,
    bugs: Seq<bool>,
    terms: Seq<Seq<Seq<char>>>,
    extra: Seq<GitHubIssue>,
    extra_ages: Seq<i64>,
    extra_bugs: Seq<bool>,
    extra_terms: Seq<Seq<Seq<char>>>,
    clusters: Seq<RecurringBugCluster>,
)
    requires
        ages.len() == issues.len() && bugs.len() == issues.len() && terms.len() == issues.len(),
        extra_ages.len() == extra.len() && extra_bugs.len() == extra.len() && extra_terms.len() == extra.len(),
        forall|k: int| 0 <= k < extra_bugs.len() ==> !#[trigger] extra_bugs[k],
        issues.len() + extra.len() <= usize::MAX,
    ensures
        clusters_spec(issues, ages, bugs, terms, clusters) <==> clusters_spec(
            issues + extra,
            ages + extra_ages,
            bugs + extra_bugs,
            terms + extra_terms,
            clusters,
        ),
        clusters_spec(issues, ages, bugs, terms, clusters) <==> clusters_spec(
            extra + issues,
            extra_ages + ages,
            extra_bugs + bugs,
            extra_terms + terms,
            clusters,
        ),
{
    let n = issues.len() as int;
    let k = extra.len() as int;
    let (i2, a2, b2, t2) = (issues + extra, ages + extra_ages, bugs + extra_bugs, terms + extra_terms);
    let (i3, a3, b3, t3) = (extra + issues, extra_ages + ages, extra_bugs + bugs, extra_terms + terms);
    if clusters_spec(issues, ages, bugs, terms, clusters) {
        let (idx, sets, comps, all, picked) = choose|
            idx: Seq<usize>,
            sets: Seq<Seq<Seq<char>>>,
            comps: Seq<Vec<usize>>,
            all: Seq<RecurringBugCluster>,
            picked: Seq<usize>,
        | #[trigger] clusters_witness(issues, ages, bugs, terms, clusters, idx, sets, comps, all, picked);
        lemma_positions_appended(bugs, extra_bugs, idx);
        assert(same_bug_reports(issues, ages, terms, idx, i2, a2, t2, idx)) by {
            assert forall|m: int| 0 <= m < idx.len() implies {
                &&& i2[#[trigger] idx[m] as int] == issues[idx[m] as int]
                &&& a2[idx[m] as int] == ages[idx[m] as int]
                &&& t2[idx[m] as int] == terms[idx[m] as int]
            } by {
                assert(idx[m] < bugs.len());
            }
        }
        lemma_witness_transfer(issues, ages, bugs, terms, i2, a2, b2, t2, clusters, idx, idx, sets, comps, all, picked);
        assert(clusters_witness(i2, a2, b2, t2, clusters, idx, sets, comps, all, picked));
        lemma_positions_prepended(extra_bugs, bugs, idx);
        let s = shifted(idx, k);
        assert(same_bug_reports(issues, ages, terms, idx, i3, a3, t3, s)) by {
            assert forall|m: int| 0 <= m < idx.len() implies {
                &&& i3[#[trigger] s[m] as int] == issues[idx[m] as int]
                &&& a3[s[m] as int] == ages[idx[m] as int]
                &&& t3[s[m] as int] == terms[idx[m] as int]
            } by {
                assert(idx[m] < bugs.len());
                assert(s[m] == idx[m] + k);
            }
        }
        lemma_witness_transfer(issues, ages, bugs, terms, i3, a3, b3, t3, clusters, idx, s, sets, comps, all, picked);
        assert(clusters_witness(i3, a3, b3, t3, clusters, s, sets, comps, all, picked));
    }
    if clusters_spec(i2, a2, b2, t2, clusters) {
        let (idx, sets, comps, all, picked) = choose|
            idx: Seq<usize>,
            sets: Seq<Seq<Seq<char>>>,
            comps: Seq<Vec<usize>>,
            all: Seq<RecurringBugCluster>,
            picked: Seq<usize>,
        | #[trigger] clusters_witness(i2, a2, b2, t2, clusters, idx, sets, comps, all, picked);
        lemma_positions_appended(bugs, extra_bugs, idx);
        assert(same_bug_reports(i2, a2, t2, idx, issues, ages, terms, idx)) by {
            assert forall|m: int| 0 <= m < idx.len() implies {
                &&& issues[#[trigger] idx[m] as int] == i2[idx[m] as int]
                &&& ages[idx[m] as int] == a2[idx[m] as int]
                &&& terms[idx[m] as int] == t2[idx[m] as int]
            } by {
                assert(idx[m] < bugs.len());
            }
        }
        lemma_witness_transfer(i2, a2, b2, t2, issues, ages, bugs, terms, clusters, idx, idx, sets, comps, all, picked);
        assert(clusters_witness(issues, ages, bugs, terms, clusters, idx, sets, comps, all, picked));
    }
    if clusters_spec(i3, a3, b3, t3, clusters) {
        let (idx, sets, comps, all, picked) = choose|
            idx: Seq<usize>,
            sets: Seq<Seq<Seq<char>>>,
            comps: Seq<Vec<usize>>,
            all: Seq<RecurringBugCluster>,
            picked: Seq<usize>,
        | #[trigger] clusters_witness(i3, a3, b3, t3, clusters, idx, sets, comps, all, picked);
        lemma_positions_prepended(extra_bugs, bugs, idx);
        let u = unshifted(idx, k);
        assert(same_bug_reports(i3, a3, t3, idx, issues, ages, terms, u)) by {
            assert forall|m: int| 0 <= m < idx.len() implies {
                &&& issues[#[trigger] u[m] as int] == i3[idx[m] as int]
                &&& ages[u[m] as int] == a3[idx[m] as int]
                &&& terms[u[m] as int] == t3[idx[m] as int]
            } by {
                assert(u[m] < bugs.len());
                assert(shifted(u, k)[m] == idx[m]);
            }
        }
        lemma_witness_transfer(i3, a3, b3, t3, issues, ages, bugs, terms, clusters, idx, u, sets, comps, all, picked);
        assert(clusters_witness(issues, ages, bugs, terms, clusters, u, sets, comps, all, picked));
    }
}

/// With fewer than two bug reports there is no cluster.
pub proof fn law_no_clusters_without_two_bug_reports(
    issues: Seq<GitHubIssue>,
    ages: Seq<i64>,
    bugs: Seq<bool>,
    terms: Seq<Seq<Seq<char>>>,
    clusters: Seq<RecurringBugCluster>,
)
    requires
        forall|i: int, j: int| 0 <= i < j < bugs.len() ==> !(#[trigger] bugs[i] && #[trigger] bugs[j]),
        clusters_spec(issues, ages, bugs, terms, clusters),
    ensures
        clusters.len() == 0,
{
    let (idx, sets, comps, all, picked) = choose|
        idx: Seq<usize>,
        sets: Seq<Seq<Seq<char>>>,
        comps: Seq<Vec<usize>>,
        all: Seq<RecurringBugCluster>,
        picked: Seq<usize>,
    | #[trigger] clusters_witness(issues, ages, bugs, terms, clusters, idx, sets, comps, all, picked);
    if idx.len() >= 2 {
        assert(idx[0] < idx[1]);
        assert(bugs[idx[0] as int] && bugs[idx[1] as int]);
    }
}


// ---------------------------------------------------------------------
// One answer
// ---------------------------------------------------------------------
pub open spec fn increasing(s: Seq<usize>) -> bool {
    forall|a: int, b: int| 0 <= a < b < s.len() ==> #[trigger] s[a] < #[trigger] s[b]
}

proof fn lemma_increasing_same_members(s1: Seq<usize>, s2: Seq<usize>)
    requires
        increasing(s1),
        increasing(s2),
        forall|x: usize| s1.contains(x) <==> s2.contains(x),
    ensures
        s1 == s2,
    decreases s1.len() + s2.len(),
{
    if s1.len() == 0 {
        if s2.len() > 0 {
            assert(s2.contains(s2[0]));
        }
        assert(s1 =~= s2);
    } else if s2.len() == 0 {
        assert(s1.contains(s1[0]));
    } else {
        let n1 = s1.len() - 1;
        let n2 = s2.len() - 1;
        let m1 = s1[n1];
        let m2 = s2[n2];
        assert(s1.contains(m1));
        assert(s2.contains(m2));
        let j = choose|j: int| 0 <= j < s2.len() && s2[j] == m1;
        let i = choose|i: int| 0 <= i < s1.len() && s1[i] == m2;
        if j < n2 {
            assert(s2[j] < s2[n2]);
        }
        if i < n1 {
            assert(s1[i] < s1[n1]);
        }
        assert(m1 == m2);
        let t1 = s1.drop_last();
        let t2 = s2.drop_last();
        assert forall|x: usize| t1.contains(x) <==> t2.contains(x) by {
            if t1.contains(x) {
                let a = choose|a: int| 0 <= a < t1.len() && t1[a] == x;
                assert(s1[a] < s1[n1]);
                assert(s1.contains(x));
                let b = choose|b: int| 0 <= b < s2.len() && s2[b] == x;
                assert(b != n2);
                assert(t2[b] == x);
            }
            if t2.contains(x) {
                let a = choose|a: int| 0 <= a < t2.len() && t2[a] == x;
                assert(s2[a] < s2[n2]);
                assert(s2.contains(x));
                let b = choose|b: int| 0 <= b < s1.len() && s1[b] == x;
                assert(b != n1);
                assert(t1[b] == x);
            }
        }
        lemma_increasing_same_members(t1, t2);
        assert(s1 =~= t1.push(m1));
        assert(s2 =~= t2.push(m2));
    }
}

proof fn lemma_top_agree(keys: Seq<(i64, i64)>, eligible: Seq<bool>, k: int, p1: Seq<usize>, p2: Seq<usize>, n: int)
    requires
        is_top(keys, eligible, k, p1),
        is_top(keys, eligible, k, p2),
        0 <= n <= p1.len(),
        n <= p2.len(),
    ensures
        forall|i: int| 0 <= i < n ==> p1[i] == p2[i],
    decreases n,
{
    if n > 0 {
        lemma_top_agree(keys, eligible, k, p1, p2, n - 1);
        let a = n - 1;
        let u = p1[a];
        let v = p2[a];
        if u != v {
            if key_before(keys, u as int, v as int) {
                if p2.contains(u) {
                    let b = choose|b: int| 0 <= b < p2.len() && p2[b] == u;
                    if b < a {
                        assert(p1[b] == u);
                        assert(key_before(keys, p1[b] as int, p1[a] as int));
                    } else if b > a {
                        assert(key_before(keys, p2[a] as int, p2[b] as int));
                    }
                } else {
                    assert(key_before(keys, p2[a] as int, u as int));
                }
            } else {
                assert(key_before(keys, v as int, u as int));
                if p1.contains(v) {
                    let b = choose|b: int| 0 <= b < p1.len() && p1[b] == v;
                    if b < a {
                        assert(p2[b] == v);
                        assert(key_before(keys, p2[b] as int, p2[a] as int));
                    } else if b > a {
                        assert(key_before(keys, p1[a] as int, p1[b] as int));
                    }
                } else {
                    assert(key_before(keys, p1[a] as int, v as int));
                }
            }
        }
    }
}

/// `is_top` admits one list.
pub proof fn lemma_top_unique(keys: Seq<(i64, i64)>, eligible: Seq<bool>, k: int, p1: Seq<usize>, p2: Seq<usize>)
    requires
        is_top(keys, eligible, k, p1),
        is_top(keys, eligible, k, p2),
    ensures
        p1 == p2,
{
    if p1.len() < p2.len() {
        lemma_top_agree(keys, eligible, k, p1, p2, p1.len() as int);
        let n = p1.len() as int;
        let v = p2[n];
        if p1.contains(v) {
            let b = choose|b: int| 0 <= b < p1.len() && p1[b] == v;
            assert(p2[b] == v);
            assert(key_before(keys, p2[b] as int, p2[n] as int));
        }
    } else if p2.len() < p1.len() {
        lemma_top_agree(keys, eligible, k, p1, p2, p2.len() as int);
        let n = p2.len() as int;
        let v = p1[n];
        if p2.contains(v) {
            let b = choose|b: int| 0 <= b < p2.len() && p2[b] == v;
            assert(p1[b] == v);
            assert(key_before(keys, p1[b] as int, p1[n] as int));
        }
    } else {
        lemma_top_agree(keys, eligible, k, p1, p2, p1.len() as int);
        assert(p1 =~= p2);
    }
}

proof fn lemma_term_before_order(ms: Seq<Seq<Seq<char>>>, t: Seq<char>, u: Seq<char>)
    ensures
        !term_before(ms, t, t),
        term_before(ms, t, u) ==> !term_before(ms, u, t),
        t != u ==> term_before(ms, t, u) || term_before(ms, u, t),
{
    lemma_lex_irreflexive(t);
    lemma_lex_asymmetric(t, u);
    lemma_lex_total(t, u);
}

proof fn lemma_top_terms_agree(ms: Seq<Seq<Seq<char>>>, r1: Seq<Seq<char>>, r2: Seq<Seq<char>>, n: int)
    requires
        is_top_terms(ms, r1),
        is_top_terms(ms, r2),
        0 <= n <= r1.len(),
        n <= r2.len(),
    ensures
        forall|i: int| 0 <= i < n ==> r1[i] == r2[i],
    decreases n,
{
    if n > 0 {
        lemma_top_terms_agree(ms, r1, r2, n - 1);
        let a = n - 1;
        let u = r1[a];
        let v = r2[a];
        lemma_term_before_order(ms, u, v);
        lemma_term_before_order(ms, v, u);
        if u != v {
            if term_before(ms, u, v) {
                assert(term_count(ms, r1[a]) >= 2);
                if r2.contains(u) {
                    let b = choose|b: int| 0 <= b < r2.len() && r2[b] == u;
                    if b < a {
                        assert(r1[b] == u);
                        assert(term_before(ms, r1[b], r1[a]));
                    } else if b > a {
                        assert(term_before(ms, r2[a], r2[b]));
                    }
                } else {
                    assert(term_before(ms, r2[a], u));
                }
            } else {
                assert(term_count(ms, r2[a]) >= 2);
                if r1.contains(v) {
                    let b = choose|b: int| 0 <= b < r1.len() && r1[b] == v;
                    if b < a {
                        assert(r2[b] == v);
                        assert(term_before(ms, r2[b], r2[a]));
                    } else if b > a {
                        assert(term_before(ms, r1[a], r1[b]));
                    }
                } else {
                    assert(term_before(ms, r1[a], v));
                }
            }
        }
    }
}

/// `is_top_terms` admits one list.
proof fn lemma_top_terms_unique(ms: Seq<Seq<Seq<char>>>, r1: Seq<Seq<char>>, r2: Seq<Seq<char>>)
    requires
        is_top_terms(ms, r1),
        is_top_terms(ms, r2),
    ensures
        r1 == r2,
{
    if r1.len() < r2.len() {
        lemma_top_terms_agree(ms, r1, r2, r1.len() as int);
        let n = r1.len() as int;
        let v = r2[n];
        assert(term_count(ms, r2[n]) >= 2);
        lemma_term_before_order(ms, v, v);
        if r1.contains(v) {
            let b = choose|b: int| 0 <= b < r1.len() && r1[b] == v;
            assert(r2[b] == v);
            assert(term_before(ms, r2[b], r2[n]));
        }
    } else if r2.len() < r1.len() {
        lemma_top_terms_agree(ms, r1, r2, r2.len() as int);
        let n = r2.len() as int;
        let v = r1[n];
        assert(term_count(ms, r1[n]) >= 2);
        lemma_term_before_order(ms, v, v);
        if r2.contains(v) {
            let b = choose|b: int| 0 <= b < r2.len() && r2[b] == v;
            assert(r1[b] == v);
            assert(term_before(ms, r1[b], r1[n]));
        }
    } else {
        lemma_top_terms_agree(ms, r1, r2, r1.len() as int);
        assert(r1 =~= r2);
    }
}


proof fn lemma_connected_symmetric(sets: Seq<Seq<Seq<char>>>, a: int, b: int)
    requires
        connected(sets, a, b),
    ensures
        connected(sets, b, a),
{
    let path = choose|path: Seq<int>| is_path(sets, path) && path[0] == a && path.last() == b;
    let n = path.len() as int;
    let rp = Seq::new(path.len(), |k: int| path[n - 1 - k]);
    if n > 1 {
        assert(linked(sets, path[n - 2], path[n - 1]));
    }
    assert forall|k: int| 0 <= k < rp.len() - 1 implies linked(sets, #[trigger] rp[k], rp[k + 1]) by {
        let j = n - 2 - k;
        assert(linked(sets, path[j], path[j + 1]));
        lemma_linked_symmetric(sets, path[j], path[j + 1]);
    }
    assert(is_path(sets, rp) && rp[0] == b && rp.last() == a);
}

/// The first report of each group.
pub open spec fn firsts(comps: Seq<Vec<usize>>) -> Seq<usize> {
    Seq::new(comps.len(), |c: int| comps[c]@[0])
}

proof fn lemma_first_found(sets: Seq<Seq<Seq<char>>>, c1s: Seq<Vec<usize>>, c2s: Seq<Vec<usize>>, c: int)
    requires
        big_components(sets, c1s),
        big_components(sets, c2s),
        0 <= c < c1s.len(),
    ensures
        firsts(c2s).contains(c1s[c]@[0]),
{
    let comp = c1s[c]@;
    assert(is_component(sets, comp) && comp.len() >= 2);
    let r = comp[0];
    assert(comp[0] != comp[1]);
    assert(connected(sets, r as int, comp[1] as int));
    let path = choose|path: Seq<int>| is_path(sets, path) && path[0] == r as int && path.last() == comp[1] as int;
    assert(path.len() >= 2);
    assert(linked(sets, path[0], path[1]));
    let d = choose|d: int| 0 <= d < c2s.len() && #[trigger] c2s[d]@.contains(path[0] as usize);
    let comp2 = c2s[d]@;
    assert(is_component(sets, comp2));
    let a = choose|a: int| 0 <= a < comp2.len() && comp2[a] == r;
    let q = comp2[0];
    assert(q <= comp2[a] && connected(sets, q as int, comp2[a] as int));
    lemma_connected_symmetric(sets, q as int, r as int);
    assert(q < sets.len());
    assert(comp.contains(q));
    let b = choose|b: int| 0 <= b < comp.len() && comp[b] == q;
    assert(comp[0] <= comp[b]);
    assert(firsts(c2s)[d] == r);
}

/// The groups of two or more linked reports are determined by the links.
proof fn lemma_comps_unique(sets: Seq<Seq<Seq<char>>>, c1s: Seq<Vec<usize>>, c2s: Seq<Vec<usize>>)
    requires
        big_components(sets, c1s),
        big_components(sets, c2s),
    ensures
        c1s.len() == c2s.len(),
        forall|c: int| 0 <= c < c1s.len() ==> #[trigger] c1s[c]@ == c2s[c]@,
{
    let f1 = firsts(c1s);
    let f2 = firsts(c2s);
    assert forall|a: int, b: int| 0 <= a < b < f1.len() implies #[trigger] f1[a] < #[trigger] f1[b] by {
        assert(c1s[a]@[0] < c1s[b]@[0]);
    }
    assert forall|a: int, b: int| 0 <= a < b < f2.len() implies #[trigger] f2[a] < #[trigger] f2[b] by {
        assert(c2s[a]@[0] < c2s[b]@[0]);
    }
    assert forall|x: usize| f1.contains(x) <==> f2.contains(x) by {
        if f1.contains(x) {
            let c = choose|c: int| 0 <= c < f1.len() && f1[c] == x;
            lemma_first_found(sets, c1s, c2s, c);
        }
        if f2.contains(x) {
            let c = choose|c: int| 0 <= c < f2.len() && f2[c] == x;
            lemma_first_found(sets, c2s, c1s, c);
        }
    }
    lemma_increasing_same_members(f1, f2);
    assert forall|c: int| 0 <= c < c1s.len() implies #[trigger] c1s[c]@ == c2s[c]@ by {
        assert(f1[c] == f2[c]);
        assert(c1s[c]@ == walk_order(sets, c1s[c]@[0] as int));
        assert(c2s[c]@ == walk_order(sets, c2s[c]@[0] as int));
    }
}

pub type SampleView = (u32, Seq<char>, Seq<char>, Seq<char>, i64, u32);

/// An example issue by its values.
pub open spec fn sample_view(s: IssueSample) -> SampleView {
    (s.number, s.title@, s.url@, s.updated_at@, s.age_days, s.comments)
}

pub type ClusterView = (Seq<char>, u32, Seq<Seq<char>>, Seq<SampleView>);

/// A cluster by its values.
pub open spec fn cluster_view(c: RecurringBugCluster) -> ClusterView {
    (c.label@, c.issue_count, c.shared_terms.deep_view(), c.examples@.map_values(|e: IssueSample| sample_view(e)))
}

pub open spec fn cluster_views(cs: Seq<RecurringBugCluster>) -> Seq<ClusterView> {
    cs.map_values(|c: RecurringBugCluster| cluster_view(c))
}

proof fn lemma_cluster_unique(
    cl1: RecurringBugCluster,
    cl2: RecurringBugCluster,
    issues: Seq<GitHubIssue>,
    ages: Seq<i64>,
    bug_idx: Seq<usize>,
    sets: Seq<Seq<Seq<char>>>,
    comp: Seq<usize>,
)
    requires
        cluster_matches(cl1, issues, ages, bug_idx, sets, comp),
        cluster_matches(cl2, issues, ages, bug_idx, sets, comp),
    ensures
        cluster_view(cl1) == cluster_view(cl2),
{
    lemma_top_terms_unique(member_sets(sets, comp), cl1.shared_terms.deep_view(), cl2.shared_terms.deep_view());
    let keys = example_keys(issues, ages, bug_idx, comp);
    let p1 = choose|p: Seq<usize>|
        {
            &&& is_top(keys, all_true(comp.len()), 3, p)
            &&& cl1.examples@.len() == p.len()
            &&& forall|a: int|
                0 <= a < p.len() ==> {
                    let g = bug_idx[comp[p[a] as int] as int] as int;
                    is_sample_of(#[trigger] cl1.examples@[a], issues[g], ages[g])
                }
        };
    let p2 = choose|p: Seq<usize>|
        {
            &&& is_top(keys, all_true(comp.len()), 3, p)
            &&& cl2.examples@.len() == p.len()
            &&& forall|a: int|
                0 <= a < p.len() ==> {
                    let g = bug_idx[comp[p[a] as int] as int] as int;
                    is_sample_of(#[trigger] cl2.examples@[a], issues[g], ages[g])
                }
        };
    lemma_top_unique(keys, all_true(comp.len()), 3, p1, p2);
    let e1 = cl1.examples@.map_values(|e: IssueSample| sample_view(e));
    let e2 = cl2.examples@.map_values(|e: IssueSample| sample_view(e));
    assert forall|a: int| 0 <= a < e1.len() implies #[trigger] e1[a] == e2[a] by {
        let g = bug_idx[comp[p1[a] as int] as int] as int;
        assert(is_sample_of(cl1.examples@[a], issues[g], ages[g]));
        assert(is_sample_of(cl2.examples@[a], issues[g], ages[g]));
    }
    assert(e1 =~= e2);
}

/// The recurring bug clusters of a sample are determined by it: every
/// cluster list that fits a sample has the same clusters, in the same
/// order, with the same labels, terms and examples.
pub proof fn law_clusters_are_determined(
    issues: Seq<GitHubIssue>,
    ages: Seq<i64>,
    bugs: Seq<bool>,
    terms: Seq<Seq<Seq<char>>>,
    clusters1: Seq<RecurringBugCluster>,
    clusters2: Seq<RecurringBugCluster>,
)
    requires
        clusters_spec(issues, ages, bugs, terms, clusters1),
        clusters_spec(issues, ages, bugs, terms, clusters2),
    ensures
        cluster_views(clusters1) == cluster_views(clusters2),
{
    let (idx1, sets1, comps1, all1, picked1) = choose|
        idx: Seq<usize>,
        sets: Seq<Seq<Seq<char>>>,
        comps: Seq<Vec<usize>>,
        all: Seq<RecurringBugCluster>,
        picked: Seq<usize>,
    | #[trigger] clusters_witness(issues, ages, bugs, terms, clusters1, idx, sets, comps, all, picked);
    let (idx2, sets2, comps2, all2, picked2) = choose|
        idx: Seq<usize>,
        sets: Seq<Seq<Seq<char>>>,
        comps: Seq<Vec<usize>>,
        all: Seq<RecurringBugCluster>,
        picked: Seq<usize>,
    | #[trigger] clusters_witness(issues, ages, bugs, terms, clusters2, idx, sets, comps, all, picked);
    assert forall|x: usize| idx1.contains(x) <==> idx2.contains(x) by {
        if idx1.contains(x) {
            let a = choose|a: int| 0 <= a < idx1.len() && idx1[a] == x;
            assert(x < bugs.len() && bugs[x as int]);
        }
        if idx2.contains(x) {
            let a = choose|a: int| 0 <= a < idx2.len() && idx2[a] == x;
            assert(x < bugs.len() && bugs[x as int]);
        }
    }
    lemma_increasing_same_members(idx1, idx2);
    assert forall|m: int| 0 <= m < sets1.len() implies #[trigger] sets1[m] == sets2[m] by {
        assert(sets1[m] == distinct_terms(terms[idx1[m] as int]));
        assert(sets2[m] == distinct_terms(terms[idx2[m] as int]));
    }
    assert(sets1 =~= sets2);
    if idx1.len() >= 2 {
        lemma_comps_unique(sets1, comps1, comps2);
        assert forall|c: int| 0 <= c < all1.len() implies #[trigger] cluster_view(all1[c]) == cluster_view(all2[c]) by {
            assert(comps1[c]@ == comps2[c]@);
            assert(cluster_matches(all1[c], issues, ages, idx1, sets1, comps1[c]@));
            assert(cluster_matches(all2[c], issues, ages, idx2, sets2, comps2[c]@));
            lemma_cluster_unique(all1[c], all2[c], issues, ages, idx1, sets1, comps1[c]@);
        }
        assert forall|c: int| 0 <= c < all1.len() implies #[trigger] cluster_keys(all1)[c] == cluster_keys(all2)[c] by {
            assert(cluster_view(all1[c]) == cluster_view(all2[c]));
            let e1 = all1[c].examples@.map_values(|e: IssueSample| sample_view(e));
            let e2 = all2[c].examples@.map_values(|e: IssueSample| sample_view(e));
            assert(e1.len() == e2.len());
            if e1.len() > 0 {
                assert(e1[0] == e2[0]);
            }
        }
        assert(cluster_keys(all1) =~= cluster_keys(all2));
        lemma_top_unique(cluster_keys(all1), all_true(all1.len()), 3, picked1, picked2);
        assert forall|a: int| 0 <= a < clusters1.len() implies #[trigger] cluster_views(clusters1)[a]
            == cluster_views(clusters2)[a] by {
            assert(clusters1[a] == all1[picked1[a] as int]);
            assert(clusters2[a] == all2[picked2[a] as int]);
            assert(picked1[a] < all1.len());
        }
    }
    assert(cluster_views(clusters1) =~= cluster_views(clusters2));
}


} // verus!
