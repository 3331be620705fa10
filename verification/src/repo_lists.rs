//! Allowlist, denylist and opt-out lists: normalising what users type,
//! reading stored rows back, and deciding which repositories a scan may touch.
use crate::models::RepoListItem;
use crate::text::{
    chars_eq, chars_of, copy_chars, extend_chars, is_ws, lemma_filter_keeps, lemma_filter_step,
    lemma_split_joined, lemma_split_nonempty, lemma_split_pieces_lack_sep, lemma_split_without_sep,
    lemma_trim_end_prefix, lemma_trim_start_suffix, lower, lower_char,
    lower_chars, split_chars, split_on, string_from, to_ascii_lowercase, trim, trim_chars,
    trim_end, trim_start, trim_str, views,
};
use vstd::prelude::*;

verus! {

// ---------------------------------------------------------------------
// List types
// ---------------------------------------------------------------------
/// The canonical list type for what a user typed: trimmed and ASCII
/// lower-cased, `allowlist`; `denylist` or `blocklist`; `opt_out`, `opt-out`
/// or `optout`. Anything else has none.
pub open spec fn list_type_of(value: Seq<char>) -> Option<Seq<char>> {
    let v = lower(trim(value));
    if v == "allowlist"@ {
        Some("allowlist"@)
    } else if v == "denylist"@ || v == "blocklist"@ {
        Some("denylist"@)
    } else if v == "opt_out"@ || v == "opt-out"@ || v == "optout"@ {
        Some("opt_out"@)
    } else {
        None
    }
}

/// A word of lower-case letters and punctuation other than spaces is its
/// own trimmed, lower-cased form.
proof fn lemma_plain_word(w: Seq<char>)
    requires
        w.len() > 0,
        forall|i: int| 0 <= i < w.len() ==> ('a' <= #[trigger] w[i] <= 'z' || w[i] == '_' || w[i] == '-'),
    ensures
        lower(trim(w)) == w,
{
    assert(trim_start(w) == w);
    assert(trim_end(w) == w);
    assert(lower(w) =~= w);
}

/// A canonical list type is its own canonical form.
pub proof fn law_list_type_canonical(value: Seq<char>)
    ensures
        list_type_of(value) matches Some(t) ==> list_type_of(t) == Some(t),
{
    reveal_strlit("allowlist");
    reveal_strlit("denylist");
    reveal_strlit("opt_out");
    reveal_strlit("blocklist");
    reveal_strlit("opt-out");
    reveal_strlit("optout");
    lemma_plain_word("allowlist"@);
    lemma_plain_word("denylist"@);
    lemma_plain_word("opt_out"@);
}

pub open spec fn opt_str_view(o: Option<&str>) -> Option<Seq<char>> {
    match o {
        Some(s) => Some(s@),
        None => None,
    }
}

fn eq_lit(v: &Vec<char>, lit: &str) -> (r: bool)
    ensures
        r == (v@ == lit@),
{
    let l = chars_of(lit);
    chars_eq(v, &l)
}

pub fn normalize_repo_list_type(value: &str) -> (list_type: Option<&'static str>)
    ensures
        opt_str_view(list_type) == list_type_of(value@),
{
    let t = trim_str(value);
    let v = lower_chars(&t);
    if eq_lit(&v, "allowlist") {
        Some("allowlist")
    } else if eq_lit(&v, "denylist") || eq_lit(&v, "blocklist") {
        Some("denylist")
    } else if eq_lit(&v, "opt_out") || eq_lit(&v, "opt-out") || eq_lit(&v, "optout") {
        Some("opt_out")
    } else {
        None
    }
}

// ---------------------------------------------------------------------
// Repository names
// ---------------------------------------------------------------------
pub open spec fn nonempty_piece() -> spec_fn(Seq<char>) -> bool {
    |p: Seq<char>| p.len() > 0
}

pub open spec fn clean_piece(p: Seq<char>) -> Seq<char> {
    lower(trim(p))
}

/// The non-empty, trimmed, lower-cased pieces of a name split on `/`.
pub open spec fn repo_name_parts(value: Seq<char>) -> Seq<Seq<char>> {
    split_on(trim(value), '/').map_values(|p: Seq<char>| clean_piece(p)).filter(nonempty_piece())
}

/// `owner/repo` when the name has exactly two non-empty pieces.
pub open spec fn normalized_repo(value: Seq<char>) -> Option<Seq<char>> {
    let parts = repo_name_parts(value);
    if parts.len() == 2 {
        Some(parts[0] + seq!['/'] + parts[1])
    } else {
        None
    }
}

/// A piece of a normalised name: not empty, without `/`, without
/// surrounding whitespace, lower case.
pub open spec fn is_clean_piece(x: Seq<char>) -> bool {
    &&& x.len() > 0
    &&& forall|j: int| 0 <= j < x.len() ==> x[j] != '/'
    &&& !is_ws(x[0])
    &&& !is_ws(x.last())
    &&& lower(x) == x
}

proof fn lemma_lower_char(c: char)
    ensures
        lower_char(lower_char(c)) == lower_char(c),
        (lower_char(c) == '/') == (c == '/'),
        is_ws(lower_char(c)) == is_ws(c),
{
}

proof fn lemma_clean_piece(p: Seq<char>)
    requires
        forall|j: int| 0 <= j < p.len() ==> p[j] != '/',
        clean_piece(p).len() > 0,
    ensures
        is_clean_piece(clean_piece(p)),
{
    let ts = trim_start(p);
    let t = trim(p);
    lemma_trim_start_suffix(p);
    lemma_trim_end_prefix(ts);
    let off = p.len() - ts.len();
    assert forall|j: int| 0 <= j < t.len() implies t[j] == p[off + j] by {
        assert(t[j] == ts[j]);
    }
    let a = clean_piece(p);
    assert(t[0] == ts[0]);
    assert forall|j: int| 0 <= j < a.len() implies a[j] != '/' by {
        lemma_lower_char(t[j]);
        assert(t[j] == p[off + j]);
    }
    lemma_lower_char(t[0]);
    lemma_lower_char(t.last());
    assert(a.last() == lower_char(t.last()));
    assert forall|j: int| 0 <= j < a.len() implies #[trigger] lower(a)[j] == a[j] by {
        lemma_lower_char(t[j]);
    }
    assert(lower(a) =~= a);
}

/// Every piece of a normalised name is clean.
proof fn lemma_parts_clean(v: Seq<char>)
    ensures
        forall|i: int| 0 <= i < repo_name_parts(v).len() ==> is_clean_piece(#[trigger] repo_name_parts(v)[i]),
{
    let pieces = split_on(trim(v), '/');
    lemma_split_pieces_lack_sep(trim(v), '/');
    let cleaned = pieces.map_values(|p: Seq<char>| clean_piece(p));
    assert forall|i: int| 0 <= i < cleaned.len() && nonempty_piece()(cleaned[i]) implies is_clean_piece(
        #[trigger] cleaned[i],
    ) by {
        assert forall|j: int| 0 <= j < pieces[i].len() implies pieces[i][j] != '/' by {
            assert(split_on(trim(v), '/')[i][j] != '/');
        }
        lemma_clean_piece(pieces[i]);
    }
    lemma_filter_keeps(cleaned, nonempty_piece(), |x: Seq<char>| is_clean_piece(x));
}

/// Two clean pieces joined by `/` are a normalised name.
proof fn lemma_join_clean(a: Seq<char>, b: Seq<char>)
    requires
        is_clean_piece(a),
        is_clean_piece(b),
    ensures
        normalized_repo(a + seq!['/'] + b) == Some(a + seq!['/'] + b),
{
    let n = a + seq!['/'] + b;
    assert(n[0] == a[0]);
    assert(n.last() == b.last());
    assert(trim_start(n) == n);
    assert(trim_end(n) == n);
    assert(trim_start(a) == a && trim_end(a) == a);
    assert(trim_start(b) == b && trim_end(b) == b);
    lemma_split_without_sep(a, '/');
    lemma_split_joined(a, b, '/');
    assert(split_on(n, '/') == seq![a, b]);
    let cleaned = seq![a, b].map_values(|p: Seq<char>| clean_piece(p));
    assert(cleaned =~= seq![a, b]);
    assert(seq![a, b].filter(nonempty_piece()) =~= seq![a, b]) by {
        reveal_with_fuel(Seq::filter, 3);
        assert(seq![a, b].drop_last() =~= seq![a]);
        assert(seq![a].drop_last() =~= Seq::<Seq<char>>::empty());
    }
}

/// A normalised repository name normalises to itself, so a stored name can
/// be looked up again.
pub proof fn law_normalized_name_is_fixed(value: Seq<char>)
    ensures
        normalized_repo(value) matches Some(n) ==> normalized_repo(n) == Some(n),
{
    let parts = repo_name_parts(value);
    if parts.len() == 2 {
        lemma_parts_clean(value);
        assert(is_clean_piece(parts[0]));
        assert(is_clean_piece(parts[1]));
        lemma_join_clean(parts[0], parts[1]);
    }
}

pub open spec fn opt_string_view(o: Option<String>) -> Option<Seq<char>> {
    match o {
        Some(s) => Some(s@),
        None => None,
    }
}

pub fn normalize_repo_name(value: &str) -> (name: Option<String>)
    ensures
        opt_string_view(name) == normalized_repo(value@),
{
    let t = trim_str(value);
    let pieces = split_chars(&t, '/');
    let ghost cleaned = split_on(trim(value@), '/').map_values(|p: Seq<char>| clean_piece(p));
    let ghost pred = nonempty_piece();
    let mut parts: Vec<Vec<char>> = Vec::new();
    let mut i: usize = 0;
    assert(cleaned.subrange(0, 0).filter(pred) =~= Seq::<Seq<char>>::empty()) by {
        reveal(Seq::filter);
    }
    while i < pieces.len()
        invariant
            views(pieces@) == split_on(trim(value@), '/'),
            cleaned == split_on(trim(value@), '/').map_values(|p: Seq<char>| clean_piece(p)),
            pred == nonempty_piece(),
            i <= pieces@.len(),
            views(parts@) == cleaned.subrange(0, i as int).filter(pred),
        decreases pieces@.len() - i,
    {
        proof {
            lemma_filter_step(cleaned, pred, i as int);
        }
        assert(views(pieces@)[i as int] == pieces@[i as int]@);
        let tp = trim_chars(&pieces[i]);
        let lp = lower_chars(&tp);
        assert(lp@ == cleaned[i as int]);
        if lp.len() > 0 {
            let ghost before = parts@;
            parts.push(lp);
            assert(views(parts@) =~= views(before).push(cleaned[i as int]));
        }
        i += 1;
    }
    assert(cleaned.subrange(0, cleaned.len() as int) =~= cleaned);
    if parts.len() != 2 {
        return None;
    }
    let mut out: Vec<char> = Vec::new();
    extend_chars(&mut out, &parts[0]);
    out.push('/');
    extend_chars(&mut out, &parts[1]);
    assert(views(parts@)[0] == parts@[0]@ && views(parts@)[1] == parts@[1]@);
    assert(out@ =~= repo_name_parts(value@)[0] + seq!['/'] + repo_name_parts(value@)[1]);
    Some(string_from(&out))
}

// ---------------------------------------------------------------------
// Stored rows
// ---------------------------------------------------------------------
/// A stored list type read back: its canonical form, or `denylist` when
/// it is not one of the known spellings.
pub open spec fn stored_list_type(value: Seq<char>) -> Seq<char> {
    match list_type_of(value) {
        Some(t) => t,
        None => "denylist"@,
    }
}

/// The rows of the `repo_lists` table as the API lists them: the same rows
/// in the same order, each list type put in canonical form.
pub fn list_repo_lists(rows: Vec<RepoListItem>) -> (items: Vec<RepoListItem>)
    ensures
        items@.len() == rows@.len(),
        forall|i: int|
            0 <= i < rows@.len() ==> {
                &&& (#[trigger] items@[i]).repo == rows@[i].repo
                &&& items@[i].added_at == rows@[i].added_at
                &&& items@[i].list_type@ == stored_list_type(rows@[i].list_type@)
            },
{
    let mut items: Vec<RepoListItem> = Vec::new();
    let mut rest = rows;
    let ghost given = rest@;
    let mut reversed: Vec<RepoListItem> = Vec::new();
    // Take the rows from the back, then put them back in order.
    while rest.len() > 0
        invariant
            rest@.len() + reversed@.len() == given.len(),
            forall|i: int| 0 <= i < rest@.len() ==> #[trigger] rest@[i] == given[i],
            forall|k: int|
                0 <= k < reversed@.len() ==> {
                    let i = given.len() - 1 - k;
                    &&& (#[trigger] reversed@[k]).repo == given[i].repo
                    &&& reversed@[k].added_at == given[i].added_at
                    &&& reversed@[k].list_type@ == stored_list_type(given[i].list_type@)
                },
        decreases rest@.len(),
    {
        let row = rest.pop().unwrap();
        let list_type = match normalize_repo_list_type(row.list_type.as_str()) {
            Some(t) => String::from_str(t),
            None => String::from_str("denylist"),
        };
        reversed.push(RepoListItem { repo: row.repo, list_type, added_at: row.added_at });
    }
    while reversed.len() > 0
        invariant
            items@.len() + reversed@.len() == given.len(),
            forall|k: int|
                0 <= k < reversed@.len() ==> {
                    let i = given.len() - 1 - k;
                    &&& (#[trigger] reversed@[k]).repo == given[i].repo
                    &&& reversed@[k].added_at == given[i].added_at
                    &&& reversed@[k].list_type@ == stored_list_type(given[i].list_type@)
                },
            forall|i: int|
                0 <= i < items@.len() ==> {
                    &&& (#[trigger] items@[i]).repo == given[i].repo
                    &&& items@[i].added_at == given[i].added_at
                    &&& items@[i].list_type@ == stored_list_type(given[i].list_type@)
                },
        decreases reversed@.len(),
    {
        let item = reversed.pop().unwrap();
        items.push(item);
    }
    items
}

/// The distinct repositories of the rows whose list type is exactly `kind`.
pub open spec fn repos_of_kind(rows: Seq<RepoListItem>, kind: Seq<char>, repo: Seq<char>) -> bool {
    exists|i: int| 0 <= i < rows.len() && rows[i].list_type@ == kind && #[trigger] rows[i].repo@ == repo
}

pub open spec fn no_duplicates(s: Seq<Seq<char>>) -> bool {
    forall|i: int, j: int| 0 <= i < j < s.len() ==> s[i] != s[j]
}

fn contains_string(v: &Vec<String>, x: &String) -> (r: bool)
    ensures
        r == v.deep_view().contains(x@),
{
    let mut i: usize = 0;
    while i < v.len()
        invariant
            i <= v@.len(),
            forall|k: int| 0 <= k < i ==> v.deep_view()[k] != x@,
        decreases v@.len() - i,
    {
        assert(v.deep_view()[i as int] == v@[i as int]@);
        if v[i] == *x {
            assert(v.deep_view()[i as int] == x@);
            return true;
        }
        i += 1;
    }
    false
}

fn repos_with_type(rows: &Vec<RepoListItem>, kind: &str) -> (repos: Vec<String>)
    ensures
        no_duplicates(repos.deep_view()),
        forall|x: Seq<char>| repos.deep_view().contains(x) <==> repos_of_kind(rows@, kind@, x),
{
    let k = chars_of(kind);
    let mut repos: Vec<String> = Vec::new();
    let mut i: usize = 0;
    while i < rows.len()
        invariant
            i <= rows@.len(),
            k@ == kind@,
            no_duplicates(repos.deep_view()),
            forall|x: Seq<char>|
                repos.deep_view().contains(x) <==> repos_of_kind(
                    rows@.subrange(0, i as int),
                    kind@,
                    x,
                ),
        decreases rows@.len() - i,
    {
        let row = &rows[i];
        let lt = chars_of(row.list_type.as_str());
        let ghost pre = rows@.subrange(0, i as int);
        let ghost post = rows@.subrange(0, i + 1);
        assert forall|x: Seq<char>| repos_of_kind(pre, kind@, x) implies repos_of_kind(post, kind@, x) by {
            let j = choose|j: int| 0 <= j < pre.len() && pre[j].list_type@ == kind@ && #[trigger] pre[j].repo@ == x;
            assert(post[j] == pre[j]);
        }
        if chars_eq(&lt, &k) && !contains_string(&repos, &row.repo) {
            let ghost before = repos.deep_view();
            repos.push(row.repo.clone());
            assert(repos.deep_view() =~= before.push(row.repo@));
            assert forall|x: Seq<char>| repos.deep_view().contains(x) <==> repos_of_kind(post, kind@, x) by {
                if repos_of_kind(post, kind@, x) {
                    let j = choose|j: int| 0 <= j < post.len() && post[j].list_type@ == kind@ && #[trigger] post[j].repo@ == x;
                    if j < i {
                        assert(pre[j] == post[j]);
                        assert(before.contains(x));
                        let m = choose|m: int| 0 <= m < before.len() && before[m] == x;
                        assert(repos.deep_view()[m] == x);
                    } else {
                        assert(repos.deep_view()[before.len() as int] == x);
                    }
                }
                if repos.deep_view().contains(x) {
                    let m = choose|m: int| 0 <= m < repos.deep_view().len() && repos.deep_view()[m] == x;
                    if m < before.len() {
                        assert(before[m] == x);
                        assert(before.contains(x));
                    } else {
                        assert(post[i as int].repo@ == x);
                    }
                }
            }
        } else {
            assert forall|x: Seq<char>| repos.deep_view().contains(x) <==> repos_of_kind(post, kind@, x) by {
                if repos_of_kind(post, kind@, x) {
                    let j = choose|j: int| 0 <= j < post.len() && post[j].list_type@ == kind@ && #[trigger] post[j].repo@ == x;
                    if j < i {
                        assert(pre[j] == post[j]);
                    } else {
                        assert(row.list_type@ == kind@);
                        assert(repos.deep_view().contains(row.repo@));
                    }
                }
            }
        }
        i += 1;
    }
    assert(rows@.subrange(0, rows@.len() as int) =~= rows@);
    repos
}

/// The allowlisted, denylisted and opted-out repositories of the stored
/// rows, each without repetition.
pub fn repo_list_sets(rows: &Vec<RepoListItem>) -> (sets: (Vec<String>, Vec<String>, Vec<String>))
    ensures
        no_duplicates(sets.0.deep_view()),
        no_duplicates(sets.1.deep_view()),
        no_duplicates(sets.2.deep_view()),
        forall|x: Seq<char>| sets.0.deep_view().contains(x) <==> repos_of_kind(rows@, "allowlist"@, x),
        forall|x: Seq<char>| sets.1.deep_view().contains(x) <==> repos_of_kind(rows@, "denylist"@, x),
        forall|x: Seq<char>| sets.2.deep_view().contains(x) <==> repos_of_kind(rows@, "opt_out"@, x),
{
    let allow = repos_with_type(rows, "allowlist");
    let deny = repos_with_type(rows, "denylist");
    let opt_out = repos_with_type(rows, "opt_out");
    (allow, deny, opt_out)
}

// ---------------------------------------------------------------------
// Which repositories a scan may touch
// ---------------------------------------------------------------------
/// A repository may be scanned when its lower-cased name is neither opted
/// out nor denied, and it is allowlisted or the allowlist is empty.
pub open spec fn repo_allowed_spec(
    full_name: Seq<char>,
    allow: Seq<Seq<char>>,
    deny: Seq<Seq<char>>,
    opt_out: Seq<Seq<char>>,
) -> bool {
    let name = lower(full_name);
    !opt_out.contains(name) && !deny.contains(name) && (allow.len() == 0 || allow.contains(name))
}

pub fn repo_allowed(
    full_name: &str,
    allowlist: &Vec<String>,
    denylist: &Vec<String>,
    opt_out: &Vec<String>,
) -> (allowed: bool)
    ensures
        allowed == repo_allowed_spec(
            full_name@,
            allowlist.deep_view(),
            denylist.deep_view(),
            opt_out.deep_view(),
        ),
{
    let name = to_ascii_lowercase(full_name);
    if contains_string(opt_out, &name) || contains_string(denylist, &name) {
        return false;
    }
    allowlist.len() == 0 || contains_string(allowlist, &name)
}

/// The number of rows whose list type is exactly `kind`.
pub open spec fn kind_count(rows: Seq<RepoListItem>, kind: Seq<char>, n: int) -> nat
    decreases n,
{
    if n <= 0 {
        0
    } else {
        kind_count(rows, kind, n - 1) + if rows[n - 1].list_type@ == kind {
            1nat
        } else {
            0nat
        }
    }
}

fn count_kind(rows: &Vec<RepoListItem>, kind: &str) -> (c: usize)
    ensures
        c == kind_count(rows@, kind@, rows@.len() as int),
{
    let k = chars_of(kind);
    let mut c: usize = 0;
    let mut i: usize = 0;
    while i < rows.len()
        invariant
            k@ == kind@,
            i <= rows@.len(),
            c == kind_count(rows@, kind@, i as int),
            c <= i,
        decreases rows@.len() - i,
    {
        let t = chars_of(rows[i].list_type.as_str());
        if chars_eq(&t, &k) {
            c += 1;
        }
        i += 1;
    }
    c
}

/// How many repositories are on the allowlist, the denylist and the
/// opt-out list.
pub fn list_counts(rows: &Vec<RepoListItem>) -> (counts: (usize, usize, usize))
    ensures
        counts.0 == kind_count(rows@, "allowlist"@, rows@.len() as int),
        counts.1 == kind_count(rows@, "denylist"@, rows@.len() as int),
        counts.2 == kind_count(rows@, "opt_out"@, rows@.len() as int),
{
    (count_kind(rows, "allowlist"), count_kind(rows, "denylist"), count_kind(rows, "opt_out"))
}

} // verus!
