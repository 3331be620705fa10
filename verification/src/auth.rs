//! API-key authentication: token hashing, constant-time verification,
//! request gating, key generation and the `.env` line that stores the hash.
use crate::text::{
    chars_eq, chars_of, copy_chars, extend_chars, extend_str, join, join_chars, lemma_filter_step,
    lemma_filter_keeps, lemma_split_nonempty, split_chars, split_on, starts_with, starts_with_chars, string_from, trim,
    trim_chars, views,
};
use sha2::{Digest, Sha256};
use vstd::prelude::*;

verus! {

// ---------------------------------------------------------------------
// Outside functions
// ---------------------------------------------------------------------
/// The SHA-256 digest of a byte sequence, as the `sha2` crate computes it.
pub uninterp spec fn sha256_of(data: Seq<u8>) -> Seq<u8>;

/// Calls `sha2::Sha256` (`new`, `update`, `finalize`). The contract names the
/// digest `sha256_of` of the input bytes and states that it is 32 bytes long,
/// the fixed output size of `Sha256`.
#[verifier::external_body]
fn sha256_digest(data: &[u8]) -> (d: Vec<u8>)
    ensures
        d@ == sha256_of(data@),
        d@.len() == 32,
{
    let mut hasher = Sha256::new();
    hasher.update(data);
    hasher.finalize().to_vec()
}

/// The lowercase hex digit for a nibble.
pub open spec fn hex_digit(n: u8) -> char {
    if n < 10 {
        (48 + n) as char
    } else {
        (87 + n) as char
    }
}

/// Lowercase hex encoding: two digits per byte, high nibble first.
pub open spec fn hex_lower(b: Seq<u8>) -> Seq<char>
    decreases b.len(),
{
    if b.len() == 0 {
        Seq::empty()
    } else {
        seq![hex_digit(b[0] / 16), hex_digit(b[0] % 16)] + hex_lower(b.drop_first())
    }
}

/// Calls `hex::encode`, which writes every byte as two lowercase hex digits,
/// the high nibble first.
#[verifier::external_body]
fn hex_encode(data: &[u8]) -> (s: String)
    ensures
        s@ == hex_lower(data@),
{
    hex::encode(data)
}

pub open spec fn is_lower_hex(c: char) -> bool {
    ('0' <= c && c <= '9') || ('a' <= c && c <= 'f')
}

pub open spec fn is_uuid_hyphen_position(i: int) -> bool {
    i == 8 || i == 13 || i == 18 || i == 23
}

/// The hyphenated lowercase UUID layout: 36 characters, hyphens at
/// positions 8, 13, 18 and 23, lowercase hex digits elsewhere.
pub open spec fn is_uuid_text(u: Seq<char>) -> bool {
    &&& u.len() == 36
    &&& forall|i: int|
        0 <= i < 36 ==> if is_uuid_hyphen_position(i) {
            u[i] == '-'
        } else {
            is_lower_hex(#[trigger] u[i])
        }
}

/// Calls `uuid::Uuid::new_v4` and renders it with `to_string`. The value is
/// random; the contract states only the hyphenated lowercase layout that the
/// crate's `Display` writes.
#[verifier::external_body]
pub(crate) fn new_uuid_v4() -> (u: String)
    ensures
        is_uuid_text(u@),
{
    uuid::Uuid::new_v4().to_string()
}

// ---------------------------------------------------------------------
// Hashing and verification
// ---------------------------------------------------------------------
/// The stored form of an API key: hex of the SHA-256 of its UTF-8 bytes.
pub open spec fn token_hash(token: Seq<char>) -> Seq<char> {
    hex_lower(sha256_of(vstd::utf8::encode_utf8(token)))
}

/// Hex encoding writes two lowercase hex digits per byte.
pub proof fn lemma_hex_lower_shape(b: Seq<u8>)
    ensures
        hex_lower(b).len() == 2 * b.len(),
        forall|k: int| 0 <= k < hex_lower(b).len() ==> is_lower_hex(#[trigger] hex_lower(b)[k]),
    decreases b.len(),
{
    if b.len() > 0 {
        lemma_hex_lower_shape(b.drop_first());
        let head = seq![hex_digit(b[0] / 16), hex_digit(b[0] % 16)];
        let rest = hex_lower(b.drop_first());
        assert forall|n: u8| n < 16 implies is_lower_hex(#[trigger] hex_digit(n)) by {
            if n < 10 {
                assert(((48 + n) as char) as u32 == 48 + n);
            } else {
                assert(((87 + n) as char) as u32 == 87 + n);
            }
        }
        assert(is_lower_hex(hex_digit(b[0] / 16)));
        assert(is_lower_hex(hex_digit(b[0] % 16)));
        assert forall|k: int| 0 <= k < hex_lower(b).len() implies is_lower_hex(#[trigger] hex_lower(b)[k]) by {
            if k >= 2 {
                assert(hex_lower(b)[k] == rest[k - 2]);
            }
        }
    }
}

/// The stored hash of every key is 64 lowercase hex digits: the hex of a
/// 32-byte SHA-256 digest.
pub open spec fn is_key_hash(h: Seq<char>) -> bool {
    h.len() == 64 && forall|k: int| 0 <= k < 64 ==> is_lower_hex(#[trigger] h[k])
}

/// Hashes an API key into the form kept in `SIGNAL_API_KEY_HASH`.
pub fn hash_token(token: &str) -> (h: String)
    ensures
        h@ == token_hash(token@),
        is_key_hash(h@),
{
    let digest = sha256_digest(token.as_bytes());
    let h = hex_encode(digest.as_slice());
    proof {
        lemma_hex_lower_shape(digest@);
    }
    h
}

/// Authentication is on exactly when a key hash is configured.
pub fn auth_enabled(stored_hash: &str) -> (enabled: bool)
    ensures
        enabled == (stored_hash@.len() > 0),
{
    !stored_hash.is_empty()
}

proof fn lemma_or_xor_zero(acc: u8, x: u8, y: u8)
    by (bit_vector)
    ensures
        ((acc | (x ^ y)) == 0u8) == (acc == 0u8 && x == y),
{
}

/// Checks an API key against the configured hash. With no hash configured
/// every token is accepted; otherwise the token's hash must equal the stored
/// hash. The byte comparison visits every byte whatever the mismatch.
pub fn verify_token(token: &str, stored_hash: &str) -> (ok: bool)
    ensures
        ok == (stored_hash@.len() == 0 || token_hash(token@) == stored_hash@),
{
    if stored_hash.is_empty() {
        return true;
    }
    let hashed = hash_token(token);
    let a = hashed.as_str().as_bytes();
    let b = stored_hash.as_bytes();
    proof {
        broadcast use vstd::utf8::encode_utf8_decode_utf8;

        assert(vstd::utf8::decode_utf8(a@) == hashed@);
        assert(vstd::utf8::decode_utf8(b@) == stored_hash@);
    }
    if a.len() != b.len() {
        return false;
    }
    let mut acc: u8 = 0;
    let mut i: usize = 0;
    while i < a.len()
        invariant
            a@.len() == b@.len(),
            i <= a@.len(),
            (acc == 0) == (forall|k: int| 0 <= k < i ==> a@[k] == b@[k]),
        decreases a@.len() - i,
    {
        let x = a[i];
        let y = b[i];
        proof {
            lemma_or_xor_zero(acc, x, y);
        }
        acc = acc | (x ^ y);
        i += 1;
    }
    if acc == 0 {
        assert(a@ =~= b@);
    }
    acc == 0
}

// ---------------------------------------------------------------------
// Request gating
// ---------------------------------------------------------------------
/// The routes that answer without a key.
pub open spec fn is_public_route(path: Seq<char>) -> bool {
    path == "/health"@ || path == "/auth/login"@ || path == "/auth/status"@ || path
        == "/auth/generate-key"@ || path == "/startup/checks"@
}

fn eq_literal(v: &Vec<char>, lit: &str) -> (r: bool)
    ensures
        r == (v@ == lit@),
{
    let l = chars_of(lit);
    chars_eq(v, &l)
}

pub fn is_public_path(path: &str) -> (public: bool)
    ensures
        public == is_public_route(path@),
{
    let p = chars_of(path);
    eq_literal(&p, "/health") || eq_literal(&p, "/auth/login") || eq_literal(&p, "/auth/status")
        || eq_literal(&p, "/auth/generate-key") || eq_literal(&p, "/startup/checks")
}

/// `str::trim_start_matches(p)`: repeated leading copies of `p` removed.
pub open spec fn trim_start_matches(s: Seq<char>, p: Seq<char>) -> Seq<char>
    decreases s.len(),
{
    if p.len() > 0 && starts_with(s, p) {
        trim_start_matches(s.subrange(p.len() as int, s.len() as int), p)
    } else {
        s
    }
}

fn starts_with_at(s: &Vec<char>, start: usize, p: &Vec<char>) -> (r: bool)
    requires
        start <= s@.len(),
    ensures
        r == starts_with(s@.subrange(start as int, s@.len() as int), p@),
{
    let ghost t = s@.subrange(start as int, s@.len() as int);
    if p.len() > s.len() - start {
        return false;
    }
    let mut i: usize = 0;
    while i < p.len()
        invariant
            start + p.len() <= s.len(),
            t == s@.subrange(start as int, s@.len() as int),
            i <= p@.len(),
            forall|k: int| 0 <= k < i ==> t[k] == p@[k],
        decreases p@.len() - i,
    {
        if s[start + i] != p[i] {
            assert(t.subrange(0, p@.len() as int)[i as int] != p@[i as int]);
            return false;
        }
        i += 1;
    }
    assert(t.subrange(0, p@.len() as int) =~= p@);
    true
}

fn trim_start_matches_chars(v: &Vec<char>, p: &Vec<char>) -> (r: Vec<char>)
    requires
        p@.len() > 0,
    ensures
        r@ == trim_start_matches(v@, p@),
{
    let n = v.len();
    let mut i: usize = 0;
    assert(v@.subrange(0, n as int) =~= v@);
    while i <= n && starts_with_at(v, i, p)
        invariant
            n == v@.len(),
            p@.len() > 0,
            i <= n,
            trim_start_matches(v@, p@) == trim_start_matches(v@.subrange(i as int, n as int), p@),
        decreases n - i,
    {
        assert(v@.subrange(i as int, n as int).subrange(p@.len() as int, n - i) =~= v@.subrange(
            i + p@.len(),
            n as int,
        ));
        i += p.len();
    }
    let mut r: Vec<char> = Vec::new();
    let mut k: usize = i;
    while k < n
        invariant
            n == v@.len(),
            i <= k <= n,
            r@ == v@.subrange(i as int, k as int),
        decreases n - k,
    {
        r.push(v[k]);
        k += 1;
        assert(r@ =~= v@.subrange(i as int, k as int));
    }
    r
}

/// The key carried by a request header value: leading `"Bearer "`
/// prefixes removed, then surrounding whitespace trimmed; no header gives
/// the empty key.
pub open spec fn header_token(value: Option<Seq<char>>) -> Seq<char> {
    match value {
        Some(v) => trim(trim_start_matches(v, "Bearer "@)),
        None => Seq::empty(),
    }
}

pub fn bearer_token(value: Option<&str>) -> (token: String)
    ensures
        token@ == header_token(
            match value {
                Some(v) => Some(v@),
                None => None,
            },
        ),
{
    match value {
        Some(v) => {
            let chars = chars_of(v);
            let prefix = chars_of("Bearer ");
            proof {
                reveal_strlit("Bearer ");
            }
            let stripped = trim_start_matches_chars(&chars, &prefix);
            let trimmed = trim_chars(&stripped);
            string_from(&trimmed)
        },
        None => String::new(),
    }
}

/// Whether a request passes the key check: always when authentication is
/// off or the route is public; otherwise only with a non-empty key whose
/// hash matches the stored hash.
pub open spec fn request_allowed_spec(
    stored_hash: Seq<char>,
    path: Seq<char>,
    token: Seq<char>,
) -> bool {
    stored_hash.len() == 0 || is_public_route(path) || (token.len() > 0 && token_hash(token)
        == stored_hash)
}

pub fn request_allowed(stored_hash: &str, path: &str, token: &str) -> (allowed: bool)
    ensures
        allowed == request_allowed_spec(stored_hash@, path@, token@),
{
    if !auth_enabled(stored_hash) {
        return true;
    }
    if is_public_path(path) {
        return true;
    }
    if token.is_empty() || !verify_token(token, stored_hash) {
        return false;
    }
    true
}

/// With no key hash configured, every request passes.
pub proof fn law_open_without_hash(path: Seq<char>, token: Seq<char>)
    ensures
        request_allowed_spec(Seq::empty(), path, token),
{
}

/// A key passes on every route once its own hash is the stored hash.
pub proof fn law_key_passes_under_its_hash(key: Seq<char>, path: Seq<char>)
    requires
        key.len() > 0,
    ensures
        request_allowed_spec(token_hash(key), path, key),
{
}

/// With a hash configured, a request without a key reaches only the public
/// routes.
pub proof fn law_keyless_request_only_public(stored_hash: Seq<char>, path: Seq<char>)
    requires
        stored_hash.len() > 0,
    ensures
        request_allowed_spec(stored_hash, path, Seq::empty()) == is_public_route(path),
{
}

// ---------------------------------------------------------------------
// Key generation
// ---------------------------------------------------------------------
/// An API key made from a UUID: `"sh-"` followed by the UUID without hyphens.
pub open spec fn not_hyphen() -> spec_fn(char) -> bool {
    |c: char| c != '-'
}

pub open spec fn key_from_uuid(u: Seq<char>) -> Seq<char> {
    "sh-"@ + u.filter(not_hyphen())
}

pub fn api_key_from_uuid(uuid: &str) -> (key: String)
    ensures
        key@ == key_from_uuid(uuid@),
{
    let u = chars_of(uuid);
    let mut r = chars_of("sh-");
    let ghost pred = not_hyphen();
    let mut i: usize = 0;
    assert(u@.subrange(0, 0).filter(pred) =~= Seq::<char>::empty()) by {
        reveal(Seq::filter);
    }
    assert(r@ =~= "sh-"@ + u@.subrange(0, 0).filter(pred));
    while i < u.len()
        invariant
            i <= u@.len(),
            u@ == uuid@,
            pred == not_hyphen(),
            r@ == "sh-"@ + u@.subrange(0, i as int).filter(pred),
        decreases u@.len() - i,
    {
        let c = u[i];
        proof {
            lemma_filter_step(u@, pred, i as int);
        }
        if c != '-' {
            r.push(c);
            assert(r@ =~= "sh-"@ + u@.subrange(0, i as int).filter(pred).push(c));
        }
        i += 1;
    }
    assert(u@.subrange(0, u@.len() as int) =~= u@);
    string_from(&r)
}

/// The shape of a freshly generated key: `"sh-"` then lowercase hex digits.
pub open spec fn is_generated_key(key: Seq<char>) -> bool {
    starts_with(key, "sh-"@) && forall|k: int| 3 <= k < key.len() ==> is_lower_hex(#[trigger] key[k])
}

/// The positions of a UUID text below `i` that hold hyphens.
pub open spec fn hyphens_before(i: int) -> int {
    (if i > 8 { 1int } else { 0int }) + (if i > 13 { 1int } else { 0int }) + (if i > 18 { 1int } else {
        0int
    }) + (if i > 23 { 1int } else { 0int })
}

proof fn lemma_uuid_digits(u: Seq<char>, i: int)
    requires
        is_uuid_text(u),
        0 <= i <= 36,
    ensures
        u.subrange(0, i).filter(not_hyphen()).len() == i - hyphens_before(i),
    decreases i,
{
    if i == 0 {
        assert(u.subrange(0, 0).filter(not_hyphen()) =~= Seq::<char>::empty()) by {
            reveal(Seq::filter);
        }
    } else {
        lemma_uuid_digits(u, i - 1);
        lemma_filter_step(u, not_hyphen(), i - 1);
        if !is_uuid_hyphen_position(i - 1) {
            assert(is_lower_hex(u[i - 1]));
        }
    }
}

/// Generates a new random API key: `"sh-"` and a random v4 UUID without
/// hyphens, so `"sh-"` and 32 lowercase hex digits.
pub fn generate_api_key() -> (key: String)
    ensures
        exists|u: Seq<char>| is_uuid_text(u) && key@ == key_from_uuid(u),
        key@.len() == 35,
        is_generated_key(key@),
{
    let u = new_uuid_v4();
    let key = api_key_from_uuid(u.as_str());
    proof {
        reveal_strlit("sh-");
        let rest = u@.filter(not_hyphen());
        assert(key@.subrange(0, 3) =~= "sh-"@);
        assert forall|i: int| 0 <= i < u@.len() && not_hyphen()(u@[i]) implies is_lower_hex(
            #[trigger] u@[i],
        ) by {
            if is_uuid_hyphen_position(i) {
                assert(u@[i] == '-');
            }
        }
        lemma_filter_keeps(u@, not_hyphen(), |c: char| is_lower_hex(c));
        assert forall|k: int| 3 <= k < key@.len() implies is_lower_hex(#[trigger] key@[k]) by {
            assert(key@[k] == rest[k - 3]);
        }
        lemma_uuid_digits(u@, 36);
        assert(u@.subrange(0, 36) =~= u@);
    }
    key
}

// ---------------------------------------------------------------------
// The `.env` file
// ---------------------------------------------------------------------
pub open spec fn strip_cr(p: Seq<char>) -> Seq<char> {
    if p.len() > 0 && p.last() == '\r' {
        p.drop_last()
    } else {
        p
    }
}

/// `str::lines`: pieces between `'\n'`, a final empty piece dropped, and a
/// `'\r'` before a `'\n'` removed.
pub open spec fn lines(s: Seq<char>) -> Seq<Seq<char>> {
    let parts = split_on(s, '\n');
    let kept = if parts.last().len() == 0 {
        parts.drop_last()
    } else {
        parts
    };
    kept.map(
        |i: int, p: Seq<char>|
            if i < parts.len() - 1 {
                strip_cr(p)
            } else {
                p
            },
    )
}

pub fn lines_chars(v: &Vec<char>) -> (r: Vec<Vec<char>>)
    ensures
        views(r@) == lines(v@),
{
    let parts = split_chars(v, '\n');
    proof {
        lemma_split_nonempty(v@, '\n');
    }
    let n = parts.len();
    let keep: usize = if parts[n - 1].len() == 0 {
        n - 1
    } else {
        n
    };
    let ghost target = lines(v@);
    assert(target.len() == keep);
    let mut r: Vec<Vec<char>> = Vec::new();
    let mut i: usize = 0;
    while i < keep
        invariant
            n == parts@.len(),
            views(parts@) == split_on(v@, '\n'),
            keep <= n,
            target == lines(v@),
            target.len() == keep,
            i <= keep,
            r@.len() == i,
            forall|k: int| 0 <= k < i ==> (#[trigger] r@[k])@ == target[k],
        decreases keep - i,
    {
        let p = &parts[i];
        let piece: Vec<char> = if i + 1 < n && p.len() > 0 && p[p.len() - 1] == '\r' {
            let mut q: Vec<char> = Vec::new();
            let mut k: usize = 0;
            while k < p.len() - 1
                invariant
                    p@.len() > 0,
                    k + 1 <= p@.len(),
                    q@ == p@.subrange(0, k as int),
                decreases p@.len() - k,
            {
                q.push(p[k]);
                k += 1;
                assert(q@ =~= p@.subrange(0, k as int));
            }
            assert(q@ =~= p@.drop_last());
            q
        } else {
            copy_chars(p)
        };
        assert(views(parts@)[i as int] == p@);
        r.push(piece);
        i += 1;
    }
    assert(views(r@) =~= target);
    r
}

pub open spec fn key_line_prefix() -> Seq<char> {
    "SIGNAL_API_KEY_HASH"@
}

pub open spec fn not_key_line() -> spec_fn(Seq<char>) -> bool {
    |l: Seq<char>| !starts_with(l, key_line_prefix())
}

/// The `.env` contents after storing a new key hash: every existing line
/// that does not start with `SIGNAL_API_KEY_HASH` is kept in order, and the
/// line `SIGNAL_API_KEY_HASH=<hash>` is written last, followed by a newline.
pub open spec fn env_file_spec(existing: Seq<char>, hash: Seq<char>) -> Seq<char> {
    let kept = join(lines(existing).filter(not_key_line()), seq!['\n']);
    let key_line = key_line_prefix() + seq!['='] + hash + seq!['\n'];
    if trim(kept).len() == 0 {
        key_line
    } else {
        kept + seq!['\n'] + key_line
    }
}

pub fn env_file_content(existing: &str, hash: &str) -> (content: String)
    ensures
        content@ == env_file_spec(existing@, hash@),
{
    let v = chars_of(existing);
    let ls = lines_chars(&v);
    let prefix = chars_of("SIGNAL_API_KEY_HASH");
    let ghost pred = not_key_line();
    let ghost all = lines(existing@);
    let mut kept: Vec<Vec<char>> = Vec::new();
    let mut i: usize = 0;
    assert(all.subrange(0, 0).filter(pred) =~= Seq::<Seq<char>>::empty()) by {
        reveal(Seq::filter);
    }
    while i < ls.len()
        invariant
            views(ls@) == all,
            all == lines(existing@),
            pred == not_key_line(),
            prefix@ == key_line_prefix(),
            i <= ls@.len(),
            views(kept@) == all.subrange(0, i as int).filter(pred),
        decreases ls@.len() - i,
    {
        proof {
            lemma_filter_step(all, pred, i as int);
        }
        assert(views(ls@)[i as int] == ls@[i as int]@);
        if !starts_with_chars(&ls[i], &prefix) {
            let ghost before = kept@;
            let line = copy_chars(&ls[i]);
            kept.push(line);
            assert(views(kept@) =~= views(before).push(line@));
        }
        i += 1;
    }
    assert(all.subrange(0, all.len() as int) =~= all);
    let mut nl: Vec<char> = Vec::new();
    nl.push('\n');
    let joined = join_chars(&kept, &nl);
    let mut out: Vec<char> = Vec::new();
    let trimmed = trim_chars(&joined);
    if trimmed.len() != 0 {
        extend_chars(&mut out, &joined);
        out.push('\n');
    }
    extend_chars(&mut out, &prefix);
    out.push('=');
    extend_str(&mut out, hash);
    out.push('\n');
    assert(out@ =~= env_file_spec(existing@, hash@));
    string_from(&out)
}

} // verus!
