//! Environment boundary filter shared by every backend: secret-shaped names
//! are never inherited, values with NUL are dropped, and `PATH` can be
//! sanitized.
use vstd::prelude::*;
use vstd::utf8::encode_utf8;
use crate::text::{
    chars_contain, chars_of, contains_piece, contains_run, copy_chars, ends_with, join_chars, join_with,
    seqs_of, split_chars, split_on, starts_with, string_of, to_uppercase, unicode_uppercase,
};

verus! {

/// The pattern byte that matches any run of bytes.
pub const STAR: u8 = 0x2a;

/// The pattern byte that matches exactly one byte.
pub const QMARK: u8 = 0x3f;

/// ASCII upper-casing of one byte; other bytes are unchanged.
pub open spec fn ascii_upper(b: u8) -> u8 {
    if 0x61 <= b <= 0x7a {
        (b - 0x20) as u8
    } else {
        b
    }
}

/// ASCII upper-casing of a byte string.
pub open spec fn upper_bytes(s: Seq<u8>) -> Seq<u8> {
    s.map_values(|b: u8| ascii_upper(b))
}

/// Whether `p[i..]` matches `t[j..]`, where `*` in the pattern matches any
/// run of bytes and `?` any single byte.
pub open spec fn glob_at(p: Seq<u8>, t: Seq<u8>, i: int, j: int) -> bool
    decreases p.len() - i + t.len() - j,
{
    if i < 0 || j < 0 || i > p.len() || j > t.len() {
        false
    } else if i == p.len() {
        j == t.len()
    } else if p[i] == STAR {
        glob_at(p, t, i + 1, j) || (j < t.len() && glob_at(p, t, i, j + 1))
    } else {
        j < t.len() && (p[i] == QMARK || p[i] == t[j]) && glob_at(p, t, i + 1, j + 1)
    }
}

/// Whether the whole of `t` matches the whole of `p`.
pub open spec fn glob_match(p: Seq<u8>, t: Seq<u8>) -> bool {
    glob_at(p, t, 0, 0)
}

/// `p[i..i + n]` holds no `*`.
pub open spec fn star_free(p: Seq<u8>, i: int, n: int) -> bool {
    forall|k: int| i <= k < i + n ==> p[k] != STAR
}

/// `p[i..i + n]` matches `t[j..j + n]` byte for byte (with `?` as any byte).
pub open spec fn lit_match(p: Seq<u8>, t: Seq<u8>, i: int, j: int, n: int) -> bool {
    forall|a: int| #![trigger p[a]] i <= a < i + n ==> p[a] == QMARK || p[a] == t[j + (a - i)]
}

proof fn lemma_literal(p: Seq<u8>, t: Seq<u8>, i: int, j: int, n: int)
    requires
        0 <= i,
        0 <= n,
        i + n <= p.len(),
        0 <= j,
        j + n <= t.len(),
        star_free(p, i, n),
        lit_match(p, t, i, j, n),
    ensures
        glob_at(p, t, i, j) == glob_at(p, t, i + n, j + n),
    decreases n,
{
    if n > 0 {
        assert(p[i] == QMARK || p[i] == t[j + (i - i)]);
        assert(p[i] != STAR);
        lemma_literal(p, t, i + 1, j + 1, n - 1);
    }
}

proof fn lemma_through_literal(p: Seq<u8>, t: Seq<u8>, i: int, j: int, n: int)
    requires
        0 <= i,
        0 <= n,
        i + n <= p.len(),
        0 <= j <= t.len(),
        star_free(p, i, n),
        glob_at(p, t, i, j),
    ensures
        j + n <= t.len(),
        glob_at(p, t, i + n, j + n),
    decreases n,
{
    if n > 0 {
        assert(p[i] != STAR);
        lemma_through_literal(p, t, i + 1, j + 1, n - 1);
    }
}

proof fn lemma_star_absorb(p: Seq<u8>, t: Seq<u8>, s: int, j: int, j2: int)
    requires
        0 <= s < p.len(),
        p[s] == STAR,
        0 <= j <= j2 <= t.len(),
        glob_at(p, t, s, j2),
    ensures
        glob_at(p, t, s, j),
    decreases j2 - j,
{
    if j < j2 {
        lemma_star_absorb(p, t, s, j + 1, j2);
    }
}

proof fn lemma_star_split(p: Seq<u8>, t: Seq<u8>, s: int, j: int) -> (k: int)
    requires
        0 <= s < p.len(),
        p[s] == STAR,
        0 <= j <= t.len(),
        glob_at(p, t, s, j),
    ensures
        j <= k <= t.len(),
        glob_at(p, t, s + 1, k),
    decreases t.len() - j,
{
    if glob_at(p, t, s + 1, j) {
        j
    } else {
        lemma_star_split(p, t, s, j + 1)
    }
}

proof fn lemma_star_advance(p: Seq<u8>, t: Seq<u8>, s: int, m: int, s2: int, t2: int)
    requires
        0 <= s < s2 < p.len(),
        p[s] == STAR,
        p[s2] == STAR,
        0 <= m <= t2 <= t.len(),
        s2 - (s + 1) == t2 - m,
        star_free(p, s + 1, s2 - s - 1),
        lit_match(p, t, s + 1, m, s2 - s - 1),
    ensures
        glob_at(p, t, s, m) == glob_at(p, t, s2, t2),
{
    let n = s2 - s - 1;
    lemma_literal(p, t, s + 1, m, n);
    if glob_at(p, t, s, m) {
        let k = lemma_star_split(p, t, s, m);
        lemma_through_literal(p, t, s + 1, k, n);
        lemma_star_absorb(p, t, s2, t2, k + n);
    }
}

proof fn lemma_empty_text(p: Seq<u8>, t: Seq<u8>, i: int)
    requires
        0 <= i <= p.len(),
    ensures
        glob_at(p, t, i, t.len() as int) == (forall|k: int| i <= k < p.len() ==> p[k] == STAR),
    decreases p.len() - i,
{
    if i < p.len() {
        lemma_empty_text(p, t, i + 1);
    }
}

fn upper_vec(b: &[u8]) -> (out: Vec<u8>)
    ensures
        out@ == upper_bytes(b@),
{
    let mut out: Vec<u8> = Vec::new();
    let mut i: usize = 0;
    while i < b.len()
        invariant
            i <= b.len(),
            out@ == upper_bytes(b@.take(i as int)),
        decreases b.len() - i,
    {
        let c = b[i];
        let u = if 0x61 <= c && c <= 0x7a {
            c - 0x20
        } else {
            c
        };
        out.push(u);
        assert(upper_bytes(b@.take(i + 1)) =~= upper_bytes(b@.take(i as int)).push(u));
        i += 1;
    }
    assert(b@.take(b.len() as int) =~= b@);
    out
}

/// Matches `text` against a wildcard `pattern` in which `*` stands for any
/// run of bytes and `?` for any one byte; letters compare without regard to
/// ASCII case.
pub fn matches_wildcard_pattern(pattern: &str, text: &str) -> (r: bool)
    ensures
        r == glob_match(upper_bytes(encode_utf8(pattern@)), upper_bytes(encode_utf8(text@))),
{
    let pv = upper_vec(pattern.as_bytes());
    let tv = upper_vec(text.as_bytes());
    let ghost pp = pv@;
    let ghost tt = tv@;
    let plen = pv.len();
    let tlen = tv.len();
    let mut p_idx: usize = 0;
    let mut t_idx: usize = 0;
    let mut star_idx: Option<usize> = None;
    let mut match_idx: usize = 0;
    assert(pp == upper_bytes(encode_utf8(pattern@)));
    assert(tt == upper_bytes(encode_utf8(text@)));
    while t_idx < tlen
        invariant
            pp == upper_bytes(encode_utf8(pattern@)),
            tt == upper_bytes(encode_utf8(text@)),
            pp == pv@,
            tt == tv@,
            plen == pp.len(),
            tlen == tt.len(),
            p_idx <= plen,
            t_idx <= tlen,
            match_idx <= t_idx,
            match star_idx {
                None => glob_match(pp, tt) == glob_at(pp, tt, p_idx as int, t_idx as int),
                Some(s) => {
                    &&& s < p_idx
                    &&& pp[s as int] == STAR
                    &&& p_idx - (s + 1) == t_idx - match_idx
                    &&& star_free(pp, s + 1, p_idx - s - 1)
                    &&& lit_match(pp, tt, s + 1, match_idx as int, p_idx - s - 1)
                    &&& glob_match(pp, tt) == glob_at(pp, tt, s as int, match_idx as int)
                },
            },
        decreases tlen - match_idx, tlen - t_idx, plen - p_idx,
    {
        if p_idx < plen && pv[p_idx] == STAR {
            proof {
                if let Some(s) = star_idx {
                    lemma_star_advance(pp, tt, s as int, match_idx as int, p_idx as int, t_idx as int);
                }
            }
            star_idx = Some(p_idx);
            match_idx = t_idx;
            p_idx += 1;
        } else if p_idx < plen && (pv[p_idx] == QMARK || pv[p_idx] == tv[t_idx]) {
            proof {
                if let Some(s) = star_idx {
                    assert(match_idx + (p_idx - (s + 1)) == t_idx);
                    assert(lit_match(pp, tt, s + 1, match_idx as int, p_idx + 1 - s - 1));
                }
            }
            p_idx += 1;
            t_idx += 1;
        } else {
            match star_idx {
                Some(s) => {
                    proof {
                        let n = p_idx - s - 1;
                        lemma_literal(pp, tt, s + 1, match_idx as int, n);
                        assert(!glob_at(pp, tt, p_idx as int, t_idx as int));
                    }
                    p_idx = s + 1;
                    match_idx += 1;
                    t_idx = match_idx;
                },
                None => {
                    assert(!glob_at(pp, tt, p_idx as int, t_idx as int));
                    return false;
                },
            }
        }
    }
    let q = p_idx;
    while p_idx < plen && pv[p_idx] == STAR
        invariant
            pp == pv@,
            q <= p_idx <= plen,
            plen == pp.len(),
            forall|k: int| q <= k < p_idx ==> pp[k] == STAR,
        decreases plen - p_idx,
    {
        p_idx += 1;
    }
    proof {
        lemma_empty_text(pp, tt, q as int);
        let all_stars = forall|k: int| q <= k < plen ==> pp[k] == STAR;
        if p_idx < plen {
            assert(!all_stars);
        }
        if let Some(s) = star_idx {
            let n = q - s - 1;
            lemma_literal(pp, tt, s + 1, match_idx as int, n);
            if glob_at(pp, tt, s as int, match_idx as int) {
                let k = lemma_star_split(pp, tt, s as int, match_idx as int);
                lemma_through_literal(pp, tt, s + 1, k, n);
            }
        }
    }
    p_idx == plen
}

/// Secret-shaped name prefixes (compared against the upper-cased name).
pub open spec fn hard_deny_prefixes() -> Seq<Seq<char>> {
    seq![
        "AWS_"@,
        "GCP_"@,
        "GOOGLE_"@,
        "AZURE_"@,
        "OPENAI_"@,
        "ANTHROPIC_"@,
        "CLAUDE_"@,
        "CODEX_"@,
        "GH_"@,
        "GITHUB_"@,
        "GITLAB_"@,
        "NPM_"@,
        "PYPI_"@,
        "DOCKER_"@,
        "KUBE"@,
        "VAULT_"@,
        "SECRET"@,
        "TOKEN"@,
        "PRIVATE"@,
        "CREDENTIAL"@,
        "LDAP_"@,
        "DB_"@,
        "DATABASE_"@,
        "STRIPE_"@,
        "SENDGRID_"@,
        "SLACK_"@,
        "DISCORD_"@,
        "TELEGRAM_"@,
        "TWILIO_"@,
        "API_KEY"@,
        "AUTH_"@,
        "SESSION_"@,
        "COOKIE_"@,
        "BEARER"@,
        "BASIC_"@,
        "OAUTH"@,
    ]
}

/// Wildcard patterns whose matches are always scrubbed.
pub open spec fn default_redacted_patterns() -> Seq<Seq<char>> {
    seq![
        "*_KEY"@,
        "*_TOKEN"@,
        "*_SECRET"@,
        "AWS_*"@,
        "GITHUB_*"@,
        "GH_*"@,
        "ANTHROPIC_*"@,
        "OPENAI_*"@,
        "CODEX_*"@,
        "CLAUDE_*"@,
        "AZURE_*"@,
        "GCP_*"@,
        "GOOGLE_*"@,
        "*_PASSWORD"@,
        "*_CREDENTIAL"@,
        "*_CREDENTIALS"@,
        "*_AUTH"@,
        "*_PRIVATE_KEY"@,
    ]
}

/// `u` begins with one of the secret-shaped prefixes.
pub open spec fn has_deny_prefix(u: Seq<u8>) -> bool {
    exists|i: int|
        0 <= i < hard_deny_prefixes().len() && starts_with(u, encode_utf8(#[trigger] hard_deny_prefixes()[i]))
}

/// `u` matches one of the default redacted patterns.
pub open spec fn matches_default_pattern(u: Seq<u8>) -> bool {
    exists|i: int|
        0 <= i < default_redacted_patterns().len() && glob_match(
            upper_bytes(encode_utf8(#[trigger] default_redacted_patterns()[i])),
            upper_bytes(u),
        )
}

/// `u` holds a secret marker or ends with a secret suffix.
pub open spec fn has_secret_marker(u: Seq<u8>) -> bool {
    ||| contains_run(u, encode_utf8("SECRET"@))
    ||| contains_run(u, encode_utf8("PRIVATE_KEY"@))
    ||| contains_run(u, encode_utf8("CREDENTIALS"@))
    ||| ends_with(u, encode_utf8("_KEY"@))
    ||| ends_with(u, encode_utf8("_TOKEN"@))
    ||| ends_with(u, encode_utf8("_SECRET"@))
}

/// Whether the upper-cased name `u` (as UTF-8) is secret-shaped.
pub open spec fn hard_denied_upper(u: Seq<u8>) -> bool {
    has_deny_prefix(u) || matches_default_pattern(u) || has_secret_marker(u)
}

/// Whether the environment name `name` is never inherited.
pub open spec fn hard_denied(name: Seq<char>) -> bool {
    hard_denied_upper(encode_utf8(unicode_uppercase(name)))
}

/// Whether `name` is hard-denied or matches one of `patterns`.
pub open spec fn redacted(name: Seq<char>, patterns: Seq<Seq<char>>) -> bool {
    hard_denied(name) || exists|i: int|
        0 <= i < patterns.len() && glob_match(
            upper_bytes(encode_utf8(#[trigger] patterns[i])),
            upper_bytes(encode_utf8(name)),
        )
}

/// The views of a slice of strings.
pub open spec fn strings_view(v: Seq<String>) -> Seq<Seq<char>> {
    v.map_values(|s: String| s@)
}

fn deny_prefix(u: &[u8]) -> (r: bool)
    ensures
        r == has_deny_prefix(u@),
{
    let prefixes: [&str; 36] = [
        "AWS_",
        "GCP_",
        "GOOGLE_",
        "AZURE_",
        "OPENAI_",
        "ANTHROPIC_",
        "CLAUDE_",
        "CODEX_",
        "GH_",
        "GITHUB_",
        "GITLAB_",
        "NPM_",
        "PYPI_",
        "DOCKER_",
        "KUBE",
        "VAULT_",
        "SECRET",
        "TOKEN",
        "PRIVATE",
        "CREDENTIAL",
        "LDAP_",
        "DB_",
        "DATABASE_",
        "STRIPE_",
        "SENDGRID_",
        "SLACK_",
        "DISCORD_",
        "TELEGRAM_",
        "TWILIO_",
        "API_KEY",
        "AUTH_",
        "SESSION_",
        "COOKIE_",
        "BEARER",
        "BASIC_",
        "OAUTH",
    ];
    assert(prefixes@.map_values(|s: &str| s@) =~= hard_deny_prefixes());
    let mut i: usize = 0;
    while i < 36
        invariant
            i <= 36,
            prefixes@.map_values(|s: &str| s@) == hard_deny_prefixes(),
            forall|k: int| 0 <= k < i ==> !starts_with(u@, encode_utf8(#[trigger] hard_deny_prefixes()[k])),
        decreases 36 - i,
    {
        assert(hard_deny_prefixes()[i as int] == prefixes[i as int]@);
        if crate::text::bytes_starts_with(u, prefixes[i].as_bytes()) {
            return true;
        }
        i += 1;
    }
    false
}

fn default_pattern(upper: &str) -> (r: bool)
    ensures
        r == matches_default_pattern(encode_utf8(upper@)),
{
    let u = upper.as_bytes();
    let patterns: [&str; 18] = [
        "*_KEY",
        "*_TOKEN",
        "*_SECRET",
        "AWS_*",
        "GITHUB_*",
        "GH_*",
        "ANTHROPIC_*",
        "OPENAI_*",
        "CODEX_*",
        "CLAUDE_*",
        "AZURE_*",
        "GCP_*",
        "GOOGLE_*",
        "*_PASSWORD",
        "*_CREDENTIAL",
        "*_CREDENTIALS",
        "*_AUTH",
        "*_PRIVATE_KEY",
    ];
    assert(patterns@.map_values(|s: &str| s@) =~= default_redacted_patterns());
    let mut j: usize = 0;
    while j < 18
        invariant
            j <= 18,
            u@ == encode_utf8(upper@),
            patterns@.map_values(|s: &str| s@) == default_redacted_patterns(),
            forall|k: int|
                0 <= k < j ==> !glob_match(
                    upper_bytes(encode_utf8(#[trigger] default_redacted_patterns()[k])),
                    upper_bytes(u@),
                ),
        decreases 18 - j,
    {
        assert(default_redacted_patterns()[j as int] == patterns[j as int]@);
        if matches_wildcard_pattern(patterns[j], upper) {
            return true;
        }
        j += 1;
    }
    false
}

fn secret_marker(u: &[u8]) -> (r: bool)
    ensures
        r == has_secret_marker(u@),
{
    crate::text::bytes_contains(u, "SECRET".as_bytes()) || crate::text::bytes_contains(
        u,
        "PRIVATE_KEY".as_bytes(),
    ) || crate::text::bytes_contains(u, "CREDENTIALS".as_bytes()) || crate::text::bytes_ends_with(
        u,
        "_KEY".as_bytes(),
    ) || crate::text::bytes_ends_with(u, "_TOKEN".as_bytes()) || crate::text::bytes_ends_with(
        u,
        "_SECRET".as_bytes(),
    )
}

/// The secret-shape test on an already upper-cased name.
pub fn is_hard_denied_upper(upper: &str) -> (r: bool)
    ensures
        r == hard_denied_upper(encode_utf8(upper@)),
{
    let u = upper.as_bytes();
    deny_prefix(u) || default_pattern(upper) || secret_marker(u)
}

/// A name is never inherited when its upper-cased form holds `SECRET`,
/// `PRIVATE_KEY` or `CREDENTIALS` anywhere, or ends with `_KEY` or
/// `_TOKEN`: whatever comes before (`a`) and after (`b`) the marker.
pub proof fn lemma_secret_markers_denied(name: Seq<char>, a: Seq<u8>, b: Seq<u8>)
    ensures
        encode_utf8(unicode_uppercase(name)) == a + encode_utf8("SECRET"@) + b ==> hard_denied(name),
        encode_utf8(unicode_uppercase(name)) == a + encode_utf8("PRIVATE_KEY"@) + b ==> hard_denied(name),
        encode_utf8(unicode_uppercase(name)) == a + encode_utf8("CREDENTIALS"@) + b ==> hard_denied(name),
        encode_utf8(unicode_uppercase(name)) == a + encode_utf8("_KEY"@) ==> hard_denied(name),
        encode_utf8(unicode_uppercase(name)) == a + encode_utf8("_TOKEN"@) ==> hard_denied(name),
{
    let u = encode_utf8(unicode_uppercase(name));
    let m1 = encode_utf8("SECRET"@);
    let m2 = encode_utf8("PRIVATE_KEY"@);
    let m3 = encode_utf8("CREDENTIALS"@);
    let m4 = encode_utf8("_KEY"@);
    let m5 = encode_utf8("_TOKEN"@);
    if u == a + m1 + b {
        assert(u.subrange(a.len() as int, (a.len() + m1.len()) as int) =~= m1);
        assert(contains_run(u, m1));
    }
    if u == a + m2 + b {
        assert(u.subrange(a.len() as int, (a.len() + m2.len()) as int) =~= m2);
        assert(contains_run(u, m2));
    }
    if u == a + m3 + b {
        assert(u.subrange(a.len() as int, (a.len() + m3.len()) as int) =~= m3);
        assert(contains_run(u, m3));
    }
    if u == a + m4 {
        assert(u.skip(u.len() - m4.len()) =~= m4);
    }
    if u == a + m5 {
        assert(u.skip(u.len() - m5.len()) =~= m5);
    }
}

/// True if `name` looks secret-shaped or matches a default redacted pattern.
pub fn is_hard_denied(name: &str) -> (r: bool)
    ensures
        r == hard_denied(name@),
{
    let upper = to_uppercase(name);
    is_hard_denied_upper(upper.as_str())
}

/// True if `name` is hard-denied or matches one of the caller's patterns.
pub fn is_redacted(name: &str, patterns: &[String]) -> (r: bool)
    ensures
        r == redacted(name@, strings_view(patterns@)),
{
    if is_hard_denied(name) {
        return true;
    }
    let mut i: usize = 0;
    while i < patterns.len()
        invariant
            i <= patterns.len(),
            forall|k: int|
                0 <= k < i ==> !glob_match(
                    upper_bytes(encode_utf8(#[trigger] strings_view(patterns@)[k])),
                    upper_bytes(encode_utf8(name@)),
                ),
        decreases patterns.len() - i,
    {
        if matches_wildcard_pattern(patterns[i].as_str(), name) {
            assert(strings_view(patterns@)[i as int] == patterns[i as int]@);
            return true;
        }
        i += 1;
    }
    false
}

/// Whether a `PATH` entry survives sanitizing: not empty, not `.`, not
/// relative to `~`.
pub open spec fn keep_path_entry(c: Seq<char>) -> bool {
    c.len() > 0 && c != seq!['.'] && c[0] != '~'
}

/// The kept entries of `parts`, first occurrences only, in order.
pub open spec fn kept_unique(parts: Seq<Seq<char>>) -> Seq<Seq<char>>
    decreases parts.len(),
{
    if parts.len() == 0 {
        Seq::empty()
    } else {
        let prev = kept_unique(parts.drop_last());
        let c = parts.last();
        if keep_path_entry(c) && !prev.contains(c) {
            prev.push(c)
        } else {
            prev
        }
    }
}

/// The sanitized `PATH` value.
pub open spec fn sanitize_path_spec(path: Seq<char>) -> Seq<char> {
    let kept = kept_unique(split_on(path, ':'));
    if kept.len() == 0 {
        "/usr/bin:/bin"@
    } else {
        join_with(kept, ':')
    }
}

/// Splitting `s`, a separator and a piece free of separators gives the
/// pieces of `s` and then that piece.
proof fn lemma_split_after_sep(s: Seq<char>, t: Seq<char>, sep: char)
    requires
        !t.contains(sep),
    ensures
        split_on(s.push(sep) + t, sep) == split_on(s, sep).push(t),
    decreases t.len(),
{
    if t.len() == 0 {
        assert(s.push(sep) + t =~= s.push(sep));
        assert(s.push(sep).drop_last() =~= s);
        assert(s.push(sep).last() == sep);
        assert(split_on(s.push(sep), sep) == split_on(s, sep).push(Seq::empty()));
        assert(t =~= Seq::<char>::empty());
    } else {
        let u = t.drop_last();
        assert(!u.contains(sep)) by {
            if u.contains(sep) {
                let k = choose|k: int| 0 <= k < u.len() && u[k] == sep;
                assert(t[k] == sep);
            }
        }
        lemma_split_after_sep(s, u, sep);
        let w = s.push(sep) + t;
        assert(w.drop_last() =~= s.push(sep) + u);
        assert(w.last() == t.last());
        assert(t.last() != sep) by {
            assert(t[t.len() - 1] == t.last());
        }
        crate::text::lemma_split_nonempty(s, sep);
        assert(u.push(t.last()) =~= t);
        let prev = split_on(s, sep).push(u);
        assert(prev.last() == u);
        assert(prev.update(prev.len() - 1, prev.last().push(t.last())) =~= split_on(s, sep).push(t));
        assert(w.len() > 0 && w.last() != sep);
        assert(split_on(w, sep) == split_on(w.drop_last(), sep).update(
            split_on(w.drop_last(), sep).len() - 1,
            split_on(w.drop_last(), sep).last().push(w.last()),
        ));
    }
}

/// No piece of a split holds the separator.
proof fn lemma_split_pieces_free(s: Seq<char>, sep: char)
    ensures
        forall|k: int| 0 <= k < split_on(s, sep).len() ==> !(#[trigger] split_on(s, sep)[k]).contains(sep),
    decreases s.len(),
{
    if s.len() > 0 {
        lemma_split_pieces_free(s.drop_last(), sep);
        crate::text::lemma_split_nonempty(s.drop_last(), sep);
        let prev = split_on(s.drop_last(), sep);
        if s.last() != sep {
            let last = prev.last().push(s.last());
            assert(!last.contains(sep)) by {
                if last.contains(sep) {
                    let k = choose|k: int| 0 <= k < last.len() && last[k] == sep;
                    if k < prev.last().len() {
                        assert(prev[prev.len() - 1][k] == sep);
                    }
                }
            }
            assert forall|k: int| 0 <= k < split_on(s, sep).len() implies !(#[trigger] split_on(s, sep)[k]).contains(sep) by {
                if k < prev.len() - 1 {
                    assert(split_on(s, sep)[k] == prev[k]);
                }
            }
        } else {
            assert forall|k: int| 0 <= k < split_on(s, sep).len() implies !(#[trigger] split_on(s, sep)[k]).contains(sep) by {
                if k < prev.len() {
                    assert(split_on(s, sep)[k] == prev[k]);
                } else {
                    assert(split_on(s, sep)[k] =~= Seq::<char>::empty());
                }
            }
        }
    }
}

/// Joining pieces free of the separator and splitting again gives them back.
proof fn lemma_split_join(parts: Seq<Seq<char>>, sep: char)
    requires
        parts.len() >= 1,
        forall|k: int| 0 <= k < parts.len() ==> !(#[trigger] parts[k]).contains(sep),
    ensures
        split_on(join_with(parts, sep), sep) == parts,
    decreases parts.len(),
{
    if parts.len() == 1 {
        let t = parts[0];
        lemma_split_after_sep(Seq::empty(), t, sep);
        assert(!t.contains(sep));
        // Splitting a piece without separators gives that piece alone.
        lemma_split_single(t, sep);
        assert(parts =~= seq![t]);
    } else {
        let init = parts.drop_last();
        lemma_split_join(init, sep);
        assert(parts.last() == parts[parts.len() - 1]);
        lemma_split_after_sep(join_with(init, sep), parts.last(), sep);
        assert(init.push(parts.last()) =~= parts);
    }
}

/// A text without the separator splits into itself alone.
proof fn lemma_split_single(t: Seq<char>, sep: char)
    requires
        !t.contains(sep),
    ensures
        split_on(t, sep) == seq![t],
    decreases t.len(),
{
    if t.len() == 0 {
        assert(t =~= Seq::<char>::empty());
    } else {
        let u = t.drop_last();
        assert(!u.contains(sep)) by {
            if u.contains(sep) {
                let k = choose|k: int| 0 <= k < u.len() && u[k] == sep;
                assert(t[k] == sep);
            }
        }
        lemma_split_single(u, sep);
        assert(t.last() != sep) by {
            assert(t[t.len() - 1] == t.last());
        }
        assert(u.push(t.last()) =~= t);
        assert(seq![u].last() == u);
        assert(seq![u].update(0, u.push(t.last())) =~= seq![t]);
    }
}

/// The kept entries are all kept, and none twice.
proof fn lemma_kept_unique_props(parts: Seq<Seq<char>>)
    ensures
        kept_unique(parts).no_duplicates(),
        forall|k: int| 0 <= k < kept_unique(parts).len() ==> keep_path_entry(#[trigger] kept_unique(parts)[k]),
        forall|k: int| 0 <= k < kept_unique(parts).len() ==> parts.contains(#[trigger] kept_unique(parts)[k]),
    decreases parts.len(),
{
    if parts.len() > 0 {
        lemma_kept_unique_props(parts.drop_last());
        let prev = kept_unique(parts.drop_last());
        assert forall|k: int| 0 <= k < kept_unique(parts).len() implies parts.contains(#[trigger] kept_unique(parts)[k]) by {
            if k < prev.len() {
                assert(kept_unique(parts)[k] == prev[k]);
                let m = choose|m: int| 0 <= m < parts.drop_last().len() && parts.drop_last()[m] == prev[k];
                assert(parts[m] == prev[k]);
            } else {
                assert(parts[parts.len() - 1] == parts.last());
            }
        }
    }
}

/// A list of kept entries with no repeats is its own kept list.
proof fn lemma_kept_unique_fixed(parts: Seq<Seq<char>>)
    requires
        parts.no_duplicates(),
        forall|k: int| 0 <= k < parts.len() ==> keep_path_entry(#[trigger] parts[k]),
    ensures
        kept_unique(parts) == parts,
    decreases parts.len(),
{
    if parts.len() > 0 {
        let init = parts.drop_last();
        assert forall|k: int| 0 <= k < init.len() implies keep_path_entry(#[trigger] init[k]) by {
            assert(init[k] == parts[k]);
        }
        lemma_kept_unique_fixed(init);
        assert(!init.contains(parts.last())) by {
            if init.contains(parts.last()) {
                let m = choose|m: int| 0 <= m < init.len() && init[m] == parts.last();
                assert(parts[m] == parts[parts.len() - 1]);
            }
        }
        assert(keep_path_entry(parts[parts.len() - 1]));
        assert(init.push(parts.last()) =~= parts);
    }
}

/// The fallback `PATH` sanitizes to itself.
proof fn lemma_fallback_fixed()
    ensures
        sanitize_path_spec("/usr/bin:/bin"@) == "/usr/bin:/bin"@,
{
    reveal_strlit("/usr/bin:/bin");
    reveal_strlit("/usr/bin");
    reveal_strlit("/bin");
    let a = "/usr/bin"@;
    let b = "/bin"@;
    assert(a =~= seq!['/', 'u', 's', 'r', '/', 'b', 'i', 'n']);
    assert(b =~= seq!['/', 'b', 'i', 'n']);
    assert(!a.contains(':'));
    assert(!b.contains(':'));
    let parts = seq![a, b];
    assert(join_with(seq![a], ':') == a);
    assert(parts.drop_last() =~= seq![a]);
    assert(join_with(parts, ':') == a.push(':') + b);
    assert("/usr/bin:/bin"@ =~= a.push(':') + b);
    lemma_split_single(a, ':');
    lemma_split_after_sep(a, b, ':');
    assert(seq![a].push(b) =~= parts);
    assert(split_on("/usr/bin:/bin"@, ':') == parts);
    assert(a != b) by {
        assert(a.len() != b.len());
    }
    assert(keep_path_entry(a) && keep_path_entry(b)) by {
        assert(a != seq!['.']) by {
            assert(a.len() != 1);
        }
        assert(b != seq!['.']) by {
            assert(b.len() != 1);
        }
    }
    assert(parts.no_duplicates());
    lemma_kept_unique_fixed(parts);
}

/// Sanitizing a sanitized `PATH` changes nothing.
pub proof fn lemma_sanitize_path_idempotent(path: Seq<char>)
    ensures
        sanitize_path_spec(sanitize_path_spec(path)) == sanitize_path_spec(path),
{
    let kept = kept_unique(split_on(path, ':'));
    if kept.len() == 0 {
        lemma_fallback_fixed();
    } else {
        lemma_kept_unique_props(split_on(path, ':'));
        lemma_split_pieces_free(path, ':');
        assert forall|k: int| 0 <= k < kept.len() implies !(#[trigger] kept[k]).contains(':') by {
            let m = choose|m: int| 0 <= m < split_on(path, ':').len() && split_on(path, ':')[m] == kept[k];
            assert(!split_on(path, ':')[m].contains(':'));
        }
        assert(sanitize_path_spec(path) == join_with(kept, ':'));
        lemma_split_join(kept, ':');
        lemma_kept_unique_fixed(kept);
    }
}

/// Sanitizes a `PATH`-like value: drops empty entries, `.` and `~`-relative
/// entries, keeps the first of duplicates in order; an empty result falls
/// back to `/usr/bin:/bin`.
pub fn sanitize_path(path: &str) -> (out: String)
    ensures
        out@ == sanitize_path_spec(path@),
{
    let cs = chars_of(path);
    let parts = split_chars(cs.as_slice(), ':');
    let mut kept: Vec<Vec<char>> = Vec::new();
    let mut i: usize = 0;
    while i < parts.len()
        invariant
            i <= parts.len(),
            seqs_of(kept@) == kept_unique(seqs_of(parts@).take(i as int)),
        decreases parts.len() - i,
    {
        let comp = parts[i].as_slice();
        assert(seqs_of(parts@).take(i + 1).drop_last() =~= seqs_of(parts@).take(i as int));
        assert(seqs_of(parts@).take(i + 1).last() == comp@);
        let keep = comp.len() > 0 && !(comp.len() == 1 && comp[0] == '.') && comp[0] != '~';
        assert(keep == keep_path_entry(comp@)) by {
            if comp@.len() == 1 {
                if comp@[0] == '.' {
                    assert(comp@ =~= seq!['.']);
                }
            }
        }
        if keep && !contains_piece(&kept, comp) {
            kept.push(copy_chars(comp));
            assert(seqs_of(kept@) =~= kept_unique(seqs_of(parts@).take(i + 1)));
        }
        i += 1;
    }
    assert(seqs_of(parts@).take(parts.len() as int) =~= seqs_of(parts@));
    if kept.len() == 0 {
        return "/usr/bin:/bin".to_owned();
    }
    let joined = join_chars(&kept, ':');
    string_of(joined.as_slice())
}

/// ASCII lower-casing of one byte.
pub open spec fn ascii_lower(b: u8) -> u8 {
    if 0x41 <= b <= 0x5a {
        (b + 0x20) as u8
    } else {
        b
    }
}

/// Whether `name` equals `PATH` ignoring ASCII case.
pub open spec fn is_path_name(name: Seq<char>) -> bool {
    encode_utf8(name).map_values(|b: u8| ascii_lower(b)) == encode_utf8("PATH"@).map_values(
        |b: u8| ascii_lower(b),
    )
}

fn lower_vec(b: &[u8]) -> (out: Vec<u8>)
    ensures
        out@ == b@.map_values(|x: u8| ascii_lower(x)),
{
    let mut out: Vec<u8> = Vec::new();
    let mut i: usize = 0;
    while i < b.len()
        invariant
            i <= b.len(),
            out@ == b@.take(i as int).map_values(|x: u8| ascii_lower(x)),
        decreases b.len() - i,
    {
        let c = b[i];
        let l = if 0x41 <= c && c <= 0x5a {
            c + 0x20
        } else {
            c
        };
        out.push(l);
        assert(b@.take(i + 1).map_values(|x: u8| ascii_lower(x)) =~= b@.take(i as int).map_values(
            |x: u8| ascii_lower(x),
        ).push(l));
        i += 1;
    }
    assert(b@.take(b.len() as int) =~= b@);
    out
}

fn name_is_path(name: &str) -> (r: bool)
    ensures
        r == is_path_name(name@),
{
    let a = lower_vec(name.as_bytes());
    let b = lower_vec("PATH".as_bytes());
    crate::text::bytes_eq(a.as_slice(), b.as_slice())
}

/// Whether a pair may be passed at all: a non-empty name without `=` or NUL,
/// and a value without NUL.
pub open spec fn name_value_ok(name: Seq<char>, value: Seq<char>) -> bool {
    name.len() > 0 && !name.contains('=') && !name.contains('\0') && !value.contains('\0')
}

/// The views of a sequence of string pairs.
pub open spec fn pairs_view(v: Seq<(String, String)>) -> Seq<(Seq<char>, Seq<char>)> {
    v.map_values(|p: (String, String)| (p.0@, p.1@))
}

/// The pairs that survive filtering, in order.
pub open spec fn filter_env_spec(
    vars: Seq<(Seq<char>, Seq<char>)>,
    strict_path: bool,
    patterns: Seq<Seq<char>>,
) -> Seq<(Seq<char>, Seq<char>)>
    decreases vars.len(),
{
    if vars.len() == 0 {
        Seq::empty()
    } else {
        let prev = filter_env_spec(vars.drop_last(), strict_path, patterns);
        let name = vars.last().0;
        let value = vars.last().1;
        if !name_value_ok(name, value) || redacted(name, patterns) {
            prev
        } else if strict_path && is_path_name(name) {
            prev.push((name, sanitize_path_spec(value)))
        } else {
            prev.push((name, value))
        }
    }
}

fn filter_pairs(vars: &Vec<(String, String)>, strict_path: bool, patterns: &[String]) -> (out: Vec<(String, String)>)
    ensures
        pairs_view(out@) == filter_env_spec(pairs_view(vars@), strict_path, strings_view(patterns@)),
{
    let mut out: Vec<(String, String)> = Vec::new();
    let mut i: usize = 0;
    while i < vars.len()
        invariant
            i <= vars.len(),
            pairs_view(out@) == filter_env_spec(pairs_view(vars@).take(i as int), strict_path, strings_view(patterns@)),
        decreases vars.len() - i,
    {
        let name: &String = &vars[i].0;
        let value: &String = &vars[i].1;
        assert(pairs_view(vars@).take(i + 1).drop_last() =~= pairs_view(vars@).take(i as int));
        assert(pairs_view(vars@).take(i + 1).last() == (name@, value@));
        let ncs = chars_of(name.as_str());
        let vcs = chars_of(value.as_str());
        let ok = ncs.len() > 0 && !chars_contain(ncs.as_slice(), '=') && !chars_contain(ncs.as_slice(), '\0')
            && !chars_contain(vcs.as_slice(), '\0');
        if ok && !is_redacted(name.as_str(), patterns) {
            if strict_path && name_is_path(name.as_str()) {
                out.push((name.clone(), sanitize_path(value.as_str())));
            } else {
                out.push((name.clone(), value.clone()));
            }
            assert(pairs_view(out@) =~= filter_env_spec(pairs_view(vars@).take(i + 1), strict_path, strings_view(patterns@)));
        }
        i += 1;
    }
    assert(pairs_view(vars@).take(vars.len() as int) =~= pairs_view(vars@));
    out
}

/// Filters `(name, value)` pairs: drops hard-denied names, names that are
/// empty or hold `=` or NUL, and values holding NUL. With `strict_path`, a
/// `PATH` value (name compared without ASCII case) is sanitized.
pub fn filter_env(vars: Vec<(String, String)>, strict_path: bool) -> (out: Vec<(String, String)>)
    ensures
        pairs_view(out@) == filter_env_spec(pairs_view(vars@), strict_path, Seq::empty()),
{
    let none: Vec<String> = Vec::new();
    let out = filter_pairs(&vars, strict_path, none.as_slice());
    assert(strings_view(none@) =~= Seq::<Seq<char>>::empty());
    out
}

/// As `filter_env`, also dropping names that match one of `redacted_patterns`.
pub fn filter_env_with_patterns(
    vars: Vec<(String, String)>,
    strict_path: bool,
    redacted_patterns: &[String],
) -> (out: Vec<(String, String)>)
    ensures
        pairs_view(out@) == filter_env_spec(pairs_view(vars@), strict_path, strings_view(redacted_patterns@)),
{
    filter_pairs(&vars, strict_path, redacted_patterns)
}

/// Scrubs every variable matching a redacted pattern or a secret shape, and
/// sanitizes `PATH`.
pub fn sanitize_environment(vars: Vec<(String, String)>, redacted_patterns: &[String]) -> (out: Vec<(String, String)>)
    ensures
        pairs_view(out@) == filter_env_spec(pairs_view(vars@), true, strings_view(redacted_patterns@)),
{
    filter_env_with_patterns(vars, true, redacted_patterns)
}

/// The last value given for `key` in `pairs`.
pub open spec fn last_value(pairs: Seq<(String, String)>, key: Seq<char>) -> Option<Seq<char>>
    decreases pairs.len(),
{
    if pairs.len() == 0 {
        None
    } else if pairs.last().0@ == key {
        Some(pairs.last().1@)
    } else {
        last_value(pairs.drop_last(), key)
    }
}

/// A variable's value in the agent's environment: the last override for it,
/// else its last value in the base environment.
pub open spec fn env_value(base: Seq<(String, String)>, extra: Seq<(String, String)>, key: Seq<char>) -> Option<Seq<char>> {
    match last_value(extra, key) {
        Some(v) => Some(v),
        None => last_value(base, key),
    }
}

/// Entries sorted strictly by key.
pub open spec fn sorted_by_key(v: Seq<(String, String)>) -> bool {
    forall|i: int, j: int| 0 <= i < j < v.len() ==> crate::paths::text_lt(#[trigger] v[i].0@, #[trigger] v[j].0@)
}

/// What one insertion under a key does: the result is sorted, holds the
/// key with the new value, and keeps every other entry.
pub open spec fn put_result(before: Seq<(String, String)>, after: Seq<(String, String)>, key: Seq<char>, value: Seq<char>) -> bool {
    &&& sorted_by_key(after)
    &&& forall|i: int| 0 <= i < after.len() ==> (#[trigger] after[i]).0@ == key && after[i].1@ == value
        || (after[i].0@ != key && exists|j: int| 0 <= j < before.len() && before[j] == after[i])
    &&& exists|i: int| 0 <= i < after.len() && (#[trigger] after[i]).0@ == key
    &&& forall|j: int| 0 <= j < before.len() && (#[trigger] before[j]).0@ != key ==> exists|i: int|
        0 <= i < after.len() && after[i] == before[j]
}

proof fn lemma_replace(before: Seq<(String, String)>, p: int, e: (String, String))
    requires
        sorted_by_key(before),
        0 <= p < before.len(),
        before[p].0@ == e.0@,
    ensures
        put_result(before, before.update(p, e), e.0@, e.1@),
{
    let after = before.update(p, e);
    let key = e.0@;
    assert forall|i: int, j: int| 0 <= i < j < after.len() implies crate::paths::text_lt(
        #[trigger] after[i].0@,
        #[trigger] after[j].0@,
    ) by {
        assert(after[i].0@ == before[i].0@);
        assert(after[j].0@ == before[j].0@);
    }
    assert(after[p].0@ == key);
    assert forall|j: int| 0 <= j < before.len() && (#[trigger] before[j]).0@ != key implies exists|i: int|
        0 <= i < after.len() && after[i] == before[j] by {
        assert(after[j] == before[j]);
    }
    assert forall|i: int| 0 <= i < after.len() implies (#[trigger] after[i]).0@ == key && after[i].1@ == e.1@
        || (after[i].0@ != key && exists|j: int| 0 <= j < before.len() && before[j] == after[i]) by {
        if i != p {
            assert(after[i] == before[i]);
            if after[i].0@ == key {
                if i < p {
                    assert(crate::paths::text_lt(before[i].0@, before[p].0@));
                } else {
                    assert(crate::paths::text_lt(before[p].0@, before[i].0@));
                }
                crate::paths::lemma_text_lt_asym(key, key);
            }
        }
    }
}

proof fn lemma_insert(before: Seq<(String, String)>, p: int, e: (String, String))
    requires
        sorted_by_key(before),
        0 <= p <= before.len(),
        forall|i: int| 0 <= i < p ==> crate::paths::text_lt(#[trigger] before[i].0@, e.0@),
        p < before.len() ==> crate::paths::text_lt(e.0@, before[p].0@),
    ensures
        put_result(before, before.insert(p, e), e.0@, e.1@),
{
    let after = before.insert(p, e);
    let key = e.0@;
    assert forall|i: int, j: int| 0 <= i < j < after.len() implies crate::paths::text_lt(
        #[trigger] after[i].0@,
        #[trigger] after[j].0@,
    ) by {
        if j < p {
            assert(after[i] == before[i]);
            assert(after[j] == before[j]);
        } else if j == p {
            assert(after[i] == before[i]);
        } else if i < p {
            assert(after[i] == before[i]);
            assert(after[j] == before[j - 1]);
            if j - 1 > p {
                crate::paths::lemma_text_lt_trans(key, before[p].0@, before[j - 1].0@);
            }
            crate::paths::lemma_text_lt_trans(before[i].0@, key, before[j - 1].0@);
        } else if i == p {
            assert(after[j] == before[j - 1]);
            if j - 1 > p {
                crate::paths::lemma_text_lt_trans(key, before[p].0@, before[j - 1].0@);
            }
        } else {
            assert(after[i] == before[i - 1]);
            assert(after[j] == before[j - 1]);
        }
    }
    assert(after[p].0@ == key);
    assert forall|j: int| 0 <= j < before.len() && (#[trigger] before[j]).0@ != key implies exists|i: int|
        0 <= i < after.len() && after[i] == before[j] by {
        if j < p {
            assert(after[j] == before[j]);
        } else {
            assert(after[j + 1] == before[j]);
        }
    }
    assert forall|i: int| 0 <= i < after.len() implies (#[trigger] after[i]).0@ == key && after[i].1@ == e.1@
        || (after[i].0@ != key && exists|j: int| 0 <= j < before.len() && before[j] == after[i]) by {
        if i < p {
            assert(after[i] == before[i]);
            crate::paths::lemma_text_lt_asym(key, key);
        } else if i > p {
            assert(after[i] == before[i - 1]);
            if i - 1 > p {
                crate::paths::lemma_text_lt_trans(key, before[p].0@, before[i - 1].0@);
            }
            crate::paths::lemma_text_lt_asym(key, key);
        }
    }
}

fn put_sorted(v: &mut Vec<(String, String)>, key: &String, value: &String)
    requires
        sorted_by_key(old(v)@),
    ensures
        put_result(old(v)@, final(v)@, key@, value@),
{
    let kc = crate::text::chars_of(key.as_str());
    let mut p: usize = 0;
    while p < v.len()
        invariant
            p <= v.len(),
            v@ == old(v)@,
            kc@ == key@,
            sorted_by_key(v@),
            forall|i: int| 0 <= i < p ==> crate::paths::text_lt(#[trigger] v@[i].0@, key@),
        ensures
            p < v.len() ==> !crate::paths::text_lt(v@[p as int].0@, key@),
        decreases v.len() - p,
    {
        let pc = crate::text::chars_of(v[p].0.as_str());
        if !crate::paths::text_less(pc.as_slice(), kc.as_slice()) {
            break;
        }
        p += 1;
    }
    let ghost before = v@;
    let mut same = false;
    if p < v.len() {
        let pc = crate::text::chars_of(v[p].0.as_str());
        same = crate::text::chars_eq(pc.as_slice(), kc.as_slice());
    }
    let e = (key.clone(), value.clone());
    if same {
        proof {
            lemma_replace(before, p as int, e);
        }
        v.set(p, e);
    } else {
        proof {
            if p < before.len() {
                crate::paths::lemma_text_lt_total(before[p as int].0@, key@);
            }
            lemma_insert(before, p as int, e);
        }
        v.insert(p, e);
    }
}

/// Every key present has its value under `value`, and every key `value`
/// gives is present.
pub open spec fn models(out: Seq<(String, String)>, base: Seq<(String, String)>, extra: Seq<(String, String)>) -> bool {
    &&& forall|i: int| 0 <= i < out.len() ==> env_value(base, extra, (#[trigger] out[i]).0@) == Some(out[i].1@)
    &&& forall|k: Seq<char>| #[trigger] env_value(base, extra, k) is Some ==> exists|i: int| 0 <= i < out.len() && out[i].0@ == k
}

proof fn lemma_put_models(
    before: Seq<(String, String)>,
    after: Seq<(String, String)>,
    base: Seq<(String, String)>,
    extra: Seq<(String, String)>,
    base2: Seq<(String, String)>,
    extra2: Seq<(String, String)>,
    key: Seq<char>,
    value: Seq<char>,
)
    requires
        models(before, base, extra),
        put_result(before, after, key, value),
        forall|k: Seq<char>| #[trigger] env_value(base2, extra2, k) == if k == key {
            Some(value)
        } else {
            env_value(base, extra, k)
        },
    ensures
        models(after, base2, extra2),
{
    assert forall|i: int| 0 <= i < after.len() implies env_value(base2, extra2, (#[trigger] after[i]).0@) == Some(after[i].1@) by {
        if after[i].0@ != key {
            let j = choose|j: int| 0 <= j < before.len() && before[j] == after[i];
            assert(env_value(base, extra, before[j].0@) == Some(before[j].1@));
        }
    }
    assert forall|k: Seq<char>| #[trigger] env_value(base2, extra2, k) is Some implies exists|i: int|
        0 <= i < after.len() && after[i].0@ == k by {
        if k != key {
            assert(env_value(base, extra, k) is Some);
            let j = choose|j: int| 0 <= j < before.len() && before[j].0@ == k;
            assert(before[j].0@ != key);
            let i = choose|i: int| 0 <= i < after.len() && after[i] == before[j];
        } else {
            let i = choose|i: int| 0 <= i < after.len() && (#[trigger] after[i]).0@ == key;
        }
    }
}

/// The agent's environment: the base variables with the overrides applied
/// (an override wins; of repeats, the last wins), one entry per variable,
/// sorted by name.
pub fn merged_env(base: &[(String, String)], extra: &[(String, String)]) -> (out: Vec<(String, String)>)
    ensures
        sorted_by_key(out@),
        models(out@, base@, extra@),
{
    let mut out: Vec<(String, String)> = Vec::new();
    let ghost none = Seq::<(String, String)>::empty();
    let mut i: usize = 0;
    assert(base@.take(0) =~= none);
    while i < base.len()
        invariant
            i <= base.len(),
            none == Seq::<(String, String)>::empty(),
            sorted_by_key(out@),
            models(out@, base@.take(i as int), none),
        decreases base.len() - i,
    {
        let ghost before = out@;
        put_sorted(&mut out, &base[i].0, &base[i].1);
        proof {
            let b2 = base@.take(i + 1);
            assert(b2.drop_last() =~= base@.take(i as int));
            assert forall|k: Seq<char>| #[trigger] env_value(b2, none, k) == if k == base@[i as int].0@ {
                Some(base@[i as int].1@)
            } else {
                env_value(base@.take(i as int), none, k)
            } by {
                assert(b2.last() == base@[i as int]);
                assert(last_value(none, k) is None);
                assert(b2.len() > 0);
                assert(last_value(b2, k) == if b2.last().0@ == k {
                    Some(b2.last().1@)
                } else {
                    last_value(b2.drop_last(), k)
                });
            }
            lemma_put_models(before, out@, base@.take(i as int), none, b2, none, base@[i as int].0@, base@[i as int].1@);
        }
        i += 1;
    }
    assert(base@.take(base.len() as int) =~= base@);
    let mut j: usize = 0;
    assert(extra@.take(0) =~= none);
    while j < extra.len()
        invariant
            j <= extra.len(),
            sorted_by_key(out@),
            models(out@, base@, extra@.take(j as int)),
        decreases extra.len() - j,
    {
        let ghost before = out@;
        put_sorted(&mut out, &extra[j].0, &extra[j].1);
        proof {
            let e2 = extra@.take(j + 1);
            assert(e2.drop_last() =~= extra@.take(j as int));
            assert forall|k: Seq<char>| #[trigger] env_value(base@, e2, k) == if k == extra@[j as int].0@ {
                Some(extra@[j as int].1@)
            } else {
                env_value(base@, extra@.take(j as int), k)
            } by {
                assert(e2.last() == extra@[j as int]);
            }
            lemma_put_models(before, out@, base@, extra@.take(j as int), base@, e2, extra@[j as int].0@, extra@[j as int].1@);
        }
        j += 1;
    }
    assert(extra@.take(extra.len() as int) =~= extra@);
    out
}

/// The `NAME=value` entries of an environment, in order.
pub fn env_entries(env: &[(String, String)]) -> (out: Vec<String>)
    ensures
        out@.len() == env@.len(),
        forall|i: int| 0 <= i < env@.len() ==> (#[trigger] out@[i])@ == env@[i].0@ + seq!['='] + env@[i].1@,
{
    let mut out: Vec<String> = Vec::new();
    let mut i: usize = 0;
    while i < env.len()
        invariant
            i <= env.len(),
            out@.len() == i,
            forall|k: int| 0 <= k < i ==> (#[trigger] out@[k])@ == env@[k].0@ + seq!['='] + env@[k].1@,
        decreases env.len() - i,
    {
        let mut e = crate::text::chars_of(env[i].0.as_str());
        e.push('=');
        let v = crate::text::chars_of(env[i].1.as_str());
        crate::text::append_chars(&mut e, v.as_slice());
        out.push(crate::text::string_of(e.as_slice()));
        i += 1;
    }
    out
}

} // verus!
