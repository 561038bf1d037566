//! The fingerprint of a dependency declaration: SHA-256 over the
//! dependencies sorted by key, each as `key\0value\0`, then the repositories
//! in declared order, each followed by `\0`; written as lowercase hex.
use vstd::prelude::*;

use crate::config::{keys_unique, pairs, texts, Config};
use crate::text::{
    chars_of, lemma_lex_asym, lemma_lex_irreflexive, lemma_lex_total, lemma_lex_trans, lex_less,
    lex_lt, push_all, string_of,
};

verus! {

pub type Entries = Seq<(Seq<char>, Seq<char>)>;

/// Keys strictly increasing.
pub open spec fn sorted(s: Entries) -> bool {
    forall|i: int, j: int| 0 <= i < j < s.len() ==> lex_lt(s[i].0, s[j].0)
}

/// Where an entry with key `k` goes in `s`: the first index at or after `i`
/// whose key is not below `k`.
pub open spec fn insert_pos(s: Entries, k: Seq<char>, i: int) -> int
    decreases s.len() - i,
{
    if i < 0 || i >= s.len() {
        s.len() as int
    } else if !lex_lt(s[i].0, k) {
        i
    } else {
        insert_pos(s, k, i + 1)
    }
}

/// The first `n` entries of `d`, sorted by insertion.
pub open spec fn sort_entries(d: Entries, n: int) -> Entries
    decreases n,
{
    if n <= 0 {
        Seq::empty()
    } else {
        let s = sort_entries(d, n - 1);
        s.insert(insert_pos(s, d[n - 1].0, 0), d[n - 1])
    }
}

proof fn lemma_insert_pos(s: Entries, k: Seq<char>, i: int)
    requires
        0 <= i <= s.len(),
    ensures
        i <= insert_pos(s, k, i) <= s.len(),
        forall|t: int| i <= t < insert_pos(s, k, i) ==> lex_lt(s[t].0, k),
        insert_pos(s, k, i) < s.len() ==> !lex_lt(s[insert_pos(s, k, i)].0, k),
    decreases s.len() - i,
{
    if i < s.len() && lex_lt(s[i].0, k) {
        lemma_insert_pos(s, k, i + 1);
    }
}

proof fn lemma_sort_len(d: Entries, n: int)
    requires
        0 <= n <= d.len(),
    ensures
        sort_entries(d, n).len() == n,
    decreases n,
{
    if n > 0 {
        lemma_sort_len(d, n - 1);
        lemma_insert_pos(sort_entries(d, n - 1), d[n - 1].0, 0);
    }
}

proof fn lemma_sort_entries(d: Entries, n: int)
    requires
        keys_unique(d),
        0 <= n <= d.len(),
    ensures
        sorted(sort_entries(d, n)),
        sort_entries(d, n).to_set() == d.take(n).to_set(),
        sort_entries(d, n).len() == n,
        forall|t: int| 0 <= t < n ==> sort_entries(d, n).contains(#[trigger] d[t]),
        forall|t: int| 0 <= t < sort_entries(d, n).len() ==> d.take(n).contains(#[trigger] sort_entries(d, n)[t]),
    decreases n,
{
    if n > 0 {
        lemma_sort_entries(d, n - 1);
        let s = sort_entries(d, n - 1);
        let e = d[n - 1];
        let p = insert_pos(s, e.0, 0);
        lemma_insert_pos(s, e.0, 0);
        let r = s.insert(p, e);
        assert(r == sort_entries(d, n));
        // e's key is new
        assert forall|t: int| 0 <= t < s.len() implies s[t].0 != e.0 by {
            assert(d.take(n - 1).contains(s[t]));
            let w = choose|w: int| 0 <= w < n - 1 && #[trigger] d.take(n - 1)[w] == s[t];
            assert(d[w].0 != d[n - 1].0);
        }
        if p < s.len() {
            lemma_lex_total(s[p].0, e.0);
        }
        assert forall|i: int, j: int| 0 <= i < j < r.len() implies lex_lt(r[i].0, r[j].0) by {
            if j < p {
                assert(r[i] == s[i] && r[j] == s[j]);
            } else if j == p {
                assert(r[j] == e);
                assert(r[i] == s[i]);
            } else if i < p {
                assert(r[i] == s[i] && r[j] == s[j - 1]);
                assert(lex_lt(s[i].0, e.0));
                if j - 1 > p {
                    lemma_lex_trans(s[i].0, s[p].0, s[j - 1].0);
                } else {
                    lemma_lex_trans(s[i].0, e.0, s[p].0);
                }
                if j - 1 > p {
                } else {
                }
            } else if i == p {
                assert(r[i] == e && r[j] == s[j - 1]);
                if j - 1 > p {
                    lemma_lex_trans(e.0, s[p].0, s[j - 1].0);
                }
            } else {
                assert(r[i] == s[i - 1] && r[j] == s[j - 1]);
            }
        }
        assert forall|t: int| 0 <= t < n implies r.contains(#[trigger] d[t]) by {
            if t == n - 1 {
                assert(r[p] == e);
            } else {
                assert(s.contains(d[t]));
                let w = choose|w: int| 0 <= w < s.len() && #[trigger] s[w] == d[t];
                if w < p {
                    assert(r[w] == d[t]);
                } else {
                    assert(r[w + 1] == d[t]);
                }
            }
        }
        assert forall|t: int| 0 <= t < r.len() implies d.take(n).contains(#[trigger] r[t]) by {
            if t == p {
                assert(d.take(n)[n - 1] == e);
            } else {
                let u = if t < p { t } else { t - 1 };
                assert(r[t] == s[u]);
                assert(d.take(n - 1).contains(s[u]));
                let w = choose|w: int| 0 <= w < n - 1 && #[trigger] d.take(n - 1)[w] == s[u];
                assert(d.take(n)[w] == s[u]);
            }
        }
        assert forall|x: (Seq<char>, Seq<char>)| r.to_set().contains(x) <==> d.take(n).to_set().contains(x) by {
            if r.to_set().contains(x) {
                let t = choose|t: int| 0 <= t < r.len() && #[trigger] r[t] == x;
                assert(d.take(n).contains(r[t]));
            }
            if d.take(n).to_set().contains(x) {
                let t = choose|t: int| 0 <= t < n && #[trigger] d.take(n)[t] == x;
                assert(d[t] == x);
                assert(r.contains(d[t]));
            }
        }
        assert(r.to_set() =~= d.take(n).to_set());
    } else {
        assert(d.take(0).to_set() =~= Set::<(Seq<char>, Seq<char>)>::empty());
        assert(Seq::<(Seq<char>, Seq<char>)>::empty().to_set() =~= Set::<(Seq<char>, Seq<char>)>::empty());
    }
}

proof fn lemma_sorted_unique(s1: Entries, s2: Entries)
    requires
        sorted(s1),
        sorted(s2),
        s1.to_set() == s2.to_set(),
    ensures
        s1 == s2,
    decreases s1.len(),
{
    if s1.len() == 0 {
        if s2.len() > 0 {
            assert(s2.to_set().contains(s2[0]));
        }
        assert(s1 =~= s2);
    } else {
        assert(s1.to_set().contains(s1[0]));
        assert(s2.len() > 0);
        assert(s2.to_set().contains(s2[0]));
        let j = choose|j: int| 0 <= j < s2.len() && #[trigger] s2[j] == s1[0];
        let i = choose|i: int| 0 <= i < s1.len() && #[trigger] s1[i] == s2[0];
        if j > 0 {
            assert(lex_lt(s2[0].0, s2[j].0));
            if i == 0 {
                lemma_lex_irreflexive(s1[0].0);
            } else {
                assert(lex_lt(s1[0].0, s1[i].0));
                lemma_lex_asym(s1[0].0, s1[i].0);
            }
        }
        assert(s1[0] == s2[0]);
        let t1 = s1.drop_first();
        let t2 = s2.drop_first();
        assert forall|x| t1.to_set().contains(x) <==> t2.to_set().contains(x) by {
            if t1.to_set().contains(x) {
                let a = choose|a: int| 0 <= a < t1.len() && #[trigger] t1[a] == x;
                assert(s1[a + 1] == x);
                assert(lex_lt(s1[0].0, x.0));
                assert(s1.to_set().contains(x));
                let b = choose|b: int| 0 <= b < s2.len() && #[trigger] s2[b] == x;
                if b == 0 {
                    lemma_lex_irreflexive(x.0);
                }
                assert(t2[b - 1] == x);
            }
            if t2.to_set().contains(x) {
                let a = choose|a: int| 0 <= a < t2.len() && #[trigger] t2[a] == x;
                assert(s2[a + 1] == x);
                assert(lex_lt(s2[0].0, x.0));
                assert(s2.to_set().contains(x));
                let b = choose|b: int| 0 <= b < s1.len() && #[trigger] s1[b] == x;
                if b == 0 {
                    lemma_lex_irreflexive(x.0);
                }
                assert(t1[b - 1] == x);
            }
        }
        assert(t1.to_set() =~= t2.to_set());
        lemma_sorted_unique(t1, t2);
        assert(s1 =~= seq![s1[0]] + t1);
        assert(s2 =~= seq![s2[0]] + t2);
    }
}

/// `key\0value\0` for each of the first `n` entries.
pub open spec fn entries_text(s: Entries, n: int) -> Seq<char>
    decreases n,
{
    if n <= 0 {
        Seq::empty()
    } else {
        entries_text(s, n - 1) + s[n - 1].0 + seq!['\0'] + s[n - 1].1 + seq!['\0']
    }
}

/// Each of the first `n` repositories followed by `\0`.
pub open spec fn repos_text(rs: Seq<Seq<char>>, n: int) -> Seq<char>
    decreases n,
{
    if n <= 0 {
        Seq::empty()
    } else {
        repos_text(rs, n - 1) + rs[n - 1] + seq!['\0']
    }
}

/// The text that is hashed.
pub open spec fn fingerprint_text(d: Entries, rs: Seq<Seq<char>>) -> Seq<char> {
    entries_text(sort_entries(d, d.len() as int), d.len() as int) + repos_text(rs, rs.len() as int)
}

/// The dependency declaration's fingerprint is the same for every order of
/// the dependencies map: two listings of the same key/value pairs, each key
/// once, give the same hashed text.
pub proof fn lemma_fingerprint_order_free(d1: Entries, d2: Entries, rs: Seq<Seq<char>>)
    requires
        keys_unique(d1),
        keys_unique(d2),
        d1.to_set() == d2.to_set(),
    ensures
        fingerprint_text(d1, rs) == fingerprint_text(d2, rs),
{
    lemma_sort_entries(d1, d1.len() as int);
    lemma_sort_entries(d2, d2.len() as int);
    assert(d1.take(d1.len() as int) =~= d1);
    assert(d2.take(d2.len() as int) =~= d2);
    lemma_sorted_unique(sort_entries(d1, d1.len() as int), sort_entries(d2, d2.len() as int));
}

/// No entry holds a NUL character.
pub open spec fn nul_free(rs: Seq<Seq<char>>) -> bool {
    forall|i: int| 0 <= i < rs.len() ==> !(#[trigger] rs[i]).contains('\0')
}

proof fn lemma_repos_text_shape(rs: Seq<Seq<char>>, n: int)
    requires
        0 <= n <= rs.len(),
    ensures
        n == 0 <==> repos_text(rs, n).len() == 0,
        n > 0 ==> repos_text(rs, n).last() == '\0',
    decreases n,
{
    if n > 0 {
        lemma_repos_text_shape(rs, n - 1);
    }
}

proof fn lemma_split_nul(a1: Seq<char>, x1: Seq<char>, a2: Seq<char>, x2: Seq<char>)
    requires
        a1 + x1 == a2 + x2,
        a1.len() == 0 || a1.last() == '\0',
        a2.len() == 0 || a2.last() == '\0',
        !x1.contains('\0'),
        !x2.contains('\0'),
    ensures
        a1 == a2,
        x1 == x2,
{
    let s = a1 + x1;
    if x1.len() < x2.len() {
        let k = a1.len() - 1;
        assert(s[k] == a1.last());
        assert(x2[k - a2.len()] == s[k]);
    } else if x2.len() < x1.len() {
        let k = a2.len() - 1;
        assert(s[k] == a2.last());
        assert(x1[k - a1.len()] == s[k]);
    }
    assert(a1 =~= s.subrange(0, a1.len() as int));
    assert(a2 =~= s.subrange(0, a2.len() as int));
    assert(x1 =~= s.subrange(a1.len() as int, s.len() as int));
    assert(x2 =~= s.subrange(a2.len() as int, s.len() as int));
}

proof fn lemma_repos_text_injective(r1: Seq<Seq<char>>, r2: Seq<Seq<char>>)
    requires
        nul_free(r1),
        nul_free(r2),
        repos_text(r1, r1.len() as int) == repos_text(r2, r2.len() as int),
    ensures
        r1 == r2,
    decreases r1.len(),
{
    lemma_repos_text_shape(r1, r1.len() as int);
    lemma_repos_text_shape(r2, r2.len() as int);
    if r1.len() == 0 || r2.len() == 0 {
        assert(r1 =~= r2);
    } else {
        let n1 = r1.len() as int;
        let n2 = r2.len() as int;
        let a1 = repos_text(r1, n1 - 1);
        let a2 = repos_text(r2, n2 - 1);
        let t = repos_text(r1, n1);
        assert((a1 + r1[n1 - 1]) =~= t.drop_last());
        assert((a2 + r2[n2 - 1]) =~= repos_text(r2, n2).drop_last());
        lemma_repos_text_shape(r1, n1 - 1);
        lemma_repos_text_shape(r2, n2 - 1);
        assert(!r1[n1 - 1].contains('\0'));
        assert(!r2[n2 - 1].contains('\0'));
        lemma_split_nul(a1, r1[n1 - 1], a2, r2[n2 - 1]);
        let p1 = r1.drop_last();
        let p2 = r2.drop_last();
        assert(repos_text(p1, n1 - 1) == a1) by {
            lemma_repos_text_prefix(r1, n1 - 1);
        }
        assert(repos_text(p2, n2 - 1) == a2) by {
            lemma_repos_text_prefix(r2, n2 - 1);
        }
        lemma_repos_text_injective(p1, p2);
        assert(r1 =~= p1.push(r1[n1 - 1]));
        assert(r2 =~= p2.push(r2[n2 - 1]));
    }
}

proof fn lemma_repos_text_prefix(rs: Seq<Seq<char>>, n: int)
    requires
        0 <= n < rs.len(),
    ensures
        repos_text(rs.drop_last(), n) == repos_text(rs, n),
    decreases n,
{
    if n > 0 {
        lemma_repos_text_prefix(rs, n - 1);
    }
}

/// The fingerprint does follow the order of the repositories: two
/// different repository lists (no URL holding a NUL) give different hashed
/// texts for the same dependencies.
pub proof fn lemma_fingerprint_follows_repositories(
    d: Entries,
    r1: Seq<Seq<char>>,
    r2: Seq<Seq<char>>,
)
    requires
        r1 != r2,
        nul_free(r1),
        nul_free(r2),
    ensures
        fingerprint_text(d, r1) != fingerprint_text(d, r2),
{
    let e = entries_text(sort_entries(d, d.len() as int), d.len() as int);
    let t1 = repos_text(r1, r1.len() as int);
    let t2 = repos_text(r2, r2.len() as int);
    if fingerprint_text(d, r1) == fingerprint_text(d, r2) {
        assert(t1 =~= (e + t1).subrange(e.len() as int, (e + t1).len() as int));
        assert(t2 =~= (e + t2).subrange(e.len() as int, (e + t2).len() as int));
        lemma_repos_text_injective(r1, r2);
    }
}

/// The SHA-256 digest of a text's UTF-8 bytes.
pub uninterp spec fn sha256_of(s: Seq<char>) -> Seq<u8>;

/// Relies on `sha2::Sha256` through `Digest::digest`: the 32-byte SHA-256
/// digest of the UTF-8 bytes of `s`.
#[verifier::external_body]
fn sha256(s: &str) -> (r: Vec<u8>)
    ensures
        r@ == sha256_of(s@),
        r@.len() == 32,
{
    <sha2::Sha256 as sha2::Digest>::digest(s.as_bytes()).to_vec()
}

pub open spec fn hex_digit(n: int) -> char {
    if n < 10 {
        ((n + 48) as u8) as char
    } else {
        ((n + 87) as u8) as char
    }
}

/// Two lowercase hex digits per byte, high digit first.
pub open spec fn hex_of(b: Seq<u8>) -> Seq<char> {
    Seq::new(
        2 * b.len(),
        |i: int|
            if i % 2 == 0 {
                hex_digit(b[i / 2] as int / 16)
            } else {
                hex_digit(b[i / 2] as int % 16)
            },
    )
}

fn hex_char(n: u8) -> (r: char)
    requires
        n < 16,
    ensures
        r == hex_digit(n as int),
{
    if n < 10 {
        (n + 48) as char
    } else {
        (n + 87) as char
    }
}

pub fn to_hex(b: &Vec<u8>) -> (r: String)
    ensures
        r@ == hex_of(b@),
{
    let mut out: Vec<char> = Vec::new();
    let mut i: usize = 0;
    while i < b.len()
        invariant
            i <= b.len(),
            out@ == hex_of(b@.take(i as int)),
        decreases b.len() - i,
    {
        out.push(hex_char(b[i] / 16));
        out.push(hex_char(b[i] % 16));
        assert(out@ =~= hex_of(b@.take(i + 1)));
        i = i + 1;
    }
    assert(b@.take(i as int) =~= b@);
    string_of(&out)
}

fn insert_sorted(s: &mut Vec<(Vec<char>, Vec<char>)>, e: (Vec<char>, Vec<char>))
    ensures
        entry_views(final(s)@) == entry_views(old(s)@).insert(
            insert_pos(entry_views(old(s)@), e.0@, 0),
            (e.0@, e.1@),
        ),
{
    let ghost v0 = entry_views(s@);
    let mut p: usize = 0;
    while p < s.len() && lex_less(&s[p].0, &e.0)
        invariant
            p <= s.len(),
            v0 == entry_views(s@),
            v0 == entry_views(old(s)@),
            insert_pos(v0, e.0@, 0) == insert_pos(v0, e.0@, p as int),
        decreases s.len() - p,
    {
        p = p + 1;
    }
    let ghost ev = (e.0@, e.1@);
    s.insert(p, e);
    assert(entry_views(s@) =~= v0.insert(p as int, ev));
}

pub open spec fn entry_views(s: Seq<(Vec<char>, Vec<char>)>) -> Entries {
    s.map_values(|e: (Vec<char>, Vec<char>)| (e.0@, e.1@))
}

/// The text hashed for a dependency list and a repository list.
pub fn fingerprint_input(deps: &Vec<(String, String)>, repos: &Vec<String>) -> (r: String)
    ensures
        r@ == fingerprint_text(pairs(deps@), texts(repos@)),
{
    let ghost d = pairs(deps@);
    let mut sorted: Vec<(Vec<char>, Vec<char>)> = Vec::new();
    let mut i: usize = 0;
    assert(entry_views(sorted@) =~= sort_entries(d, 0));
    while i < deps.len()
        invariant
            i <= deps.len(),
            d == pairs(deps@),
            entry_views(sorted@) == sort_entries(d, i as int),
        decreases deps.len() - i,
    {
        let e = (chars_of(&deps[i].0), chars_of(&deps[i].1));
        assert((e.0@, e.1@) == d[i as int]);
        insert_sorted(&mut sorted, e);
        i = i + 1;
    }
    proof {
        lemma_sort_len(d, d.len() as int);
    }
    let mut out: Vec<char> = Vec::new();
    let mut k: usize = 0;
    assert(out@ =~= entries_text(entry_views(sorted@), 0));
    while k < sorted.len()
        invariant
            k <= sorted.len(),
            sorted@.len() == d.len(),
            entry_views(sorted@) == sort_entries(d, d.len() as int),
            out@ == entries_text(entry_views(sorted@), k as int),
        decreases sorted.len() - k,
    {
        push_all(&mut out, &sorted[k].0);
        out.push('\0');
        push_all(&mut out, &sorted[k].1);
        out.push('\0');
        assert(out@ =~= entries_text(entry_views(sorted@), k + 1));
        k = k + 1;
    }
    let ghost head = out@;
    let mut j: usize = 0;
    while j < repos.len()
        invariant
            j <= repos.len(),
            out@ == head + repos_text(texts(repos@), j as int),
        decreases repos.len() - j,
    {
        push_all(&mut out, &chars_of(&repos[j]));
        out.push('\0');
        assert(out@ =~= head + repos_text(texts(repos@), j + 1));
        j = j + 1;
    }
    string_of(&out)
}

/// The fingerprint of a configuration's dependencies and repositories, as
/// lowercase hex; a missing list counts as empty.
pub fn generate_fingerprint(config: &Config) -> (r: String)
    ensures
        r@.len() == 64,
        r@ == hex_of(
            sha256_of(
                fingerprint_text(
                    match config.dependencies {
                        Some(d) => pairs(d@),
                        None => Seq::empty(),
                    },
                    match config.repositories {
                        Some(rs) => texts(rs@),
                        None => Seq::empty(),
                    },
                ),
            ),
        ),
{
    let empty_deps: Vec<(String, String)> = Vec::new();
    let empty_repos: Vec<String> = Vec::new();
    assert(pairs(empty_deps@) =~= Seq::<(Seq<char>, Seq<char>)>::empty());
    assert(texts(empty_repos@) =~= Seq::<Seq<char>>::empty());
    let deps = match &config.dependencies {
        Some(d) => d,
        None => &empty_deps,
    };
    let repos = match &config.repositories {
        Some(r) => r,
        None => &empty_repos,
    };
    let text = fingerprint_input(deps, repos);
    to_hex(&sha256(&text))
}

/// Whether the stored lock text names the current fingerprint, ignoring
/// surrounding whitespace; resolution is skipped exactly then.
pub fn lock_is_current(saved: &str, fingerprint: &str) -> (r: bool)
    ensures
        r == (crate::text::trim(saved@) == fingerprint@),
{
    crate::text::eq_chars(&crate::text::trim_chars(&chars_of(saved)), &chars_of(fingerprint))
}

} // verus!
