//! Version comparison, version ranges, and the choice of a winning version.
use vstd::prelude::*;

use crate::text::{trim, trim_chars, lemma_lex_irreflexive, lemma_lex_total, lemma_lex_trans, lex_lt, find_char, find_from, string_of, slice};

verus! {

/// How one version compares to another.
#[derive(PartialEq, Eq, Structural, Clone, Copy, Debug)]
pub enum VersionOrder {
    Less,
    Equal,
    Greater,
}

/// What `version_compare::compare` reports for two version strings; `None`
/// when either string is not a version it can read.
pub uninterp spec fn version_order(a: Seq<char>, b: Seq<char>) -> Option<VersionOrder>;

/// Relies on `version_compare::compare`, which documents its result as one of
/// `Cmp::Eq`, `Cmp::Lt`, `Cmp::Gt`, or an error for an unreadable version.
#[verifier::external_body]
fn compare_strs(a: &str, b: &str) -> (r: Option<VersionOrder>)
    ensures
        r == version_order(a@, b@),
{
    match version_compare::compare(a, b) {
        Ok(version_compare::Cmp::Lt) => Some(VersionOrder::Less),
        Ok(version_compare::Cmp::Eq) => Some(VersionOrder::Equal),
        Ok(version_compare::Cmp::Gt) => Some(VersionOrder::Greater),
        _ => None,
    }
}

pub fn compare_versions(a: &Vec<char>, b: &Vec<char>) -> (r: Option<VersionOrder>)
    ensures
        r == version_order(a@, b@),
{
    compare_strs(&string_of(a), &string_of(b))
}

/// `a` is reported greater than `b`.
pub open spec fn beats(a: Seq<char>, b: Seq<char>) -> bool {
    version_order(a, b) == Some(VersionOrder::Greater)
}

/// No version of `vs` is reported greater than `vs[i]`.
pub open spec fn is_max_at(vs: Seq<Seq<char>>, i: int) -> bool {
    forall|j: int| 0 <= j < vs.len() ==> !beats(#[trigger] vs[j], vs[i])
}

/// Some version of `vs` is a maximum.
pub open spec fn has_max(vs: Seq<Seq<char>>) -> bool {
    exists|i: int| 0 <= i < vs.len() && is_max_at(vs, i)
}

/// A version that may win: a maximum, or any version when there is none.
pub open spec fn candidate(vs: Seq<Seq<char>>, i: int) -> bool {
    !has_max(vs) || is_max_at(vs, i)
}

/// Among the first `k` versions, the index of the candidate with the
/// lexicographically greatest text (the first of equal texts), or -1.
pub open spec fn best_below(vs: Seq<Seq<char>>, k: int) -> int
    decreases k,
{
    if k <= 0 {
        -1
    } else {
        let b = best_below(vs, k - 1);
        if candidate(vs, k - 1) && (b < 0 || lex_lt(vs[b], vs[k - 1])) {
            k - 1
        } else {
            b
        }
    }
}

/// The chosen index: among the maxima under the version comparison (all
/// versions when there is no maximum), the one whose text is
/// lexicographically greatest. Versions that compare equal are thus told
/// apart by their texts, not by where they stand in the list.
pub open spec fn winner_index(vs: Seq<Seq<char>>) -> int {
    best_below(vs, vs.len() as int)
}

proof fn lemma_best_below(vs: Seq<Seq<char>>, k: int)
    requires
        0 <= k <= vs.len(),
    ensures
        -1 <= best_below(vs, k) < k,
        best_below(vs, k) >= 0 ==> candidate(vs, best_below(vs, k)),
        (exists|i: int| 0 <= i < k && candidate(vs, i)) ==> best_below(vs, k) >= 0,
        best_below(vs, k) >= 0 ==> forall|i: int|
            0 <= i < k && candidate(vs, i) ==> !lex_lt(vs[best_below(vs, k)], #[trigger] vs[i]),
    decreases k,
{
    if k > 0 {
        lemma_best_below(vs, k - 1);
        let b = best_below(vs, k - 1);
        let n = best_below(vs, k);
        if n == k - 1 {
            assert forall|i: int| 0 <= i < k && candidate(vs, i) implies !lex_lt(
                vs[n],
                #[trigger] vs[i],
            ) by {
                if i == k - 1 {
                    lemma_lex_irreflexive(vs[i]);
                } else if b >= 0 {
                    if lex_lt(vs[n], vs[i]) {
                        lemma_lex_trans(vs[b], vs[n], vs[i]);
                    }
                }
            }
        }
        assert forall|i: int| 0 <= i < k && candidate(vs, i) implies 0 <= i < k - 1 || n >= 0 by {}
    }
}

/// Of versions `{v1, ..., vk}`, the chosen one is a maximum under the version
/// comparison whenever one exists.
pub proof fn lemma_winner_is_max(vs: Seq<Seq<char>>)
    requires
        vs.len() > 0,
    ensures
        0 <= winner_index(vs) < vs.len(),
        has_max(vs) ==> is_max_at(vs, winner_index(vs)),
{
    lemma_best_below(vs, vs.len() as int);
    if has_max(vs) {
        let i = choose|i: int| 0 <= i < vs.len() && is_max_at(vs, i);
        assert(candidate(vs, i));
    } else {
        assert(candidate(vs, 0));
    }
}

proof fn lemma_max_by_set(v1: Seq<Seq<char>>, v2: Seq<Seq<char>>, i: int, k: int)
    requires
        v1.to_set() == v2.to_set(),
        0 <= i < v1.len(),
        0 <= k < v2.len(),
        v1[i] == v2[k],
        is_max_at(v1, i),
    ensures
        is_max_at(v2, k),
{
    assert forall|j: int| 0 <= j < v2.len() implies !beats(#[trigger] v2[j], v2[k]) by {
        assert(v2.to_set().contains(v2[j]));
        let t = choose|t: int| 0 <= t < v1.len() && v1[t] == v2[j];
        assert(!beats(v1[t], v1[i]));
    }
}

proof fn lemma_has_max_by_set(v1: Seq<Seq<char>>, v2: Seq<Seq<char>>)
    requires
        v1.to_set() == v2.to_set(),
        has_max(v1),
    ensures
        has_max(v2),
{
    let i = choose|i: int| 0 <= i < v1.len() && is_max_at(v1, i);
    assert(v1.to_set().contains(v1[i]));
    let k = choose|k: int| 0 <= k < v2.len() && v2[k] == v1[i];
    lemma_max_by_set(v1, v2, i, k);
}

proof fn lemma_winner_below(v1: Seq<Seq<char>>, v2: Seq<Seq<char>>)
    requires
        v1.to_set() == v2.to_set(),
        v1.len() > 0,
        v2.len() > 0,
    ensures
        !lex_lt(v2[winner_index(v2)], v1[winner_index(v1)]),
{
    lemma_best_below(v1, v1.len() as int);
    lemma_best_below(v2, v2.len() as int);
    lemma_winner_is_max(v1);
    lemma_winner_is_max(v2);
    let w = winner_index(v1);
    assert(v1.to_set().contains(v1[w]));
    let k = choose|k: int| 0 <= k < v2.len() && v2[k] == v1[w];
    if has_max(v1) {
        lemma_max_by_set(v1, v2, w, k);
    } else if has_max(v2) {
        lemma_has_max_by_set(v2, v1);
    }
    assert(candidate(v2, k));
}

/// The winner does not depend on the order in which versions were seen:
/// two lists holding the same version texts choose the same text.
pub proof fn lemma_winner_order_free(v1: Seq<Seq<char>>, v2: Seq<Seq<char>>)
    requires
        v1.to_set() == v2.to_set(),
        v1.len() > 0,
    ensures
        v2.len() > 0,
        v1[winner_index(v1)] == v2[winner_index(v2)],
{
    assert(v1.to_set().contains(v1[0]));
    lemma_winner_below(v1, v2);
    lemma_winner_below(v2, v1);
    if v1[winner_index(v1)] != v2[winner_index(v2)] {
        lemma_lex_total(v1[winner_index(v1)], v2[winner_index(v2)]);
    }
}

/// Whether no version in `vs` is reported greater than `vs[i]`.
fn check_max_at(vs: &Vec<Vec<char>>, i: usize) -> (r: bool)
    requires
        i < vs.len(),
    ensures
        r == is_max_at(vs@.map_values(|v: Vec<char>| v@), i as int),
{
    let ghost m = vs@.map_values(|v: Vec<char>| v@);
    let mut j: usize = 0;
    while j < vs.len()
        invariant
            i < vs.len(),
            j <= vs.len(),
            m == vs@.map_values(|v: Vec<char>| v@),
            forall|k: int| 0 <= k < j ==> !beats(#[trigger] m[k], m[i as int]),
        decreases vs.len() - j,
    {
        if compare_versions(&vs[j], &vs[i]) == Some(VersionOrder::Greater) {
            assert(beats(m[j as int], m[i as int]));
            return false;
        }
        j = j + 1;
    }
    true
}

/// Index of the winning version: among the maxima under the version
/// comparison, the lexicographically greatest text; the same text is chosen
/// for any order of the same versions.
pub fn select_winner(vs: &Vec<Vec<char>>) -> (r: usize)
    requires
        vs.len() > 0,
    ensures
        r as int == winner_index(vs@.map_values(|v: Vec<char>| v@)),
        r < vs.len(),
        forall|other: Seq<Seq<char>>|
            #[trigger] other.to_set() == vs@.map_values(|v: Vec<char>| v@).to_set() ==> other.len()
                > 0 && other[winner_index(other)] == vs@[r as int]@,
{
    let ghost m = vs@.map_values(|v: Vec<char>| v@);
    let mut any = false;
    let mut i: usize = 0;
    while i < vs.len() && !any
        invariant
            i <= vs.len(),
            m == vs@.map_values(|v: Vec<char>| v@),
            any ==> has_max(m),
            !any ==> forall|t: int| 0 <= t < i ==> !is_max_at(m, t),
        decreases vs.len() - i,
    {
        if check_max_at(vs, i) {
            any = true;
        }
        i = i + 1;
    }
    assert(any == has_max(m));
    let mut best: usize = 0;
    let mut found = false;
    let mut k: usize = 0;
    while k < vs.len()
        invariant
            k <= vs.len(),
            best < vs.len(),
            m == vs@.map_values(|v: Vec<char>| v@),
            any == has_max(m),
            found ==> best as int == best_below(m, k as int),
            !found ==> best_below(m, k as int) == -1,
        decreases vs.len() - k,
    {
        let cand = !any || check_max_at(vs, k);
        if cand && (!found || crate::text::lex_less(&vs[best], &vs[k])) {
            best = k;
            found = true;
        }
        k = k + 1;
    }
    proof {
        lemma_winner_is_max(m);
        assert forall|other: Seq<Seq<char>>|
            #[trigger] other.to_set() == m.to_set() implies other.len() > 0 && other[winner_index(
                other,
            )] == vs@[best as int]@ by {
            lemma_winner_order_free(m, other);
        }
    }
    best
}

/// The lower and upper parts of a range: split at the first `,`; without a
/// comma the whole text is the lower part.
/// Whether version `v` satisfies the range expression `r`, read without
/// its surrounding whitespace.
pub open spec fn in_range(v: Seq<char>, r: Seq<char>) -> bool {
    range_holds(v, trim(r))
}

pub open spec fn range_parts(r: Seq<char>) -> (Seq<char>, Seq<char>) {
    let c = find_from(r, ',', 0);
    if c < r.len() {
        (r.subrange(0, c), r.subrange(c + 1, r.len() as int))
    } else {
        (r, Seq::empty())
    }
}

pub open spec fn is_plain_version(r: Seq<char>) -> bool {
    find_from(r, ',', 0) == r.len() && find_from(r, '(', 0) == r.len() && find_from(r, '[', 0)
        == r.len()
}

/// The lower part without its opening bracket.
pub open spec fn lower_bound(lower: Seq<char>) -> Seq<char> {
    if lower.len() > 0 && (lower[0] == '[' || lower[0] == '(') {
        lower.drop_first()
    } else {
        lower
    }
}

/// The upper part without its closing bracket.
pub open spec fn upper_bound(upper: Seq<char>) -> Seq<char> {
    if upper.len() > 0 && (upper.last() == ']' || upper.last() == ')') {
        upper.drop_last()
    } else {
        upper
    }
}

pub open spec fn above_lower(v: Seq<char>, lower: Seq<char>) -> bool {
    let b = lower_bound(lower);
    let inclusive = lower.len() > 0 && lower[0] == '[';
    b.len() == 0 || match version_order(v, b) {
        Some(VersionOrder::Greater) => true,
        Some(VersionOrder::Equal) => inclusive,
        _ => false,
    }
}

pub open spec fn below_upper(v: Seq<char>, upper: Seq<char>) -> bool {
    let b = upper_bound(upper);
    let inclusive = upper.len() > 0 && upper.last() == ']';
    b.len() == 0 || match version_order(v, b) {
        Some(VersionOrder::Less) => true,
        Some(VersionOrder::Equal) => inclusive,
        _ => false,
    }
}

/// Whether version `v` satisfies the range expression `r` (already trimmed):
/// a bare version matches only an equal version; `[`/`]` bounds are
/// inclusive, `(`/`)` exclusive, and an empty bound is unbounded.
pub open spec fn range_holds(v: Seq<char>, r: Seq<char>) -> bool {
    if is_plain_version(r) {
        version_order(v, r) == Some(VersionOrder::Equal)
    } else {
        above_lower(v, range_parts(r).0) && below_upper(v, range_parts(r).1)
    }
}

fn above_lower_exec(v: &Vec<char>, lower: &Vec<char>) -> (r: bool)
    ensures
        r == above_lower(v@, lower@),
{
    let inclusive = lower.len() > 0 && lower[0] == '[';
    let b = if lower.len() > 0 && (lower[0] == '[' || lower[0] == '(') {
        slice(lower, 1, lower.len())
    } else {
        slice(lower, 0, lower.len())
    };
    assert(b@ =~= lower_bound(lower@));
    if b.len() == 0 {
        return true;
    }
    match compare_versions(v, &b) {
        Some(VersionOrder::Greater) => true,
        Some(VersionOrder::Equal) => inclusive,
        _ => false,
    }
}

fn below_upper_exec(v: &Vec<char>, upper: &Vec<char>) -> (r: bool)
    ensures
        r == below_upper(v@, upper@),
{
    let n = upper.len();
    let inclusive = n > 0 && upper[n - 1] == ']';
    let b = if n > 0 && (upper[n - 1] == ']' || upper[n - 1] == ')') {
        slice(upper, 0, n - 1)
    } else {
        slice(upper, 0, n)
    };
    assert(b@ =~= upper_bound(upper@));
    if b.len() == 0 {
        return true;
    }
    match compare_versions(v, &b) {
        Some(VersionOrder::Less) => true,
        Some(VersionOrder::Equal) => inclusive,
        _ => false,
    }
}

/// Whether `version` satisfies the range expression `range`.
pub fn matches_range(version: &Vec<char>, range: &Vec<char>) -> (r: bool)
    ensures
        r == in_range(version@, range@),
        r == range_holds(version@, trim(range@)),
{
    let trimmed = trim_chars(range);
    let range = &trimmed;
    let n = range.len();
    let comma = find_char(range, ',', 0);
    let paren = find_char(range, '(', 0);
    let bracket = find_char(range, '[', 0);
    if comma == n && paren == n && bracket == n {
        return compare_versions(version, range) == Some(VersionOrder::Equal);
    }
    let (lower, upper) = if comma < n {
        (slice(range, 0, comma), slice(range, comma + 1, n))
    } else {
        (slice(range, 0, n), Vec::new())
    };
    assert(range@.subrange(0, n as int) =~= range@);
    assert(upper@ =~= range_parts(range@).1);
    above_lower_exec(version, &lower) && below_upper_exec(version, &upper)
}

/// The versions among the first `k` of `vs` that satisfy `r`, in order.
pub open spec fn matching(vs: Seq<Seq<char>>, r: Seq<char>, k: int) -> Seq<Seq<char>>
    decreases k,
{
    if k <= 0 {
        Seq::empty()
    } else if in_range(vs[k - 1], r) {
        matching(vs, r, k - 1).push(vs[k - 1])
    } else {
        matching(vs, r, k - 1)
    }
}

/// The highest version satisfying a range: the winner among the matching
/// versions, or nothing when none matches.
pub open spec fn best_in_range(vs: Seq<Seq<char>>, r: Seq<char>) -> Option<Seq<char>> {
    let m = matching(vs, r, vs.len() as int);
    if m.len() == 0 {
        None
    } else {
        Some(m[winner_index(m)])
    }
}

/// Picks the highest of `versions` that satisfies `range`.
pub fn max_in_range(versions: &Vec<Vec<char>>, range: &Vec<char>) -> (r: Option<Vec<char>>)
    ensures
        match r {
            Some(v) => best_in_range(versions@.map_values(|v: Vec<char>| v@), range@) == Some(v@),
            None => best_in_range(versions@.map_values(|v: Vec<char>| v@), range@) is None,
        },
{
    let ghost vs = versions@.map_values(|v: Vec<char>| v@);
    let mut found: Vec<Vec<char>> = Vec::new();
    let mut i: usize = 0;
    while i < versions.len()
        invariant
            i <= versions.len(),
            vs == versions@.map_values(|v: Vec<char>| v@),
            found@.map_values(|v: Vec<char>| v@) == matching(vs, range@, i as int),
        decreases versions.len() - i,
    {
        if matches_range(&versions[i], range) {
            found.push(slice(&versions[i], 0, versions[i].len()));
            assert(versions[i as int]@.subrange(0, versions[i as int]@.len() as int)
                =~= versions[i as int]@);
            assert(found@.map_values(|v: Vec<char>| v@) =~= matching(vs, range@, i + 1));
        }
        i = i + 1;
    }
    if found.len() == 0 {
        return None;
    }
    let w = select_winner(&found);
    let picked = slice(&found[w], 0, found[w].len());
    assert(found[w as int]@.subrange(0, found[w as int]@.len() as int) =~= found[w as int]@);
    Some(picked)
}

} // verus!
