//! The dependency graph walk: breadth-first over POMs, with cycle breaking,
//! scope filtering, repository discovery and the post-pass that picks one
//! version per `group:name`.
//!
//! The walk is a step machine: the caller asks for the next node, fetches
//! its effective POM, hands it to `visit`, resolves any dynamic versions among
//! the children and enqueues them, until `next_node` reports the queue empty;
//! then `finish` picks the winners.
use vstd::prelude::*;

use crate::artifact::{coords_text, id_text, parse_coords, Artifact, Coords};
use crate::pom::{interpolate, resolve_val, DepModel, DependencyEntry, Pom, PomModel};
use crate::text::{
    chars_of, eq_chars, push_all, string_of, trim, trim_chars,
};
use crate::version::{select_winner, winner_index};

verus! {

/// A repository URL as stored: trimmed, with exactly one added `/` when it
/// did not end with one.
pub open spec fn normalized_url(s: Seq<char>) -> Seq<char> {
    let t = trim(s);
    if t.len() > 0 && t.last() == '/' {
        t
    } else {
        t.push('/')
    }
}

pub fn normalize_url(s: &str) -> (r: String)
    ensures
        r@ == normalized_url(s@),
        r@.len() > 0 && r@.last() == '/',
{
    let mut t = trim_chars(&chars_of(s));
    if !(t.len() > 0 && t[t.len() - 1] == '/') {
        t.push('/');
    }
    string_of(&t)
}

/// Each URL ends with `/` and appears once.
pub open spec fn repos_ok(rs: Seq<Seq<char>>) -> bool {
    &&& forall|i: int| 0 <= i < rs.len() ==> #[trigger] rs[i].len() > 0 && rs[i].last() == '/'
    &&& forall|i: int, j: int| 0 <= i < j < rs.len() ==> rs[i] != rs[j]
}

pub open spec fn count_of(rs: Seq<Seq<char>>, u: Seq<char>) -> nat
    decreases rs.len(),
{
    if rs.len() == 0 {
        0
    } else {
        count_of(rs.drop_last(), u) + if rs.last() == u {
            1nat
        } else {
            0nat
        }
    }
}

/// A list without repeats holds an element it contains exactly once.
pub proof fn lemma_distinct_count(rs: Seq<Seq<char>>, u: Seq<char>)
    requires
        forall|i: int, j: int| 0 <= i < j < rs.len() ==> rs[i] != rs[j],
        rs.contains(u),
    ensures
        count_of(rs, u) == 1,
    decreases rs.len(),
{
    let p = rs.drop_last();
    if rs.last() == u {
        assert forall|k: int| 0 <= k < p.len() implies p[k] != u by {
            assert(rs[k] != rs[rs.len() - 1]);
        }
        lemma_absent_count(p, u);
    } else {
        let k = choose|k: int| 0 <= k < rs.len() && rs[k] == u;
        assert(p[k] == u);
        lemma_distinct_count(p, u);
    }
}

proof fn lemma_absent_count(rs: Seq<Seq<char>>, u: Seq<char>)
    requires
        forall|k: int| 0 <= k < rs.len() ==> rs[k] != u,
    ensures
        count_of(rs, u) == 0,
    decreases rs.len(),
{
    if rs.len() > 0 {
        lemma_absent_count(rs.drop_last(), u);
    }
}

pub open spec fn strs(v: Seq<String>) -> Seq<Seq<char>> {
    v.map_values(|s: String| s@)
}

fn contains_str(v: &Vec<String>, s: &Vec<char>) -> (r: bool)
    ensures
        r == strs(v@).contains(s@),
{
    let mut i: usize = 0;
    while i < v.len()
        invariant
            i <= v.len(),
            forall|k: int| 0 <= k < i ==> v@[k]@ != s@,
        decreases v.len() - i,
    {
        if eq_chars(&chars_of(&v[i]), s) {
            assert(strs(v@)[i as int] == s@);
            return true;
        }
        i = i + 1;
    }
    false
}

/// Adds `url` (normalised) unless the list already holds it.
fn add_repo(repos: &mut Vec<String>, url: &str)
    requires
        repos_ok(strs(old(repos)@)),
    ensures
        repos_ok(strs(final(repos)@)),
        strs(final(repos)@) == add_url(strs(old(repos)@), url@),
{
    let u = normalize_url(url);
    let uc = chars_of(&u);
    if !contains_str(repos, &uc) {
        let ghost before = strs(repos@);
        repos.push(u);
        assert(strs(repos@) =~= before.push(uc@));
    }
}

/// `rs` after adding `u`: normalised, and only when not already present.
pub open spec fn add_url(rs: Seq<Seq<char>>, u: Seq<char>) -> Seq<Seq<char>> {
    if rs.contains(normalized_url(u)) {
        rs
    } else {
        rs.push(normalized_url(u))
    }
}

/// `rs` after adding the first `k` of `us` in order.
pub open spec fn add_all(rs: Seq<Seq<char>>, us: Seq<Seq<char>>, k: int) -> Seq<Seq<char>>
    decreases k,
{
    if k <= 0 {
        rs
    } else {
        add_url(add_all(rs, us, k - 1), us[k - 1])
    }
}

/// The built-in repositories, in order.
pub open spec fn default_repos() -> Seq<Seq<char>> {
    seq![
        "https://dl.google.com/dl/android/maven2/"@,
        "https://dl.google.com/android/maven2/"@,
        "https://repo1.maven.org/maven2/"@,
        "https://repo.huaweicloud.com/repository/maven/"@,
    ]
}

/// `base/rel`, with no separator doubled and nothing added to an empty base.
pub open spec fn join_path(base: Seq<char>, rel: Seq<char>) -> Seq<char> {
    if base.len() == 0 {
        rel
    } else if base.last() == '/' {
        base + rel
    } else {
        base + seq!['/'] + rel
    }
}

pub fn join(base: &str, rel: &str) -> (r: String)
    ensures
        r@ == join_path(base@, rel@),
{
    let mut out = chars_of(base);
    let n = out.len();
    if n > 0 && out[n - 1] != '/' {
        out.push('/');
    }
    push_all(&mut out, &chars_of(rel));
    proof {
        if base@.len() == 0 {
            assert(out@ =~= rel@);
        }
    }
    string_of(&out)
}

pub open spec fn same_id(a: Coords, b: Coords) -> bool {
    a.group == b.group && a.name == b.name
}

/// The version a dependency is resolved with before dynamic versions: its
/// own, interpolated; when that is empty, the first managed entry for the
/// same `group:name`, interpolated.
pub open spec fn managed_version(
    dms: Seq<DepModel>,
    d: DepModel,
    pom: PomModel,
    art: Coords,
    k: int,
) -> Seq<char>
    decreases dms.len() - k,
{
    if k < 0 || k >= dms.len() {
        Seq::empty()
    } else if same_id(dms[k].artifact, d.artifact) {
        interpolate(dms[k].artifact.version, pom.properties, art)
    } else {
        managed_version(dms, d, pom, art, k + 1)
    }
}

pub open spec fn dep_version(d: DepModel, pom: PomModel, art: Coords) -> Seq<char> {
    let own = interpolate(d.artifact.version, pom.properties, art);
    if own.len() > 0 {
        own
    } else {
        managed_version(pom.dep_management, d, pom, art, 0)
    }
}

/// `test` and `provided` dependencies are not followed.
pub open spec fn skipped_scope(d: DepModel) -> bool {
    d.scope == Some("test"@) || d.scope == Some("provided"@)
}

/// The children of `art` among the first `k` dependencies of its effective POM.
pub open spec fn children_upto(pom: PomModel, art: Coords, k: int) -> Seq<Coords>
    decreases k,
{
    if k <= 0 {
        Seq::empty()
    } else {
        let d = pom.dependencies[k - 1];
        let v = dep_version(d, pom, art);
        if skipped_scope(d) || v.len() == 0 {
            children_upto(pom, art, k - 1)
        } else {
            children_upto(pom, art, k - 1).push(Coords { version: v, ..d.artifact })
        }
    }
}

/// The dependencies to follow from `art`, in declaration order, with their
/// versions filled in (dynamic versions still unresolved).
pub open spec fn children(pom: PomModel, art: Coords) -> Seq<Coords> {
    children_upto(pom, art, pom.dependencies.len() as int)
}

pub open spec fn coords_of(v: Seq<Artifact>) -> Seq<Coords> {
    v.map_values(|a: Artifact| a@)
}

fn is_skipped_scope(d: &DependencyEntry) -> (r: bool)
    ensures
        r == skipped_scope(d@),
{
    match &d.scope {
        Some(s) => {
            let c = chars_of(s);
            eq_chars(&c, &chars_of("test")) || eq_chars(&c, &chars_of("provided"))
        },
        None => false,
    }
}

fn version_for(d: &DependencyEntry, pom: &Pom, art: &Artifact) -> (r: String)
    ensures
        r@ == dep_version(d@, pom@, art@),
{
    let own = resolve_val(&d.artifact.version, &pom.properties, art);
    if chars_of(&own).len() > 0 {
        return own;
    }
    assert(interpolate(d@.artifact.version, pom@.properties, art@).len() == 0);
    let mut k: usize = 0;
    while k < pom.dep_management.len()
        invariant
            k <= pom.dep_management.len(),
            interpolate(d@.artifact.version, pom@.properties, art@).len() == 0,
            managed_version(pom@.dep_management, d@, pom@, art@, 0) == managed_version(
                pom@.dep_management,
                d@,
                pom@,
                art@,
                k as int,
            ),
        decreases pom.dep_management.len() - k,
    {
        let m = &pom.dep_management[k];
        if m.artifact.same_id(&d.artifact) {
            assert(pom@.dep_management[k as int] == m@);
            return resolve_val(&m.artifact.version, &pom.properties, art);
        }
        k = k + 1;
    }
    let r = String::new();
    assert(r@ =~= managed_version(pom@.dep_management, d@, pom@, art@, k as int));
    r
}

/// One `group:name` with the versions observed for it and the one chosen.
#[derive(Debug)]
pub struct Conflict {
    pub id: String,
    pub versions: usize,
    pub chosen: String,
}

/// The graph walk and its result.
pub struct Resolver {
    /// One artifact per `group:name` once `finish` has run.
    pub resolved_artifacts: Vec<Artifact>,
    pub cache_root: String,
    repositories: Vec<String>,
    queue: Vec<Artifact>,
    head: usize,
    observed: Vec<Artifact>,
    seen: Vec<String>,
}

/// The distinct ids among the first `k` observations, in order of first appearance.
pub open spec fn ids_upto(obs: Seq<Coords>, k: int) -> Seq<Coords>
    decreases k,
{
    if k <= 0 {
        Seq::empty()
    } else {
        let prev = ids_upto(obs, k - 1);
        if exists|j: int| 0 <= j < prev.len() && same_id(#[trigger] prev[j], obs[k - 1]) {
            prev
        } else {
            prev.push(obs[k - 1])
        }
    }
}

/// The versions observed for the id of `a`, in order.
pub open spec fn versions_for(obs: Seq<Coords>, a: Coords, k: int) -> Seq<Seq<char>>
    decreases k,
{
    if k <= 0 {
        Seq::empty()
    } else if same_id(obs[k - 1], a) {
        versions_for(obs, a, k - 1).push(obs[k - 1].version)
    } else {
        versions_for(obs, a, k - 1)
    }
}

/// The artifact chosen for the id of `a`: the winner among its versions.
pub open spec fn chosen_for(obs: Seq<Coords>, a: Coords) -> Coords {
    let vs = versions_for(obs, a, obs.len() as int);
    Coords { version: vs[winner_index(vs)], ..a }
}

/// For each id among the first `k` of `ids` seen with more than one
/// version: the id text, how many versions, and the chosen version.
pub open spec fn conflicts_from(obs: Seq<Coords>, ids: Seq<Coords>, k: int) -> Seq<
    (Seq<char>, nat, Seq<char>),
>
    decreases k,
{
    if k <= 0 {
        Seq::empty()
    } else {
        let prev = conflicts_from(obs, ids, k - 1);
        let vs = versions_for(obs, ids[k - 1], obs.len() as int);
        if vs.len() > 1 {
            prev.push((id_text(ids[k - 1]), vs.len(), chosen_for(obs, ids[k - 1]).version))
        } else {
            prev
        }
    }
}

pub open spec fn conflict_views(c: Seq<Conflict>) -> Seq<(Seq<char>, nat, Seq<char>)> {
    c.map_values(|x: Conflict| (x.id@, x.versions as nat, x.chosen@))
}

/// The resolved set: for each id in order of first observation, the chosen artifact.
pub open spec fn resolved_from(obs: Seq<Coords>) -> Seq<Coords> {
    ids_upto(obs, obs.len() as int).map_values(|a: Coords| chosen_for(obs, a))
}

/// The root coordinates among the first `k` texts that parse, in order.
pub open spec fn roots_of(cs: Seq<Seq<char>>, k: int) -> Seq<Coords>
    decreases k,
{
    if k <= 0 {
        Seq::empty()
    } else {
        match parse_coords(cs[k - 1]) {
            Some(c) => roots_of(cs, k - 1).push(c),
            None => roots_of(cs, k - 1),
        }
    }
}

/// Index of the first element of `p` at or after `i` not in `obs`, or the length.
pub open spec fn first_new(p: Seq<Coords>, obs: Seq<Coords>, i: int) -> int
    decreases p.len() - i,
{
    if i < 0 || i >= p.len() {
        p.len() as int
    } else if !obs.contains(p[i]) {
        i
    } else {
        first_new(p, obs, i + 1)
    }
}

fn contains_artifact(v: &Vec<Artifact>, a: &Artifact) -> (r: bool)
    ensures
        r == coords_of(v@).contains(a@),
{
    let mut i: usize = 0;
    while i < v.len()
        invariant
            i <= v.len(),
            forall|k: int| 0 <= k < i ==> v@[k]@ != a@,
        decreases v.len() - i,
    {
        if v[i] == *a {
            assert(coords_of(v@)[i as int] == a@);
            return true;
        }
        i = i + 1;
    }
    false
}

/// The versions observed for the id of `a`, in order.
fn versions_of(obs: &Vec<Artifact>, a: &Artifact) -> (r: Vec<Vec<char>>)
    ensures
        r@.map_values(|v: Vec<char>| v@) == versions_for(coords_of(obs@), a@, obs@.len() as int),
{
    let mut r: Vec<Vec<char>> = Vec::new();
    let mut i: usize = 0;
    while i < obs.len()
        invariant
            i <= obs.len(),
            r@.map_values(|v: Vec<char>| v@) == versions_for(coords_of(obs@), a@, i as int),
        decreases obs.len() - i,
    {
        if obs[i].same_id(a) {
            let ghost r0 = r@.map_values(|v: Vec<char>| v@);
            r.push(chars_of(&obs[i].version));
            assert(r@.map_values(|v: Vec<char>| v@) =~= r0.push(obs@[i as int].version@));
        }
        i = i + 1;
    }
    r
}

proof fn lemma_ids_observed(obs: Seq<Coords>, k: int)
    requires
        0 <= k <= obs.len(),
    ensures
        forall|t: int|
            0 <= t < ids_upto(obs, k).len() ==> exists|j: int|
                0 <= j < k && #[trigger] ids_upto(obs, k)[t] == obs[j],
    decreases k,
{
    if k > 0 {
        lemma_ids_observed(obs, k - 1);
        let prev = ids_upto(obs, k - 1);
        assert forall|t: int| 0 <= t < ids_upto(obs, k).len() implies exists|j: int|
            0 <= j < k && #[trigger] ids_upto(obs, k)[t] == obs[j] by {
            if t < prev.len() {
                let j = choose|j: int| 0 <= j < k - 1 && prev[t] == obs[j];
                assert(ids_upto(obs, k)[t] == obs[j]);
            } else {
                assert(ids_upto(obs, k)[t] == obs[k - 1]);
            }
        }
    }
}

proof fn lemma_versions_present(obs: Seq<Coords>, a: Coords, j: int, k: int)
    requires
        0 <= j < k <= obs.len(),
        same_id(obs[j], a),
    ensures
        versions_for(obs, a, k).len() > 0,
    decreases k,
{
    if j < k - 1 {
        lemma_versions_present(obs, a, j, k - 1);
    }
}

proof fn lemma_versions_nonempty(obs: Seq<Coords>, ids: Seq<Coords>, t: int)
    requires
        ids == ids_upto(obs, obs.len() as int),
        0 <= t < ids.len(),
    ensures
        versions_for(obs, ids[t], obs.len() as int).len() > 0,
{
    lemma_ids_observed(obs, obs.len() as int);
    let j = choose|j: int| 0 <= j < obs.len() && ids[t] == obs[j];
    lemma_versions_present(obs, ids[t], j, obs.len() as int);
}

impl Resolver {
    pub closed spec fn wf(&self) -> bool {
        &&& repos_ok(strs(self.repositories@))
        &&& self.head <= self.queue.len()
    }

    /// Where artifacts are cached.
    pub closed spec fn root(&self) -> Seq<char> {
        self.cache_root@
    }

    /// The chosen artifacts, one per `group:name`.
    pub closed spec fn resolved(&self) -> Seq<Coords> {
        coords_of(self.resolved_artifacts@)
    }

    /// The repositories in order of lookup.
    pub closed spec fn repos(&self) -> Seq<Seq<char>> {
        strs(self.repositories@)
    }

    /// Every artifact visited so far, in order.
    pub closed spec fn observed(&self) -> Seq<Coords> {
        coords_of(self.observed@)
    }

    /// The artifacts waiting to be visited, in order.
    pub closed spec fn pending(&self) -> Seq<Coords> {
        coords_of(self.queue@).subrange(self.head as int, self.queue@.len() as int)
    }

    /// The `group:name:version` texts already enqueued.
    pub closed spec fn seen(&self) -> Seq<Seq<char>> {
        strs(self.seen@)
    }

    /// A resolver with the built-in repositories followed by the user's,
    /// each normalised and kept once; the cache lives in `cache_base/repository`.
    pub fn new(user_repos: Vec<String>, cache_base: &str) -> (r: Resolver)
        ensures
            r.wf(),
            r.repos() == add_all(default_repos(), strs(user_repos@), user_repos@.len() as int),
            r.root() == join_path(cache_base@, "repository"@),
            r.observed().len() == 0,
            r.pending().len() == 0,
            r.resolved().len() == 0,
    {
        let mut repositories: Vec<String> = Vec::new();
        repositories.push("https://dl.google.com/dl/android/maven2/".to_owned());
        repositories.push("https://dl.google.com/android/maven2/".to_owned());
        repositories.push("https://repo1.maven.org/maven2/".to_owned());
        repositories.push("https://repo.huaweicloud.com/repository/maven/".to_owned());
        proof {
            reveal_strlit("https://dl.google.com/dl/android/maven2/");
            reveal_strlit("https://dl.google.com/android/maven2/");
            reveal_strlit("https://repo1.maven.org/maven2/");
            reveal_strlit("https://repo.huaweicloud.com/repository/maven/");
            assert(strs(repositories@) =~= default_repos());
            let d = default_repos();
            assert(d[0].len() == 40 && d[1].len() == 37 && d[2].len() == 31 && d[3].len() == 46);
            assert(d[0].last() == '/' && d[1].last() == '/' && d[2].last() == '/' && d[3].last()
                == '/');
        }
        let mut i: usize = 0;
        while i < user_repos.len()
            invariant
                i <= user_repos.len(),
                repos_ok(strs(repositories@)),
                strs(repositories@) == add_all(default_repos(), strs(user_repos@), i as int),
            decreases user_repos.len() - i,
        {
            add_repo(&mut repositories, &user_repos[i]);
            i = i + 1;
        }
        let r = Resolver {
            resolved_artifacts: Vec::new(),
            cache_root: join(cache_base, "repository"),
            repositories,
            queue: Vec::new(),
            head: 0,
            observed: Vec::new(),
            seen: Vec::new(),
        };
        assert(r.pending() =~= Seq::<Coords>::empty());
        r
    }

    /// Adds a repository (normalised) unless it is already listed.
    pub fn add_repository(&mut self, url: &str)
        requires
            old(self).wf(),
        ensures
            final(self).wf(),
            final(self).repos() == add_url(old(self).repos(), url@),
            final(self).observed() == old(self).observed(),
            final(self).pending() == old(self).pending(),
            final(self).seen() == old(self).seen(),
            final(self).resolved() == old(self).resolved(),
            final(self).root() == old(self).root(),
    {
        add_repo(&mut self.repositories, url);
    }

    /// The repositories, in order of lookup.
    pub fn repositories(&self) -> (r: Vec<String>)
        ensures
            strs(r@) == self.repos(),
    {
        let mut r: Vec<String> = Vec::new();
        let mut i: usize = 0;
        while i < self.repositories.len()
            invariant
                i <= self.repositories.len(),
                strs(r@) == strs(self.repositories@).take(i as int),
            decreases self.repositories.len() - i,
        {
            let u = self.repositories[i].clone();
            assert(u@ == self.repositories@[i as int]@);
            let ghost r0 = strs(r@);
            r.push(u);
            assert(strs(r@) =~= r0.push(u@));
            assert(strs(r@) =~= strs(self.repositories@).take(i + 1));
            i = i + 1;
        }
        assert(strs(self.repositories@).take(i as int) =~= strs(self.repositories@));
        r
    }

    /// Seeds the walk with the root coordinates that parse; others are dropped.
    pub fn start(&mut self, root_coords: &Vec<String>)
        requires
            old(self).wf(),
        ensures
            final(self).wf(),
            final(self).pending() == old(self).pending() + roots_of(
                strs(root_coords@),
                root_coords@.len() as int,
            ),
            final(self).observed() == old(self).observed(),
            final(self).seen() == old(self).seen(),
            final(self).repos() == old(self).repos(),
            final(self).resolved() == old(self).resolved(),
            final(self).root() == old(self).root(),
    {
        let mut i: usize = 0;
        while i < root_coords.len()
            invariant
                self.wf(),
                i <= root_coords.len(),
                self.head == old(self).head,
                self.pending() == old(self).pending() + roots_of(strs(root_coords@), i as int),
                self.observed() == old(self).observed(),
                self.seen() == old(self).seen(),
                self.repos() == old(self).repos(),
                self.resolved() == old(self).resolved(),
                self.root() == old(self).root(),
            decreases root_coords.len() - i,
        {
            let ghost at_start = self.pending();
            match Artifact::from_coords(&root_coords[i]) {
                Some(a) => {
                    self.queue.push(a);
                    assert(self.pending() =~= at_start.push(a@));
                },
                None => {},
            }
            assert(strs(root_coords@)[i as int] == root_coords@[i as int]@);
            i = i + 1;
        }
    }

    /// Takes the next artifact to visit: the first pending one not visited
    /// before, which is recorded as observed. Nothing when the queue is drained.
    pub fn next_node(&mut self) -> (r: Option<Artifact>)
        requires
            old(self).wf(),
        ensures
            final(self).wf(),
            ({
                let j = first_new(old(self).pending(), old(self).observed(), 0);
                if j < old(self).pending().len() {
                    r matches Some(a) && a@ == old(self).pending()[j] && final(self).observed()
                        == old(self).observed().push(a@) && final(self).pending() == old(
                        self,
                    ).pending().subrange(j + 1, old(self).pending().len() as int)
                } else {
                    r is None && final(self).pending().len() == 0 && final(self).observed()
                        == old(self).observed()
                }
            }),
            final(self).seen() == old(self).seen(),
            final(self).repos() == old(self).repos(),
            final(self).resolved() == old(self).resolved(),
            final(self).root() == old(self).root(),
    {
        let ghost at_start = self.pending();
        let ghost o0 = self.observed();
        while self.head < self.queue.len()
            invariant
                self.wf(),
                self.queue@ == old(self).queue@,
                old(self).head <= self.head,
                self.observed() == o0,
                at_start == old(self).pending(),
                o0 == old(self).observed(),
                self.pending().len() <= at_start.len(),
                self.pending() == at_start.subrange(at_start.len() - self.pending().len(), at_start.len() as int),
                first_new(at_start, o0, 0) == first_new(at_start, o0, at_start.len() - self.pending().len()),
                self.seen() == old(self).seen(),
                self.repos() == old(self).repos(),
                self.resolved() == old(self).resolved(),
                self.root() == old(self).root(),
            decreases self.queue.len() - self.head,
        {
            let h = self.head;
            let ghost k = at_start.len() - self.pending().len();
            assert(at_start[k] == coords_of(self.queue@)[h as int]);
            self.head = h + 1;
            assert(self.pending() =~= at_start.subrange(k + 1, at_start.len() as int));
            if !contains_artifact(&self.observed, &self.queue[h]) {
                let a = self.queue[h].clone();
                self.observed.push(a.clone());
                assert(self.observed() =~= o0.push(a@));
                return Some(a);
            }
        }
        None
    }

    /// Hands over the effective POM of a visited artifact: its repositories
    /// join the list and the dependencies to follow are returned, their
    /// versions filled in from properties and dependency management.
    pub fn visit(&mut self, art: &Artifact, pom: &Pom) -> (r: Vec<Artifact>)
        requires
            old(self).wf(),
        ensures
            final(self).wf(),
            coords_of(r@) == children(pom@, art@),
            final(self).repos() == add_all(
                old(self).repos(),
                pom@.repositories,
                pom@.repositories.len() as int,
            ),
            final(self).observed() == old(self).observed(),
            final(self).pending() == old(self).pending(),
            final(self).seen() == old(self).seen(),
            final(self).resolved() == old(self).resolved(),
            final(self).root() == old(self).root(),
    {
        let mut i: usize = 0;
        while i < pom.repositories.len()
            invariant
                self.wf(),
                i <= pom.repositories.len(),
                self.repos() == add_all(old(self).repos(), pom@.repositories, i as int),
                self.observed() == old(self).observed(),
                self.pending() == old(self).pending(),
                self.seen() == old(self).seen(),
                self.resolved() == old(self).resolved(),
                self.root() == old(self).root(),
            decreases pom.repositories.len() - i,
        {
            self.add_repository(&pom.repositories[i]);
            i = i + 1;
        }
        let mut out: Vec<Artifact> = Vec::new();
        let mut k: usize = 0;
        while k < pom.dependencies.len()
            invariant
                k <= pom.dependencies.len(),
                coords_of(out@) == children_upto(pom@, art@, k as int),
            decreases pom.dependencies.len() - k,
        {
            let d = &pom.dependencies[k];
            assert(pom@.dependencies[k as int] == d@);
            let v = version_for(d, pom, art);
            if !is_skipped_scope(d) && chars_of(&v).len() > 0 {
                let ghost o0 = coords_of(out@);
                let c = d.artifact.with_version(v);
                out.push(c);
                assert(coords_of(out@) =~= o0.push(c@));
            }
            k = k + 1;
        }
        out
    }

    /// Queues a child unless its `group:name:version` was queued before;
    /// returns whether it was queued.
    pub fn enqueue(&mut self, child: Artifact) -> (r: bool)
        requires
            old(self).wf(),
        ensures
            final(self).wf(),
            r == !old(self).seen().contains(coords_text(child@)),
            r ==> final(self).seen() == old(self).seen().push(coords_text(child@))
                && final(self).pending() == old(self).pending().push(child@),
            !r ==> final(self).seen() == old(self).seen() && final(self).pending() == old(
                self,
            ).pending(),
            final(self).observed() == old(self).observed(),
            final(self).repos() == old(self).repos(),
            final(self).resolved() == old(self).resolved(),
            final(self).root() == old(self).root(),
    {
        let key = child.to_string();
        if contains_str(&self.seen, &chars_of(&key)) {
            return false;
        }
        let ghost s0 = self.seen();
        let ghost at_start = self.pending();
        self.seen.push(key);
        self.queue.push(child);
        assert(self.seen() =~= s0.push(coords_text(child@)));
        assert(self.pending() =~= at_start.push(child@));
        true
    }

    /// Picks, for every `group:name` observed, the winning version among
    /// those observed for it, and records the result; returns the ids seen
    /// with more than one version.
    pub fn finish(&mut self) -> (r: Vec<Conflict>)
        requires
            old(self).wf(),
        ensures
            final(self).wf(),
            conflict_views(r@) == conflicts_from(
                old(self).observed(),
                ids_upto(old(self).observed(), old(self).observed().len() as int),
                ids_upto(old(self).observed(), old(self).observed().len() as int).len() as int,
            ),
            final(self).resolved() == resolved_from(old(self).observed()),
            final(self).observed() == old(self).observed(),
            final(self).pending() == old(self).pending(),
            final(self).seen() == old(self).seen(),
            final(self).repos() == old(self).repos(),
            final(self).root() == old(self).root(),
    {
        let ghost obs = self.observed();
        let mut ids: Vec<Artifact> = Vec::new();
        let mut i: usize = 0;
        while i < self.observed.len()
            invariant
                i <= self.observed.len(),
                obs == coords_of(self.observed@),
                coords_of(ids@) == ids_upto(obs, i as int),
            decreases self.observed.len() - i,
        {
            let a = &self.observed[i];
            assert(a@ == obs[i as int]);
            let ghost prev = coords_of(ids@);
            let mut j: usize = 0;
            let mut known = false;
            while j < ids.len() && !known
                invariant
                    i < self.observed.len(),
                    obs == coords_of(self.observed@),
                    a@ == obs[i as int],
                    j <= ids.len(),
                    prev == coords_of(ids@),
                    prev == ids_upto(obs, i as int),
                    known ==> ids_upto(obs, i + 1) == prev,
                    !known ==> forall|t: int| 0 <= t < j ==> !same_id(#[trigger] prev[t], obs[i as int]),
                decreases ids.len() - j,
            {
                if ids[j].same_id(a) {
                    known = true;
                    assert(same_id(prev[j as int], obs[i as int]));
                    assert(ids_upto(obs, i + 1) == prev);
                }
                j = j + 1;
            }
            if !known {
                ids.push(a.clone());
                assert(coords_of(ids@) =~= prev.push(obs[i as int]));
            }
            i = i + 1;
        }
        let mut resolved: Vec<Artifact> = Vec::new();
        let mut conflicts: Vec<Conflict> = Vec::new();
        let mut k: usize = 0;
        while k < ids.len()
            invariant
                k <= ids.len(),
                conflict_views(conflicts@) == conflicts_from(obs, coords_of(ids@), k as int),
                obs == coords_of(self.observed@),
                coords_of(ids@) == ids_upto(obs, obs.len() as int),
                coords_of(resolved@).len() == k,
                forall|t: int| 0 <= t < k ==> #[trigger] coords_of(resolved@)[t] == chosen_for(
                    obs,
                    coords_of(ids@)[t],
                ),
            decreases ids.len() - k,
        {
            let vs = versions_of(&self.observed, &ids[k]);
            proof { lemma_versions_nonempty(obs, ids_upto(obs, obs.len() as int), k as int); }
            let w = select_winner(&vs);
            let c = ids[k].with_version(string_of(&vs[w]));
            let ghost vsm = vs@.map_values(|v: Vec<char>| v@);
            assert(vsm[w as int] == vs@[w as int]@);
            assert(coords_of(ids@)[k as int] == ids@[k as int]@);
            assert(c@ == chosen_for(obs, coords_of(ids@)[k as int]));
            let ghost r0 = coords_of(resolved@);
            if vs.len() > 1 {
                let ghost c0 = conflict_views(conflicts@);
                let x = Conflict { id: ids[k].id(), versions: vs.len(), chosen: string_of(&vs[w]) };
                conflicts.push(x);
                assert(conflict_views(conflicts@) =~= c0.push(
                    (id_text(coords_of(ids@)[k as int]), vs@.len() as nat, c@.version),
                ));
            }
            resolved.push(c);
            assert(coords_of(resolved@) =~= r0.push(c@));
            k = k + 1;
        }
        self.resolved_artifacts = resolved;
        assert(self.resolved() =~= resolved_from(obs));
        conflicts
    }
}

/// A repository URL is stored exactly once in the list, ending with `/`:
/// adding `url` to a well-formed list keeps it well-formed and leaves the
/// normalised URL in it exactly once.
pub proof fn lemma_repository_stored_once(rs: Seq<Seq<char>>, url: Seq<char>)
    requires
        repos_ok(rs),
    ensures
        repos_ok(add_url(rs, url)),
        count_of(add_url(rs, url), normalized_url(url)) == 1,
        normalized_url(url).len() > 0 && normalized_url(url).last() == '/',
{
    let u = normalized_url(url);
    let r = add_url(rs, url);
    if !rs.contains(u) {
        assert(r[rs.len() as int] == u);
        assert forall|i: int, j: int| 0 <= i < j < r.len() implies r[i] != r[j] by {
            if j == rs.len() {
                assert(r[i] == rs[i]);
            }
        }
    }
    assert(r.contains(u)) by {
        if rs.contains(u) {
            let k = choose|k: int| 0 <= k < rs.len() && rs[k] == u;
            assert(r[k] == u);
        } else {
            assert(r[rs.len() as int] == u);
        }
    }
    lemma_distinct_count(r, u);
}

/// Every id holds one version only.
pub open spec fn no_conflicts(obs: Seq<Coords>) -> bool {
    forall|i: int, j: int|
        0 <= i < obs.len() && 0 <= j < obs.len() && same_id(#[trigger] obs[i], #[trigger] obs[j])
            ==> obs[i].version == obs[j].version
}

proof fn lemma_versions_agree(obs: Seq<Coords>, a: Coords, j: int, k: int)
    requires
        no_conflicts(obs),
        0 <= j < obs.len(),
        same_id(obs[j], a),
        0 <= k <= obs.len(),
    ensures
        forall|t: int|
            0 <= t < versions_for(obs, a, k).len() ==> #[trigger] versions_for(obs, a, k)[t]
                == obs[j].version,
    decreases k,
{
    if k > 0 {
        lemma_versions_agree(obs, a, j, k - 1);
        let prev = versions_for(obs, a, k - 1);
        if same_id(obs[k - 1], a) {
            assert(same_id(obs[k - 1], obs[j]));
            assert(obs[k - 1].version == obs[j].version);
            assert forall|t: int| 0 <= t < versions_for(obs, a, k).len() implies #[trigger] versions_for(obs, a, k)[t]
                == obs[j].version by {
                if t < prev.len() {
                    assert(versions_for(obs, a, k)[t] == prev[t]);
                }
            }
        }
    }
}

proof fn lemma_ids_cover(obs: Seq<Coords>, k: int, j: int)
    requires
        0 <= j < k <= obs.len(),
    ensures
        exists|t: int| 0 <= t < ids_upto(obs, k).len() && same_id(#[trigger] ids_upto(obs, k)[t], obs[j]),
    decreases k,
{
    let prev = ids_upto(obs, k - 1);
    if j < k - 1 {
        lemma_ids_cover(obs, k - 1, j);
        let t = choose|t: int| 0 <= t < prev.len() && same_id(#[trigger] prev[t], obs[j]);
        assert(ids_upto(obs, k)[t] == prev[t]);
    } else if exists|t: int| 0 <= t < prev.len() && same_id(#[trigger] prev[t], obs[k - 1]) {
        let t = choose|t: int| 0 <= t < prev.len() && same_id(#[trigger] prev[t], obs[k - 1]);
        assert(ids_upto(obs, k)[t] == prev[t]);
    } else {
        assert(ids_upto(obs, k)[prev.len() as int] == obs[k - 1]);
    }
}

proof fn lemma_chosen_is_observed(obs: Seq<Coords>, j: int, a: Coords)
    requires
        no_conflicts(obs),
        0 <= j < obs.len(),
        same_id(a, obs[j]),
    ensures
        chosen_for(obs, a) == obs[j],
{
    let vs = versions_for(obs, a, obs.len() as int);
    lemma_versions_present(obs, a, j, obs.len() as int);
    lemma_versions_agree(obs, a, j, obs.len() as int);
    crate::version::lemma_winner_is_max(vs);
    assert(vs[winner_index(vs)] == obs[j].version);
}

/// Without conflicts, the resolved set is exactly the set of observed artifacts.
pub proof fn lemma_resolved_is_observed(obs: Seq<Coords>)
    requires
        no_conflicts(obs),
    ensures
        resolved_from(obs).to_set() == obs.to_set(),
{
    let ids = ids_upto(obs, obs.len() as int);
    let r = resolved_from(obs);
    lemma_ids_observed(obs, obs.len() as int);
    assert forall|x: Coords| r.to_set().contains(x) implies obs.to_set().contains(x) by {
        let t = choose|t: int| 0 <= t < r.len() && r[t] == x;
        let j = choose|j: int| 0 <= j < obs.len() && ids[t] == obs[j];
        lemma_chosen_is_observed(obs, j, ids[t]);
        assert(obs[j] == x);
    }
    assert forall|x: Coords| obs.to_set().contains(x) implies r.to_set().contains(x) by {
        let j = choose|j: int| 0 <= j < obs.len() && obs[j] == x;
        lemma_ids_cover(obs, obs.len() as int, j);
        let t = choose|t: int| 0 <= t < ids.len() && same_id(#[trigger] ids[t], obs[j]);
        lemma_chosen_is_observed(obs, j, ids[t]);
        assert(r[t] == x);
    }
    assert(r.to_set() =~= obs.to_set());
}

/// When no id is seen with two versions, the resolved set depends only on
/// which artifacts were observed, not on the order of observation (and so
/// not on the order of the root coordinates that produced it).
pub proof fn lemma_resolution_order_independent(o1: Seq<Coords>, o2: Seq<Coords>)
    requires
        o1.to_set() == o2.to_set(),
        no_conflicts(o1),
    ensures
        no_conflicts(o2),
        resolved_from(o1).to_set() == resolved_from(o2).to_set(),
{
    assert forall|i: int, j: int|
        0 <= i < o2.len() && 0 <= j < o2.len() && same_id(#[trigger] o2[i], #[trigger] o2[j])
            implies o2[i].version == o2[j].version by {
        assert(o2.to_set().contains(o2[i]));
        assert(o2.to_set().contains(o2[j]));
        let a = choose|a: int| 0 <= a < o1.len() && o1[a] == o2[i];
        let b = choose|b: int| 0 <= b < o1.len() && o1[b] == o2[j];
        assert(same_id(o1[a], o1[b]));
    }
    lemma_resolved_is_observed(o1);
    lemma_resolved_is_observed(o2);
}

} // verus!
