//! Project configuration: the merge of several configuration files, module
//! discovery, and the fingerprint of the dependency declaration.
use vstd::prelude::*;

use crate::text::{chars_of, eq_chars};

verus! {

/// The `[package]` table.
#[derive(Debug)]
pub struct PackageInfo {
    pub package: Option<String>,
    pub version: Option<String>,
    pub version_code: Option<u32>,
    pub label: Option<String>,
    pub icon: Option<String>,
    pub min_sdk: Option<u32>,
    pub target_sdk: Option<u32>,
}

/// The `[sign]` table.
#[derive(Debug)]
pub struct SignInfo {
    pub keystore: String,
    pub alias: String,
}

/// A configuration: one file as read, or the merge of several. Dependencies
/// map a `group:name` prefix to a version, each key at most once.
#[derive(Debug)]
pub struct Config {
    pub package: Option<PackageInfo>,
    pub sign: Option<SignInfo>,
    pub repositories: Option<Vec<String>>,
    pub dependencies: Option<Vec<(String, String)>>,
    pub base_path: String,
    pub modules: Vec<String>,
}

pub open spec fn pairs(d: Seq<(String, String)>) -> Seq<(Seq<char>, Seq<char>)> {
    d.map_values(|e: (String, String)| (e.0@, e.1@))
}

pub open spec fn texts(d: Seq<String>) -> Seq<Seq<char>> {
    d.map_values(|e: String| e@)
}

/// Each key occurs once.
pub open spec fn keys_unique(d: Seq<(Seq<char>, Seq<char>)>) -> bool {
    forall|i: int, j: int| 0 <= i < j < d.len() ==> d[i].0 != d[j].0
}

/// Index of the entry with key `k` at or after `i`, or the length.
pub open spec fn key_index(d: Seq<(Seq<char>, Seq<char>)>, k: Seq<char>, i: int) -> int
    decreases d.len() - i,
{
    if i < 0 || i >= d.len() {
        d.len() as int
    } else if d[i].0 == k {
        i
    } else {
        key_index(d, k, i + 1)
    }
}

/// `d` with `k` set to `v`: the value replaced in place when the key is
/// present, the entry appended otherwise.
pub open spec fn put(d: Seq<(Seq<char>, Seq<char>)>, k: Seq<char>, v: Seq<char>) -> Seq<
    (Seq<char>, Seq<char>),
> {
    let i = key_index(d, k, 0);
    if i < d.len() {
        d.update(i, (k, v))
    } else {
        d.push((k, v))
    }
}

/// `d` after putting the first `n` entries of `e` in order: the later wins.
pub open spec fn put_all(
    d: Seq<(Seq<char>, Seq<char>)>,
    e: Seq<(Seq<char>, Seq<char>)>,
    n: int,
) -> Seq<(Seq<char>, Seq<char>)>
    decreases n,
{
    if n <= 0 {
        d
    } else {
        let p = put_all(d, e, n - 1);
        put(p, e[n - 1].0, e[n - 1].1)
    }
}

proof fn lemma_key_index(d: Seq<(Seq<char>, Seq<char>)>, k: Seq<char>, i: int)
    requires
        0 <= i <= d.len(),
    ensures
        i <= key_index(d, k, i) <= d.len(),
        key_index(d, k, i) < d.len() ==> d[key_index(d, k, i)].0 == k,
        forall|t: int| i <= t < key_index(d, k, i) ==> d[t].0 != k,
    decreases d.len() - i,
{
    if i < d.len() && d[i].0 != k {
        lemma_key_index(d, k, i + 1);
    }
}

proof fn lemma_put_unique(d: Seq<(Seq<char>, Seq<char>)>, k: Seq<char>, v: Seq<char>)
    requires
        keys_unique(d),
    ensures
        keys_unique(put(d, k, v)),
{
    lemma_key_index(d, k, 0);
    let r = put(d, k, v);
    assert forall|i: int, j: int| 0 <= i < j < r.len() implies r[i].0 != r[j].0 by {
        if key_index(d, k, 0) == d.len() && j == d.len() {
            assert(r[i] == d[i]);
        }
    }
}

proof fn lemma_put_all_unique(
    d: Seq<(Seq<char>, Seq<char>)>,
    e: Seq<(Seq<char>, Seq<char>)>,
    n: int,
)
    requires
        keys_unique(d),
        n <= e.len(),
    ensures
        keys_unique(put_all(d, e, n)),
    decreases n,
{
    if n > 0 {
        lemma_put_all_unique(d, e, n - 1);
        lemma_put_unique(put_all(d, e, n - 1), e[n - 1].0, e[n - 1].1);
    }
}

proof fn lemma_merged_unique(files: Seq<Config>, n: int)
    requires
        0 <= n <= files.len(),
    ensures
        keys_unique(merged_deps(files, n)),
    decreases n,
{
    if n > 0 {
        lemma_merged_unique(files, n - 1);
        match files[n - 1].dependencies {
            Some(d) => lemma_put_all_unique(merged_deps(files, n - 1), pairs(d@), d@.len() as int),
            None => {},
        }
    }
}

fn put_entry(d: &mut Vec<(String, String)>, k: &String, v: &String)
    ensures
        pairs(final(d)@) == put(pairs(old(d)@), k@, v@),
{
    let ghost at_start = pairs(d@);
    let kc = chars_of(k);
    let mut i: usize = 0;
    while i < d.len()
        invariant
            i <= d.len(),
            at_start == pairs(d@),
            at_start == pairs(old(d)@),
            kc@ == k@,
            key_index(at_start, k@, 0) == key_index(at_start, k@, i as int),
        decreases d.len() - i,
    {
        if eq_chars(&chars_of(&d[i].0), &kc) {
            assert(at_start[i as int].0 == k@);
            assert(key_index(at_start, k@, i as int) == i);
            let kk = k.clone();
            let vv = v.clone();
            d.set(i, (kk, vv));
            assert(pairs(d@) =~= at_start.update(i as int, (k@, v@)));
            assert(put(at_start, k@, v@) == at_start.update(i as int, (k@, v@)));
            return ;
        }
        i = i + 1;
    }
    let kk = k.clone();
    let vv = v.clone();
    d.push((kk, vv));
    assert(pairs(d@) =~= at_start.push((k@, v@)));
}

/// What a merge of `files` holds, by field.
pub open spec fn merged_deps(files: Seq<Config>, n: int) -> Seq<(Seq<char>, Seq<char>)>
    decreases n,
{
    if n <= 0 {
        Seq::empty()
    } else {
        match files[n - 1].dependencies {
            Some(d) => put_all(merged_deps(files, n - 1), pairs(d@), d@.len() as int),
            None => merged_deps(files, n - 1),
        }
    }
}

pub open spec fn merged_repos(files: Seq<Config>, n: int) -> Seq<Seq<char>>
    decreases n,
{
    if n <= 0 {
        Seq::empty()
    } else {
        match files[n - 1].repositories {
            Some(r) => merged_repos(files, n - 1) + texts(r@),
            None => merged_repos(files, n - 1),
        }
    }
}

/// Merges the files of one project, in order: `package` and `sign` come from
/// the first file; dependencies are the union, a later file winning on the
/// same key; repositories are concatenated in order.
pub fn merge_configs(base_path: String, modules: Vec<String>, files: Vec<Config>) -> (r: Config)
    ensures
        r.base_path == base_path,
        r.modules == modules,
        files@.len() == 0 ==> r.package is None && r.sign is None,
        files@.len() > 0 ==> r.package == files@[0].package && r.sign == files@[0].sign,
        r.dependencies matches Some(d) && pairs(d@) == merged_deps(files@, files@.len() as int)
            && keys_unique(pairs(d@)),
        r.repositories matches Some(rs) && texts(rs@) == merged_repos(files@, files@.len() as int),
{
    let mut files = files;
    let ghost fs = files@;
    let mut deps: Vec<(String, String)> = Vec::new();
    let mut repos: Vec<String> = Vec::new();
    let mut i: usize = 0;
    assert(pairs(deps@) =~= Seq::<(Seq<char>, Seq<char>)>::empty());
    assert(texts(repos@) =~= Seq::<Seq<char>>::empty());
    while i < files.len()
        invariant
            i <= files.len(),
            files@ == fs,
            pairs(deps@) == merged_deps(fs, i as int),
            texts(repos@) == merged_repos(fs, i as int),
        decreases files.len() - i,
    {
        match &files[i].dependencies {
            Some(d) => {
                let mut k: usize = 0;
                while k < d.len()
                    invariant
                        k <= d.len(),
                        i < fs.len(),
                        files@ == fs,
                        fs[i as int].dependencies == Some(*d),
                        pairs(deps@) == put_all(merged_deps(fs, i as int), pairs(d@), k as int),
                    decreases d.len() - k,
                {
                    put_entry(&mut deps, &d[k].0, &d[k].1);
                    k = k + 1;
                }
            },
            None => {},
        }
        match &files[i].repositories {
            Some(rs) => {
                let ghost r0 = texts(repos@);
                let mut k: usize = 0;
                while k < rs.len()
                    invariant
                        k <= rs.len(),
                        texts(repos@) == r0 + texts(rs@).take(k as int),
                    decreases rs.len() - k,
                {
                    let u = rs[k].clone();
                    assert(texts(rs@)[k as int] == u@);
                    let ghost before = texts(repos@);
                    repos.push(u);
                    assert(texts(repos@) =~= before.push(u@));
                    assert(texts(rs@).take(k + 1) =~= texts(rs@).take(k as int).push(u@));
                    assert(texts(repos@) =~= r0 + texts(rs@).take(k + 1));
                    k = k + 1;
                }
                assert(texts(rs@).take(k as int) =~= texts(rs@));
            },
            None => {},
        }
        i = i + 1;
    }
    proof {
        lemma_merged_unique(fs, fs.len() as int);
    }
    let (package, sign) = if files.len() > 0 {
        let first = files.remove(0);
        (first.package, first.sign)
    } else {
        (None, None)
    };
    Config {
        package,
        sign,
        repositories: Some(repos),
        dependencies: Some(deps),
        base_path,
        modules,
    }
}

/// The module descriptor's file name.
pub open spec fn module_file() -> Seq<char> {
    "module.toml"@
}

/// The last path component of `p`.
pub open spec fn file_name_of(p: Seq<char>) -> Seq<char>
    decreases p.len(),
{
    if p.len() == 0 {
        p
    } else if p.last() == '/' {
        Seq::empty()
    } else {
        file_name_of(p.drop_last()).push(p.last())
    }
}

fn file_name(p: &Vec<char>) -> (r: Vec<char>)
    ensures
        r@ == file_name_of(p@),
{
    let mut i = p.len();
    proof {
        lemma_file_name_split(p@, p@.len() as int);
    }
    while i > 0 && p[i - 1] != '/'
        invariant
            i <= p.len(),
            file_name_of(p@) == file_name_of(p@.take(i as int)) + p@.subrange(
                i as int,
                p@.len() as int,
            ),
        decreases i,
    {
        proof {
            lemma_file_name_step(p@, i as int);
        }
        i = i - 1;
    }
    proof {
        if i > 0 {
            assert(p@.take(i as int).last() == '/');
        }
        assert(file_name_of(p@.take(i as int)) =~= Seq::<char>::empty());
        assert(Seq::<char>::empty() + p@.subrange(i as int, p@.len() as int) =~= p@.subrange(
            i as int,
            p@.len() as int,
        ));
    }
    crate::text::slice(p, i, p.len())
}

proof fn lemma_file_name_split(p: Seq<char>, n: int)
    requires
        n == p.len(),
    ensures
        file_name_of(p) == file_name_of(p.take(n)) + p.subrange(n, n),
{
    assert(p.take(n) =~= p);
    assert(file_name_of(p.take(n)) + p.subrange(n, n) =~= file_name_of(p.take(n)));
}

proof fn lemma_file_name_step(p: Seq<char>, i: int)
    requires
        0 < i <= p.len(),
        p[i - 1] != '/',
        file_name_of(p) == file_name_of(p.take(i)) + p.subrange(i, p.len() as int),
    ensures
        file_name_of(p) == file_name_of(p.take(i - 1)) + p.subrange(i - 1, p.len() as int),
{
    let t = p.take(i);
    assert(t.drop_last() =~= p.take(i - 1));
    assert(t.last() == p[i - 1]);
    assert(file_name_of(t) == file_name_of(p.take(i - 1)).push(p[i - 1]));
    assert(file_name_of(p.take(i - 1)).push(p[i - 1]) + p.subrange(i, p.len() as int)
        =~= file_name_of(p.take(i - 1)) + p.subrange(i - 1, p.len() as int));
}

/// The configuration files of a project given one root file: the root,
/// then every walked file named `module.toml` other than the root, in walk
/// order.
pub open spec fn module_files(root: Seq<char>, walked: Seq<Seq<char>>, n: int) -> Seq<Seq<char>>
    decreases n,
{
    if n <= 0 {
        seq![root]
    } else {
        let w = walked[n - 1];
        if file_name_of(w) == module_file() && w != root {
            module_files(root, walked, n - 1).push(w)
        } else {
            module_files(root, walked, n - 1)
        }
    }
}

/// Picks the configuration files from a directory walk.
pub fn select_modules(root: &String, walked: &Vec<String>) -> (r: Vec<String>)
    ensures
        texts(r@) == module_files(root@, texts(walked@), walked@.len() as int),
{
    let mut r: Vec<String> = Vec::new();
    r.push(root.clone());
    let rc = chars_of(root);
    let name = chars_of("module.toml");
    let mut i: usize = 0;
    assert(texts(r@) =~= seq![root@]);
    while i < walked.len()
        invariant
            i <= walked.len(),
            rc@ == root@,
            name@ == module_file(),
            texts(r@) == module_files(root@, texts(walked@), i as int),
        decreases walked.len() - i,
    {
        let w = chars_of(&walked[i]);
        assert(texts(walked@)[i as int] == w@);
        if eq_chars(&file_name(&w), &name) && !eq_chars(&w, &rc) {
            let ghost r0 = texts(r@);
            r.push(walked[i].clone());
            assert(texts(r@) =~= r0.push(w@));
        }
        i = i + 1;
    }
    r
}

/// `key:version` for each declared dependency, in order: the root
/// coordinates of the graph walk.
pub fn root_coords(deps: &Vec<(String, String)>) -> (r: Vec<String>)
    ensures
        r@.len() == deps@.len(),
        forall|i: int|
            0 <= i < deps@.len() ==> #[trigger] r@[i]@ == deps@[i].0@ + seq![':'] + deps@[i].1@,
{
    let mut r: Vec<String> = Vec::new();
    let mut i: usize = 0;
    while i < deps.len()
        invariant
            i <= deps.len(),
            r@.len() == i,
            forall|k: int|
                0 <= k < i ==> #[trigger] r@[k]@ == deps@[k].0@ + seq![':'] + deps@[k].1@,
        decreases deps.len() - i,
    {
        let mut c = chars_of(&deps[i].0);
        c.push(':');
        crate::text::push_all(&mut c, &chars_of(&deps[i].1));
        r.push(crate::text::string_of(&c));
        i = i + 1;
    }
    r
}

} // verus!
