//! Maven coordinates: parsing, normalisation, and repository-relative paths.
use vstd::prelude::*;

use crate::text::{
    chars_of, contains_char, eq_chars, find_char, find_from, has_char, has_suffix, ends_with,
    lemma_find_from, push_all, replace_char, replace_chars, slice, string_of, trim, trim_chars,
};

verus! {

/// The mathematical value of an artifact: group, name and version as text.
pub struct Coords {
    pub group: Seq<char>,
    pub name: Seq<char>,
    pub version: Seq<char>,
}

/// A Maven artifact `group:name:version`.
#[derive(Debug)]
pub struct Artifact {
    pub group: String,
    pub name: String,
    pub version: String,
}

impl View for Artifact {
    type V = Coords;

    open spec fn view(&self) -> Coords {
        Coords { group: self.group@, name: self.name@, version: self.version@ }
    }
}

pub open spec fn opt_coords(a: Option<Artifact>) -> Option<Coords> {
    match a {
        Some(x) => Some(x@),
        None => None,
    }
}

pub open spec fn wildcard() -> Seq<char> {
    seq!['*']
}

/// A version with whitespace trimmed and one enclosing pair of `[` `]` removed.
pub open spec fn normalize_version(v: Seq<char>) -> Seq<char> {
    let t = trim(v);
    if t.len() >= 2 && t[0] == '[' && t.last() == ']' {
        t.subrange(1, t.len() - 1)
    } else {
        t
    }
}

/// What construction yields from the three raw fields: nothing for the
/// wildcard name, else the trimmed group and name and the normalised version.
pub open spec fn make_coords(g: Seq<char>, n: Seq<char>, v: Seq<char>) -> Option<Coords> {
    if trim(n) == wildcard() {
        None
    } else {
        Some(Coords { group: trim(g), name: trim(n), version: normalize_version(v) })
    }
}

/// The first three `:`-separated fields of `s`, when there are at least three.
pub open spec fn coord_fields(s: Seq<char>) -> Option<(Seq<char>, Seq<char>, Seq<char>)> {
    let i1 = find_from(s, ':', 0);
    let i2 = find_from(s, ':', i1 + 1);
    let i3 = find_from(s, ':', i2 + 1);
    if i1 >= s.len() || i2 >= s.len() {
        None
    } else {
        Some((s.subrange(0, i1), s.subrange(i1 + 1, i2), s.subrange(i2 + 1, i3)))
    }
}

pub open spec fn parse_coords(s: Seq<char>) -> Option<Coords> {
    match coord_fields(s) {
        Some((g, n, v)) => make_coords(g, n, v),
        None => None,
    }
}

/// `group:name:version`.
pub open spec fn coords_text(c: Coords) -> Seq<char> {
    c.group + seq![':'] + c.name + seq![':'] + c.version
}

/// `group:name`, the identity under conflict resolution.
pub open spec fn id_text(c: Coords) -> Seq<char> {
    c.group + seq![':'] + c.name
}

/// The group with its dots turned into directory separators.
pub open spec fn group_dir(c: Coords) -> Seq<char> {
    replace_char(c.group, '.', '/')
}

/// `g/n/v/n-v.ext`.
pub open spec fn artifact_path(c: Coords, ext: Seq<char>) -> Seq<char> {
    group_dir(c) + seq!['/'] + c.name + seq!['/'] + c.version + seq!['/'] + c.name + seq!['-']
        + c.version + seq!['.'] + ext
}

pub open spec fn metadata_file() -> Seq<char> {
    seq!['m', 'a', 'v', 'e', 'n', '-', 'm', 'e', 't', 'a', 'd', 'a', 't', 'a', '.', 'x', 'm', 'l']
}

/// `g/n/v/maven-metadata.xml` per version, `g/n/maven-metadata.xml` otherwise.
pub open spec fn metadata_path(c: Coords, per_version: bool) -> Seq<char> {
    if per_version {
        group_dir(c) + seq!['/'] + c.name + seq!['/'] + c.version + seq!['/'] + metadata_file()
    } else {
        group_dir(c) + seq!['/'] + c.name + seq!['/'] + metadata_file()
    }
}

pub open spec fn snapshot_suffix() -> Seq<char> {
    seq!['-', 'S', 'N', 'A', 'P', 'S', 'H', 'O', 'T']
}

pub open spec fn latest_word() -> Seq<char> {
    seq!['L', 'A', 'T', 'E', 'S', 'T']
}

pub open spec fn release_word() -> Seq<char> {
    seq!['R', 'E', 'L', 'E', 'A', 'S', 'E']
}

pub open spec fn is_snapshot_version(v: Seq<char>) -> bool {
    ends_with(v, snapshot_suffix())
}

pub open spec fn is_dynamic_version(v: Seq<char>) -> bool {
    v == latest_word() || v == release_word() || has_char(v, '[') || has_char(v, '(')
        || has_char(v, ',')
}

pub fn latest_chars() -> (r: Vec<char>)
    ensures
        r@ == latest_word(),
{
    let r = vec!['L', 'A', 'T', 'E', 'S', 'T'];
    assert(r@ =~= latest_word());
    r
}

pub fn release_chars() -> (r: Vec<char>)
    ensures
        r@ == release_word(),
{
    let r = vec!['R', 'E', 'L', 'E', 'A', 'S', 'E'];
    assert(r@ =~= release_word());
    r
}

/// The version text with whitespace trimmed and one enclosing pair of brackets removed.
pub fn normalize_version_chars(v: &Vec<char>) -> (r: Vec<char>)
    ensures
        r@ == normalize_version(v@),
{
    let t = trim_chars(v);
    if t.len() >= 2 && t[0] == '[' && t[t.len() - 1] == ']' {
        slice(&t, 1, t.len() - 1)
    } else {
        t
    }
}

impl Artifact {
    /// Builds an artifact from raw fields; a wildcard name is rejected.
    pub fn new(group: &str, name: &str, version: &str) -> (r: Option<Artifact>)
        ensures
            opt_coords(r) == make_coords(group@, name@, version@),
    {
        let n = trim_chars(&chars_of(name));
        if n.len() == 1 && n[0] == '*' {
            assert(n@ =~= wildcard());
            return None;
        }
        assert(n@ != wildcard());
        let g = trim_chars(&chars_of(group));
        let v = normalize_version_chars(&chars_of(version));
        Some(Artifact { group: string_of(&g), name: string_of(&n), version: string_of(&v) })
    }

    /// Parses `group:name:version[:...]`; fields after the third are ignored.
    pub fn from_coords(coords: &str) -> (r: Option<Artifact>)
        ensures
            opt_coords(r) == parse_coords(coords@),
    {
        let s = chars_of(coords);
        let i1 = find_char(&s, ':', 0);
        if i1 >= s.len() {
            return None;
        }
        let i2 = find_char(&s, ':', i1 + 1);
        if i2 >= s.len() {
            return None;
        }
        let i3 = find_char(&s, ':', i2 + 1);
        let g = slice(&s, 0, i1);
        let n = slice(&s, i1 + 1, i2);
        let v = slice(&s, i2 + 1, i3);
        Artifact::new(&string_of(&g), &string_of(&n), &string_of(&v))
    }

    /// `group:name`.
    pub fn id(&self) -> (r: String)
        ensures
            r@ == id_text(self@),
    {
        let mut out = chars_of(&self.group);
        out.push(':');
        push_all(&mut out, &chars_of(&self.name));
        assert(out@ =~= id_text(self@));
        string_of(&out)
    }

    /// `group:name:version`.
    pub fn to_string(&self) -> (r: String)
        ensures
            r@ == coords_text(self@),
    {
        let mut out = chars_of(&self.group);
        out.push(':');
        push_all(&mut out, &chars_of(&self.name));
        out.push(':');
        push_all(&mut out, &chars_of(&self.version));
        assert(out@ =~= coords_text(self@));
        string_of(&out)
    }

    /// Repository-relative path of the file with extension `ext`.
    pub fn get_path(&self, ext: &str) -> (r: String)
        ensures
            r@ == artifact_path(self@, ext@),
    {
        let n = chars_of(&self.name);
        let v = chars_of(&self.version);
        let mut out = replace_chars(&chars_of(&self.group), '.', '/');
        out.push('/');
        push_all(&mut out, &n);
        out.push('/');
        push_all(&mut out, &v);
        out.push('/');
        push_all(&mut out, &n);
        out.push('-');
        push_all(&mut out, &v);
        out.push('.');
        push_all(&mut out, &chars_of(ext));
        assert(out@ =~= artifact_path(self@, ext@));
        string_of(&out)
    }

    pub fn is_snapshot(&self) -> (r: bool)
        ensures
            r == is_snapshot_version(self.version@),
    {
        let suffix = vec!['-', 'S', 'N', 'A', 'P', 'S', 'H', 'O', 'T'];
        assert(suffix@ =~= snapshot_suffix());
        has_suffix(&chars_of(&self.version), &suffix)
    }

    pub fn is_dynamic(&self) -> (r: bool)
        ensures
            r == is_dynamic_version(self.version@),
    {
        let v = chars_of(&self.version);
        eq_chars(&v, &latest_chars()) || eq_chars(&v, &release_chars()) || contains_char(&v, '[')
            || contains_char(&v, '(') || contains_char(&v, ',')
    }

    /// Path of `maven-metadata.xml`, per version or for the group and name.
    pub fn get_metadata_path(&self, per_version: bool) -> (r: String)
        ensures
            r@ == metadata_path(self@, per_version),
    {
        let mut out = replace_chars(&chars_of(&self.group), '.', '/');
        out.push('/');
        push_all(&mut out, &chars_of(&self.name));
        out.push('/');
        if per_version {
            push_all(&mut out, &chars_of(&self.version));
            out.push('/');
        }
        let file = vec![
            'm', 'a', 'v', 'e', 'n', '-', 'm', 'e', 't', 'a', 'd', 'a', 't', 'a', '.', 'x', 'm', 'l',
        ];
        assert(file@ =~= metadata_file());
        push_all(&mut out, &file);
        assert(out@ =~= metadata_path(self@, per_version));
        string_of(&out)
    }

    /// The same artifact with another version, taken as given.
    pub fn with_version(&self, version: String) -> (r: Artifact)
        ensures
            r@ == (Coords { version: version@, ..self@ }),
    {
        Artifact { group: self.group.clone(), name: self.name.clone(), version }
    }

    /// Whether both name the same `group:name`.
    pub fn same_id(&self, other: &Artifact) -> (r: bool)
        ensures
            r == (self.group@ == other.group@ && self.name@ == other.name@),
    {
        self.group == other.group && self.name == other.name
    }
}

impl Clone for Artifact {
    fn clone(&self) -> (r: Artifact)
        ensures
            r == *self,
    {
        Artifact { group: self.group.clone(), name: self.name.clone(), version: self.version.clone() }
    }
}

impl PartialEq for Artifact {
    fn eq(&self, other: &Artifact) -> (r: bool)
        ensures
            r == (self@ == other@),
    {
        self.group == other.group && self.name == other.name && self.version == other.version
    }
}

impl vstd::std_specs::cmp::PartialEqSpecImpl for Artifact {
    open spec fn obeys_eq_spec() -> bool {
        true
    }

    open spec fn eq_spec(&self, other: &Artifact) -> bool {
        self@ == other@
    }
}

impl Eq for Artifact {

}

/// An artifact that construction leaves unchanged and whose fields hold no `:`
/// is read back from its `group:name:version` text as itself.
pub proof fn lemma_coords_round_trip(c: Coords)
    requires
        make_coords(c.group, c.name, c.version) == Some(c),
        !has_char(c.group, ':'),
        !has_char(c.name, ':'),
        !has_char(c.version, ':'),
    ensures
        parse_coords(coords_text(c)) == Some(c),
{
    let s = coords_text(c);
    let g = c.group.len() as int;
    let n = c.name.len() as int;
    let v = c.version.len() as int;
    assert(s.subrange(0, g) =~= c.group);
    assert(s.subrange(g + 1, g + 1 + n) =~= c.name);
    assert(s.subrange(g + n + 2, g + n + 2 + v) =~= c.version);
    assert(s[g] == ':');
    assert(s[g + 1 + n] == ':');
    assert forall|k: int| 0 <= k < g implies s[k] != ':' by {
        assert(s[k] == c.group[k]);
    }
    assert forall|k: int| g + 1 <= k < g + 1 + n implies s[k] != ':' by {
        assert(s[k] == c.name[k - g - 1]);
    }
    assert forall|k: int| g + n + 2 <= k < g + n + 2 + v implies s[k] != ':' by {
        assert(s[k] == c.version[k - g - n - 2]);
    }
    lemma_find_from(s, ':', 0, g);
    lemma_find_from(s, ':', g + 1, g + 1 + n);
    lemma_find_from(s, ':', g + n + 2, s.len() as int);
}

} // verus!
