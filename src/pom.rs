//! The POM reader: one POM document to a raw `Pom`, plus property
//! interpolation and parent inheritance.
use vstd::prelude::*;

use crate::artifact::{make_coords, wildcard, Artifact, Coords};
use crate::text::{chars_of, eq_chars, find_char, find_from, slice, string_of, push_all, trim, trim_chars};
use crate::xml::{names2, names3, names4, parent_is, path_is, path_view, read_events, word, xml_events, XmlEvent};

verus! {

/// A declared dependency: the artifact, and the `scope` and `type` when given.
#[derive(Debug)]
pub struct DependencyEntry {
    pub artifact: Artifact,
    pub scope: Option<String>,
    pub entry_type: Option<String>,
}

pub struct DepModel {
    pub artifact: Coords,
    pub scope: Option<Seq<char>>,
    pub entry_type: Option<Seq<char>>,
}

pub open spec fn opt_text(o: Option<String>) -> Option<Seq<char>> {
    match o {
        Some(s) => Some(s@),
        None => None,
    }
}

impl View for DependencyEntry {
    type V = DepModel;

    open spec fn view(&self) -> DepModel {
        DepModel {
            artifact: self.artifact@,
            scope: opt_text(self.scope),
            entry_type: opt_text(self.entry_type),
        }
    }
}

fn clone_opt(o: &Option<String>) -> (r: Option<String>)
    ensures
        opt_text(r) == opt_text(*o),
{
    match o {
        Some(s) => Some(s.clone()),
        None => None,
    }
}

impl DependencyEntry {
    pub fn duplicate(&self) -> (r: DependencyEntry)
        ensures
            r@ == self@,
    {
        DependencyEntry {
            artifact: self.artifact.clone(),
            scope: clone_opt(&self.scope),
            entry_type: clone_opt(&self.entry_type),
        }
    }
}

/// One POM as written: properties in document order, dependencies,
/// dependency management, repositories and the parent, before inheritance.
#[derive(Debug)]
pub struct Pom {
    pub properties: Vec<(String, String)>,
    pub dependencies: Vec<DependencyEntry>,
    pub dep_management: Vec<DependencyEntry>,
    pub repositories: Vec<String>,
    pub parent: Option<Artifact>,
}

pub struct PomModel {
    pub properties: Seq<(Seq<char>, Seq<char>)>,
    pub dependencies: Seq<DepModel>,
    pub dep_management: Seq<DepModel>,
    pub repositories: Seq<Seq<char>>,
    pub parent: Option<Coords>,
}

pub open spec fn props_view(p: Seq<(String, String)>) -> Seq<(Seq<char>, Seq<char>)> {
    p.map_values(|e: (String, String)| (e.0@, e.1@))
}

pub open spec fn deps_view(d: Seq<DependencyEntry>) -> Seq<DepModel> {
    d.map_values(|e: DependencyEntry| e@)
}

pub open spec fn strs_view(d: Seq<String>) -> Seq<Seq<char>> {
    d.map_values(|e: String| e@)
}

pub open spec fn opt_artifact(a: Option<Artifact>) -> Option<Coords> {
    match a {
        Some(x) => Some(x@),
        None => None,
    }
}

impl View for Pom {
    type V = PomModel;

    open spec fn view(&self) -> PomModel {
        PomModel {
            properties: props_view(self.properties@),
            dependencies: deps_view(self.dependencies@),
            dep_management: deps_view(self.dep_management@),
            repositories: strs_view(self.repositories@),
            parent: opt_artifact(self.parent),
        }
    }
}

pub open spec fn empty_pom() -> PomModel {
    PomModel {
        properties: Seq::empty(),
        dependencies: Seq::empty(),
        dep_management: Seq::empty(),
        repositories: Seq::empty(),
        parent: None,
    }
}

// Element names that the reader looks for.
pub open spec fn w_project() -> Seq<char> {
    "project"@
}

pub open spec fn w_properties() -> Seq<char> {
    "properties"@
}

pub open spec fn w_parent() -> Seq<char> {
    "parent"@
}

pub open spec fn w_group() -> Seq<char> {
    "groupId"@
}

pub open spec fn w_artifact() -> Seq<char> {
    "artifactId"@
}

pub open spec fn w_version() -> Seq<char> {
    "version"@
}

pub open spec fn w_scope() -> Seq<char> {
    "scope"@
}

pub open spec fn w_type() -> Seq<char> {
    "type"@
}

pub open spec fn w_url() -> Seq<char> {
    "url"@
}

pub open spec fn parent_path() -> Seq<Seq<char>> {
    seq![w_project(), w_parent()]
}

pub open spec fn repo_path() -> Seq<Seq<char>> {
    seq![w_project(), "repositories"@, "repository"@]
}

pub open spec fn deps_path() -> Seq<Seq<char>> {
    seq![w_project(), "dependencies"@, "dependency"@]
}

pub open spec fn dm_path() -> Seq<Seq<char>> {
    seq![w_project(), "dependencyManagement"@, "dependencies"@, "dependency"@]
}

/// The reader's state between two events.
pub struct ReaderModel {
    pub path: Seq<Seq<char>>,
    pub g: Seq<char>,
    pub a: Seq<char>,
    pub v: Seq<char>,
    pub s: Seq<char>,
    pub t: Seq<char>,
    pub pg: Seq<char>,
    pub pa: Seq<char>,
    pub pv: Seq<char>,
    pub url: Seq<char>,
    pub pom: PomModel,
}

pub open spec fn reader_start() -> ReaderModel {
    ReaderModel {
        path: Seq::empty(),
        g: Seq::empty(),
        a: Seq::empty(),
        v: Seq::empty(),
        s: Seq::empty(),
        t: Seq::empty(),
        pg: Seq::empty(),
        pa: Seq::empty(),
        pv: Seq::empty(),
        url: Seq::empty(),
        pom: empty_pom(),
    }
}

/// Text inside an element: a property, a parent or repository field, or a
/// field of the dependency being read.
pub open spec fn on_text(m: ReaderModel, val: Seq<char>) -> ReaderModel {
    let p = m.path;
    if p.len() == 3 && p[0] == w_project() && p[1] == w_properties() {
        ReaderModel { pom: PomModel { properties: m.pom.properties.push((p[2], val)), ..m.pom }, ..m }
    } else if p == parent_path().push(w_group()) {
        ReaderModel { pg: val, ..m }
    } else if p == parent_path().push(w_artifact()) {
        ReaderModel { pa: val, ..m }
    } else if p == parent_path().push(w_version()) {
        ReaderModel { pv: val, ..m }
    } else if p == repo_path().push(w_url()) {
        ReaderModel { url: val, ..m }
    } else if p.len() > 0 && (p.drop_last() == deps_path() || p.drop_last() == dm_path()) {
        if p.last() == w_group() {
            ReaderModel { g: val, ..m }
        } else if p.last() == w_artifact() {
            ReaderModel { a: val, ..m }
        } else if p.last() == w_version() {
            ReaderModel { v: val, ..m }
        } else if p.last() == w_scope() {
            ReaderModel { s: val, ..m }
        } else if p.last() == w_type() {
            ReaderModel { t: val, ..m }
        } else {
            m
        }
    } else {
        m
    }
}

pub open spec fn nonempty(s: Seq<char>) -> Option<Seq<char>> {
    if s.len() == 0 {
        None
    } else {
        Some(s)
    }
}

/// A dependency element closes: it is recorded unless its group or name is
/// blank or its name is the wildcard.
pub open spec fn close_dependency(m: ReaderModel, managed: bool) -> ReaderModel {
    let cleared = ReaderModel {
        g: Seq::empty(),
        a: Seq::empty(),
        v: Seq::empty(),
        s: Seq::empty(),
        t: Seq::empty(),
        ..m
    };
    if trim(m.g).len() == 0 || trim(m.a).len() == 0 || m.a == wildcard() {
        cleared
    } else {
        match make_coords(m.g, m.a, m.v) {
            Some(c) => {
                let e = DepModel { artifact: c, scope: nonempty(m.s), entry_type: nonempty(m.t) };
                if managed {
                    ReaderModel {
                        pom: PomModel { dep_management: m.pom.dep_management.push(e), ..m.pom },
                        ..cleared
                    }
                } else {
                    ReaderModel {
                        pom: PomModel { dependencies: m.pom.dependencies.push(e), ..m.pom },
                        ..cleared
                    }
                }
            },
            None => cleared,
        }
    }
}

/// An element closes: a complete parent, repository or dependency is
/// recorded, then the element leaves the path.
pub open spec fn on_end(m: ReaderModel) -> ReaderModel {
    let p = m.path;
    let m2 = if p == parent_path() && m.pg.len() > 0 && m.pa.len() > 0 && m.pv.len() > 0 {
        ReaderModel {
            pg: Seq::empty(),
            pa: Seq::empty(),
            pv: Seq::empty(),
            pom: PomModel {
                parent: match make_coords(m.pg, m.pa, m.pv) {
                    Some(c) => Some(c),
                    None => m.pom.parent,
                },
                ..m.pom
            },
            ..m
        }
    } else if p == repo_path() && m.url.len() > 0 {
        ReaderModel {
            url: Seq::empty(),
            pom: PomModel { repositories: m.pom.repositories.push(m.url), ..m.pom },
            ..m
        }
    } else if p == deps_path() {
        close_dependency(m, false)
    } else if p == dm_path() {
        close_dependency(m, true)
    } else {
        m
    };
    ReaderModel {
        path: if p.len() > 0 {
            p.drop_last()
        } else {
            p
        },
        ..m2
    }
}

pub open spec fn on_event(m: ReaderModel, e: XmlEvent) -> ReaderModel {
    match e {
        XmlEvent::Start(n) => ReaderModel { path: m.path.push(n@), ..m },
        XmlEvent::Text(t) => on_text(m, t@),
        XmlEvent::End => on_end(m),
    }
}

pub open spec fn read_prefix(es: Seq<XmlEvent>, k: int) -> ReaderModel
    decreases k,
{
    if k <= 0 {
        reader_start()
    } else {
        on_event(read_prefix(es, k - 1), es[k - 1])
    }
}

/// The POM that a stream of events describes.
pub open spec fn pom_of_events(es: Seq<XmlEvent>) -> PomModel {
    read_prefix(es, es.len() as int).pom
}

/// Every recorded entry names a group and an artifact.
pub open spec fn entries_named(d: Seq<DepModel>) -> bool {
    forall|i: int|
        0 <= i < d.len() ==> (#[trigger] d[i]).artifact.group.len() > 0 && d[i].artifact.name.len()
            > 0 && d[i].artifact.name != wildcard()
}

proof fn lemma_reader_named(es: Seq<XmlEvent>, k: int)
    requires
        0 <= k <= es.len(),
    ensures
        entries_named(read_prefix(es, k).pom.dependencies),
        entries_named(read_prefix(es, k).pom.dep_management),
    decreases k,
{
    if k > 0 {
        lemma_reader_named(es, k - 1);
        let m = read_prefix(es, k - 1);
        let n = read_prefix(es, k);
        if let Some(c) = make_coords(m.g, m.a, m.v) {
            let e = DepModel { artifact: c, scope: nonempty(m.s), entry_type: nonempty(m.t) };
            assert forall|i: int| 0 <= i < m.pom.dependencies.push(e).len() implies {
                let d = #[trigger] m.pom.dependencies.push(e)[i];
                trim(m.g).len() > 0 && trim(m.a).len() > 0 ==> d.artifact.group.len() > 0
                    && d.artifact.name.len() > 0 && d.artifact.name != wildcard()
            } by {
                if i < m.pom.dependencies.len() {
                    assert(m.pom.dependencies.push(e)[i] == m.pom.dependencies[i]);
                }
            }
            assert forall|i: int| 0 <= i < m.pom.dep_management.push(e).len() implies {
                let d = #[trigger] m.pom.dep_management.push(e)[i];
                trim(m.g).len() > 0 && trim(m.a).len() > 0 ==> d.artifact.group.len() > 0
                    && d.artifact.name.len() > 0 && d.artifact.name != wildcard()
            } by {
                if i < m.pom.dep_management.len() {
                    assert(m.pom.dep_management.push(e)[i] == m.pom.dep_management[i]);
                }
            }
        }
        assert(entries_named(n.pom.dependencies));
        assert(entries_named(n.pom.dep_management));
    }
}

/// A dependency whose `groupId` or `artifactId` is blank, or whose
/// `artifactId` is the wildcard, is dropped: every entry the reader records
/// has a non-empty group and name, and a name other than `*`.
pub proof fn lemma_parsed_entries_named(es: Seq<XmlEvent>)
    ensures
        entries_named(pom_of_events(es).dependencies),
        entries_named(pom_of_events(es).dep_management),
{
    lemma_reader_named(es, es.len() as int);
}

struct PomReader {
    path: Vec<Vec<char>>,
    g: Vec<char>,
    a: Vec<char>,
    v: Vec<char>,
    s: Vec<char>,
    t: Vec<char>,
    pg: Vec<char>,
    pa: Vec<char>,
    pv: Vec<char>,
    url: Vec<char>,
    pom: Pom,
}

impl View for PomReader {
    type V = ReaderModel;

    closed spec fn view(&self) -> ReaderModel {
        ReaderModel {
            path: path_view(self.path@),
            g: self.g@,
            a: self.a@,
            v: self.v@,
            s: self.s@,
            t: self.t@,
            pg: self.pg@,
            pa: self.pa@,
            pv: self.pv@,
            url: self.url@,
            pom: self.pom@,
        }
    }
}

fn copy_chars(s: &Vec<char>) -> (r: Vec<char>)
    ensures
        r@ == s@,
{
    slice(s, 0, s.len())
}

fn nonempty_string(s: &Vec<char>) -> (r: Option<String>)
    ensures
        opt_text(r) == nonempty(s@),
{
    if s.len() == 0 {
        None
    } else {
        Some(string_of(s))
    }
}

impl PomReader {
    fn new() -> (r: PomReader)
        ensures
            r@ == reader_start(),
    {
        let r = PomReader {
            path: Vec::new(),
            g: Vec::new(),
            a: Vec::new(),
            v: Vec::new(),
            s: Vec::new(),
            t: Vec::new(),
            pg: Vec::new(),
            pa: Vec::new(),
            pv: Vec::new(),
            url: Vec::new(),
            pom: Pom {
                properties: Vec::new(),
                dependencies: Vec::new(),
                dep_management: Vec::new(),
                repositories: Vec::new(),
                parent: None,
            },
        };
        assert(r@.path =~= Seq::<Seq<char>>::empty());
        assert(r@.pom.properties =~= Seq::<(Seq<char>, Seq<char>)>::empty());
        assert(r@.pom.dependencies =~= Seq::<DepModel>::empty());
        assert(r@.pom.dep_management =~= Seq::<DepModel>::empty());
        assert(r@.pom.repositories =~= Seq::<Seq<char>>::empty());
        r
    }

    fn start(&mut self, name: &String)
        ensures
            final(self)@ == (ReaderModel { path: old(self)@.path.push(name@), ..old(self)@ }),
    {
        self.path.push(chars_of(name));
        assert(path_view(self.path@) =~= path_view(old(self).path@).push(name@));
    }

    fn text(&mut self, val: &String)
        ensures
            final(self)@ == on_text(old(self)@, val@),
    {
        let ghost m = self@;
        let value = chars_of(val);
        let n = self.path.len();
        if n == 3 && eq_chars(&self.path[0], &word("project")) && eq_chars(
            &self.path[1],
            &word("properties"),
        ) {
            let key = string_of(&self.path[2]);
            self.pom.properties.push((key, string_of(&value)));
            assert(self@.pom.properties =~= m.pom.properties.push((m.path[2], val@)));
        } else if path_is(&self.path, &names3("project", "parent", "groupId")) {
            self.pg = value;
        } else if path_is(&self.path, &names3("project", "parent", "artifactId")) {
            self.pa = value;
        } else if path_is(&self.path, &names3("project", "parent", "version")) {
            self.pv = value;
        } else if path_is(&self.path, &names4("project", "repositories", "repository", "url")) {
            self.url = value;
        } else if n > 0 && (parent_is(&self.path, &names3("project", "dependencies", "dependency"))
            || parent_is(
            &self.path,
            &names4("project", "dependencyManagement", "dependencies", "dependency"),
        )) {
            let last = &self.path[n - 1];
            if eq_chars(last, &word("groupId")) {
                self.g = value;
            } else if eq_chars(last, &word("artifactId")) {
                self.a = value;
            } else if eq_chars(last, &word("version")) {
                self.v = value;
            } else if eq_chars(last, &word("scope")) {
                self.s = value;
            } else if eq_chars(last, &word("type")) {
                self.t = value;
            }
        }
        proof {
            assert(parent_path().push(w_group()) =~= seq!["project"@, "parent"@, "groupId"@]);
            assert(parent_path().push(w_artifact()) =~= seq![
                "project"@,
                "parent"@,
                "artifactId"@,
            ]);
            assert(parent_path().push(w_version()) =~= seq!["project"@, "parent"@, "version"@]);
            assert(repo_path().push(w_url()) =~= seq![
                "project"@,
                "repositories"@,
                "repository"@,
                "url"@,
            ]);
        }
    }

    fn clear_dependency(&mut self)
        ensures
            final(self)@ == (ReaderModel {
                g: Seq::empty(),
                a: Seq::empty(),
                v: Seq::empty(),
                s: Seq::empty(),
                t: Seq::empty(),
                ..old(self)@
            }),
    {
        self.g = Vec::new();
        self.a = Vec::new();
        self.v = Vec::new();
        self.s = Vec::new();
        self.t = Vec::new();
        assert(self@.g =~= Seq::<char>::empty());
    }

    fn close_dependency(&mut self, managed: bool)
        ensures
            final(self)@ == close_dependency(old(self)@, managed),
    {
        let ghost m = self@;
        let star = vec!['*'];
        assert(star@ =~= wildcard());
        if trim_chars(&self.g).len() == 0 || trim_chars(&self.a).len() == 0 || eq_chars(&self.a, &star) {
            self.clear_dependency();
            return ;
        }
        let made = Artifact::new(&string_of(&self.g), &string_of(&self.a), &string_of(&self.v));
        match made {
            Some(artifact) => {
                let e = DependencyEntry {
                    artifact,
                    scope: nonempty_string(&self.s),
                    entry_type: nonempty_string(&self.t),
                };
                if managed {
                    self.pom.dep_management.push(e);
                    assert(self@.pom.dep_management =~= m.pom.dep_management.push(e@));
                } else {
                    self.pom.dependencies.push(e);
                    assert(self@.pom.dependencies =~= m.pom.dependencies.push(e@));
                }
            },
            None => {},
        }
        self.clear_dependency();
    }

    fn end(&mut self)
        ensures
            final(self)@ == on_end(old(self)@),
    {
        let ghost m = self@;
        proof {
            assert(repo_path() =~= seq!["project"@, "repositories"@, "repository"@]);
        }
        if path_is(&self.path, &names2("project", "parent")) && self.pg.len() > 0 && self.pa.len()
            > 0 && self.pv.len() > 0 {
            let made = Artifact::new(
                &string_of(&self.pg),
                &string_of(&self.pa),
                &string_of(&self.pv),
            );
            if made.is_some() {
                self.pom.parent = made;
            }
            self.pg = Vec::new();
            self.pa = Vec::new();
            self.pv = Vec::new();
        } else if path_is(&self.path, &names3("project", "repositories", "repository"))
            && self.url.len() > 0 {
            let u = string_of(&self.url);
            self.pom.repositories.push(u);
            assert(self@.pom.repositories =~= m.pom.repositories.push(m.url));
            self.url = Vec::new();
        } else if path_is(&self.path, &names3("project", "dependencies", "dependency")) {
            self.close_dependency(false);
        } else if path_is(
            &self.path,
            &names4("project", "dependencyManagement", "dependencies", "dependency"),
        ) {
            self.close_dependency(true);
        }
        let ghost m2 = self@;
        if self.path.len() > 0 {
            self.path.pop();
            assert(path_view(self.path@) =~= m.path.drop_last());
        }
        assert(self@ == (ReaderModel {
            path: if m.path.len() > 0 {
                m.path.drop_last()
            } else {
                m.path
            },
            ..m2
        }));
    }
}

/// Reads a POM from its event stream.
pub fn parse_events(events: &Vec<XmlEvent>) -> (r: Pom)
    ensures
        r@ == pom_of_events(events@),
{
    let mut reader = PomReader::new();
    let mut i: usize = 0;
    while i < events.len()
        invariant
            i <= events.len(),
            reader@ == read_prefix(events@, i as int),
        decreases events.len() - i,
    {
        match &events[i] {
            XmlEvent::Start(n) => reader.start(n),
            XmlEvent::Text(t) => reader.text(t),
            XmlEvent::End => reader.end(),
        }
        i = i + 1;
    }
    reader.pom
}

/// Reads a POM document: properties, dependencies, dependency management,
/// repositories and parent, with nothing inherited or interpolated.
pub fn parse(xml: &str) -> (r: Pom)
    ensures
        r@ == pom_of_events(xml_events(xml@)),
{
    parse_events(&read_events(xml))
}


/// The value of the last property named `key` among the first `k`.
pub open spec fn lookup_prop(ps: Seq<(Seq<char>, Seq<char>)>, key: Seq<char>, k: int) -> Option<
    Seq<char>,
>
    decreases k,
{
    if k <= 0 {
        None
    } else if ps[k - 1].0 == key {
        Some(ps[k - 1].1)
    } else {
        lookup_prop(ps, key, k - 1)
    }
}

/// What a placeholder `${key}` (written `literal`) stands for: the artifact's
/// own group or version for those names, a property when one is defined, and
/// otherwise the placeholder itself.
pub open spec fn placeholder_value(
    key: Seq<char>,
    literal: Seq<char>,
    ps: Seq<(Seq<char>, Seq<char>)>,
    c: Coords,
) -> Seq<char> {
    if key == "project.groupId"@ || key == "groupId"@ {
        c.group
    } else if key == "project.version"@ || key == "version"@ {
        c.version
    } else {
        match lookup_prop(ps, key, ps.len() as int) {
            Some(v) => v,
            None => literal,
        }
    }
}

/// `s` from position `i` on, with each `${key}` replaced by its value.
pub open spec fn interpolate_from(
    s: Seq<char>,
    ps: Seq<(Seq<char>, Seq<char>)>,
    c: Coords,
    i: int,
) -> Seq<char>
    decreases s.len() - i,
{
    if i < 0 || i >= s.len() {
        Seq::empty()
    } else {
        let close = find_from(s, '}', i + 2);
        if i + 1 < s.len() && s[i] == '$' && s[i + 1] == '{' && close < s.len() && close > i {
            placeholder_value(s.subrange(i + 2, close), s.subrange(i, close + 1), ps, c)
                + interpolate_from(s, ps, c, close + 1)
        } else {
            seq![s[i]] + interpolate_from(s, ps, c, i + 1)
        }
    }
}

pub open spec fn interpolate(s: Seq<char>, ps: Seq<(Seq<char>, Seq<char>)>, c: Coords) -> Seq<
    char,
> {
    interpolate_from(s, ps, c, 0)
}

fn find_prop(props: &Vec<(String, String)>, key: &Vec<char>) -> (r: Option<Vec<char>>)
    ensures
        match r {
            Some(v) => lookup_prop(props_view(props@), key@, props@.len() as int) == Some(v@),
            None => lookup_prop(props_view(props@), key@, props@.len() as int) is None,
        },
{
    let ghost ps = props_view(props@);
    let mut k = props.len();
    while k > 0
        invariant
            k <= props.len(),
            ps == props_view(props@),
            lookup_prop(ps, key@, props@.len() as int) == lookup_prop(ps, key@, k as int),
        decreases k,
    {
        if eq_chars(&chars_of(&props[k - 1].0), key) {
            return Some(chars_of(&props[k - 1].1));
        }
        k = k - 1;
    }
    None
}

/// Replaces each `${key}` placeholder in `val`: `project.groupId`/`groupId`
/// and `project.version`/`version` by the artifact's own fields, other keys by
/// the property of that name; an unknown placeholder stays as written.
pub fn resolve_val(val: &str, props: &Vec<(String, String)>, art: &Artifact) -> (r: String)
    ensures
        r@ == interpolate(val@, props_view(props@), art@),
{
    let s = chars_of(val);
    let ghost ps = props_view(props@);
    let group = chars_of(&art.group);
    let version = chars_of(&art.version);
    let mut out: Vec<char> = Vec::new();
    let mut i: usize = 0;
    while i < s.len()
        invariant
            i <= s.len(),
            s@ == val@,
            ps == props_view(props@),
            group@ == art@.group,
            version@ == art@.version,
            out@ + interpolate_from(s@, ps, art@, i as int) == interpolate(s@, ps, art@),
        decreases s.len() - i,
    {
        let close = if s.len() >= 2 && i <= s.len() - 2 {
            find_char(&s, '}', i + 2)
        } else {
            s.len()
        };
        proof {
            if i + 2 > s.len() {
                assert(find_from(s@, '}', i + 2) == s.len());
            }
        }
        if i + 1 < s.len() && s[i] == '$' && s[i + 1] == '{' && close < s.len() {
            let key = slice(&s, i + 2, close);
            let literal = slice(&s, i, close + 1);
            let value = if eq_chars(&key, &word("project.groupId")) || eq_chars(
                &key,
                &word("groupId"),
            ) {
                copy_chars(&group)
            } else if eq_chars(&key, &word("project.version")) || eq_chars(&key, &word("version")) {
                copy_chars(&version)
            } else {
                match find_prop(props, &key) {
                    Some(v) => v,
                    None => literal,
                }
            };
            assert(value@ == placeholder_value(
                s@.subrange(i + 2, close as int),
                s@.subrange(i as int, close + 1),
                ps,
                art@,
            ));
            let ghost before = out@;
            push_all(&mut out, &value);
            assert(out@ + interpolate_from(s@, ps, art@, close + 1) =~= before
                + interpolate_from(s@, ps, art@, i as int));
            i = close + 1;
        } else {
            let ghost before = out@;
            out.push(s[i]);
            assert(out@ + interpolate_from(s@, ps, art@, i + 1) =~= before + interpolate_from(
                s@,
                ps,
                art@,
                i as int,
            ));
            i = i + 1;
        }
    }
    assert(out@ =~= interpolate(s@, ps, art@));
    string_of(&out)
}

/// The POM after inheriting from its (already effective) parent: parent
/// properties first so that the child's win on lookup, the child's
/// dependency management before the parent's, repositories concatenated.
pub open spec fn merged_with_parent(child: PomModel, parent: PomModel) -> PomModel {
    PomModel {
        properties: parent.properties + child.properties,
        dependencies: child.dependencies,
        dep_management: child.dep_management + parent.dep_management,
        repositories: child.repositories + parent.repositories,
        parent: child.parent,
    }
}

fn append_all<T>(out: &mut Vec<T>, mut items: Vec<T>)
    ensures
        final(out)@ == old(out)@ + items@,
{
    out.append(&mut items);
}

/// Inherits `parent` into `child`.
pub fn merge_parent(child: Pom, parent: Pom) -> (r: Pom)
    ensures
        r@ == merged_with_parent(child@, parent@),
{
    let Pom { properties, dependencies, dep_management, repositories, parent: up } = child;
    let mut props = parent.properties;
    append_all(&mut props, properties);
    let mut dm = dep_management;
    append_all(&mut dm, parent.dep_management);
    let mut repos = repositories;
    append_all(&mut repos, parent.repositories);
    let r = Pom {
        properties: props,
        dependencies,
        dep_management: dm,
        repositories: repos,
        parent: up,
    };
    assert(r@.properties =~= parent@.properties + child@.properties);
    assert(r@.dep_management =~= child@.dep_management + parent@.dep_management);
    assert(r@.repositories =~= child@.repositories + parent@.repositories);
    r
}

/// A BOM import: `type` is `pom` and `scope` is `import`.
pub open spec fn is_import(d: DepModel) -> bool {
    d.entry_type == Some("pom"@) && d.scope == Some("import"@)
}

fn opt_is(o: &Option<String>, w: &str) -> (r: bool)
    ensures
        r == (opt_text(*o) == Some(w@)),
{
    match o {
        Some(s) => eq_chars(&chars_of(s), &word(w)),
        None => false,
    }
}

impl DependencyEntry {
    pub fn is_import(&self) -> (r: bool)
        ensures
            r == is_import(self@),
    {
        opt_is(&self.entry_type, "pom") && opt_is(&self.scope, "import")
    }
}

/// How many parent POMs above one artifact are inherited at most.
pub const MAX_PARENT_DEPTH: usize = 32;

/// How many BOM imports one effective POM expands at most.
pub const MAX_IMPORTS: usize = 64;

/// The entries of `s` that are not imports, in order.
pub open spec fn plain(s: Seq<DepModel>) -> Seq<DepModel>
    decreases s.len(),
{
    if s.len() == 0 {
        Seq::empty()
    } else if is_import(s[0]) {
        plain(s.drop_first())
    } else {
        seq![s[0]] + plain(s.drop_first())
    }
}

/// Index of the first import in `s` at or after `i`, or the length.
pub open spec fn first_import(s: Seq<DepModel>, i: int) -> int
    decreases s.len() - i,
{
    if i < 0 || i >= s.len() {
        s.len() as int
    } else if is_import(s[i]) {
        i
    } else {
        first_import(s, i + 1)
    }
}

proof fn lemma_first_import(s: Seq<DepModel>, i: int, j: int)
    requires
        0 <= i <= j <= s.len(),
        forall|t: int| i <= t < j ==> !is_import(#[trigger] s[t]),
        j == s.len() || is_import(s[j]),
    ensures
        first_import(s, i) == j,
    decreases j - i,
{
    if i < j {
        lemma_first_import(s, i + 1, j);
    }
}

proof fn lemma_plain_append(a: Seq<DepModel>, b: Seq<DepModel>)
    ensures
        plain(a + b) == plain(a) + plain(b),
    decreases a.len(),
{
    if a.len() == 0 {
        assert(a + b =~= b);
        assert(plain(a) + plain(b) =~= plain(b));
    } else {
        assert((a + b).drop_first() =~= a.drop_first() + b);
        lemma_plain_append(a.drop_first(), b);
        if !is_import(a[0]) {
            assert(seq![a[0]] + (plain(a.drop_first()) + plain(b)) =~= (seq![a[0]] + plain(
                a.drop_first(),
            )) + plain(b));
        }
    }
}

proof fn lemma_plain_one(x: DepModel)
    ensures
        plain(seq![x]) == if is_import(x) {
            Seq::<DepModel>::empty()
        } else {
            seq![x]
        },
{
    let e = Seq::<DepModel>::empty();
    assert(seq![x].drop_first() =~= e);
    assert(plain(e) == e);
    assert(seq![x] + e =~= seq![x]);
}

proof fn lemma_plain_all(s: Seq<DepModel>)
    requires
        forall|t: int| 0 <= t < s.len() ==> !is_import(#[trigger] s[t]),
    ensures
        plain(s) == s,
    decreases s.len(),
{
    if s.len() > 0 {
        assert forall|t: int| 0 <= t < s.drop_first().len() implies !is_import(
            #[trigger] s.drop_first()[t],
        ) by {
            assert(s.drop_first()[t] == s[t + 1]);
        }
        lemma_plain_all(s.drop_first());
        assert(seq![s[0]] + s.drop_first() =~= s);
    }
}

/// Expansion of BOM imports in a dependency-management list. Entries are
/// examined in order; plain entries are kept, and an import entry is
/// replaced in its place by the imported POM's dependency management, which
/// is examined next. At most `MAX_IMPORTS` imports are fetched; any import
/// met after that is dropped.
pub struct ImportQueue {
    kept: Vec<DependencyEntry>,
    pending: Vec<DependencyEntry>,
    next: usize,
    fetched: usize,
    waiting: bool,
}

impl ImportQueue {
    pub closed spec fn wf(&self) -> bool {
        self.next <= self.pending.len() && self.fetched <= MAX_IMPORTS && (self.waiting
            ==> self.fetched < MAX_IMPORTS)
    }

    /// The entries kept so far.
    pub closed spec fn kept(&self) -> Seq<DepModel> {
        deps_view(self.kept@)
    }

    /// The entries still to examine.
    pub closed spec fn remaining(&self) -> Seq<DepModel> {
        deps_view(self.pending@).subrange(self.next as int, self.pending@.len() as int)
    }

    /// Whether an import was handed out and its POM is awaited.
    pub closed spec fn waiting(&self) -> bool {
        self.waiting
    }

    /// How many imports have been supplied.
    pub closed spec fn fetched(&self) -> nat {
        self.fetched as nat
    }

    pub fn new(entries: Vec<DependencyEntry>) -> (r: ImportQueue)
        ensures
            r.wf(),
            r.kept() == Seq::<DepModel>::empty(),
            r.remaining() == deps_view(entries@),
            !r.waiting(),
            r.fetched() == 0,
    {
        let r = ImportQueue { kept: Vec::new(), pending: entries, next: 0, fetched: 0, waiting: false };
        assert(r.kept() =~= Seq::<DepModel>::empty());
        assert(r.remaining() =~= deps_view(entries@));
        r
    }

    /// Keeps the plain entries before the first import and hands that
    /// import out, while fewer than `MAX_IMPORTS` have been fetched; returns
    /// nothing once no import is left to fetch, having kept every remaining
    /// plain entry in order.
    pub fn next_import(&mut self) -> (r: Option<Artifact>)
        requires
            old(self).wf(),
            !old(self).waiting(),
        ensures
            final(self).wf(),
            final(self).fetched() == old(self).fetched(),
            ({
                let rem = old(self).remaining();
                let j = first_import(rem, 0);
                if old(self).fetched() < MAX_IMPORTS && j < rem.len() {
                    (r matches Some(a) && a@ == rem[j].artifact) && final(self).waiting()
                        && final(self).kept() == old(self).kept() + rem.take(j) && final(self).remaining() == rem.skip(j + 1)
                } else {
                    r is None && !final(self).waiting() && final(self).kept() == old(self).kept()
                        + plain(rem) && final(self).remaining().len() == 0
                }
            }),
    {
        let ghost start = self.remaining();
        let ghost k0 = self.kept();
        let ghost s0 = self.next as int;
        assert(start.take(0) =~= Seq::<DepModel>::empty());
        assert(k0 + plain(start.take(0)) =~= k0);
        while self.next < self.pending.len()
            invariant
                self.wf(),
                !self.waiting,
                self.fetched == old(self).fetched,
                start == old(self).remaining(),
                k0 == old(self).kept(),
                s0 == old(self).next,
                s0 <= self.next <= self.pending.len(),
                deps_view(self.pending@) == deps_view(old(self).pending@),
                self.pending@.len() == old(self).pending@.len(),
                self.kept() == k0 + plain(start.take(self.next - s0)),
                self.fetched < MAX_IMPORTS ==> forall|t: int|
                    0 <= t < self.next - s0 ==> !is_import(#[trigger] start[t]),
            decreases self.pending.len() - self.next,
        {
            let i = self.next;
            let ghost k = i - s0;
            assert(start[k] == self.pending@[i as int]@);
            assert(start.take(k + 1) =~= start.take(k) + seq![start[k]]);
            proof {
                lemma_plain_append(start.take(k), seq![start[k]]);
                lemma_plain_one(start[k]);
            }
            self.next = i + 1;
            if self.pending[i].is_import() {
                if self.fetched < MAX_IMPORTS {
                    self.waiting = true;
                    proof {
                        lemma_first_import(start, 0, k);
                        lemma_plain_all(start.take(k));
                        assert(self.remaining() =~= start.skip(k + 1));
                    }
                    return Some(self.pending[i].artifact.clone());
                }
                assert(plain(start.take(k + 1)) =~= plain(start.take(k)));
            } else {
                let ghost before = self.kept();
                let e = self.pending[i].duplicate();
                self.kept.push(e);
                assert(self.kept() =~= before.push(start[k]));
                assert(self.kept() =~= k0 + plain(start.take(k + 1)));
            }
        }
        proof {
            assert(start.take(self.next - s0) =~= start);
            if self.fetched < MAX_IMPORTS {
                lemma_first_import(start, 0, start.len() as int);
            }
        }
        None
    }

    /// Supplies the dependency management of the import last handed out
    /// (empty when its POM could not be had); it takes the import's place,
    /// ahead of the entries still to examine.
    pub fn supply(&mut self, imported: Vec<DependencyEntry>)
        requires
            old(self).wf(),
            old(self).waiting(),
        ensures
            final(self).wf(),
            !final(self).waiting(),
            final(self).fetched() == old(self).fetched() + 1,
            final(self).kept() == old(self).kept(),
            final(self).remaining() == deps_view(imported@) + old(self).remaining(),
    {
        let ghost rem = self.remaining();
        let mut front = imported;
        let ghost f0 = deps_view(front@);
        let mut i = self.next;
        while i < self.pending.len()
            invariant
                self.next <= i <= self.pending.len(),
                rem == deps_view(self.pending@).subrange(self.next as int, self.pending@.len() as int),
                deps_view(front@) == f0 + rem.take(i - self.next),
            decreases self.pending.len() - i,
        {
            let ghost before = deps_view(front@);
            let e = self.pending[i].duplicate();
            front.push(e);
            assert(rem.take(i + 1 - self.next) =~= rem.take(i - self.next).push(rem[i - self.next]));
            assert(deps_view(front@) =~= before.push(e@));
            i = i + 1;
        }
        assert(rem.take(i - self.next) =~= rem);
        self.pending = front;
        self.next = 0;
        self.fetched = self.fetched + 1;
        self.waiting = false;
        assert(self.remaining() =~= f0 + rem);
    }

    /// The expanded list, once every entry is examined.
    pub fn finish(self) -> (r: Vec<DependencyEntry>)
        requires
            self.remaining().len() == 0,
        ensures
            deps_view(r@) == self.kept(),
    {
        self.kept
    }
}

/// The POM of a chain of levels, child first: each level inherits from the
/// merge of the levels above it.
pub open spec fn chain(ls: Seq<PomModel>) -> PomModel
    decreases ls.len(),
{
    if ls.len() == 0 {
        empty_pom()
    } else if ls.len() == 1 {
        ls[0]
    } else {
        merged_with_parent(ls[0], chain(ls.drop_first()))
    }
}

/// A level once its imports are expanded: its own POM with the kept
/// managed entries followed by the plain entries still queued.
pub open spec fn finished_level(cur: PomModel, kept: Seq<DepModel>, rem: Seq<DepModel>) -> PomModel {
    PomModel { dep_management: kept + plain(rem), ..cur }
}

/// What the effective-POM builder needs next.
#[derive(Debug)]
pub enum PomNeed {
    /// The POM of this BOM import (its dependency management is supplied).
    Import(Artifact),
    /// The POM of this parent.
    Parent(Artifact),
    /// Every level is in; `finish` gives the effective POM.
    Done,
}

/// Builds an effective POM: the BOM imports of each level are expanded,
/// then its parent is asked for, up to `MAX_PARENT_DEPTH` parents; the
/// levels are merged child first.
pub struct EffectivePom {
    levels: Vec<Pom>,
    current: Option<Pom>,
    queue: Option<ImportQueue>,
    phase: u8,
}

pub open spec fn poms_view(v: Seq<Pom>) -> Seq<PomModel> {
    v.map_values(|p: Pom| p@)
}

impl EffectivePom {
    pub closed spec fn wf(&self) -> bool {
        &&& self.phase <= 3
        &&& (self.phase <= 1 ==> self.current is Some && self.queue is Some && self.queue->0.wf()
            && (self.queue->0.waiting() <==> self.phase == 1))
        &&& (self.phase >= 2 ==> self.levels@.len() > 0)
        &&& (self.phase == 2 ==> self.levels@.len() <= MAX_PARENT_DEPTH && self.levels@.last().parent
            is Some)
    }

    /// The finished levels, child first.
    pub closed spec fn levels(&self) -> Seq<PomModel> {
        poms_view(self.levels@)
    }

    pub closed spec fn awaiting_import(&self) -> bool {
        self.phase == 1
    }

    /// The level being expanded (its dependency management moved to the queue).
    pub closed spec fn current(&self) -> PomModel {
        self.current->0@
    }

    /// The current level's managed entries kept so far.
    pub closed spec fn import_kept(&self) -> Seq<DepModel> {
        self.queue->0.kept()
    }

    /// The current level's managed entries still to examine.
    pub closed spec fn import_remaining(&self) -> Seq<DepModel> {
        self.queue->0.remaining()
    }

    /// How many imports the current level has fetched.
    pub closed spec fn imports_fetched(&self) -> nat {
        self.queue->0.fetched()
    }

    pub closed spec fn awaiting_parent(&self) -> bool {
        self.phase == 2
    }

    pub closed spec fn is_done(&self) -> bool {
        self.phase == 3
    }

    fn start_level(pom: Pom) -> (r: (Pom, ImportQueue))
        ensures
            r.1.wf(),
            !r.1.waiting(),
            r.1.remaining() == pom@.dep_management,
            r.1.kept() == Seq::<DepModel>::empty(),
            r.1.fetched() == 0,
            r.0@ == (PomModel { dep_management: Seq::empty(), ..pom@ }),
    {
        let mut pom = pom;
        let mut dm: Vec<DependencyEntry> = Vec::new();
        let ghost p0 = pom@;
        core::mem::swap(&mut pom.dep_management, &mut dm);
        assert(deps_view(pom.dep_management@) =~= Seq::<DepModel>::empty());
        let q = ImportQueue::new(dm);
        (pom, q)
    }

    /// Starts from the artifact's own POM.
    pub fn new(pom: Pom) -> (r: EffectivePom)
        ensures
            r.wf(),
            r.levels().len() == 0,
            !r.awaiting_import() && !r.awaiting_parent() && !r.is_done(),
            r.current() == (PomModel { dep_management: Seq::empty(), ..pom@ }),
            r.import_kept() == Seq::<DepModel>::empty(),
            r.import_remaining() == pom@.dep_management,
            r.imports_fetched() == 0,
    {
        let (cur, q) = EffectivePom::start_level(pom);
        let r = EffectivePom { levels: Vec::new(), current: Some(cur), queue: Some(q), phase: 0 };
        assert(r.levels() =~= Seq::<PomModel>::empty());
        r
    }

    /// The next POM needed, or `Done`. A level is complete once its imports
    /// are expanded; its parent is then asked for unless the depth limit is
    /// reached.
    pub fn next(&mut self) -> (r: PomNeed)
        requires
            old(self).wf(),
            !old(self).awaiting_import(),
            !old(self).awaiting_parent(),
        ensures
            final(self).wf(),
            old(self).is_done() ==> r is Done && final(self).is_done() && final(self).levels()
                == old(self).levels(),
            !old(self).is_done() ==> ({
                let rem = old(self).import_remaining();
                let j = first_import(rem, 0);
                if old(self).imports_fetched() < MAX_IMPORTS && j < rem.len() {
                    (r matches PomNeed::Import(a) && a@ == rem[j].artifact) && final(self).awaiting_import()
                        && final(self).levels() == old(self).levels() && final(self).current()
                        == old(self).current() && final(self).import_kept() == old(self).import_kept()
                        + rem.take(j) && final(self).import_remaining() == rem.skip(j + 1)
                        && final(self).imports_fetched() == old(self).imports_fetched()
                } else {
                    let level = finished_level(old(self).current(), old(self).import_kept(), rem);
                    final(self).levels() == old(self).levels().push(level) && if level.parent is Some
                        && old(self).levels().len() + 1 <= MAX_PARENT_DEPTH {
                        (r matches PomNeed::Parent(p) && level.parent == Some(p@)) && final(self).awaiting_parent()
                    } else {
                        r is Done && final(self).is_done()
                    }
                }
            }),
    {
        if self.phase == 3 {
            return PomNeed::Done;
        }
        let mut q = match self.queue.take() {
            Some(q) => q,
            None => {
                return PomNeed::Done;
            },
        };
        match q.next_import() {
            Some(a) => {
                self.queue = Some(q);
                self.phase = 1;
                return PomNeed::Import(a);
            },
            None => {},
        }
        let mut cur = match self.current.take() {
            Some(c) => c,
            None => {
                return PomNeed::Done;
            },
        };
        let ghost c0 = cur@;
        cur.dep_management = q.finish();
        assert(cur@ == finished_level(c0, old(self).import_kept(), old(self).import_remaining()));
        let parent = match &cur.parent {
            Some(p) => Some(p.clone()),
            None => None,
        };
        let ghost l0 = self.levels();
        let ghost c = cur@;
        self.levels.push(cur);
        assert(self.levels() =~= l0.push(c));
        if self.levels.len() <= MAX_PARENT_DEPTH {
            match parent {
                Some(p) => {
                    self.phase = 2;
                    return PomNeed::Parent(p);
                },
                None => {},
            }
        }
        self.phase = 3;
        PomNeed::Done
    }

    /// Supplies the dependency management of the import last asked for
    /// (empty when its POM could not be had).
    pub fn supply_import(&mut self, managed: Vec<DependencyEntry>)
        requires
            old(self).wf(),
            old(self).awaiting_import(),
        ensures
            final(self).wf(),
            final(self).levels() == old(self).levels(),
            !final(self).awaiting_import() && !final(self).awaiting_parent() && !final(self).is_done(),
            final(self).current() == old(self).current(),
            final(self).import_kept() == old(self).import_kept(),
            final(self).import_remaining() == deps_view(managed@) + old(self).import_remaining(),
            final(self).imports_fetched() == old(self).imports_fetched() + 1,
    {
        let mut q = match self.queue.take() {
            Some(q) => q,
            None => {
                return ;
            },
        };
        q.supply(managed);
        self.queue = Some(q);
        self.phase = 0;
    }

    /// Supplies the parent last asked for; without it the chain ends.
    pub fn supply_parent(&mut self, parent: Option<Pom>)
        requires
            old(self).wf(),
            old(self).awaiting_parent(),
        ensures
            final(self).wf(),
            final(self).levels() == old(self).levels(),
            !final(self).awaiting_import() && !final(self).awaiting_parent(),
            parent is None <==> final(self).is_done(),
            parent matches Some(p) ==> final(self).current() == (PomModel {
                dep_management: Seq::empty(),
                ..p@
            }) && final(self).import_kept() == Seq::<DepModel>::empty() && final(self).import_remaining()
                == p@.dep_management && final(self).imports_fetched() == 0,
    {
        match parent {
            Some(p) => {
                let (cur, q) = EffectivePom::start_level(p);
                self.current = Some(cur);
                self.queue = Some(q);
                self.phase = 0;
            },
            None => {
                self.phase = 3;
            },
        }
    }

    /// The effective POM: the levels merged, each child over its parents.
    pub fn finish(self) -> (r: Pom)
        requires
            self.wf(),
            self.is_done(),
        ensures
            r@ == chain(self.levels()),
    {
        let ghost all = self.levels();
        let mut levels = self.levels;
        let mut acc = match levels.pop() {
            Some(p) => p,
            None => {
                return Pom {
                    properties: Vec::new(),
                    dependencies: Vec::new(),
                    dep_management: Vec::new(),
                    repositories: Vec::new(),
                    parent: None,
                };
            },
        };
        assert(all.subrange(all.len() - 1, all.len() as int) =~= seq![acc@]);
        while levels.len() > 0
            invariant
                levels@.len() < all.len(),
                poms_view(levels@) == all.take(levels@.len() as int),
                acc@ == chain(all.subrange(levels@.len() as int, all.len() as int)),
            decreases levels.len(),
        {
            let ghost k = levels@.len() as int;
            let ghost lv = levels@;
            assert(poms_view(lv)[k - 1] == lv[k - 1]@);
            assert(all.take(k)[k - 1] == all[k - 1]);
            let child = match levels.pop() {
                Some(c) => c,
                None => {
                    return acc;
                },
            };
            assert(child@ == all[k - 1]);
            assert(all.subrange(k - 1, all.len() as int).drop_first() =~= all.subrange(
                k,
                all.len() as int,
            ));
            assert(poms_view(levels@) =~= all.take(k - 1));
            acc = merge_parent(child, acc);
        }
        assert(all.subrange(0, all.len() as int) =~= all);
        acc
    }
}

} // verus!
