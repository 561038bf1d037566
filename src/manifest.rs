//! The manifest rewrite: which tags change and how their attributes are
//! overlaid from the `[package]` table. Elements are taken one tag at a time
//! in document order; everything not named here passes through unchanged.
use quick_xml::events::Event;
use vstd::prelude::*;

use crate::config::PackageInfo;
use crate::error::ErrorKind;
use crate::text::{chars_of, eq_chars, push_all, slice, string_of};

verus! {

pub type Attrs = Seq<(Seq<char>, Seq<char>)>;

pub open spec fn attrs_view(a: Seq<(String, String)>) -> Attrs {
    a.map_values(|e: (String, String)| (e.0@, e.1@))
}

/// `a` without the attributes named `k`, order kept.
pub open spec fn without(a: Attrs, k: Seq<char>) -> Attrs
    decreases a.len(),
{
    if a.len() == 0 {
        a
    } else if a.last().0 == k {
        without(a.drop_last(), k)
    } else {
        without(a.drop_last(), k).push(a.last())
    }
}

/// Overlay: any attribute named `k` is removed, the others keep their
/// order, and `k = v` is appended; nothing changes when there is no value.
pub open spec fn overlay(a: Attrs, k: Seq<char>, v: Option<Seq<char>>) -> Attrs {
    match v {
        Some(x) => without(a, k).push((k, x)),
        None => a,
    }
}

fn overlay_attr(a: &mut Vec<(String, String)>, k: &str, v: &Option<String>)
    ensures
        attrs_view(final(a)@) == overlay(attrs_view(old(a)@), k@, opt_view(*v)),
{
    match v {
        None => {},
        Some(x) => {
            let kc = chars_of(k);
            let mut kept: Vec<(String, String)> = Vec::new();
            let mut i: usize = 0;
            while i < a.len()
                invariant
                    i <= a.len(),
                    kc@ == k@,
                    attrs_view(kept@) == without(attrs_view(a@).take(i as int), k@),
                decreases a.len() - i,
            {
                let ghost before = attrs_view(kept@);
                assert(attrs_view(a@).take(i + 1).drop_last() =~= attrs_view(a@).take(i as int));
                if !eq_chars(&chars_of(&a[i].0), &kc) {
                    let e = (a[i].0.clone(), a[i].1.clone());
                    kept.push(e);
                    assert(attrs_view(kept@) =~= before.push(attrs_view(a@)[i as int]));
                }
                i = i + 1;
            }
            assert(attrs_view(a@).take(i as int) =~= attrs_view(a@));
            let ghost before = attrs_view(kept@);
            kept.push((k.to_owned(), x.clone()));
            assert(attrs_view(kept@) =~= before.push((k@, x@)));
            *a = kept;
        },
    }
}

pub open spec fn opt_view(o: Option<String>) -> Option<Seq<char>> {
    match o {
        Some(s) => Some(s@),
        None => None,
    }
}

pub open spec fn digit_char(d: nat) -> char {
    ((d + 48) as u8) as char
}

/// Decimal digits of `n`.
pub open spec fn decimal(n: nat) -> Seq<char>
    decreases n,
{
    if n < 10 {
        seq![digit_char(n)]
    } else {
        decimal(n / 10).push(digit_char(n % 10))
    }
}

pub fn decimal_string(n: u32) -> (r: String)
    ensures
        r@ == decimal(n as nat),
{
    string_of(&decimal_chars(n))
}

fn decimal_chars(n: u32) -> (r: Vec<char>)
    ensures
        r@ == decimal(n as nat),
    decreases n,
{
    if n < 10 {
        let r = vec![((n as u8) + 48) as char];
        assert(r@ =~= decimal(n as nat));
        r
    } else {
        let mut r = decimal_chars(n / 10);
        r.push((((n % 10) as u8) + 48) as char);
        r
    }
}

pub open spec fn opt_decimal(o: Option<u32>) -> Option<Seq<char>> {
    match o {
        Some(n) => Some(decimal(n as nat)),
        None => None,
    }
}

fn opt_decimal_string(o: Option<u32>) -> (r: Option<String>)
    ensures
        opt_view(r) == opt_decimal(o),
{
    match o {
        Some(n) => Some(decimal_string(n)),
        None => None,
    }
}

/// The package fields, each as text when set.
pub struct PackageModel {
    pub package: Option<Seq<char>>,
    pub version: Option<Seq<char>>,
    pub version_code: Option<Seq<char>>,
    pub label: Option<Seq<char>>,
    pub icon: Option<Seq<char>>,
    pub min_sdk: Option<Seq<char>>,
    pub target_sdk: Option<Seq<char>>,
}

pub open spec fn no_package() -> PackageModel {
    PackageModel {
        package: None,
        version: None,
        version_code: None,
        label: None,
        icon: None,
        min_sdk: None,
        target_sdk: None,
    }
}

pub open spec fn package_model(p: Option<PackageInfo>) -> PackageModel {
    match p {
        Some(i) => PackageModel {
            package: opt_view(i.package),
            version: opt_view(i.version),
            version_code: opt_decimal(i.version_code),
            label: opt_view(i.label),
            icon: opt_view(i.icon),
            min_sdk: opt_decimal(i.min_sdk),
            target_sdk: opt_decimal(i.target_sdk),
        },
        None => no_package(),
    }
}

/// What happens to one start or empty tag.
#[derive(Debug)]
pub enum TagAction {
    /// Written as read.
    Keep,
    /// Written with these attributes instead.
    Replace(Vec<(String, String)>),
    /// An empty `uses-sdk` tag with the first attributes is written first,
    /// then the tag with the second.
    SdkThenReplace(Vec<(String, String)>, Vec<(String, String)>),
}

pub enum ActionModel {
    Keep,
    Replace(Attrs),
    SdkThenReplace(Attrs, Attrs),
}

pub open spec fn action_view(a: TagAction) -> ActionModel {
    match a {
        TagAction::Keep => ActionModel::Keep,
        TagAction::Replace(x) => ActionModel::Replace(attrs_view(x@)),
        TagAction::SdkThenReplace(s, x) => ActionModel::SdkThenReplace(attrs_view(s@), attrs_view(x@)),
    }
}

pub open spec fn manifest_attrs(a: Attrs, p: PackageModel) -> Attrs {
    overlay(
        overlay(overlay(a, "package"@, p.package), "android:versionName"@, p.version),
        "android:versionCode"@,
        p.version_code,
    )
}

pub open spec fn sdk_attrs(a: Attrs, p: PackageModel) -> Attrs {
    overlay(overlay(a, "android:minSdkVersion"@, p.min_sdk), "android:targetSdkVersion"@, p.target_sdk)
}

pub open spec fn application_attrs(a: Attrs, p: PackageModel) -> Attrs {
    overlay(overlay(a, "android:label"@, p.label), "android:icon"@, p.icon)
}

/// The rewrite of one tag, given whether a `uses-sdk` tag was already met:
/// the action and whether one has been met afterwards.
pub open spec fn tag_step(
    sdk_seen: bool,
    name: Seq<char>,
    empty: bool,
    a: Attrs,
    p: PackageModel,
) -> (ActionModel, bool) {
    if name == "manifest"@ && !empty {
        if p.package is None && p.version is None && p.version_code is None {
            (ActionModel::Keep, sdk_seen)
        } else {
            (ActionModel::Replace(manifest_attrs(a, p)), sdk_seen)
        }
    } else if name == "uses-sdk"@ {
        if p.min_sdk is None && p.target_sdk is None {
            (ActionModel::Keep, true)
        } else {
            (ActionModel::Replace(sdk_attrs(a, p)), true)
        }
    } else if name == "application"@ && !empty {
        let insert_sdk = !sdk_seen && !(p.min_sdk is None && p.target_sdk is None);
        if insert_sdk {
            (ActionModel::SdkThenReplace(sdk_attrs(Seq::empty(), p), application_attrs(a, p)), true)
        } else if p.label is None && p.icon is None {
            (ActionModel::Keep, true)
        } else {
            (ActionModel::Replace(application_attrs(a, p)), true)
        }
    } else {
        (ActionModel::Keep, sdk_seen)
    }
}

/// The rewrite state across one document.
pub struct ManifestRewriter {
    pub sdk_seen: bool,
}

impl ManifestRewriter {
    pub fn new() -> (r: ManifestRewriter)
        ensures
            !r.sdk_seen,
    {
        ManifestRewriter { sdk_seen: false }
    }

    /// Decides what to write for a start (`empty` false) or empty tag.
    pub fn on_tag(
        &mut self,
        name: &str,
        empty: bool,
        attrs: &Vec<(String, String)>,
        package: &Option<PackageInfo>,
    ) -> (r: TagAction)
        ensures
            (action_view(r), final(self).sdk_seen) == tag_step(
                old(self).sdk_seen,
                name@,
                empty,
                attrs_view(attrs@),
                package_model(*package),
            ),
    {
        let n = chars_of(name);
        let (pk, ver, code, label, icon, min, target) = match package {
            Some(i) => (
                clone_opt(&i.package),
                clone_opt(&i.version),
                opt_decimal_string(i.version_code),
                clone_opt(&i.label),
                clone_opt(&i.icon),
                opt_decimal_string(i.min_sdk),
                opt_decimal_string(i.target_sdk),
            ),
            None => (None, None, None, None, None, None, None),
        };
        let ghost p = package_model(*package);
        assert(opt_view(pk) == p.package && opt_view(ver) == p.version && opt_view(code)
            == p.version_code && opt_view(label) == p.label && opt_view(icon) == p.icon
            && opt_view(min) == p.min_sdk && opt_view(target) == p.target_sdk);
        let mut a = copy_attrs(attrs);
        if eq_chars(&n, &chars_of("manifest")) && !empty {
            if pk.is_none() && ver.is_none() && code.is_none() {
                return TagAction::Keep;
            }
            overlay_attr(&mut a, "package", &pk);
            overlay_attr(&mut a, "android:versionName", &ver);
            overlay_attr(&mut a, "android:versionCode", &code);
            TagAction::Replace(a)
        } else if eq_chars(&n, &chars_of("uses-sdk")) {
            self.sdk_seen = true;
            if min.is_none() && target.is_none() {
                return TagAction::Keep;
            }
            overlay_attr(&mut a, "android:minSdkVersion", &min);
            overlay_attr(&mut a, "android:targetSdkVersion", &target);
            TagAction::Replace(a)
        } else if eq_chars(&n, &chars_of("application")) && !empty {
            let insert_sdk = !self.sdk_seen && !(min.is_none() && target.is_none());
            self.sdk_seen = true;
            if insert_sdk {
                let mut s: Vec<(String, String)> = Vec::new();
                assert(attrs_view(s@) =~= Seq::<(Seq<char>, Seq<char>)>::empty());
                overlay_attr(&mut s, "android:minSdkVersion", &min);
                overlay_attr(&mut s, "android:targetSdkVersion", &target);
                overlay_attr(&mut a, "android:label", &label);
                overlay_attr(&mut a, "android:icon", &icon);
                return TagAction::SdkThenReplace(s, a);
            }
            if label.is_none() && icon.is_none() {
                return TagAction::Keep;
            }
            overlay_attr(&mut a, "android:label", &label);
            overlay_attr(&mut a, "android:icon", &icon);
            TagAction::Replace(a)
        } else {
            TagAction::Keep
        }
    }
}

fn clone_opt(o: &Option<String>) -> (r: Option<String>)
    ensures
        opt_view(r) == opt_view(*o),
{
    match o {
        Some(s) => Some(s.clone()),
        None => None,
    }
}

fn copy_attrs(a: &Vec<(String, String)>) -> (r: Vec<(String, String)>)
    ensures
        attrs_view(r@) == attrs_view(a@),
{
    let mut r: Vec<(String, String)> = Vec::new();
    let mut i: usize = 0;
    while i < a.len()
        invariant
            i <= a.len(),
            attrs_view(r@) == attrs_view(a@).take(i as int),
        decreases a.len() - i,
    {
        let ghost before = attrs_view(r@);
        let e = (a[i].0.clone(), a[i].1.clone());
        r.push(e);
        assert(attrs_view(r@) =~= before.push(attrs_view(a@)[i as int]));
        assert(attrs_view(a@).take(i + 1) =~= attrs_view(a@).take(i as int).push(
            attrs_view(a@)[i as int],
        ));
        i = i + 1;
    }
    assert(attrs_view(a@).take(i as int) =~= attrs_view(a@));
    r
}


/// What a span of the document is: a start tag, an empty-element tag, or
/// anything else (text, end tags, comments, declarations).
#[derive(PartialEq, Eq, Structural, Clone, Copy, Debug)]
pub enum TokenKind {
    Other,
    Start,
    Empty,
}

pub open spec fn tokens_view(t: Seq<(TokenKind, String)>) -> Seq<(TokenKind, Seq<char>)> {
    t.map_values(|e: (TokenKind, String)| (e.0, e.1@))
}

pub open spec fn opt_tokens_view(o: Option<Vec<(TokenKind, String)>>) -> Option<
    Seq<(TokenKind, Seq<char>)>,
> {
    match o {
        Some(v) => Some(tokens_view(v@)),
        None => None,
    }
}

/// The document cut by `quick_xml` into consecutive events, each with its
/// source text, and what follows the last event; nothing when the document
/// is not well-formed.
pub uninterp spec fn manifest_tokens(s: Seq<char>) -> Option<Seq<(TokenKind, Seq<char>)>>;

/// Relies on `quick_xml::Reader::read_event` and `buffer_position`: each
/// event in order with the source text between the previous position and
/// its own, then the rest of the input as a last span; nothing on a syntax
/// error.
#[verifier::external_body]
fn read_tokens(xml: &str) -> (r: Option<Vec<(TokenKind, String)>>)
    ensures
        opt_tokens_view(r) == manifest_tokens(xml@),
{
    let mut reader = quick_xml::Reader::from_str(xml);
    let span = |a: usize, b: usize| String::from_utf8_lossy(&xml.as_bytes()[a..b]).into_owned();
    let (mut out, mut start) = (Vec::new(), 0);
    loop {
        let kind = match reader.read_event() {
            Ok(Event::Eof) => return Some({ out.push((TokenKind::Other, span(start, xml.len()))); out }),
            Err(_) => return None,
            Ok(Event::Start(_)) => TokenKind::Start,
            Ok(Event::Empty(_)) => TokenKind::Empty,
            Ok(_) => TokenKind::Other,
        };
        out.push((kind, span(start, reader.buffer_position())));
        start = reader.buffer_position();
    }
}

/// The attributes `quick_xml` reads from the attribute part of a tag, as
/// written (values not unescaped), skipping malformed ones.
pub uninterp spec fn attrs_in(s: Seq<char>) -> Attrs;

/// Relies on `BytesStart::attributes` over `BytesStart::from_content(s, 0)`:
/// each well-formed attribute's key and raw value, in order.
#[verifier::external_body]
fn read_attrs(s: &str) -> (r: Vec<(String, String)>)
    ensures
        attrs_view(r@) == attrs_in(s@),
{
    quick_xml::events::BytesStart::from_content(s, 0)
        .attributes()
        .flatten()
        .map(|a| {
            (
                String::from_utf8_lossy(a.key.as_ref()).into_owned(),
                String::from_utf8_lossy(&a.value).into_owned(),
            )
        })
        .collect()
}

pub open spec fn xml_space(c: char) -> bool {
    c == ' ' || c == '\t' || c == '\n' || c == '\r'
}

/// Where the tag name ends in a tag's inner text: the first whitespace at
/// or after `i`, or the end.
pub open spec fn name_end(s: Seq<char>, i: int) -> int
    decreases s.len() - i,
{
    if i < 0 || i >= s.len() {
        s.len() as int
    } else if xml_space(s[i]) {
        i
    } else {
        name_end(s, i + 1)
    }
}

/// ` k="v"` for each of the first `n` attributes.
pub open spec fn attrs_text(a: Attrs, n: int) -> Seq<char>
    decreases n,
{
    if n <= 0 {
        Seq::empty()
    } else {
        attrs_text(a, n - 1) + seq![' '] + a[n - 1].0 + seq!['=', '"'] + a[n - 1].1 + seq!['"']
    }
}

/// A tag written out: `<name k="v" ...>`, or `.../>` when empty.
pub open spec fn render(name: Seq<char>, a: Attrs, empty: bool) -> Seq<char> {
    seq!['<'] + name + attrs_text(a, a.len() as int) + if empty {
        seq!['/', '>']
    } else {
        seq!['>']
    }
}

/// The text between `<` and `>` (or `/>`) of a tag.
pub open spec fn tag_inner(raw: Seq<char>, empty: bool) -> Seq<char> {
    raw.subrange(1, raw.len() - if empty {
        2int
    } else {
        1int
    })
}

pub open spec fn tag_shaped(raw: Seq<char>, empty: bool) -> bool {
    raw.len() >= (if empty {
        3int
    } else {
        2int
    }) && raw[0] == '<'
}

/// The output for one token and whether a `uses-sdk` tag has been met after it.
pub open spec fn token_out(
    sdk_seen: bool,
    kind: TokenKind,
    raw: Seq<char>,
    p: PackageModel,
) -> (Seq<char>, bool) {
    let empty = kind == TokenKind::Empty;
    if kind == TokenKind::Other || !tag_shaped(raw, empty) {
        (raw, sdk_seen)
    } else {
        let inner = tag_inner(raw, empty);
        let e = name_end(inner, 0);
        let name = inner.subrange(0, e);
        let a = attrs_in(inner.subrange(e, inner.len() as int));
        let (act, seen) = tag_step(sdk_seen, name, empty, a, p);
        (
            match act {
                ActionModel::Keep => raw,
                ActionModel::Replace(x) => render(name, x, empty),
                ActionModel::SdkThenReplace(sdk, x) => render("uses-sdk"@, sdk, true) + render(
                    name,
                    x,
                    empty,
                ),
            },
            seen,
        )
    }
}

/// The output of the first `k` tokens and the `uses-sdk` flag after them.
pub open spec fn manifest_output(
    ts: Seq<(TokenKind, Seq<char>)>,
    p: PackageModel,
    k: int,
) -> (Seq<char>, bool)
    decreases k,
{
    if k <= 0 {
        (Seq::empty(), false)
    } else {
        let (prev, seen) = manifest_output(ts, p, k - 1);
        let (o, s2) = token_out(seen, ts[k - 1].0, ts[k - 1].1, p);
        (prev + o, s2)
    }
}

/// The source text of the first `k` tokens.
pub open spec fn source_text(ts: Seq<(TokenKind, Seq<char>)>, k: int) -> Seq<char>
    decreases k,
{
    if k <= 0 {
        Seq::empty()
    } else {
        source_text(ts, k - 1) + ts[k - 1].1
    }
}

fn render_tag(out: &mut Vec<char>, name: &Vec<char>, a: &Vec<(String, String)>, empty: bool)
    ensures
        final(out)@ == old(out)@ + render(name@, attrs_view(a@), empty),
{
    let ghost o0 = out@;
    out.push('<');
    push_all(out, name);
    let ghost o1 = out@;
    let mut i: usize = 0;
    while i < a.len()
        invariant
            i <= a.len(),
            out@ == o1 + attrs_text(attrs_view(a@), i as int),
        decreases a.len() - i,
    {
        out.push(' ');
        push_all(out, &chars_of(&a[i].0));
        out.push('=');
        out.push('"');
        push_all(out, &chars_of(&a[i].1));
        out.push('"');
        assert(out@ =~= o1 + attrs_text(attrs_view(a@), i + 1));
        i = i + 1;
    }
    if empty {
        out.push('/');
    }
    out.push('>');
    assert(out@ =~= o0 + render(name@, attrs_view(a@), empty));
}

fn find_name_end(s: &Vec<char>) -> (r: usize)
    ensures
        r as int == name_end(s@, 0),
        r <= s.len(),
{
    let mut i: usize = 0;
    while i < s.len() && !(s[i] == ' ' || s[i] == '\t' || s[i] == '\n' || s[i] == '\r')
        invariant
            i <= s.len(),
            name_end(s@, 0) == name_end(s@, i as int),
        decreases s.len() - i,
    {
        i = i + 1;
    }
    i
}

fn emit_token(
    out: &mut Vec<char>,
    rw: &mut ManifestRewriter,
    kind: TokenKind,
    raw: &String,
    package: &Option<PackageInfo>,
)
    ensures
        (final(out)@, final(rw).sdk_seen) == (
            old(out)@ + token_out(old(rw).sdk_seen, kind, raw@, package_model(*package)).0,
            token_out(old(rw).sdk_seen, kind, raw@, package_model(*package)).1,
        ),
{
    let r = chars_of(raw);
    let empty = kind == TokenKind::Empty;
    let min: usize = if empty {
        3
    } else {
        2
    };
    if kind == TokenKind::Other || r.len() < min || r[0] != '<' {
        push_all(out, &r);
        return ;
    }
    let inner = slice(&r, 1, r.len() - min + 1);
    assert(inner@ =~= tag_inner(r@, empty));
    let e = find_name_end(&inner);
    let name = slice(&inner, 0, e);
    let attrs = read_attrs(&string_of(&slice(&inner, e, inner.len())));
    let action = rw.on_tag(&string_of(&name), empty, &attrs, package);
    match action {
        TagAction::Keep => push_all(out, &r),
        TagAction::Replace(x) => render_tag(out, &name, &x, empty),
        TagAction::SdkThenReplace(sdk, x) => {
            let ghost o0 = out@;
            let tag = chars_of("uses-sdk");
            render_tag(out, &tag, &sdk, true);
            render_tag(out, &name, &x, empty);
            assert(out@ =~= o0 + (render("uses-sdk"@, attrs_view(sdk@), true) + render(
                name@,
                attrs_view(x@),
                empty,
            )));
        },
    }
}

/// Rewrites a manifest document: tags are overlaid from the `[package]`
/// table as `ManifestRewriter` decides, and every other part is copied as
/// written. A document `quick_xml` cannot read is `ManifestParse`.
pub fn transform_manifest(xml: &str, package: &Option<PackageInfo>) -> (r: Result<
    String,
    ErrorKind,
>)
    ensures
        match manifest_tokens(xml@) {
            Some(ts) => r matches Ok(out) && out@ == manifest_output(
                ts,
                package_model(*package),
                ts.len() as int,
            ).0,
            None => r == Err::<String, ErrorKind>(ErrorKind::ManifestParse),
        },
{
    let tokens = match read_tokens(xml) {
        Some(t) => t,
        None => {
            return Err(ErrorKind::ManifestParse);
        },
    };
    let ghost ts = tokens_view(tokens@);
    let mut rw = ManifestRewriter::new();
    let mut out: Vec<char> = Vec::new();
    let mut i: usize = 0;
    assert(out@ =~= Seq::<char>::empty());
    while i < tokens.len()
        invariant
            i <= tokens.len(),
            ts == tokens_view(tokens@),
            (out@, rw.sdk_seen) == manifest_output(ts, package_model(*package), i as int),
        decreases tokens.len() - i,
    {
        emit_token(&mut out, &mut rw, tokens[i].0, &tokens[i].1, package);
        i = i + 1;
    }
    Ok(string_of(&out))
}

/// Reading then writing a manifest with no package fields configured gives
/// back every part of the document as written: elements keep their
/// attributes and their order.
pub proof fn lemma_round_trip_without_overlays(ts: Seq<(TokenKind, Seq<char>)>, k: int)
    requires
        0 <= k <= ts.len(),
    ensures
        manifest_output(ts, no_package(), k).0 == source_text(ts, k),
    decreases k,
{
    if k > 0 {
        lemma_round_trip_without_overlays(ts, k - 1);
    }
}

} // verus!
