//! The element events of an XML document, as the POM and metadata readers see them.
use quick_xml::events::Event;
use vstd::prelude::*;

use crate::text::{chars_of, eq_chars};

verus! {

/// One event of the stream: an element opens (by local name), an element
/// closes, or a run of text occurs (trimmed and unescaped; empty when it
/// cannot be unescaped).
/// Empty-element tags, comments and declarations produce no event.
pub enum XmlEvent {
    Start(String),
    End,
    Text(String),
}

/// What `quick_xml` reads from a document, as element events with text
/// trimming on, up to the end of input or the first syntax error.
pub uninterp spec fn xml_events(s: Seq<char>) -> Seq<XmlEvent>;

/// Relies on `quick_xml::Reader` (`from_str`, `trim_text(true)`,
/// `read_event`), `BytesStart::local_name` and `BytesText::unescape`: each
/// start, end and text event in document order.
#[verifier::external_body]
pub(crate) fn read_events(xml: &str) -> (r: Vec<XmlEvent>)
    ensures
        r@ == xml_events(xml@),
{
    let mut reader = quick_xml::Reader::from_str(xml);
    reader.trim_text(true);
    let mut out = Vec::new();
    loop {
        match reader.read_event() {
            Ok(Event::Start(e)) => out.push(XmlEvent::Start(
                String::from_utf8_lossy(e.local_name().as_ref()).into_owned(),
            )),
            Ok(Event::End(_)) => out.push(XmlEvent::End),
            Ok(Event::Text(e)) => out.push(XmlEvent::Text(e.unescape().unwrap_or_default().into_owned())),
            Ok(Event::Eof) | Err(_) => return out,
            Ok(_) => {},
        }
    }
}

pub open spec fn path_view(p: Seq<Vec<char>>) -> Seq<Seq<char>> {
    p.map_values(|e: Vec<char>| e@)
}

/// Whether `path` is exactly the given element names.
pub(crate) fn path_is(path: &Vec<Vec<char>>, want: &Vec<Vec<char>>) -> (r: bool)
    ensures
        r == (path_view(path@) == path_view(want@)),
{
    if path.len() != want.len() {
        assert(path_view(path@).len() != path_view(want@).len());
        return false;
    }
    let mut i: usize = 0;
    while i < path.len()
        invariant
            path.len() == want.len(),
            i <= path.len(),
            forall|k: int| 0 <= k < i ==> path@[k]@ == want@[k]@,
        decreases path.len() - i,
    {
        if !eq_chars(&path[i], &want[i]) {
            assert(path_view(path@)[i as int] != path_view(want@)[i as int]);
            return false;
        }
        i = i + 1;
    }
    assert(path_view(path@) =~= path_view(want@));
    true
}

/// Whether `path` without its last element is exactly the given names.
pub(crate) fn parent_is(path: &Vec<Vec<char>>, want: &Vec<Vec<char>>) -> (r: bool)
    requires
        path.len() > 0,
    ensures
        r == (path_view(path@).drop_last() == path_view(want@)),
{
    if path.len() - 1 != want.len() {
        assert(path_view(path@).drop_last().len() != path_view(want@).len());
        return false;
    }
    let mut i: usize = 0;
    while i < want.len()
        invariant
            path.len() == want.len() + 1,
            i <= want.len(),
            forall|k: int| 0 <= k < i ==> path@[k]@ == want@[k]@,
        decreases want.len() - i,
    {
        if !eq_chars(&path[i], &want[i]) {
            assert(path_view(path@).drop_last()[i as int] != path_view(want@)[i as int]);
            return false;
        }
        i = i + 1;
    }
    assert(path_view(path@).drop_last() =~= path_view(want@));
    true
}

pub(crate) fn word(s: &str) -> (r: Vec<char>)
    ensures
        r@ == s@,
{
    chars_of(s)
}

pub(crate) fn names2(a: &str, b: &str) -> (r: Vec<Vec<char>>)
    ensures
        path_view(r@) == seq![a@, b@],
{
    let r = vec![word(a), word(b)];
    assert(path_view(r@) =~= seq![a@, b@]);
    r
}

pub(crate) fn names3(a: &str, b: &str, c: &str) -> (r: Vec<Vec<char>>)
    ensures
        path_view(r@) == seq![a@, b@, c@],
{
    let r = vec![word(a), word(b), word(c)];
    assert(path_view(r@) =~= seq![a@, b@, c@]);
    r
}

pub(crate) fn names4(a: &str, b: &str, c: &str, d: &str) -> (r: Vec<Vec<char>>)
    ensures
        path_view(r@) == seq![a@, b@, c@, d@],
{
    let r = vec![word(a), word(b), word(c), word(d)];
    assert(path_view(r@) =~= seq![a@, b@, c@, d@]);
    r
}

pub(crate) fn names5(a: &str, b: &str, c: &str, d: &str, e: &str) -> (r: Vec<Vec<char>>)
    ensures
        path_view(r@) == seq![a@, b@, c@, d@, e@],
{
    let r = vec![word(a), word(b), word(c), word(d), word(e)];
    assert(path_view(r@) =~= seq![a@, b@, c@, d@, e@]);
    r
}

} // verus!
