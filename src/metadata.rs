//! Reading `maven-metadata.xml`: snapshot file versions and dynamic versions.
use vstd::prelude::*;

use crate::artifact::{latest_chars, latest_word, release_chars, release_word};
use crate::error::ErrorKind;
use crate::text::{chars_of, eq_chars, slice, string_of};
use crate::version::{best_in_range, max_in_range};
use crate::xml::{names3, names4, names5, path_is, path_view, read_events, xml_events, XmlEvent};

verus! {

pub open spec fn snapshot_path() -> Seq<Seq<char>> {
    seq!["metadata"@, "versioning"@, "snapshotVersions"@, "snapshotVersion"@]
}

/// The snapshot reader's state between two events.
pub struct SnapshotModel {
    pub path: Seq<Seq<char>>,
    pub ext: Seq<char>,
    pub value: Seq<char>,
    pub found: Seq<char>,
}

pub open spec fn snapshot_step(m: SnapshotModel, e: XmlEvent, want: Seq<char>) -> SnapshotModel {
    match e {
        XmlEvent::Start(n) => SnapshotModel { path: m.path.push(n@), ..m },
        XmlEvent::Text(t) => if m.path == snapshot_path().push("extension"@) {
            SnapshotModel { ext: t@, ..m }
        } else if m.path == snapshot_path().push("value"@) {
            SnapshotModel { value: t@, ..m }
        } else {
            m
        },
        XmlEvent::End => {
            let m2 = if m.path == snapshot_path() {
                SnapshotModel {
                    ext: Seq::empty(),
                    value: Seq::empty(),
                    found: if m.ext == want {
                        m.value
                    } else {
                        m.found
                    },
                    ..m
                }
            } else {
                m
            };
            SnapshotModel {
                path: if m.path.len() > 0 {
                    m.path.drop_last()
                } else {
                    m.path
                },
                ..m2
            }
        },
    }
}

pub open spec fn snapshot_prefix(es: Seq<XmlEvent>, want: Seq<char>, k: int) -> SnapshotModel
    decreases k,
{
    if k <= 0 {
        SnapshotModel {
            path: Seq::empty(),
            ext: Seq::empty(),
            value: Seq::empty(),
            found: Seq::empty(),
        }
    } else {
        snapshot_step(snapshot_prefix(es, want, k - 1), es[k - 1], want)
    }
}

/// The `value` of the last `snapshotVersion` whose `extension` is `ext`,
/// or nothing when none has one.
pub open spec fn snapshot_value(es: Seq<XmlEvent>, ext: Seq<char>) -> Option<Seq<char>> {
    let f = snapshot_prefix(es, ext, es.len() as int).found;
    if f.len() == 0 {
        None
    } else {
        Some(f)
    }
}

/// The timestamped version of a snapshot for files with extension `ext`,
/// read from per-version metadata events.
pub fn snapshot_from_events(events: &Vec<XmlEvent>, ext: &str) -> (r: Result<String, ErrorKind>)
    ensures
        match r {
            Ok(v) => snapshot_value(events@, ext@) == Some(v@),
            Err(e) => snapshot_value(events@, ext@) is None && e == ErrorKind::VersionResolution,
        },
{
    let want = chars_of(ext);
    let sv = names4("metadata", "versioning", "snapshotVersions", "snapshotVersion");
    let sv_ext = names5("metadata", "versioning", "snapshotVersions", "snapshotVersion", "extension");
    let sv_val = names5("metadata", "versioning", "snapshotVersions", "snapshotVersion", "value");
    let mut path: Vec<Vec<char>> = Vec::new();
    let mut cur_ext: Vec<char> = Vec::new();
    let mut cur_val: Vec<char> = Vec::new();
    let mut found: Vec<char> = Vec::new();
    let mut i: usize = 0;
    assert(path_view(path@) =~= Seq::<Seq<char>>::empty());
    assert(path_view(sv@).push("extension"@) =~= path_view(sv_ext@));
    assert(path_view(sv@).push("value"@) =~= path_view(sv_val@));
    while i < events.len()
        invariant
            i <= events.len(),
            want@ == ext@,
            path_view(sv@) == snapshot_path(),
            path_view(sv_ext@) == snapshot_path().push("extension"@),
            path_view(sv_val@) == snapshot_path().push("value"@),
            snapshot_prefix(events@, ext@, i as int) == (SnapshotModel {
                path: path_view(path@),
                ext: cur_ext@,
                value: cur_val@,
                found: found@,
            }),
        decreases events.len() - i,
    {
        match &events[i] {
            XmlEvent::Start(n) => {
                let ghost at_start = path_view(path@);
                path.push(chars_of(n));
                assert(path_view(path@) =~= at_start.push(n@));
            },
            XmlEvent::Text(t) => {
                if path_is(&path, &sv_ext) {
                    cur_ext = chars_of(t);
                } else if path_is(&path, &sv_val) {
                    cur_val = chars_of(t);
                }
            },
            XmlEvent::End => {
                if path_is(&path, &sv) {
                    if eq_chars(&cur_ext, &want) {
                        found = slice(&cur_val, 0, cur_val.len());
                        assert(cur_val@.subrange(0, cur_val@.len() as int) =~= cur_val@);
                    }
                    cur_ext = Vec::new();
                    cur_val = Vec::new();
                }
                if path.len() > 0 {
                    let ghost at_start = path_view(path@);
                    path.pop();
                    assert(path_view(path@) =~= at_start.drop_last());
                }
            },
        }
        i = i + 1;
    }
    if found.len() == 0 {
        Err(ErrorKind::VersionResolution)
    } else {
        Ok(string_of(&found))
    }
}

/// The timestamped version of a snapshot for files with extension `ext`,
/// read from per-version `maven-metadata.xml` text.
pub fn resolve_snapshot(xml: &str, ext: &str) -> (r: Result<String, ErrorKind>)
    ensures
        match r {
            Ok(v) => snapshot_value(xml_events(xml@), ext@) == Some(v@),
            Err(e) => snapshot_value(xml_events(xml@), ext@) is None && e
                == ErrorKind::VersionResolution,
        },
{
    snapshot_from_events(&read_events(xml), ext)
}

/// What group-level metadata lists: `latest`, `release` and the versions in order.
pub struct VersionListing {
    pub latest: Seq<char>,
    pub release: Seq<char>,
    pub versions: Seq<Seq<char>>,
}

pub struct ListingModel {
    pub path: Seq<Seq<char>>,
    pub listing: VersionListing,
}

pub open spec fn listing_step(m: ListingModel, e: XmlEvent) -> ListingModel {
    match e {
        XmlEvent::Start(n) => ListingModel { path: m.path.push(n@), ..m },
        XmlEvent::Text(t) => if m.path == seq!["metadata"@, "versioning"@, "latest"@] {
            ListingModel { listing: VersionListing { latest: t@, ..m.listing }, ..m }
        } else if m.path == seq!["metadata"@, "versioning"@, "release"@] {
            ListingModel { listing: VersionListing { release: t@, ..m.listing }, ..m }
        } else if m.path == seq!["metadata"@, "versioning"@, "versions"@, "version"@] {
            ListingModel {
                listing: VersionListing { versions: m.listing.versions.push(t@), ..m.listing },
                ..m
            }
        } else {
            m
        },
        XmlEvent::End => ListingModel {
            path: if m.path.len() > 0 {
                m.path.drop_last()
            } else {
                m.path
            },
            ..m
        },
    }
}

pub open spec fn listing_prefix(es: Seq<XmlEvent>, k: int) -> ListingModel
    decreases k,
{
    if k <= 0 {
        ListingModel {
            path: Seq::empty(),
            listing: VersionListing {
                latest: Seq::empty(),
                release: Seq::empty(),
                versions: Seq::empty(),
            },
        }
    } else {
        listing_step(listing_prefix(es, k - 1), es[k - 1])
    }
}

pub open spec fn listing_of(es: Seq<XmlEvent>) -> VersionListing {
    listing_prefix(es, es.len() as int).listing
}

/// The concrete version a dynamic version selects from a listing:
/// `LATEST` and `RELEASE` name the listed one (nothing when it is absent),
/// anything else is a range and selects its highest matching version.
pub open spec fn select_dynamic(requested: Seq<char>, l: VersionListing) -> Option<Seq<char>> {
    if requested == latest_word() {
        if l.latest.len() > 0 {
            Some(l.latest)
        } else {
            None
        }
    } else if requested == release_word() {
        if l.release.len() > 0 {
            Some(l.release)
        } else {
            None
        }
    } else {
        best_in_range(l.versions, requested)
    }
}

/// Picks the version that `requested` selects among metadata events.
pub fn dynamic_from_events(requested: &str, events: &Vec<XmlEvent>) -> (r: Result<String, ErrorKind>)
    ensures
        match r {
            Ok(v) => select_dynamic(requested@, listing_of(events@)) == Some(v@),
            Err(e) => select_dynamic(requested@, listing_of(events@)) is None && e
                == ErrorKind::VersionResolution,
        },
{
    let p_latest = names3("metadata", "versioning", "latest");
    let p_release = names3("metadata", "versioning", "release");
    let p_version = names4("metadata", "versioning", "versions", "version");
    let mut path: Vec<Vec<char>> = Vec::new();
    let mut latest: Vec<char> = Vec::new();
    let mut release: Vec<char> = Vec::new();
    let mut versions: Vec<Vec<char>> = Vec::new();
    let mut i: usize = 0;
    assert(path_view(path@) =~= Seq::<Seq<char>>::empty());
    assert(path_view(versions@) =~= Seq::<Seq<char>>::empty());
    while i < events.len()
        invariant
            i <= events.len(),
            path_view(p_latest@) == seq!["metadata"@, "versioning"@, "latest"@],
            path_view(p_release@) == seq!["metadata"@, "versioning"@, "release"@],
            path_view(p_version@) == seq!["metadata"@, "versioning"@, "versions"@, "version"@],
            listing_prefix(events@, i as int) == (ListingModel {
                path: path_view(path@),
                listing: VersionListing {
                    latest: latest@,
                    release: release@,
                    versions: path_view(versions@),
                },
            }),
        decreases events.len() - i,
    {
        match &events[i] {
            XmlEvent::Start(n) => {
                let ghost at_start = path_view(path@);
                path.push(chars_of(n));
                assert(path_view(path@) =~= at_start.push(n@));
            },
            XmlEvent::Text(t) => {
                if path_is(&path, &p_latest) {
                    latest = chars_of(t);
                } else if path_is(&path, &p_release) {
                    release = chars_of(t);
                } else if path_is(&path, &p_version) {
                    let ghost v0 = path_view(versions@);
                    versions.push(chars_of(t));
                    assert(path_view(versions@) =~= v0.push(t@));
                }
            },
            XmlEvent::End => {
                if path.len() > 0 {
                    let ghost at_start = path_view(path@);
                    path.pop();
                    assert(path_view(path@) =~= at_start.drop_last());
                }
            },
        }
        i = i + 1;
    }
    let req = chars_of(requested);
    if eq_chars(&req, &latest_chars()) {
        if latest.len() > 0 {
            Ok(string_of(&latest))
        } else {
            Err(ErrorKind::VersionResolution)
        }
    } else if eq_chars(&req, &release_chars()) {
        if release.len() > 0 {
            Ok(string_of(&release))
        } else {
            Err(ErrorKind::VersionResolution)
        }
    } else {
        assert(versions@.map_values(|v: Vec<char>| v@) == path_view(versions@));
        match max_in_range(&versions, &req) {
            Some(v) => Ok(string_of(&v)),
            None => Err(ErrorKind::VersionResolution),
        }
    }
}

/// Resolves a dynamic version (`LATEST`, `RELEASE` or a range) against the
/// text of group-level `maven-metadata.xml`.
pub fn resolve_dynamic_version(requested: &str, xml: &str) -> (r: Result<String, ErrorKind>)
    ensures
        match r {
            Ok(v) => select_dynamic(requested@, listing_of(xml_events(xml@))) == Some(v@),
            Err(e) => select_dynamic(requested@, listing_of(xml_events(xml@))) is None && e
                == ErrorKind::VersionResolution,
        },
{
    dynamic_from_events(requested, &read_events(xml))
}

} // verus!
