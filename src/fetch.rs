//! Decisions of the cache-backed fetcher: when the cache answers, when a
//! cached file is discarded, which repository is asked next, and when a
//! download is accepted. The caller performs the disk and network work.
use vstd::prelude::*;

use crate::artifact::{group_dir, Artifact, Coords};
use crate::text::{chars_of, push_all, replace_chars, string_of};

verus! {

/// A cached metadata file shorter than this is taken as corrupt.
pub const MIN_METADATA_BYTES: u64 = 256;

/// A downloaded artifact shorter than this is taken as missing.
pub const MIN_ARTIFACT_BYTES: u64 = 1024;

/// What the cache holds at the target path.
#[derive(PartialEq, Eq, Structural, Clone, Copy, Debug)]
pub enum CacheState {
    Missing,
    /// A file of `len` bytes; `blank` when its text is only whitespace.
    Present { len: u64, blank: bool },
}

/// What the caller does next.
#[derive(Debug)]
pub enum FetchStep {
    /// Return the cached file; no network access.
    UseCached,
    /// Delete the corrupt cached file, then ask for the next step.
    DiscardCached,
    /// GET this URL and report the response.
    Request(String),
    /// Store the response body at the target path and return it.
    Accept,
    /// Every repository failed.
    NotFound,
}

/// Whether a cached file can be returned as it is: any file for an
/// artifact; for metadata, one of at least `MIN_METADATA_BYTES` bytes that is
/// not blank.
pub open spec fn cache_usable(c: CacheState, metadata: bool) -> bool {
    match c {
        CacheState::Missing => false,
        CacheState::Present { len, blank } => !metadata || (len >= MIN_METADATA_BYTES && !blank),
    }
}

/// Whether a response is taken: a success status, and for metadata a body
/// that is not blank.
pub open spec fn response_usable(success: bool, blank: bool, metadata: bool) -> bool {
    success && (!metadata || !blank)
}

/// One fetch of one relative path through the repository list.
pub struct FetchWalk {
    urls: Vec<String>,
    next: usize,
    metadata: bool,
}

impl FetchWalk {
    pub closed spec fn wf(&self) -> bool {
        self.next <= self.urls.len()
    }

    /// The URLs to try, in order.
    pub closed spec fn urls(&self) -> Seq<Seq<char>> {
        self.urls@.map_values(|u: String| u@)
    }

    /// How many URLs have been handed out.
    pub closed spec fn tried(&self) -> nat {
        self.next as nat
    }

    pub closed spec fn is_metadata(&self) -> bool {
        self.metadata
    }

    /// A walk over `repos` for `rel_path`; each URL is the repository
    /// followed by the path.
    pub fn new(repos: &Vec<String>, rel_path: &str, metadata: bool) -> (r: FetchWalk)
        ensures
            r.wf(),
            r.tried() == 0,
            r.is_metadata() == metadata,
            r.urls().len() == repos@.len(),
            forall|i: int| 0 <= i < repos@.len() ==> #[trigger] r.urls()[i] == repos@[i]@ + rel_path@,
    {
        let rel = chars_of(rel_path);
        let mut urls: Vec<String> = Vec::new();
        let mut i: usize = 0;
        while i < repos.len()
            invariant
                i <= repos.len(),
                rel@ == rel_path@,
                urls@.len() == i,
                forall|k: int| 0 <= k < i ==> #[trigger] urls@[k]@ == repos@[k]@ + rel_path@,
            decreases repos.len() - i,
        {
            let mut u = chars_of(&repos[i]);
            push_all(&mut u, &rel);
            urls.push(string_of(&u));
            i = i + 1;
        }
        FetchWalk { urls, next: 0, metadata }
    }

    /// Asks the next repository, or reports that all failed.
    pub fn next_request(&mut self) -> (r: FetchStep)
        requires
            old(self).wf(),
        ensures
            final(self).wf(),
            final(self).urls() == old(self).urls(),
            final(self).is_metadata() == old(self).is_metadata(),
            old(self).tried() < old(self).urls().len() ==> (final(self).tried() == old(self).tried()
                + 1 && (r matches FetchStep::Request(u) && u@ == old(self).urls()[old(self).tried() as int])),
            old(self).tried() >= old(self).urls().len() ==> final(self).tried() == old(self).tried() && r is NotFound,
    {
        if self.next < self.urls.len() {
            let u = self.urls[self.next].clone();
            self.next = self.next + 1;
            FetchStep::Request(u)
        } else {
            FetchStep::NotFound
        }
    }

    /// The first step, from what the cache holds: a usable file is returned
    /// without network access; a corrupt one is discarded; otherwise the
    /// first repository is asked.
    pub fn on_cache(&mut self, c: CacheState) -> (r: FetchStep)
        requires
            old(self).wf(),
            old(self).tried() == 0,
        ensures
            final(self).wf(),
            final(self).urls() == old(self).urls(),
            final(self).is_metadata() == old(self).is_metadata(),
            cache_usable(c, old(self).is_metadata()) ==> r is UseCached && final(self).tried() == 0,
            !cache_usable(c, old(self).is_metadata()) && c != CacheState::Missing ==> r is DiscardCached
                && final(self).tried() == 0,
            c == CacheState::Missing ==> (if old(self).urls().len() > 0 {
                final(self).tried() == 1 && (r matches FetchStep::Request(u) && u@ == old(self).urls()[0])
            } else {
                r is NotFound
            }),
    {
        match c {
            CacheState::Missing => self.next_request(),
            CacheState::Present { len, blank } => {
                if !self.metadata || (len >= MIN_METADATA_BYTES && !blank) {
                    FetchStep::UseCached
                } else {
                    FetchStep::DiscardCached
                }
            },
        }
    }

    /// The step after a response from the repository last asked: accept it,
    /// or move on to the next repository; `NotFound` only once every
    /// repository has been asked.
    pub fn on_response(&mut self, success: bool, blank: bool) -> (r: FetchStep)
        requires
            old(self).wf(),
        ensures
            final(self).wf(),
            final(self).urls() == old(self).urls(),
            final(self).is_metadata() == old(self).is_metadata(),
            response_usable(success, blank, old(self).is_metadata()) ==> r is Accept && final(self).tried() == old(self).tried(),
            !response_usable(success, blank, old(self).is_metadata()) ==> (if old(self).tried() < old(self).urls().len() {
                final(self).tried() == old(self).tried() + 1 && (r matches FetchStep::Request(u) && u@
                    == old(self).urls()[old(self).tried() as int])
            } else {
                r is NotFound
            }),
    {
        if success && (!self.metadata || !blank) {
            FetchStep::Accept
        } else {
            self.next_request()
        }
    }
}

/// `g/n/v/n-f.ext`: the file of version `f` stored under version `v`, as a
/// snapshot's timestamped file is.
pub open spec fn file_path(c: Coords, file_version: Seq<char>, ext: Seq<char>) -> Seq<char> {
    group_dir(c) + seq!['/'] + c.name + seq!['/'] + c.version + seq!['/'] + c.name + seq!['-']
        + file_version + seq!['.'] + ext
}

/// Relative path of a snapshot's file, given its timestamped version.
pub fn snapshot_path(art: &Artifact, snapshot_version: &str, ext: &str) -> (r: String)
    ensures
        r@ == file_path(art@, snapshot_version@, ext@),
{
    let n = chars_of(&art.name);
    let mut out = replace_chars(&chars_of(&art.group), '.', '/');
    out.push('/');
    push_all(&mut out, &n);
    out.push('/');
    push_all(&mut out, &chars_of(&art.version));
    out.push('/');
    push_all(&mut out, &n);
    out.push('-');
    push_all(&mut out, &chars_of(snapshot_version));
    out.push('.');
    push_all(&mut out, &chars_of(ext));
    assert(out@ =~= file_path(art@, snapshot_version@, ext@));
    string_of(&out)
}

/// Whether a downloaded file of this size (if any) counts as present.
pub open spec fn big_enough(len: Option<u64>) -> bool {
    match len {
        Some(l) => l >= MIN_ARTIFACT_BYTES,
        None => false,
    }
}

/// After downloads, whether every artifact has its `.aar` or its `.jar`
/// of at least `MIN_ARTIFACT_BYTES` bytes; sizes are given as
/// `(aar, jar)`, `None` for a missing file.
pub fn all_present(sizes: &Vec<(Option<u64>, Option<u64>)>) -> (r: bool)
    ensures
        r == forall|i: int|
            0 <= i < sizes@.len() ==> big_enough(#[trigger] sizes@[i].0) || big_enough(sizes@[i].1),
{
    let mut i: usize = 0;
    while i < sizes.len()
        invariant
            i <= sizes.len(),
            forall|k: int| 0 <= k < i ==> big_enough(#[trigger] sizes@[k].0) || big_enough(sizes@[k].1),
        decreases sizes.len() - i,
    {
        let (aar, jar) = sizes[i];
        let aar_ok = match aar {
            Some(l) => l >= MIN_ARTIFACT_BYTES,
            None => false,
        };
        let jar_ok = match jar {
            Some(l) => l >= MIN_ARTIFACT_BYTES,
            None => false,
        };
        if !aar_ok && !jar_ok {
            return false;
        }
        i = i + 1;
    }
    true
}

} // verus!
