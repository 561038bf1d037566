//! The kinds of failure the core reports.
use vstd::prelude::*;

verus! {

/// What went wrong, by kind.
#[derive(PartialEq, Eq, Structural, Clone, Copy, Debug)]
pub enum ErrorKind {
    ConfigIO,
    ConfigSyntax,
    ConfigShape,
    ManifestMissing,
    ManifestParse,
    Network,
    ArtifactNotFound,
    MetadataMissing,
    MetadataParse,
    VersionResolution,
    UnsafeArchivePath,
    Unpack,
    CacheIO,
    EmitIO,
}

} // verus!
