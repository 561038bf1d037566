//! The global artifact cache: where each artifact file lives.
use vstd::prelude::*;

use crate::artifact::{artifact_path, Artifact};
use crate::resolver::{join, join_path};

verus! {

/// The cache, rooted at `<home>/.spawn/repository`.
pub struct LocalCache {
    pub root: String,
}

impl LocalCache {
    /// The cache under `home`.
    pub fn new(home: &str) -> (r: LocalCache)
        ensures
            r.root@ == join_path(join_path(home@, ".spawn"@), "repository"@),
    {
        LocalCache { root: join(&join(home, ".spawn"), "repository") }
    }

    /// Where the file with extension `ext` of `artifact` is cached.
    pub fn get_artifact_path(&self, artifact: &Artifact, ext: &str) -> (r: String)
        ensures
            r@ == join_path(self.root@, artifact_path(artifact@, ext@)),
    {
        join(&self.root, &artifact.get_path(ext))
    }
}

} // verus!
