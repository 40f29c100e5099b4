//! Mod manifests: `manifest.toml` at the root of each mod directory.

use std::path::PathBuf;

use vstd::prelude::*;

use crate::registry::string_views;

verus! {

/// A filesystem path, carried through unchanged.
#[verifier::external_type_specification]
#[verifier::external_body]
pub struct ExPathBuf(PathBuf);

/// A parsed `manifest.toml`.
#[derive(Debug, Clone)]
pub struct Manifest {
    /// Unique mod id (namespace prefix for this mod's content ids, by convention).
    pub id: String,
    /// Human-readable name.
    pub name: String,
    /// Version string (unvalidated; semver enforcement is future work).
    pub version: String,
    /// Ids of mods that must load before this one.
    pub dependencies: Vec<String>,
    /// Content ids this mod intentionally replaces. A cross-mod id collision is
    /// an error unless the overriding mod lists the id here, making every
    /// override a deliberate, auditable act.
    pub overrides: Vec<String>,
}

impl Manifest {
    /// Whether this mod declares that it overrides content id `id`.
    pub fn overrides(&self, id: &str) -> (r: bool)
        ensures
            r == string_views(self.overrides@).contains(id@),
    {
        let key = id.to_owned();
        let n = self.overrides.len();
        let mut i: usize = 0;
        while i < n
            invariant
                n == self.overrides@.len(),
                key@ == id@,
                i <= n,
                forall|j: int| 0 <= j < i ==> (#[trigger] self.overrides@[j])@ != key@,
            decreases n - i,
        {
            if self.overrides[i] == key {
                assert(self.overrides@[i as int]@ == key@);
                assert(string_views(self.overrides@)[i as int] == self.overrides@[i as int]@);
                assert(string_views(self.overrides@)[i as int] == id@);
                return true;
            }
            i = i + 1;
        }
        proof {
            if string_views(self.overrides@).contains(id@) {
                let j = choose|j: int| 0 <= j < n && string_views(self.overrides@)[j] == id@;
                assert(self.overrides@[j]@ == key@);
            }
        }
        false
    }
}

/// A discovered mod directory: its manifest plus where it lives on disk.
#[derive(Debug)]
pub struct ModDir {
    pub manifest: Manifest,
    pub dir: PathBuf,
}

} // verus!
