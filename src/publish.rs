//! Publishing: a manifest is checked, its files are checked to exist, and
//! the package is added to the user's own repository.
use vstd::prelude::*;

use crate::config::is_absolute;
use crate::error::PackageError;
use crate::repository::{copy_strings, holds_version, index_after_add, repo_users, Package, RepositoryManager};
use crate::text::{join_with, last_index_of, last_position, lemma_last_index_bounds};
use crate::version::{parses_as_version, semver_valid};

verus! {

/// A package manifest, as a publisher writes it.
#[derive(Debug, Clone)]
pub struct PackageManifest {
    pub name: String,
    pub version: String,
    pub description: Option<String>,
    pub authors: Vec<String>,
    pub license: Option<String>,
    pub repository: Option<String>,
    pub dependencies: Vec<String>,
    pub files: Vec<String>,
}

/// Publishes the package that a manifest describes.
#[derive(Debug)]
pub struct PackagePublisher {
    pub manifest: PackageManifest,
    pub package_dir: String,
}

/// Whether a character may stand in a package name.
pub open spec fn name_char_ok(c: char) -> bool {
    ('a' <= c && c <= 'z') || ('A' <= c && c <= 'Z') || ('0' <= c && c <= '9') || c == '-' || c == '_'
}

/// Whether a package name is acceptable: non-empty, of ASCII letters,
/// digits, `-` and `_`.
pub open spec fn name_ok(n: Seq<char>) -> bool {
    n.len() > 0 && forall|i: int| 0 <= i < n.len() ==> name_char_ok(#[trigger] n[i])
}

/// Whether a manifest is acceptable: a good name, a semantic version, and
/// files given relative to the package directory.
pub open spec fn manifest_ok(m: PackageManifest) -> bool {
    &&& name_ok(m.name@)
    &&& semver_valid(m.version@)
    &&& forall|i: int| 0 <= i < m.files@.len() ==> !is_absolute(#[trigger] m.files@[i]@)
}

/// The directory that holds a file: what precedes its last `/` (the root
/// for a file at the root), or nothing for a bare file name.
pub open spec fn parent_spec(p: Seq<char>) -> Seq<char> {
    let k = last_index_of(p, '/');
    if k > 0 {
        p.subrange(0, k)
    } else if k == 0 {
        seq!['/']
    } else {
        Seq::empty()
    }
}

/// The repository package that a manifest describes.
pub open spec fn package_of(m: PackageManifest, p: Package) -> bool {
    &&& p.name == m.name
    &&& p.version == m.version
    &&& p.description == m.description
    &&& p.dependencies@ == m.dependencies@
    &&& p.files@ == m.files@
}

fn name_is_ok(n: &str) -> (r: bool)
    ensures
        r == name_ok(n@),
{
    let len = n.unicode_len();
    if len == 0 {
        return false;
    }
    let mut i: usize = 0;
    while i < len
        invariant
            len == n@.len(),
            i <= len,
            forall|j: int| 0 <= j < i ==> name_char_ok(#[trigger] n@[j]),
        decreases len - i,
    {
        let c = n.get_char(i);
        if !(('a' <= c && c <= 'z') || ('A' <= c && c <= 'Z') || ('0' <= c && c <= '9') || c == '-' || c == '_') {
            return false;
        }
        i = i + 1;
    }
    true
}

/// The directory that holds a file.
pub fn parent_dir(p: &str) -> (r: String)
    ensures
        r@ == parent_spec(p@),
{
    proof {
        lemma_last_index_bounds(p@, '/');
    }
    match last_position(p, '/') {
        Some(k) => {
            if k > 0 {
                String::from_str(p.substring_char(0, k))
            } else {
                proof {
                    reveal_strlit("/");
                }
                String::from_str("/")
            }
        },
        None => String::new(),
    }
}

impl PackagePublisher {
    /// Checks a manifest.
    pub fn validate_manifest(manifest: &PackageManifest) -> (r: Result<(), PackageError>)
        ensures
            r is Ok <==> manifest_ok(*manifest),
            r is Err ==> r matches Err(PackageError::ValidationError(_)),
    {
        if !name_is_ok(manifest.name.as_str()) {
            return Err(
                PackageError::ValidationError(
                    String::from_str(
                        "Invalid package name. Must be non-empty and contain only ASCII alphanumeric characters, '-', or '_'",
                    ),
                ),
            );
        }
        if !parses_as_version(manifest.version.as_str()) {
            return Err(
                PackageError::ValidationError(
                    String::from_str("Invalid version format. Must be a valid semantic version"),
                ),
            );
        }
        let mut i: usize = 0;
        while i < manifest.files.len()
            invariant
                i <= manifest.files@.len(),
                forall|j: int| 0 <= j < i ==> !is_absolute(#[trigger] manifest.files@[j]@),
            decreases manifest.files@.len() - i,
        {
            let f = manifest.files[i].as_str();
            if f.unicode_len() > 0 && f.get_char(0) == '/' {
                return Err(
                    PackageError::ValidationError(
                        String::from_str("File paths must be relative to package directory"),
                    ),
                );
            }
            i = i + 1;
        }
        Ok(())
    }

    /// A publisher for a checked manifest read from `manifest_path`; the
    /// package's files lie in that file's directory.
    pub fn new(manifest: PackageManifest, manifest_path: &str) -> (r: Result<Self, PackageError>)
        ensures
            r is Ok <==> manifest_ok(manifest),
            match r {
                Ok(p) => p.manifest == manifest && p.package_dir@ == parent_spec(manifest_path@),
                Err(e) => e matches PackageError::ValidationError(_),
            },
    {
        match Self::validate_manifest(&manifest) {
            Ok(()) => {},
            Err(e) => {
                return Err(e);
            },
        }
        Ok(PackagePublisher { manifest, package_dir: parent_dir(manifest_path) })
    }

    /// Publishes the package into the user's own repository, given whether
    /// each of the manifest's files exists in the package directory; the
    /// first missing file stops it.
    pub fn publish(&self, repo_manager: &mut RepositoryManager, files_exist: &Vec<bool>) -> (r: Result<(), PackageError>)
        requires
            files_exist@.len() == self.manifest.files@.len(),
        ensures
            (exists|i: int| 0 <= i < files_exist@.len() && !files_exist@[i]) ==> (r matches Err(
                PackageError::ValidationError(_),
            )) && final(repo_manager).repositories@ == old(repo_manager).repositories@,
            (forall|i: int| 0 <= i < files_exist@.len() ==> files_exist@[i]) && repo_users(
                old(repo_manager).repositories@,
            ).contains(old(repo_manager).username@) ==> exists|i: int|
                0 <= i < old(repo_manager).repositories@.len() && old(repo_manager).repositories@[i].0@
                    == old(repo_manager).username@ && (forall|j: int|
                    0 <= j < i ==> old(repo_manager).repositories@[j].0@ != old(repo_manager).username@)
                    && (old(repo_manager).repositories@[i].1.is_own_repo && holds_version(
                    old(repo_manager).repositories@[i].1.index@,
                    self.manifest.name@,
                    self.manifest.version@,
                ) ==> (r matches Err(PackageError::ValidationError(_)))
                    && final(repo_manager).repositories@[i].1.index@ == old(repo_manager).repositories@[i].1.index@)
                    && (old(repo_manager).repositories@[i].1.is_own_repo && !holds_version(
                    old(repo_manager).repositories@[i].1.index@,
                    self.manifest.name@,
                    self.manifest.version@,
                ) ==> r is Ok && exists|p: Package|
                    package_of(self.manifest, p) && index_after_add(
                        old(repo_manager).repositories@[i].1.index@,
                        p,
                        final(repo_manager).repositories@[i].1.index@,
                    ))
                    && (!old(repo_manager).repositories@[i].1.is_own_repo ==> r matches Err(
                    PackageError::ValidationError(_),
                )),
            (forall|i: int| 0 <= i < files_exist@.len() ==> files_exist@[i]) && !repo_users(
                old(repo_manager).repositories@,
            ).contains(old(repo_manager).username@) ==> r matches Err(PackageError::ValidationError(_)),
    {
        let mut i: usize = 0;
        while i < files_exist.len()
            invariant
                i <= files_exist@.len(),
                files_exist@.len() == self.manifest.files@.len(),
                forall|j: int| 0 <= j < i ==> files_exist@[j],
            decreases files_exist@.len() - i,
        {
            if !files_exist[i] {
                return Err(
                    PackageError::ValidationError(join_with("File not found: ", self.manifest.files[i].as_str(), "")),
                );
            }
            i = i + 1;
        }
        let package = Package {
            name: self.manifest.name.clone(),
            version: self.manifest.version.clone(),
            description: match &self.manifest.description {
                Some(d) => Some(d.clone()),
                None => None,
            },
            dependencies: copy_strings(&self.manifest.dependencies),
            files: copy_strings(&self.manifest.files),
        };
        let ghost gp = package;
        assert(package_of(self.manifest, gp));
        match repo_manager.publish_package(package) {
            Ok(()) => Ok(()),
            Err(_) => Err(PackageError::ValidationError(String::from_str("Failed to publish package"))),
        }
    }
}

} // verus!
