//! The package manifest and the reference that addresses a package.
use vstd::prelude::*;

verus! {

/// A published package version, as its manifest describes it.
#[derive(Debug, Clone)]
pub struct Package {
    pub name: String,
    pub version: String,
    pub provider: Option<String>,
    pub binaries: Vec<String>,
    pub install_script: Option<String>,
    pub url: Option<String>,
    pub checksum: Option<String>,
    pub signature: Option<String>,
    pub public_key: Option<String>,
    pub dependencies: Option<Vec<PackageDependency>>,
    pub peer_dependencies: Option<Vec<PackageDependency>>,
    pub optional_dependencies: Option<Vec<PackageDependency>>,
    pub engines: Option<Engines>,
    pub os: Option<Vec<String>>,
    pub cpu: Option<Vec<String>>,
}

/// A dependency of a package, found by name (and by provider when one is given).
#[derive(Debug, Clone)]
pub struct PackageDependency {
    pub name: String,
    pub version: String,
    pub provider: Option<String>,
    pub optional: Option<bool>,
}

/// Runtime-engine version constraints; advisory only.
#[derive(Debug, Clone)]
pub struct Engines {
    pub node: Option<String>,
    pub bun: Option<String>,
}

/// Where a package is found: a provider namespace and a package name.
#[derive(Debug, Clone)]
pub struct PackageReference {
    pub provider: String,
    pub name: String,
}

/// The view of a list of strings as a sequence of character sequences.
pub open spec fn string_views(v: Seq<String>) -> Seq<Seq<char>> {
    v.map_values(|s: String| s@)
}

/// The dependencies of a package, as a sequence (none when absent).
pub open spec fn dep_list(d: Option<Vec<PackageDependency>>) -> Seq<PackageDependency> {
    match d {
        Some(v) => v@,
        None => Seq::empty(),
    }
}

impl PackageReference {
    /// The reference written `provider:name`.
    pub fn to_text(&self) -> (r: String)
        ensures
            r@ == self.provider@ + seq![':'] + self.name@,
    {
        proof {
            reveal_strlit(":");
        }
        crate::text::join_with(self.provider.as_str(), ":", self.name.as_str())
    }
}

} // verus!
