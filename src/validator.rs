//! The platform gate: a package that lists operating systems or CPU
//! architectures runs only on those. Engine constraints are advisory and
//! never reject a package.
use vstd::prelude::*;

use crate::models::{string_views, Engines, Package};
use crate::text::position_of;
use crate::version::{requirement_matches, semver_req_matches, semver_valid};

verus! {

/// Why a package does not run on this platform.
#[derive(Debug, Clone, PartialEq, Eq)]
pub enum CompatibilityError {
    /// The package does not list this operating system.
    UnsupportedOs(String),
    /// The package does not list this architecture.
    UnsupportedArch(String),
}

/// Whether a declared list admits a value: an absent list admits all.
pub open spec fn admits(list: Option<Vec<String>>, v: Seq<char>) -> bool {
    match list {
        Some(l) => string_views(l@).contains(v),
        None => true,
    }
}

/// Whether a package runs on the platform `os`/`arch`.
pub open spec fn compatible(p: Package, os: Seq<char>, arch: Seq<char>) -> bool {
    admits(p.os, os) && admits(p.cpu, arch)
}

fn list_admits(list: &Option<Vec<String>>, v: &str) -> (r: bool)
    ensures
        r == admits(*list, v@),
{
    match list {
        Some(l) => match position_of(l, v) {
            Some(i) => {
                assert(string_views(l@)[i as int] == v@);
                true
            },
            None => {
                assert(!string_views(l@).contains(v@));
                false
            },
        },
        None => true,
    }
}

/// Whether an engine constraint goes unmet: the package states one, the
/// engine's version is known, and it does not meet the constraint.
pub open spec fn unmet(req: Option<String>, current: Option<Seq<char>>) -> bool {
    match (req, current) {
        (Some(r), Some(c)) => !(semver_valid(c) && semver_req_matches(r@, c)),
        _ => false,
    }
}

/// The engine constraints that go unmet, node's first.
pub open spec fn unmet_engines(e: Option<Engines>, node: Option<Seq<char>>, bun: Option<Seq<char>>) -> Seq<Seq<char>> {
    match e {
        Some(en) => {
            let a = if unmet(en.node, node) {
                seq![en.node->0@]
            } else {
                Seq::empty()
            };
            let b = if unmet(en.bun, bun) {
                seq![en.bun->0@]
            } else {
                Seq::empty()
            };
            a + b
        },
        None => Seq::empty(),
    }
}

pub open spec fn opt_str(o: Option<&str>) -> Option<Seq<char>> {
    match o {
        Some(s) => Some(s@),
        None => None,
    }
}

fn constraint_unmet(req: &Option<String>, current: Option<&str>) -> (r: bool)
    ensures
        r == unmet(*req, opt_str(current)),
{
    match (req, current) {
        (Some(rq), Some(c)) => !requirement_matches(rq.as_str(), c),
        _ => false,
    }
}

/// The compatibility check, stateless.
pub struct SystemValidator;

impl SystemValidator {
    /// Checks a package against the platform: the operating system first,
    /// then the architecture.
    pub fn validate_package_requirements(package: &Package, os: &str, arch: &str) -> (r: Result<(), CompatibilityError>)
        ensures
            !admits(package.os, os@) ==> (match r {
                Err(CompatibilityError::UnsupportedOs(o)) => o@ == os@,
                _ => false,
            }),
            admits(package.os, os@) && !admits(package.cpu, arch@) ==> (match r {
                Err(CompatibilityError::UnsupportedArch(a)) => a@ == arch@,
                _ => false,
            }),
            r is Ok <==> compatible(*package, os@, arch@),
    {
        if !list_admits(&package.os, os) {
            return Err(CompatibilityError::UnsupportedOs(String::from_str(os)));
        }
        if !list_admits(&package.cpu, arch) {
            return Err(CompatibilityError::UnsupportedArch(String::from_str(arch)));
        }
        Ok(())
    }

    /// The engine constraints of a package that the known engine versions
    /// do not meet. They are advisory: the caller warns of them, and they
    /// never reject the package.
    pub fn engine_warnings(package: &Package, node: Option<&str>, bun: Option<&str>) -> (r: Vec<String>)
        ensures
            string_views(r@) == unmet_engines(package.engines, opt_str(node), opt_str(bun)),
    {
        let mut r: Vec<String> = Vec::new();
        match &package.engines {
            Some(en) => {
                if constraint_unmet(&en.node, node) {
                    match &en.node {
                        Some(n) => r.push(n.clone()),
                        None => {},
                    }
                }
                let ghost first = r@;
                if constraint_unmet(&en.bun, bun) {
                    match &en.bun {
                        Some(b) => r.push(b.clone()),
                        None => {},
                    }
                }
                proof {
                    let a = if unmet(en.node, opt_str(node)) {
                        seq![en.node->0@]
                    } else {
                        Seq::empty()
                    };
                    assert(string_views(first) =~= a);
                    assert(string_views(r@) =~= unmet_engines(package.engines, opt_str(node), opt_str(bun)));
                }
            },
            None => {
                assert(string_views(r@) =~= Seq::<Seq<char>>::empty());
            },
        }
        r
    }
}

} // verus!
