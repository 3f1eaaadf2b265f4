use diem::models::{Package, PackageDependency};
use diem::resolver::{DependencyResolver, ResolveError};
use diem::validator::{CompatibilityError, SystemValidator};

fn dep(name: &str) -> PackageDependency {
    PackageDependency { name: name.to_string(), version: "*".to_string(), provider: None, optional: None }
}

fn package(name: &str, deps: &[&str], optional: &[&str]) -> Package {
    Package {
        name: name.to_string(),
        version: "1.0.0".to_string(),
        provider: Some("p".to_string()),
        binaries: vec![],
        install_script: None,
        url: None,
        checksum: None,
        signature: None,
        public_key: None,
        dependencies: Some(deps.iter().map(|d| dep(d)).collect()),
        peer_dependencies: None,
        optional_dependencies: Some(optional.iter().map(|d| dep(d)).collect()),
        engines: None,
        os: None,
        cpu: None,
    }
}

#[test]
fn cycle_is_detected() {
    let catalog = vec![package("a", &["b"], &[]), package("b", &["c"], &[]), package("c", &["a"], &[])];
    let mut resolver = DependencyResolver::new();
    let r = resolver.resolve_dependencies(&catalog, 0, "linux", "x86_64");
    assert_eq!(r, Err(ResolveError::CircularDependencyDetected("p:a@1.0.0".to_string())));
}

#[test]
fn dependency_comes_before_dependent() {
    let catalog = vec![package("app", &["lib"], &[]), package("lib", &["base"], &[]), package("base", &[], &[])];
    let mut resolver = DependencyResolver::new();
    let plan = resolver.resolve_dependencies(&catalog, 0, "linux", "x86_64").unwrap();
    assert_eq!(plan, vec![2, 1, 0]);
}

#[test]
fn shared_dependency_is_planned_once() {
    let catalog = vec![
        package("app", &["x", "y"], &[]),
        package("x", &["z"], &[]),
        package("y", &["z"], &[]),
        package("z", &[], &[]),
    ];
    let mut resolver = DependencyResolver::new();
    let plan = resolver.resolve_dependencies(&catalog, 0, "linux", "x86_64").unwrap();
    assert_eq!(plan, vec![3, 1, 2, 0]);
}

#[test]
fn unresolvable_optional_dependency_is_left_out() {
    let mut broken = package("broken", &[], &[]);
    broken.os = Some(vec!["plan9".to_string()]);
    let catalog = vec![package("app", &[], &["missing", "broken", "extra"]), broken, package("extra", &[], &[])];
    let mut resolver = DependencyResolver::new();
    let plan = resolver.resolve_dependencies(&catalog, 0, "linux", "x86_64").unwrap();
    assert_eq!(plan, vec![2, 0]);
}

#[test]
fn same_key_is_planned_once() {
    let mut copy = package("lib", &[], &[]);
    copy.binaries = vec!["lib".to_string()];
    let mut other = package("lib", &[], &[]);
    other.provider = Some("q".to_string());
    let mut app = package("app", &["lib"], &[]);
    app.dependencies.as_mut().unwrap().push(PackageDependency {
        name: "lib".to_string(),
        version: "*".to_string(),
        provider: Some("p".to_string()),
        optional: None,
    });
    // The second entry has the first one's key; the third another provider.
    let catalog = vec![app, package("lib", &[], &[]), copy, other];
    let mut resolver = DependencyResolver::new();
    let plan = resolver.resolve_dependencies(&catalog, 0, "linux", "x86_64").unwrap();
    assert_eq!(plan, vec![1, 0]);
    let mut resolver = DependencyResolver::new();
    assert_eq!(resolver.resolve_dependencies(&catalog, 2, "linux", "x86_64").unwrap(), vec![1]);
}

#[test]
fn missing_required_dependency_fails() {
    let catalog = vec![package("app", &["nowhere"], &[])];
    let mut resolver = DependencyResolver::new();
    let r = resolver.resolve_dependencies(&catalog, 0, "linux", "x86_64");
    assert_eq!(r, Err(ResolveError::DependencyNotFound("nowhere".to_string())));
}

#[test]
fn incompatible_required_dependency_fails() {
    let mut lib = package("lib", &[], &[]);
    lib.cpu = Some(vec!["arm".to_string()]);
    let catalog = vec![package("app", &["lib"], &[]), lib];
    let mut resolver = DependencyResolver::new();
    let r = resolver.resolve_dependencies(&catalog, 0, "linux", "x86_64");
    assert_eq!(r, Err(ResolveError::Incompatible("lib".to_string())));
}

#[test]
fn dependency_with_provider_matches_that_provider() {
    let mut other = package("lib", &[], &[]);
    other.provider = Some("q".to_string());
    let mut app = package("app", &[], &[]);
    app.dependencies = Some(vec![PackageDependency {
        name: "lib".to_string(),
        version: "*".to_string(),
        provider: Some("q".to_string()),
        optional: None,
    }]);
    let catalog = vec![app, package("lib", &[], &[]), other];
    let mut resolver = DependencyResolver::new();
    let plan = resolver.resolve_dependencies(&catalog, 0, "linux", "x86_64").unwrap();
    assert_eq!(plan, vec![2, 0]);
}

#[test]
fn platform_lists_gate_packages() {
    let mut p = package("tool", &[], &[]);
    assert_eq!(SystemValidator::validate_package_requirements(&p, "linux", "x86_64"), Ok(()));
    p.os = Some(vec!["macos".to_string(), "linux".to_string()]);
    assert_eq!(SystemValidator::validate_package_requirements(&p, "linux", "x86_64"), Ok(()));
    assert_eq!(
        SystemValidator::validate_package_requirements(&p, "windows", "x86_64"),
        Err(CompatibilityError::UnsupportedOs("windows".to_string()))
    );
    p.cpu = Some(vec!["aarch64".to_string()]);
    assert_eq!(
        SystemValidator::validate_package_requirements(&p, "linux", "x86_64"),
        Err(CompatibilityError::UnsupportedArch("x86_64".to_string()))
    );
}

#[test]
fn engine_constraints_only_warn() {
    let mut p = package("tool", &[], &[]);
    p.engines = Some(diem::models::Engines { node: Some(">=18".to_string()), bun: Some("^1.0".to_string()) });
    assert_eq!(SystemValidator::engine_warnings(&p, Some("16.0.0"), Some("1.2.0")), vec![">=18".to_string()]);
    assert_eq!(SystemValidator::engine_warnings(&p, Some("20.1.0"), Some("0.9.0")), vec!["^1.0".to_string()]);
    assert!(SystemValidator::engine_warnings(&p, None, None).is_empty());
    assert_eq!(SystemValidator::engine_warnings(&p, Some("garbage"), None), vec![">=18".to_string()]);
    let catalog = vec![p];
    let mut resolver = DependencyResolver::new();
    assert_eq!(resolver.resolve_dependencies(&catalog, 0, "linux", "x86_64"), Ok(vec![0]));
}
