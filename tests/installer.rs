use diem::error::InstallationError;
use diem::installer::{InstallationMetadata, PackageInstaller};
use diem::repository::{Package, RepositoryManager};

fn package(name: &str, version: &str, deps: &[&str], files: &[&str]) -> Package {
    Package {
        name: name.to_string(),
        version: version.to_string(),
        description: None,
        dependencies: deps.iter().map(|d| d.to_string()).collect(),
        files: files.iter().map(|f| f.to_string()).collect(),
    }
}

fn metadata(version: &str) -> InstallationMetadata {
    InstallationMetadata {
        installed_version: version.to_string(),
        installed_from: "me".to_string(),
        install_date: 0,
        files: vec![],
    }
}

fn installer() -> PackageInstaller {
    let mut repos = RepositoryManager::new("me".to_string(), true).unwrap();
    repos.publish_package(package("tool", "1.0.0", &["libx", "liby"], &["bin/tool"])).unwrap();
    repos.publish_package(package("tool", "1.2.0", &["libx", "liby"], &["bin/tool", "bin/toolctl"])).unwrap();
    PackageInstaller::new(repos, "/home/me/.local/bin".to_string(), "/tmp/pm".to_string(), vec![])
}

#[test]
fn plan_lists_missing_dependencies_and_file_moves() {
    let mut inst = installer();
    inst.record_installation("libx".to_string(), metadata("0.1.0"));
    let plan = inst.plan_install("tool", None).unwrap();
    assert_eq!(plan.username, "me");
    assert_eq!(plan.package.version, "1.2.0");
    assert_eq!(plan.missing_dependencies, vec!["liby".to_string()]);
    assert_eq!(plan.work_dir, "/tmp/pm/tool-1.2.0");
    assert_eq!(plan.copies.len(), 2);
    assert_eq!(plan.copies[1].source, "/sgoinfre/me/packages/tool/1.2.0/bin/toolctl");
    assert_eq!(plan.copies[1].staged, "/tmp/pm/tool-1.2.0/bin/toolctl");
    assert_eq!(plan.copies[1].target, "/home/me/.local/bin/toolctl");
}

#[test]
fn plan_of_unknown_package_fails() {
    let inst = installer();
    assert_eq!(
        inst.plan_install("nothing", Some("1.0")).unwrap_err(),
        InstallationError::PackageNotFound("nothing@1.0".to_string())
    );
    assert_eq!(
        inst.plan_install("nothing", None).unwrap_err(),
        InstallationError::PackageNotFound("nothing@latest".to_string())
    );
}

#[test]
fn record_replaces_and_remove_forgets() {
    let mut inst = installer();
    inst.record_installation("tool".to_string(), metadata("1.0.0"));
    inst.record_installation("tool".to_string(), metadata("1.2.0"));
    assert_eq!(inst.installed_packages.len(), 1);
    assert_eq!(inst.get_installed_version("tool"), Some("1.2.0"));
    assert!(inst.is_package_installed("tool"));
    let removed = inst.remove_installation("tool").unwrap();
    assert_eq!(removed.installed_version, "1.2.0");
    assert!(!inst.is_package_installed("tool"));
    assert!(matches!(inst.remove_installation("tool"), Err(InstallationError::PackageNotFound(_))));
    assert_eq!(inst.metadata_path(), "/tmp/pm/installed_packages.toml");
}

#[test]
fn upgrade_only_when_strictly_newer() {
    let mut inst = installer();
    assert_eq!(inst.upgrade_candidate("tool"), Err(InstallationError::PackageNotFound("tool".to_string())));
    inst.record_installation("ghost".to_string(), metadata("1.0.0"));
    assert_eq!(inst.upgrade_candidate("ghost"), Err(InstallationError::PackageNotFound("ghost".to_string())));
    inst.record_installation("tool".to_string(), metadata("1.0.0"));
    assert_eq!(inst.upgrade_candidate("tool"), Ok(Some("1.2.0".to_string())));
    inst.record_installation("tool".to_string(), metadata("1.2.0"));
    assert_eq!(inst.upgrade_candidate("tool"), Ok(None));
    inst.record_installation("tool".to_string(), metadata("1.10.0"));
    assert_eq!(inst.upgrade_candidate("tool"), Ok(None));
    inst.record_installation("tool".to_string(), metadata("not-a-version"));
    assert!(matches!(inst.upgrade_candidate("tool"), Err(InstallationError::InstallationFailed(_))));
}

#[test]
fn transitive_dependencies_resolve_once() {
    let mut repos = RepositoryManager::new("me".to_string(), true).unwrap();
    repos.publish_package(package("app", "1.0.0", &["liba", "libb"], &[])).unwrap();
    repos.publish_package(package("liba", "1.0.0", &["base"], &[])).unwrap();
    repos.publish_package(package("libb", "2.0.0", &["base", "liba"], &[])).unwrap();
    repos.publish_package(package("base", "0.1.0", &["liba"], &[])).unwrap();
    let inst = PackageInstaller::new(repos, "/b".to_string(), "/t".to_string(), vec![]);
    let app = package("app", "1.0.0", &["liba", "libb"], &[]);
    let deps = inst.resolve_dependencies(&app).unwrap();
    let mut names: Vec<String> = deps.iter().map(|(n, _)| n.clone()).collect();
    names.sort();
    assert_eq!(names, vec!["base".to_string(), "liba".to_string(), "libb".to_string()]);
    assert_eq!(deps.iter().find(|(n, _)| n == "libb").unwrap().1.version, "2.0.0");
    let broken = package("x", "1.0.0", &["liba", "nowhere"], &[]);
    assert_eq!(
        inst.resolve_dependencies(&broken).unwrap_err(),
        InstallationError::DependencyResolutionFailed("Dependency not found: nowhere".to_string())
    );
}

#[test]
fn record_lists_placed_files() {
    let inst = installer();
    let plan = inst.plan_install("tool", None).unwrap();
    let record = plan.record(42);
    assert_eq!(record.installed_version, "1.2.0");
    assert_eq!(record.installed_from, "me");
    assert_eq!(record.install_date, 42);
    assert_eq!(record.files, vec!["/home/me/.local/bin/tool".to_string(), "/home/me/.local/bin/toolctl".to_string()]);
}
