use diem::error::{PackageError, RepositoryError};
use diem::publish::{parent_dir, PackageManifest, PackagePublisher};
use diem::repository::{Package, Repository, RepositoryManager};

fn manifest() -> PackageManifest {
    PackageManifest {
        name: "test-package".to_string(),
        version: "1.0.0".to_string(),
        description: Some("Test package".to_string()),
        authors: vec!["Test Author".to_string()],
        license: Some("MIT".to_string()),
        repository: None,
        dependencies: vec![],
        files: vec!["test.txt".to_string()],
    }
}

fn package(name: &str, version: &str) -> Package {
    Package {
        name: name.to_string(),
        version: version.to_string(),
        description: None,
        dependencies: vec![],
        files: vec![],
    }
}

#[test]
fn test_manifest_validation() {
    let valid_manifest = manifest();

    assert!(PackagePublisher::validate_manifest(&valid_manifest).is_ok());

    // Test invalid name
    let mut invalid_manifest = valid_manifest.clone();
    invalid_manifest.name = "invalid/name".to_string();
    assert!(PackagePublisher::validate_manifest(&invalid_manifest).is_err());

    // Test invalid version
    let mut invalid_manifest = valid_manifest.clone();
    invalid_manifest.version = "invalid".to_string();
    assert!(PackagePublisher::validate_manifest(&invalid_manifest).is_err());

    // Test invalid file path
    let mut invalid_manifest = valid_manifest.clone();
    invalid_manifest.files = vec!["/absolute/path".to_string()];
    assert!(PackagePublisher::validate_manifest(&invalid_manifest).is_err());
}

#[test]
fn empty_name_is_invalid() {
    let mut m = manifest();
    m.name = String::new();
    assert!(matches!(PackagePublisher::validate_manifest(&m), Err(PackageError::ValidationError(_))));
}

#[test]
fn manifest_directory() {
    assert_eq!(parent_dir("/home/u/pkg/manifest.toml"), "/home/u/pkg");
    assert_eq!(parent_dir("/manifest.toml"), "/");
    assert_eq!(parent_dir("manifest.toml"), "");
    let p = PackagePublisher::new(manifest(), "/src/tool/manifest.toml").unwrap();
    assert_eq!(p.package_dir, "/src/tool");
}

#[test]
fn publish_needs_every_file() {
    let mut repos = RepositoryManager::new("me".to_string(), true).unwrap();
    let p = PackagePublisher::new(manifest(), "/src/manifest.toml").unwrap();
    assert!(matches!(p.publish(&mut repos, &vec![false]), Err(PackageError::ValidationError(_))));
    assert!(repos.repositories[0].1.get_package("test-package", None).is_none());
    assert_eq!(p.publish(&mut repos, &vec![true]), Ok(()));
    let found = repos.repositories[0].1.get_package("test-package", Some("1.0.0")).unwrap();
    assert_eq!(found.files, vec!["test.txt".to_string()]);
}

#[test]
fn repository_index_keeps_versions_in_order() {
    let mut repo = Repository::new("/sgoinfre/me".to_string(), "me".to_string(), true);
    repo.add_package(package("tool", "1.0.0")).unwrap();
    repo.add_package(package("tool", "1.1.0")).unwrap();
    repo.add_package(package("other", "0.1.0")).unwrap();
    assert_eq!(repo.get_package("tool", None).unwrap().version, "1.1.0");
    assert_eq!(repo.get_package("tool", Some("1.0.0")).unwrap().version, "1.0.0");
    assert!(repo.get_package("tool", Some("9.9.9")).is_none());
    assert!(repo.get_package("none", None).is_none());
    assert_eq!(repo.package_dir(&package("tool", "1.0.0")), "/sgoinfre/me/packages/tool/1.0.0");
    assert_eq!(
        repo.structure_dirs(),
        vec![
            "/sgoinfre/me/packages".to_string(),
            "/sgoinfre/me/metadata".to_string(),
            "/sgoinfre/me/index".to_string()
        ]
    );
}

#[test]
fn published_version_cannot_be_replaced() {
    let mut repo = Repository::new("/sgoinfre/me".to_string(), "me".to_string(), true);
    repo.add_package(package("tool", "1.0.0")).unwrap();
    let mut again = package("tool", "1.0.0");
    again.description = Some("changed".to_string());
    assert!(matches!(repo.add_package(again), Err(RepositoryError::AlreadyExists(_))));
    assert_eq!(repo.index[0].1.len(), 1);
    assert!(repo.get_package("tool", Some("1.0.0")).unwrap().description.is_none());
    let mut repos = RepositoryManager::new("me".to_string(), true).unwrap();
    let p = PackagePublisher::new(manifest(), "/src/manifest.toml").unwrap();
    assert_eq!(p.publish(&mut repos, &vec![true]), Ok(()));
    assert!(matches!(p.publish(&mut repos, &vec![true]), Err(PackageError::ValidationError(_))));
}

#[test]
fn foreign_repository_refuses_packages() {
    let mut repo = Repository::new("/sgoinfre/you".to_string(), "you".to_string(), false);
    assert!(matches!(repo.add_package(package("tool", "1.0.0")), Err(RepositoryError::PermissionDenied(_))));
}

#[test]
fn repository_manager_rules() {
    assert!(matches!(RepositoryManager::new("me".to_string(), false), Err(RepositoryError::InvalidPath(_))));
    let mut repos = RepositoryManager::new("me".to_string(), true).unwrap();
    assert_eq!(repos.own_repo_path, "/sgoinfre/me");
    assert_eq!(repos.add_repository("me".to_string(), true), Err(RepositoryError::AlreadyExists("me".to_string())));
    assert!(matches!(repos.add_repository("you".to_string(), false), Err(RepositoryError::NotFound(_))));
    repos.add_repository("you".to_string(), true).unwrap();
    assert_eq!(repos.repositories[1].1.path, "/sgoinfre/you");
    assert!(matches!(repos.remove_repository("me"), Err(RepositoryError::PermissionDenied(_))));
    assert!(matches!(repos.remove_repository("nobody"), Err(RepositoryError::NotFound(_))));
    repos.remove_repository("you").unwrap();
    assert_eq!(repos.repositories.len(), 1);
}

#[test]
fn search_finds_package_in_each_repository() {
    let mut repos = RepositoryManager::new("me".to_string(), true).unwrap();
    repos.publish_package(package("tool", "1.0.0")).unwrap();
    repos.add_repository("you".to_string(), true).unwrap();
    let found = repos.search_package("tool", None);
    assert_eq!(found.len(), 1);
    assert_eq!(found[0].0, "me");
    assert_eq!(found[0].1.version, "1.0.0");
    assert!(repos.search_package("tool", Some("2.0.0")).is_empty());
}
