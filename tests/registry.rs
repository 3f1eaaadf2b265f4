use diem::models::{Package, PackageReference};
use diem::registry::{RegistryConfig, RegistryError, RegistryManager, Provider};

fn registry() -> RegistryManager {
    RegistryManager::new(RegistryConfig::empty(), "/test/registry.json".to_string())
}

fn package(name: &str) -> Package {
    Package {
        name: name.to_string(),
        version: "1.0.0".to_string(),
        provider: None,
        binaries: vec![],
        install_script: None,
        url: None,
        checksum: None,
        signature: None,
        public_key: None,
        dependencies: None,
        peer_dependencies: None,
        optional_dependencies: None,
        engines: None,
        os: None,
        cpu: None,
    }
}

#[test]
fn test_path_to_package_reference() {
    let registry = registry();

    let path = "/sgoinfre/user42/provider_package";
    let reference = registry.path_to_package_reference(path).unwrap();

    assert_eq!(reference.provider, "provider");
    assert_eq!(reference.name, "package");

    // Test invalid paths
    let invalid_path = "/sgoinfre/user42/invalidformat";
    assert!(registry.path_to_package_reference(invalid_path).is_err());
}

#[test]
fn test_bidirectional_conversion() {
    let mut registry = registry();
    registry.add_provider("test42", true).unwrap();

    let reference = PackageReference {
        provider: "test42".to_string(),
        name: "mypackage".to_string(),
    };

    let path = registry.resolve_package_location(&reference, true).unwrap();
    let recovered = registry.path_to_package_reference(&path).unwrap();

    assert_eq!(reference.provider, recovered.provider);
    assert_eq!(reference.name, recovered.name);
}

#[test]
fn package_path_is_named_from_reference() {
    let registry = registry();
    let reference = PackageReference { provider: "alice".to_string(), name: "tool".to_string() };
    assert_eq!(registry.get_package_path(&reference), "/sgoinfre/alice/alice_tool");
}

#[test]
fn reference_round_trips_through_text() {
    let registry = registry();
    let reference = PackageReference { provider: "alice".to_string(), name: "tool".to_string() };
    let text = reference.to_text();
    assert_eq!(text, "alice:tool");
    let parsed = registry.parse_package_reference(&text).unwrap();
    assert_eq!(parsed.provider, "alice");
    assert_eq!(parsed.name, "tool");
}

#[test]
fn bare_name_uses_default_provider() {
    let mut registry = registry();
    registry.add_provider("bob", true).unwrap();
    registry.set_default_provider("bob").unwrap();
    let parsed = registry.parse_package_reference("tool").unwrap();
    assert_eq!(parsed.provider, "bob");
    assert_eq!(parsed.name, "tool");
}

#[test]
fn bare_name_without_default_fails() {
    let registry = registry();
    assert_eq!(registry.parse_package_reference("tool").unwrap_err(), RegistryError::NoDefaultProvider);
}

#[test]
fn reference_with_two_separators_is_invalid() {
    let registry = registry();
    assert_eq!(
        registry.parse_package_reference("a:b:c").unwrap_err(),
        RegistryError::InvalidPackageReference("a:b:c".to_string())
    );
}

#[test]
fn path_with_two_underscores_is_invalid() {
    let registry = registry();
    assert_eq!(
        registry.path_to_package_reference("/sgoinfre/u/a_b_c").unwrap_err(),
        RegistryError::InvalidPackageReference("a_b_c".to_string())
    );
    assert!(registry.path_to_package_reference("/sgoinfre/u/").is_err());
    assert!(registry.path_to_package_reference("..").is_err());
    assert!(registry.path_to_package_reference("/").is_err());
    assert!(registry.path_to_package_reference(".").is_err());
    let dotted = registry.path_to_package_reference("/sgoinfre/u/a_b/.").unwrap();
    assert_eq!(dotted.provider, "a");
    assert_eq!(dotted.name, "b");
    let dotted = registry.path_to_package_reference("a_b/./").unwrap();
    assert_eq!(dotted.name, "b");
    let r = registry.path_to_package_reference("/sgoinfre/u/prov_pkg/").unwrap();
    assert_eq!(r.provider, "prov");
    assert_eq!(r.name, "pkg");
}

#[test]
fn provider_management() {
    let mut registry = registry();
    assert_eq!(
        registry.add_provider("ghost", false).unwrap_err(),
        RegistryError::ProviderNotFound("ghost".to_string())
    );
    registry.add_provider("carol", true).unwrap();
    registry.add_provider("carol", true).unwrap();
    assert_eq!(registry.list_providers().len(), 1);
    assert_eq!(
        registry.set_default_provider("dave").unwrap_err(),
        RegistryError::ProviderNotFound("dave".to_string())
    );
    registry.set_default_provider("carol").unwrap();
    assert_eq!(registry.get_default_provider(), Some("carol"));
    registry.remove_provider("carol").unwrap();
    assert_eq!(registry.get_default_provider(), None);
    assert!(registry.list_providers().is_empty());
    assert_eq!(
        registry.remove_provider("carol").unwrap_err(),
        RegistryError::ProviderNotFound("carol".to_string())
    );
}

#[test]
fn resolve_location_errors() {
    let mut registry = registry();
    let reference = PackageReference { provider: "erin".to_string(), name: "pkg".to_string() };
    assert_eq!(
        registry.resolve_package_location(&reference, true).unwrap_err(),
        RegistryError::ProviderNotFound("erin".to_string())
    );
    registry.add_provider("erin", true).unwrap();
    assert_eq!(
        registry.resolve_package_location(&reference, false).unwrap_err(),
        RegistryError::PackageNotFound { name: "pkg".to_string(), provider: "erin".to_string() }
    );
}

#[test]
fn search_ignores_case() {
    let registry = registry();
    let packages = vec![package("HelloWorld"), package("other"), package("shell")];
    assert_eq!(registry.search_packages(&packages, "ELL"), vec![0, 2]);
    assert_eq!(registry.search_packages(&packages, "xyz"), Vec::<usize>::new());
    assert_eq!(registry.search_packages(&packages, ""), vec![0, 1, 2]);
    assert_eq!(registry.search_packages(&Vec::new(), ""), Vec::<usize>::new());
}

#[test]
fn provider_path_and_listing() {
    let provider = Provider::new("frank".to_string(), "/sgoinfre");
    assert_eq!(provider.path, "/sgoinfre/frank");
    let mut registry = registry();
    registry.add_provider("a", true).unwrap();
    registry.add_provider("b", true).unwrap();
    assert_eq!(registry.providers_to_list(None), vec!["a".to_string(), "b".to_string()]);
    assert_eq!(registry.providers_to_list(Some("z")), vec!["z".to_string()]);
}

#[test]
fn provider_filled_from_directory_name() {
    let registry = registry();
    let filled = registry.with_provider_from_path(package("tool"), "/sgoinfre/gina/gina_tool").unwrap();
    assert_eq!(filled.provider, Some("gina".to_string()));
    assert_eq!(filled.name, "tool");
    assert_eq!(filled.version, "1.0.0");
    let mut named = package("tool");
    named.provider = Some("kept".to_string());
    let kept = registry.with_provider_from_path(named, "/sgoinfre/gina/gina_tool").unwrap();
    assert_eq!(kept.provider, Some("kept".to_string()));
    assert!(registry.with_provider_from_path(package("tool"), "/sgoinfre/gina/bad").is_err());
    let mut listed = package("tool");
    listed.binaries = vec!["tool".to_string()];
    let listed = registry.with_listing_provider(listed, "hank");
    assert_eq!(listed.provider, Some("hank".to_string()));
    assert_eq!(listed.binaries, vec!["tool".to_string()]);
}
