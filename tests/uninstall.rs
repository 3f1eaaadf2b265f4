use diem::install::PackageError;
use diem::models::{Package, PackageReference};
use diem::uninstall::{PackageUninstaller, UninstallAction, UninstallEvent, UninstallPhase, UninstallSession};

fn package() -> Package {
    Package {
        name: "tool".to_string(),
        version: "2.0.0".to_string(),
        provider: Some("alice".to_string()),
        binaries: vec!["tool".to_string(), "toolctl".to_string()],
        install_script: None,
        url: None,
        checksum: None,
        signature: None,
        public_key: None,
        dependencies: None,
        peer_dependencies: None,
        optional_dependencies: None,
        engines: None,
        os: None,
        cpu: None,
    }
}

fn session() -> UninstallSession {
    let u = PackageUninstaller::new(
        "/pkgs".to_string(),
        "/bin".to_string(),
        "/goinfre".to_string(),
        "/reg/registry.json".to_string(),
    );
    let reference = PackageReference { provider: "alice".to_string(), name: "tool".to_string() };
    u.begin(&reference, Some(package())).unwrap()
}

#[test]
fn missing_manifest_is_not_found() {
    let u = PackageUninstaller::new(String::new(), String::new(), String::new(), String::new());
    let reference = PackageReference { provider: "alice".to_string(), name: "tool".to_string() };
    assert_eq!(u.begin(&reference, None).unwrap_err(), PackageError::NotFound("tool".to_string()));
}

#[test]
fn uninstall_runs_every_step() {
    let mut s = session();
    match s.next_action() {
        UninstallAction::CopyToBackup { from, to } => {
            assert_eq!(from, "/pkgs/alice_tool");
            assert_eq!(to, "/pkgs/alice_tool.backup_2.0.0");
        }
        other => panic!("unexpected {:?}", other),
    }
    s.on_event(UninstallEvent::Done);
    assert!(matches!(s.next_action(), UninstallAction::RemoveLink(l) if l == "/bin/tool"));
    s.on_event(UninstallEvent::Failed("gone".to_string()));
    assert!(matches!(s.next_action(), UninstallAction::RemoveLink(l) if l == "/bin/toolctl"));
    s.on_event(UninstallEvent::Done);
    assert!(matches!(s.next_action(), UninstallAction::RemoveDir(d) if d == "/pkgs/alice_tool"));
    s.on_event(UninstallEvent::Done);
    assert!(matches!(s.next_action(), UninstallAction::RemoveScratch(d) if d == "/goinfre/tool"));
    s.on_event(UninstallEvent::Done);
    match s.next_action() {
        UninstallAction::RemoveRegistryEntry { index, key } => {
            assert_eq!(index, "/reg/registry.json");
            assert_eq!(key, "alice:tool");
        }
        other => panic!("unexpected {:?}", other),
    }
    s.on_event(UninstallEvent::Done);
    assert!(matches!(s.next_action(), UninstallAction::RemoveBackup(_)));
    s.on_event(UninstallEvent::Failed("busy".to_string()));
    assert_eq!(s.phase, UninstallPhase::Succeeded);
    assert!(matches!(s.next_action(), UninstallAction::Finish(Ok(()))));
}

#[test]
fn failed_removal_restores_backup() {
    let mut s = session();
    s.on_event(UninstallEvent::Done);
    s.on_event(UninstallEvent::Done);
    s.on_event(UninstallEvent::Done);
    assert_eq!(s.phase, UninstallPhase::RemoveDir);
    s.on_event(UninstallEvent::Failed("permission denied".to_string()));
    match s.next_action() {
        UninstallAction::RestoreFromBackup { backup, to } => {
            assert_eq!(backup, "/pkgs/alice_tool.backup_2.0.0");
            assert_eq!(to, "/pkgs/alice_tool");
        }
        other => panic!("unexpected {:?}", other),
    }
    s.on_event(UninstallEvent::Done);
    assert_eq!(s.phase, UninstallPhase::Failed);
    match s.next_action() {
        UninstallAction::Finish(Err(PackageError::RemovalFailed(m))) => assert_eq!(m, "permission denied"),
        other => panic!("unexpected {:?}", other),
    }
}

#[test]
fn failed_restore_is_reported_instead() {
    let mut s = session();
    for _ in 0..4 {
        s.on_event(UninstallEvent::Done);
    }
    assert_eq!(s.phase, UninstallPhase::CleanupScratch);
    s.on_event(UninstallEvent::Failed("scratch".to_string()));
    assert_eq!(s.phase, UninstallPhase::Restore);
    s.on_event(UninstallEvent::Failed("restore".to_string()));
    match s.next_action() {
        UninstallAction::Finish(Err(PackageError::RestoreFailed(m))) => assert_eq!(m, "restore"),
        other => panic!("unexpected {:?}", other),
    }
}

#[test]
fn failed_backup_stops_before_removal() {
    let mut s = session();
    s.on_event(UninstallEvent::Failed("full".to_string()));
    assert_eq!(s.phase, UninstallPhase::Failed);
    match s.next_action() {
        UninstallAction::Finish(Err(PackageError::BackupFailed(m))) => assert_eq!(m, "full"),
        other => panic!("unexpected {:?}", other),
    }
}

#[test]
fn failed_registry_update_restores() {
    let mut s = session();
    for _ in 0..5 {
        s.on_event(UninstallEvent::Done);
    }
    assert_eq!(s.phase, UninstallPhase::UpdateRegistry);
    s.on_event(UninstallEvent::Failed("index".to_string()));
    s.on_event(UninstallEvent::Done);
    match s.next_action() {
        UninstallAction::Finish(Err(PackageError::RegistryUpdateFailed(m))) => assert_eq!(m, "index"),
        other => panic!("unexpected {:?}", other),
    }
}
