use diem::cli::{Install, Search, Sources, SourcesAdd, SourcesCommand};
use diem::logger::{DiemFormatter, LogLevel, LoggerConfig};
use diem::perms::{DirectoryStatus, PermissionChecker, PermissionError};

fn status() -> DirectoryStatus {
    DirectoryStatus { exists: true, readable: true, is_dir: true, mode: 0o755, owner_uid: 1000, write_test_ok: true }
}

#[test]
fn permission_checks_in_order() {
    assert_eq!(PermissionChecker::check_directory_permissions("/d", &status(), 1000), Ok(()));
    let mut st = status();
    st.exists = false;
    assert_eq!(
        PermissionChecker::check_directory_permissions("/nonexistent/path", &st, 1000),
        Err(PermissionError::DirectoryNotFound("/nonexistent/path".to_string()))
    );
    let mut st = status();
    st.is_dir = false;
    assert_eq!(
        PermissionChecker::check_directory_permissions("/d", &st, 1000),
        Err(PermissionError::NotADirectory("/d".to_string()))
    );
    let mut st = status();
    st.mode = 0o40555;
    assert_eq!(
        PermissionChecker::check_directory_permissions("/d", &st, 1000),
        Err(PermissionError::InsufficientPermissions("/d".to_string(), 0o700, 0o555))
    );
    assert_eq!(
        PermissionChecker::check_directory_permissions("/d", &status(), 0),
        Err(PermissionError::InvalidOwnership("/d".to_string()))
    );
    let mut st = status();
    st.write_test_ok = false;
    assert_eq!(
        PermissionChecker::check_directory_permissions("/d", &st, 1000),
        Err(PermissionError::InsufficientPermissions("/d".to_string(), 0o700, 0o755))
    );
    let mut st = status();
    st.readable = false;
    assert_eq!(
        PermissionChecker::check_directory_permissions("/d", &st, 1000),
        Err(PermissionError::AccessError("/d".to_string()))
    );
}

#[test]
fn logger_defaults_and_labels() {
    let c = LoggerConfig::default();
    assert_eq!(c.level, LogLevel::Info);
    assert!(c.show_timestamps);
    assert!(!c.show_target);
    assert!(c.file_logging.is_none());
    let f = DiemFormatter::new();
    assert_eq!(f.label(LogLevel::Warn), "WARN");
    assert_eq!(f.label(LogLevel::Trace), "TRACE");
}

#[test]
fn command_arguments_hold_their_values() {
    let i = Install { package: "alice:tool".to_string() };
    assert_eq!(i.package, "alice:tool");
    let s = Sources { command: Some(SourcesCommand::Add(SourcesAdd { source: "bob".to_string() })) };
    assert!(matches!(s.command, Some(SourcesCommand::Add(ref a)) if a.source == "bob"));
    let q = Search { query: "to".to_string() };
    assert_eq!(q.query, "to");
}
