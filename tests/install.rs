use diem::install::{
    verify_checksum, InstallAction, InstallEvent, InstallLocks, InstallPhase, InstallSession, PackageError,
    PackageValidator,
};
use diem::models::{Package, PackageReference};

const ABC_SHA256: &str = "ba7816bf8f01cfea414140de5dae2223b00361a396177a9cb410ff61f20015ad";

fn package(binaries: &[&str], url: Option<&str>, checksum: Option<&str>) -> Package {
    Package {
        name: "tool".to_string(),
        version: "1.0.0".to_string(),
        provider: Some("alice".to_string()),
        binaries: binaries.iter().map(|b| b.to_string()).collect(),
        install_script: None,
        url: url.map(|u| u.to_string()),
        checksum: checksum.map(|c| c.to_string()),
        signature: None,
        public_key: None,
        dependencies: None,
        peer_dependencies: None,
        optional_dependencies: None,
        engines: None,
        os: None,
        cpu: None,
    }
}

fn reference() -> PackageReference {
    PackageReference { provider: "alice".to_string(), name: "tool".to_string() }
}

fn session(p: Package, force: bool) -> InstallSession {
    InstallSession::start(p, &reference(), force, "/pkgs", "/tmp/diem", "/bin")
}

#[test]
fn lock_is_exclusive_and_released() {
    let mut locks = InstallLocks::new();
    assert_eq!(locks.acquire("tool"), Ok(()));
    assert_eq!(locks.acquire("tool"), Err(PackageError::InstallLocked("tool".to_string())));
    assert_eq!(locks.acquire("other"), Ok(()));
    locks.release("tool");
    assert!(!locks.is_locked("tool"));
    assert!(locks.is_locked("other"));
    assert_eq!(locks.acquire("tool"), Ok(()));
}

#[test]
fn checksum_of_known_bytes() {
    assert_eq!(verify_checksum(&Some(ABC_SHA256.to_string()), b"abc"), Ok(()));
    assert_eq!(verify_checksum(&None, b"abc"), Ok(()));
    assert_eq!(
        verify_checksum(&Some("00".to_string()), b"abc"),
        Err(PackageError::ChecksumMismatch { expected: "00".to_string(), actual: ABC_SHA256.to_string() })
    );
}

#[test]
fn checksum_mismatch_fails_before_any_link() {
    let mut s = session(package(&["tool"], Some("https://x/tool.tar.gz"), Some("deadbeef")), false);
    match s.next_action() {
        InstallAction::Download { url, dest } => {
            assert_eq!(url, "https://x/tool.tar.gz");
            assert_eq!(dest, "/tmp/diem/tool/package.tar.gz");
        }
        other => panic!("unexpected {:?}", other),
    }
    s.on_event(InstallEvent::Downloaded(b"abc".to_vec()));
    assert_eq!(s.phase, InstallPhase::Failed);
    assert!(s.linked.is_empty());
    match s.next_action() {
        InstallAction::Finish(Err(PackageError::ChecksumMismatch { expected, actual })) => {
            assert_eq!(expected, "deadbeef");
            assert_eq!(actual, ABC_SHA256);
        }
        other => panic!("unexpected {:?}", other),
    }
    s.on_event(InstallEvent::LinkPlaced);
    assert_eq!(s.phase, InstallPhase::Failed);
    assert!(s.linked.is_empty());
}

#[test]
fn full_install_runs_every_step() {
    let mut p = package(&["tool"], Some("https://x/t.tgz"), Some(ABC_SHA256));
    p.install_script = Some("echo hi".to_string());
    let mut s = session(p, false);
    assert_eq!(s.package_dir, "/pkgs/alice_tool");
    s.on_event(InstallEvent::Downloaded(b"abc".to_vec()));
    assert_eq!(s.phase, InstallPhase::Extract);
    match s.next_action() {
        InstallAction::Extract { archive, dest } => {
            assert_eq!(archive, "/tmp/diem/tool/package.tar.gz");
            assert_eq!(dest, "/pkgs/alice_tool");
        }
        other => panic!("unexpected {:?}", other),
    }
    s.on_event(InstallEvent::Extracted(true));
    assert_eq!(s.phase, InstallPhase::Script);
    s.on_event(InstallEvent::ScriptFinished(true, String::new()));
    assert_eq!(s.phase, InstallPhase::Probe(0));
    s.on_event(InstallEvent::LinkProbed(false));
    assert_eq!(s.phase, InstallPhase::Place(0, false));
    s.on_event(InstallEvent::LinkPlaced);
    assert_eq!(s.linked, vec!["/bin/tool".to_string()]);
    assert_eq!(s.phase, InstallPhase::Record);
    s.on_event(InstallEvent::Recorded);
    assert_eq!(s.phase, InstallPhase::Succeeded);
    assert!(matches!(s.next_action(), InstallAction::Finish(Ok(()))));
}

#[test]
fn failures_of_extraction_and_script() {
    let mut s = session(package(&[], Some("u"), None), false);
    s.on_event(InstallEvent::Downloaded(vec![1, 2, 3]));
    s.on_event(InstallEvent::Extracted(false));
    assert!(matches!(s.next_action(), InstallAction::Finish(Err(PackageError::ExtractionFailed))));

    let mut p = package(&[], None, None);
    p.install_script = Some("exit 1".to_string());
    let mut s = session(p, false);
    assert_eq!(s.phase, InstallPhase::Script);
    s.on_event(InstallEvent::ScriptFinished(false, "boom".to_string()));
    match s.next_action() {
        InstallAction::Finish(Err(PackageError::InstallScriptFailed(e))) => assert_eq!(e, "boom"),
        other => panic!("unexpected {:?}", other),
    }

    let mut s = session(package(&["a"], None, None), false);
    s.on_event(InstallEvent::IoFailed("disk".to_string()));
    match s.next_action() {
        InstallAction::Finish(Err(PackageError::SystemError(e))) => assert_eq!(e, "disk"),
        other => panic!("unexpected {:?}", other),
    }
}

#[test]
fn existing_link_needs_force() {
    let mut s = session(package(&["tool"], None, None), false);
    assert_eq!(s.phase, InstallPhase::Probe(0));
    s.on_event(InstallEvent::LinkProbed(true));
    match s.next_action() {
        InstallAction::Finish(Err(PackageError::BinaryExists(b))) => assert_eq!(b, "tool"),
        other => panic!("unexpected {:?}", other),
    }
    assert!(s.linked.is_empty());

    let mut s = session(package(&["tool"], None, None), true);
    s.on_event(InstallEvent::LinkProbed(true));
    match s.next_action() {
        InstallAction::PlaceLink { source, link, replace } => {
            assert_eq!(source, "/pkgs/alice_tool/tool");
            assert_eq!(link, "/bin/tool");
            assert!(replace);
        }
        other => panic!("unexpected {:?}", other),
    }
    s.on_event(InstallEvent::LinkPlaced);
    s.on_event(InstallEvent::Recorded);
    assert_eq!(s.phase, InstallPhase::Succeeded);
}

#[test]
fn bad_signature_is_refused() {
    let validator = PackageValidator::new();
    assert_eq!(
        validator.verify_signature(b"data", "not base64!", "key"),
        Err(PackageError::SignatureValidationFailed)
    );
    assert_eq!(
        validator.verify_signature(b"data", "AAAA", "not a pem key"),
        Err(PackageError::SignatureValidationFailed)
    );
    let mut p = package(&[], Some("u"), None);
    p.signature = Some("AAAA".to_string());
    p.public_key = Some("not a pem key".to_string());
    let mut s = session(p, false);
    s.on_event(InstallEvent::Downloaded(b"abc".to_vec()));
    assert!(matches!(s.next_action(), InstallAction::Finish(Err(PackageError::SignatureValidationFailed))));
}

#[test]
fn signature_check_reads_key_after_decoding() {
    let validator = PackageValidator::new();
    assert_eq!(validator.verify_signature(b"", "", ""), Err(PackageError::SignatureValidationFailed));
}

#[test]
fn valid_signature_is_accepted() {
    let rsa = openssl::rsa::Rsa::generate(2048).unwrap();
    let key = openssl::pkey::PKey::from_rsa(rsa).unwrap();
    let pem = String::from_utf8(key.public_key_to_pem().unwrap()).unwrap();
    let mut signer = openssl::sign::Signer::new(openssl::hash::MessageDigest::sha256(), &key).unwrap();
    signer.update(b"abc").unwrap();
    let sig = base64::Engine::encode(&base64::engine::general_purpose::STANDARD, signer.sign_to_vec().unwrap());
    let validator = PackageValidator::new();
    assert_eq!(validator.verify_signature(b"abc", &sig, &pem), Ok(()));
    assert_eq!(validator.verify_signature(b"abd", &sig, &pem), Err(PackageError::SignatureValidationFailed));

    let mut p = package(&["tool"], Some("u"), Some(ABC_SHA256));
    p.signature = Some(sig);
    p.public_key = Some(pem);
    let mut s = session(p, false);
    s.on_event(InstallEvent::Downloaded(b"abc".to_vec()));
    assert_eq!(s.phase, InstallPhase::Extract);
}
