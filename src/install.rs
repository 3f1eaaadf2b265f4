//! The install pipeline, as decisions: the caller holds the package's lock,
//! performs each action that the session asks for (download, extract, run
//! the script, place a link, record) and reports what happened; the session
//! decides what comes next. Integrity checks run before anything is linked,
//! and a session that has failed asks for nothing more.
use vstd::prelude::*;

use crate::models::{string_views, Package, PackageReference};
use crate::registry::{dir_name_spec, path_join};
use crate::text::{join_with, position_of, str_eq};

verus! {

/// Why an install step failed.
#[derive(Debug, Clone, PartialEq, Eq)]
pub enum PackageError {
    NotFound(String),
    InstallLocked(String),
    MissingUrl(String),
    DownloadFailed(String, String),
    ChecksumMismatch { expected: String, actual: String },
    ExtractionFailed,
    InstallScriptFailed(String),
    BinaryExists(String),
    SignatureValidationFailed,
    SystemError(String),
    BackupFailed(String),
    RestoreFailed(String),
    RemovalFailed(String),
    RegistryUpdateFailed(String),
    GoinfreCleanupFailed(String),
}

/// The lowercase hexadecimal SHA-256 digest of a byte string.
pub uninterp spec fn sha256_hex_of(b: Seq<u8>) -> Seq<char>;

/// The bytes that a standard base64 text decodes to, if it is valid.
pub uninterp spec fn base64_decode_of(s: Seq<char>) -> Option<Seq<u8>>;

/// Whether `sig` is a valid SHA-256 signature of `data` under the public
/// key in PEM form `key_pem`.
pub uninterp spec fn signature_verifies_spec(key_pem: Seq<char>, data: Seq<u8>, sig: Seq<u8>) -> bool;

/// Relies on `sha2::Sha256::digest`, printed with `{:x}`: the digest of the
/// bytes as lowercase hex.
#[verifier::external_body]
fn sha256_hex(bytes: &[u8]) -> (r: String)
    ensures
        r@ == sha256_hex_of(bytes@),
{
    format!("{:x}", <sha2::Sha256 as sha2::Digest>::digest(bytes))
}

/// Relies on `base64::engine::general_purpose::STANDARD.decode`: the decoded
/// bytes, or nothing for invalid input.
#[verifier::external_body]
fn decode_base64(s: &str) -> (r: Option<Vec<u8>>)
    ensures
        base64_decode_of(s@) == (match r {
            Some(v) => Some(v@),
            None => None::<Seq<u8>>,
        }),
{
    base64::Engine::decode(&base64::engine::general_purpose::STANDARD, s).ok()
}

/// Whether a PEM key is short enough for openssl to read: at most
/// `i32::MAX` bytes in UTF-8.
pub open spec fn pem_fits(key_pem: Seq<char>) -> bool {
    vstd::utf8::encode_utf8(key_pem).len() <= 2147483647
}

/// Relies on openssl's `PKey::public_key_from_pem` and `sign::Verifier`
/// with `MessageDigest::sha256()`: whether the signature verifies; an
/// unreadable key or an openssl error counts as not verified. Reading the
/// key asserts that it is at most `c_int::MAX` bytes long.
#[verifier::external_body]
fn signature_verifies(key_pem: &str, data: &[u8], sig: &[u8]) -> (r: bool)
    requires
        pem_fits(key_pem@),
    ensures
        r == signature_verifies_spec(key_pem@, data@, sig@),
{
    let key = match openssl::pkey::PKey::public_key_from_pem(key_pem.as_bytes()) {
        Ok(k) => k,
        Err(_) => return false,
    };
    let mut verifier = match openssl::sign::Verifier::new(openssl::hash::MessageDigest::sha256(), &key) {
        Ok(v) => v,
        Err(_) => return false,
    };
    verifier.update(data).and_then(|_| verifier.verify(sig)).unwrap_or(false)
}

/// Whether the downloaded bytes' digest meets the declared checksum, if any.
pub open spec fn checksum_ok(expected: Option<String>, actual: Seq<char>) -> bool {
    match expected {
        Some(c) => c@ == actual,
        None => true,
    }
}

/// Whether the downloaded bytes carry a valid signature, when the package
/// declares both a signature and a public key.
pub open spec fn signature_ok(p: Package, data: Seq<u8>) -> bool {
    match (p.signature, p.public_key) {
        (Some(sig), Some(key)) => pem_fits(key@) && match base64_decode_of(sig@) {
            Some(d) => signature_verifies_spec(key@, data, d),
            None => false,
        },
        _ => true,
    }
}

impl PackageError {
    /// A copy of the error.
    pub fn duplicate(&self) -> (r: PackageError)
        ensures
            r == *self,
    {
        match self {
            PackageError::NotFound(s) => PackageError::NotFound(s.clone()),
            PackageError::InstallLocked(s) => PackageError::InstallLocked(s.clone()),
            PackageError::MissingUrl(s) => PackageError::MissingUrl(s.clone()),
            PackageError::DownloadFailed(a, b) => PackageError::DownloadFailed(a.clone(), b.clone()),
            PackageError::ChecksumMismatch { expected, actual } => PackageError::ChecksumMismatch {
                expected: expected.clone(),
                actual: actual.clone(),
            },
            PackageError::ExtractionFailed => PackageError::ExtractionFailed,
            PackageError::InstallScriptFailed(s) => PackageError::InstallScriptFailed(s.clone()),
            PackageError::BinaryExists(s) => PackageError::BinaryExists(s.clone()),
            PackageError::SignatureValidationFailed => PackageError::SignatureValidationFailed,
            PackageError::SystemError(s) => PackageError::SystemError(s.clone()),
            PackageError::BackupFailed(s) => PackageError::BackupFailed(s.clone()),
            PackageError::RestoreFailed(s) => PackageError::RestoreFailed(s.clone()),
            PackageError::RemovalFailed(s) => PackageError::RemovalFailed(s.clone()),
            PackageError::RegistryUpdateFailed(s) => PackageError::RegistryUpdateFailed(s.clone()),
            PackageError::GoinfreCleanupFailed(s) => PackageError::GoinfreCleanupFailed(s.clone()),
        }
    }
}

/// Checks downloaded bytes against the package's checksum.
pub fn verify_checksum(expected: &Option<String>, bytes: &[u8]) -> (r: Result<(), PackageError>)
    ensures
        r is Ok <==> checksum_ok(*expected, sha256_hex_of(bytes@)),
        r is Err ==> (match r {
            Err(PackageError::ChecksumMismatch { expected: e, actual: a }) => expected == &Some(e)
                && a@ == sha256_hex_of(bytes@),
            _ => false,
        }),
{
    let actual = sha256_hex(bytes);
    match expected {
        Some(c) => {
            if str_eq(c.as_str(), actual.as_str()) {
                Ok(())
            } else {
                Err(PackageError::ChecksumMismatch { expected: c.clone(), actual })
            }
        },
        None => Ok(()),
    }
}

/// Checks the signatures of downloaded packages.
pub struct PackageValidator;

impl PackageValidator {
    pub fn new() -> (r: Self) {
        PackageValidator
    }

    /// Checks `data` against a base64 signature made with SHA-256 under a
    /// PEM public key; a key too long for openssl to read fails.
    pub fn verify_signature(&self, data: &[u8], signature: &str, public_key: &str) -> (r: Result<(), PackageError>)
        ensures
            r is Ok <==> pem_fits(public_key@) && (match base64_decode_of(signature@) {
                Some(d) => signature_verifies_spec(public_key@, data@, d),
                None => false,
            }),
            r is Err ==> r == Err::<(), PackageError>(PackageError::SignatureValidationFailed),
    {
        let bytes = public_key.as_bytes();
        assert(bytes@ == vstd::utf8::encode_utf8(public_key@));
        if bytes.len() > 2147483647 {
            return Err(PackageError::SignatureValidationFailed);
        }
        match decode_base64(signature) {
            Some(d) => {
                if signature_verifies(public_key, data, d.as_slice()) {
                    Ok(())
                } else {
                    Err(PackageError::SignatureValidationFailed)
                }
            },
            None => Err(PackageError::SignatureValidationFailed),
        }
    }
}

/// Checks downloaded bytes against the package's signature, when it has
/// one and a public key.
pub fn verify_signature(package: &Package, bytes: &[u8]) -> (r: Result<(), PackageError>)
    ensures
        r is Ok <==> signature_ok(*package, bytes@),
        r is Err ==> r == Err::<(), PackageError>(PackageError::SignatureValidationFailed),
{
    match (&package.signature, &package.public_key) {
        (Some(sig), Some(key)) => PackageValidator::new().verify_signature(bytes, sig.as_str(), key.as_str()),
        _ => Ok(()),
    }
}

/// The packages whose install is in progress: at most one install per
/// package name at a time.
pub struct InstallLocks {
    pub held: Vec<String>,
}

impl InstallLocks {
    pub open spec fn held_view(&self) -> Seq<Seq<char>> {
        string_views(self.held@)
    }

    /// Whether an install of `name` is in progress.
    pub open spec fn locked(&self, name: Seq<char>) -> bool {
        self.held_view().contains(name)
    }

    /// No lock held.
    pub fn new() -> (r: Self)
        ensures
            forall|n: Seq<char>| !r.locked(n),
    {
        InstallLocks { held: Vec::new() }
    }

    /// Whether an install of `name` is in progress.
    pub fn is_locked(&self, name: &str) -> (r: bool)
        ensures
            r == self.locked(name@),
    {
        match position_of(&self.held, name) {
            Some(i) => {
                assert(self.held_view()[i as int] == name@);
                true
            },
            None => {
                assert(!self.held_view().contains(name@));
                false
            },
        }
    }

    /// Takes the lock of `name`; fails with `InstallLocked` while another
    /// install of it holds the lock.
    pub fn acquire(&mut self, name: &str) -> (r: Result<(), PackageError>)
        ensures
            r is Ok <==> !old(self).locked(name@),
            r is Ok ==> forall|n: Seq<char>|
                #[trigger] final(self).locked(n) == (old(self).locked(n) || n == name@),
            r is Err ==> final(self).held_view() == old(self).held_view() && (match r {
                Err(PackageError::InstallLocked(n)) => n@ == name@,
                _ => false,
            }),
    {
        if self.is_locked(name) {
            return Err(PackageError::InstallLocked(String::from_str(name)));
        }
        self.held.push(String::from_str(name));
        proof {
            assert(self.held_view() =~= old(self).held_view().push(name@));
            assert forall|n: Seq<char>| #[trigger] self.locked(n) == (old(self).locked(n) || n == name@) by {
                if old(self).locked(n) {
                    let i = choose|i: int| 0 <= i < old(self).held_view().len() && old(self).held_view()[i] == n;
                    assert(self.held_view()[i] == n);
                }
                if n == name@ {
                    assert(self.held_view()[old(self).held_view().len() as int] == n);
                }
                if self.locked(n) && n != name@ {
                    let i = choose|i: int| 0 <= i < self.held_view().len() && self.held_view()[i] == n;
                    assert(i < old(self).held_view().len());
                    assert(old(self).held_view()[i] == n);
                }
            }
        }
        Ok(())
    }

    /// Gives up the lock of `name`, whatever the install's outcome.
    pub fn release(&mut self, name: &str)
        ensures
            forall|n: Seq<char>|
                #[trigger] final(self).locked(n) == (old(self).locked(n) && n != name@),
    {
        let mut kept: Vec<String> = Vec::new();
        let mut i: usize = 0;
        while i < self.held.len()
            invariant
                i <= self.held@.len(),
                forall|n: Seq<char>|
                    string_views(kept@).contains(n) <==> (string_views(self.held@.subrange(0, i as int)).contains(n)
                        && n != name@),
            decreases self.held@.len() - i,
        {
            let ghost before = kept@;
            if !str_eq(self.held[i].as_str(), name) {
                kept.push(self.held[i].clone());
            }
            proof {
                let sub = self.held@.subrange(0, i + 1);
                let prev = self.held@.subrange(0, i as int);
                assert(sub =~= prev.push(self.held@[i as int]));
                assert forall|n: Seq<char>|
                    string_views(kept@).contains(n) <==> (string_views(sub).contains(n) && n != name@) by {
                    if string_views(sub).contains(n) {
                        let j = choose|j: int| 0 <= j < string_views(sub).len() && string_views(sub)[j] == n;
                        if j < i {
                            assert(string_views(prev)[j] == n);
                        }
                    }
                    if string_views(prev).contains(n) {
                        let j = choose|j: int| 0 <= j < string_views(prev).len() && string_views(prev)[j] == n;
                        assert(string_views(sub)[j] == n);
                    }
                    if n == self.held@[i as int]@ {
                        assert(string_views(sub)[i as int] == n);
                    }
                    if string_views(kept@).contains(n) {
                        let j = choose|j: int| 0 <= j < string_views(kept@).len() && string_views(kept@)[j] == n;
                        if j < before.len() {
                            assert(string_views(before)[j] == n);
                        }
                    }
                    if string_views(before).contains(n) {
                        let j = choose|j: int| 0 <= j < string_views(before).len() && string_views(before)[j] == n;
                        assert(string_views(kept@)[j] == n);
                    }
                    if n == self.held@[i as int]@ && n != name@ {
                        assert(string_views(kept@)[before.len() as int] == n);
                    }
                }
            }
            i = i + 1;
        }
        proof {
            assert(self.held@.subrange(0, self.held@.len() as int) =~= self.held@);
        }
        self.held = kept;
    }
}

/// Lock exclusivity: when no install of `name` is in progress, a first
/// attempt takes the lock (`t1` is the table after it); while it holds it, a
/// second attempt is refused, since `acquire` succeeds only on a name that is
/// not locked; and once the first releases it (`t2`), no lock is left.
pub proof fn lemma_lock_exclusive(t0: InstallLocks, t1: InstallLocks, t2: InstallLocks, name: Seq<char>)
    requires
        !t0.locked(name),
        forall|n: Seq<char>| #[trigger] t1.locked(n) == (t0.locked(n) || n == name),
        forall|n: Seq<char>| #[trigger] t2.locked(n) == (t1.locked(n) && n != name),
    ensures
        t1.locked(name),
        !t2.locked(name),
{
    assert(t1.locked(name));
    assert(!t2.locked(name));
}

/// Where an install session stands.
#[derive(Debug, Clone, Copy, PartialEq, Eq, Structural)]
pub enum InstallPhase {
    /// Download the archive.
    Fetch,
    /// Unpack the verified archive into the package directory.
    Extract,
    /// Run the package's install script.
    Script,
    /// Look whether the link of the binary at this position exists.
    Probe(usize),
    /// Place the link of the binary at this position, replacing an
    /// existing one when the flag is set.
    Place(usize, bool),
    /// Record the installation.
    Record,
    Succeeded,
    Failed,
}

/// What the caller saw when it performed the session's last action.
#[derive(Debug)]
pub enum InstallEvent {
    Downloaded(Vec<u8>),
    Extracted(bool),
    ScriptFinished(bool, String),
    LinkProbed(bool),
    LinkPlaced,
    Recorded,
    IoFailed(String),
}

/// What the session asks the caller to do next.
#[derive(Debug)]
pub enum InstallAction {
    Download { url: String, dest: String },
    Extract { archive: String, dest: String },
    RunScript { script: String, cwd: String },
    ProbeLink(String),
    PlaceLink { source: String, link: String, replace: bool },
    Record,
    Finish(Result<(), PackageError>),
}

/// One install attempt of one package.
pub struct InstallSession {
    pub package: Package,
    pub force: bool,
    pub package_dir: String,
    pub work_dir: String,
    pub bin_path: String,
    pub phase: InstallPhase,
    pub linked: Vec<String>,
    pub error: Option<PackageError>,
}

/// The name of the downloaded archive in the work directory.
pub open spec fn archive_name() -> Seq<char> {
    "package.tar.gz"@
}

/// The first binary to link, or the record step when there is none.
pub open spec fn links_start(p: Package) -> InstallPhase {
    if p.binaries@.len() > 0 {
        InstallPhase::Probe(0)
    } else {
        InstallPhase::Record
    }
}

/// What follows a successful extraction: the script, if any, then links.
pub open spec fn after_extract(p: Package) -> InstallPhase {
    if p.install_script is Some {
        InstallPhase::Script
    } else {
        links_start(p)
    }
}

/// Where a session starts: the download when the package has a URL.
pub open spec fn first_phase(p: Package) -> InstallPhase {
    if p.url is Some {
        InstallPhase::Fetch
    } else {
        after_extract(p)
    }
}

/// What follows the link of the binary at `i`.
pub open spec fn after_link(p: Package, i: usize) -> InstallPhase {
    if i + 1 < p.binaries@.len() {
        InstallPhase::Probe((i + 1) as usize)
    } else {
        InstallPhase::Record
    }
}

/// The phase that an event leads to. A finished session stays as it is; an
/// I/O failure fails it; an event that does not answer the phase's action
/// changes nothing.
pub open spec fn next_phase(s: InstallSession, e: InstallEvent) -> InstallPhase {
    let p = s.package;
    match s.phase {
        InstallPhase::Succeeded => s.phase,
        InstallPhase::Failed => s.phase,
        _ => if e is IoFailed {
            InstallPhase::Failed
        } else {
            match s.phase {
                InstallPhase::Fetch => match e {
                    InstallEvent::Downloaded(b) => if !checksum_ok(p.checksum, sha256_hex_of(b@))
                        || !signature_ok(p, b@) {
                        InstallPhase::Failed
                    } else {
                        InstallPhase::Extract
                    },
                    _ => s.phase,
                },
                InstallPhase::Extract => match e {
                    InstallEvent::Extracted(ok) => if ok {
                        after_extract(p)
                    } else {
                        InstallPhase::Failed
                    },
                    _ => s.phase,
                },
                InstallPhase::Script => match e {
                    InstallEvent::ScriptFinished(ok, _) => if ok {
                        links_start(p)
                    } else {
                        InstallPhase::Failed
                    },
                    _ => s.phase,
                },
                InstallPhase::Probe(i) => match e {
                    InstallEvent::LinkProbed(exists) => if exists && !s.force {
                        InstallPhase::Failed
                    } else {
                        InstallPhase::Place(i, exists)
                    },
                    _ => s.phase,
                },
                InstallPhase::Place(i, _) => match e {
                    InstallEvent::LinkPlaced => after_link(p, i),
                    _ => s.phase,
                },
                InstallPhase::Record => match e {
                    InstallEvent::Recorded => InstallPhase::Succeeded,
                    _ => s.phase,
                },
                _ => s.phase,
            }
        },
    }
}

/// The link of the binary at `i`: `bin_path/binary`.
pub open spec fn link_path(s: InstallSession, i: int) -> Seq<char> {
    path_join(s.bin_path@, s.package.binaries@[i]@)
}

/// The file that the link of the binary at `i` points to: `package_dir/binary`.
pub open spec fn source_path(s: InstallSession, i: int) -> Seq<char> {
    path_join(s.package_dir@, s.package.binaries@[i]@)
}

/// The links placed after an event: one more when a link was placed.
pub open spec fn links_after(s: InstallSession, e: InstallEvent) -> Seq<Seq<char>> {
    match s.phase {
        InstallPhase::Place(i, _) => if e is LinkPlaced {
            string_views(s.linked@).push(link_path(s, i as int))
        } else {
            string_views(s.linked@)
        },
        _ => string_views(s.linked@),
    }
}

/// The error that a session records when an event fails it.
pub open spec fn error_fits(s: InstallSession, e: InstallEvent, err: Option<PackageError>) -> bool {
    match e {
        InstallEvent::IoFailed(m) => err == Some(PackageError::SystemError(m)),
        InstallEvent::Downloaded(b) => if !checksum_ok(s.package.checksum, sha256_hex_of(b@)) {
            match err {
                Some(PackageError::ChecksumMismatch { expected, actual }) => s.package.checksum == Some(
                    expected,
                ) && actual@ == sha256_hex_of(b@),
                _ => false,
            }
        } else {
            err == Some(PackageError::SignatureValidationFailed)
        },
        InstallEvent::Extracted(_) => err == Some(PackageError::ExtractionFailed),
        InstallEvent::ScriptFinished(_, stderr) => err == Some(PackageError::InstallScriptFailed(stderr)),
        InstallEvent::LinkProbed(_) => match s.phase {
            InstallPhase::Probe(i) => err == Some(PackageError::BinaryExists(s.package.binaries@[i as int])),
            _ => false,
        },
        _ => false,
    }
}

/// The action that a session in a given phase asks for.
pub open spec fn action_fits(s: InstallSession, a: InstallAction) -> bool {
    match s.phase {
        InstallPhase::Fetch => match a {
            InstallAction::Download { url, dest } => s.package.url == Some(url) && dest@ == path_join(
                s.work_dir@,
                archive_name(),
            ),
            _ => false,
        },
        InstallPhase::Extract => match a {
            InstallAction::Extract { archive, dest } => archive@ == path_join(s.work_dir@, archive_name())
                && dest@ == s.package_dir@,
            _ => false,
        },
        InstallPhase::Script => match a {
            InstallAction::RunScript { script, cwd } => s.package.install_script == Some(script) && cwd@
                == s.package_dir@,
            _ => false,
        },
        InstallPhase::Probe(i) => match a {
            InstallAction::ProbeLink(l) => l@ == link_path(s, i as int),
            _ => false,
        },
        InstallPhase::Place(i, rep) => match a {
            InstallAction::PlaceLink { source, link, replace } => source@ == source_path(s, i as int)
                && link@ == link_path(s, i as int) && replace == rep,
            _ => false,
        },
        InstallPhase::Record => a is Record,
        InstallPhase::Succeeded => a == InstallAction::Finish(Ok(())),
        InstallPhase::Failed => match (a, s.error) {
            (InstallAction::Finish(Err(e1)), Some(e2)) => e1 == e2,
            _ => false,
        },
    }
}

impl InstallSession {
    /// The phase's preconditions: a download needs a URL, a script step a
    /// script, a link step a binary, and a failed session its error.
    pub open spec fn wf(&self) -> bool {
        match self.phase {
            InstallPhase::Fetch => self.package.url is Some,
            InstallPhase::Script => self.package.install_script is Some,
            InstallPhase::Probe(i) => i < self.package.binaries@.len(),
            InstallPhase::Place(i, _) => i < self.package.binaries@.len(),
            InstallPhase::Failed => self.error is Some,
            _ => true,
        }
    }

    pub open spec fn linked_view(&self) -> Seq<Seq<char>> {
        string_views(self.linked@)
    }

    /// A session for installing `package` from `reference` into
    /// `package_root/provider_name`, working in `temp_dir/name`, with links
    /// in `bin_path`.
    pub fn start(
        package: Package,
        reference: &PackageReference,
        force: bool,
        package_root: &str,
        temp_dir: &str,
        bin_path: &str,
    ) -> (r: Self)
        ensures
            r.wf(),
            r.package == package,
            r.force == force,
            r.package_dir@ == path_join(package_root@, dir_name_spec(reference.provider@, reference.name@)),
            r.work_dir@ == path_join(temp_dir@, reference.name@),
            r.bin_path@ == bin_path@,
            r.phase == first_phase(package),
            r.linked@.len() == 0,
            r.error is None,
    {
        proof {
            reveal_strlit("_");
            reveal_strlit("/");
        }
        let dir = join_with(reference.provider.as_str(), "_", reference.name.as_str());
        let package_dir = join_with(package_root, "/", dir.as_str());
        let work_dir = join_with(temp_dir, "/", reference.name.as_str());
        let phase = if package.url.is_some() {
            InstallPhase::Fetch
        } else if package.install_script.is_some() {
            InstallPhase::Script
        } else if package.binaries.len() > 0 {
            InstallPhase::Probe(0)
        } else {
            InstallPhase::Record
        };
        InstallSession {
            package,
            force,
            package_dir,
            work_dir,
            bin_path: String::from_str(bin_path),
            phase,
            linked: Vec::new(),
            error: None,
        }
    }

    fn fail(&mut self, e: PackageError)
        ensures
            final(self).phase == InstallPhase::Failed,
            final(self).error == Some(e),
            final(self).package == old(self).package,
            final(self).force == old(self).force,
            final(self).package_dir == old(self).package_dir,
            final(self).work_dir == old(self).work_dir,
            final(self).bin_path == old(self).bin_path,
            final(self).linked == old(self).linked,
    {
        self.phase = InstallPhase::Failed;
        self.error = Some(e);
    }

    /// Moves the session on by what the caller saw.
    pub fn on_event(&mut self, e: InstallEvent)
        requires
            old(self).wf(),
        ensures
            final(self).wf(),
            final(self).phase == next_phase(*old(self), e),
            final(self).linked_view() == links_after(*old(self), e),
            final(self).package == old(self).package,
            final(self).force == old(self).force,
            final(self).package_dir == old(self).package_dir,
            final(self).work_dir == old(self).work_dir,
            final(self).bin_path == old(self).bin_path,
            final(self).phase == InstallPhase::Failed && old(self).phase != InstallPhase::Failed
                ==> error_fits(*old(self), e, final(self).error),
            old(self).phase == InstallPhase::Failed ==> final(self).error == old(self).error,
            final(self).phase != InstallPhase::Failed ==> final(self).error == old(self).error,
    {
        proof {
            reveal_strlit("/");
        }
        match self.phase {
            InstallPhase::Succeeded => {
                return;
            },
            InstallPhase::Failed => {
                return;
            },
            _ => {},
        }
        let e = match e {
            InstallEvent::IoFailed(m) => {
                self.fail(PackageError::SystemError(m));
                return;
            },
            other => other,
        };
        match self.phase {
            InstallPhase::Fetch => {
                if let InstallEvent::Downloaded(b) = e {
                    match verify_checksum(&self.package.checksum, b.as_slice()) {
                        Err(err) => {
                            self.fail(err);
                            return;
                        },
                        Ok(()) => {},
                    }
                    match verify_signature(&self.package, b.as_slice()) {
                        Err(err) => {
                            self.fail(err);
                            return;
                        },
                        Ok(()) => {},
                    }
                    self.phase = InstallPhase::Extract;
                }
            },
            InstallPhase::Extract => {
                if let InstallEvent::Extracted(ok) = e {
                    if !ok {
                        self.fail(PackageError::ExtractionFailed);
                    } else if self.package.install_script.is_some() {
                        self.phase = InstallPhase::Script;
                    } else if self.package.binaries.len() > 0 {
                        self.phase = InstallPhase::Probe(0);
                    } else {
                        self.phase = InstallPhase::Record;
                    }
                }
            },
            InstallPhase::Script => {
                if let InstallEvent::ScriptFinished(ok, stderr) = e {
                    if !ok {
                        self.fail(PackageError::InstallScriptFailed(stderr));
                    } else if self.package.binaries.len() > 0 {
                        self.phase = InstallPhase::Probe(0);
                    } else {
                        self.phase = InstallPhase::Record;
                    }
                }
            },
            InstallPhase::Probe(i) => {
                if let InstallEvent::LinkProbed(exists) = e {
                    if exists && !self.force {
                        let b = self.package.binaries[i].clone();
                        self.fail(PackageError::BinaryExists(b));
                    } else {
                        self.phase = InstallPhase::Place(i, exists);
                    }
                }
            },
            InstallPhase::Place(i, _) => {
                if let InstallEvent::LinkPlaced = e {
                    assert(i < self.package.binaries@.len());
                    let ghost before = self.linked@;
                    let link = join_with(self.bin_path.as_str(), "/", self.package.binaries[i].as_str());
                    let ghost lk = link@;
                    assert(lk == link_path(*old(self), i as int));
                    self.linked.push(link);
                    proof {
                        assert(self.linked@.len() == before.len() + 1);
                        assert forall|k: int| 0 <= k < self.linked@.len() implies #[trigger] string_views(self.linked@)[k]
                            == string_views(before).push(lk)[k] by {
                            if k < before.len() {
                                assert(self.linked@[k] == before[k]);
                            }
                        }
                        assert(self.linked_view() =~= string_views(before).push(lk));
                    }
                    if i < self.package.binaries.len() - 1 {
                        self.phase = InstallPhase::Probe(i + 1);
                    } else {
                        self.phase = InstallPhase::Record;
                    }
                }
            },
            InstallPhase::Record => {
                if let InstallEvent::Recorded = e {
                    self.phase = InstallPhase::Succeeded;
                }
            },
            _ => {},
        }
    }

    /// The action that the session asks for in its phase.
    pub fn next_action(&self) -> (r: InstallAction)
        requires
            self.wf(),
        ensures
            action_fits(*self, r),
    {
        proof {
            reveal_strlit("/");
            reveal_strlit("package.tar.gz");
        }
        match self.phase {
            InstallPhase::Fetch => {
                let url = match &self.package.url {
                    Some(u) => u.clone(),
                    None => String::new(),
                };
                assert(self.package.url == Some(url));
                let dest = join_with(self.work_dir.as_str(), "/", "package.tar.gz");
                assert(dest@ == path_join(self.work_dir@, archive_name()));
                InstallAction::Download { url, dest }
            },
            InstallPhase::Extract => {
                let archive = join_with(self.work_dir.as_str(), "/", "package.tar.gz");
                assert(archive@ == path_join(self.work_dir@, archive_name()));
                InstallAction::Extract { archive, dest: self.package_dir.clone() }
            },
            InstallPhase::Script => {
                let script = match &self.package.install_script {
                    Some(sc) => sc.clone(),
                    None => String::new(),
                };
                InstallAction::RunScript { script, cwd: self.package_dir.clone() }
            },
            InstallPhase::Probe(i) => {
                let link = join_with(self.bin_path.as_str(), "/", self.package.binaries[i].as_str());
                assert(link@ == link_path(*self, i as int));
                InstallAction::ProbeLink(link)
            },
            InstallPhase::Place(i, replace) => {
                let source = join_with(self.package_dir.as_str(), "/", self.package.binaries[i].as_str());
                let link = join_with(self.bin_path.as_str(), "/", self.package.binaries[i].as_str());
                assert(source@ == source_path(*self, i as int));
                assert(link@ == link_path(*self, i as int));
                InstallAction::PlaceLink { source, link, replace }
            },
            InstallPhase::Record => InstallAction::Record,
            InstallPhase::Succeeded => InstallAction::Finish(Ok(())),
            InstallPhase::Failed => {
                let e = match &self.error {
                    Some(e) => e.duplicate(),
                    None => PackageError::ExtractionFailed,
                };
                InstallAction::Finish(Err(e))
            },
        }
    }
}

/// Checksum enforcement: a session that starts with a download has linked
/// nothing; when the downloaded bytes' digest differs from the declared
/// checksum it fails with `ChecksumMismatch`, still with nothing linked;
/// and a failed session stays failed and links nothing, whatever follows.
pub proof fn lemma_checksum_mismatch_links_nothing(s: InstallSession, e: InstallEvent)
    requires
        s.phase == InstallPhase::Fetch,
        s.linked@.len() == 0,
        match e {
            InstallEvent::Downloaded(b) => !checksum_ok(s.package.checksum, sha256_hex_of(b@)),
            _ => false,
        },
    ensures
        next_phase(s, e) == InstallPhase::Failed,
        links_after(s, e).len() == 0,
        forall|err: Option<PackageError>| #[trigger] error_fits(s, e, err) ==> (err matches Some(
            PackageError::ChecksumMismatch { .. },
        )),
        forall|t: InstallSession, e2: InstallEvent|
            t.phase == InstallPhase::Failed ==> #[trigger] next_phase(t, e2) == InstallPhase::Failed
                && links_after(t, e2) == string_views(t.linked@),
{
}

/// Force-overwrite semantics: when the link of a binary already exists, the
/// session fails with `BinaryExists` for it unless forced; forced, it goes on
/// to place the link over the existing one.
pub proof fn lemma_force_overwrite(s: InstallSession, i: usize)
    requires
        s.wf(),
        s.phase == InstallPhase::Probe(i),
    ensures
        !s.force ==> next_phase(s, InstallEvent::LinkProbed(true)) == InstallPhase::Failed
            && forall|err: Option<PackageError>|
            #[trigger] error_fits(s, InstallEvent::LinkProbed(true), err) ==> err == Some(
                PackageError::BinaryExists(s.package.binaries@[i as int]),
            ),
        s.force ==> next_phase(s, InstallEvent::LinkProbed(true)) == InstallPhase::Place(i, true),
        forall|t: InstallSession, a: InstallAction|
            t.phase == InstallPhase::Place(i, true) && #[trigger] action_fits(t, a) ==> (match a {
                InstallAction::PlaceLink { source, link, replace } => replace && link@ == link_path(
                    t,
                    i as int,
                ) && source@ == source_path(t, i as int),
                _ => false,
            }),
{
}

} // verus!
