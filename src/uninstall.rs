//! The uninstall pipeline, as decisions: the package directory is copied
//! to a backup first; then the links, the directory, the scratch directory
//! and the registry entry are removed. A failed link removal is passed
//! over; any other failure brings the backup back before the session ends.
use vstd::prelude::*;

use crate::install::PackageError;
use crate::models::{Package, PackageReference};
use crate::registry::{dir_name_spec, path_join};
use crate::text::join_with;

verus! {

/// Where an uninstall session stands.
#[derive(Debug, Clone, Copy, PartialEq, Eq, Structural)]
pub enum UninstallPhase {
    /// Copy the package directory to its backup.
    Backup,
    /// Remove the link of the binary at this position.
    RemoveLink(usize),
    RemoveDir,
    /// Remove the package's scratch directory.
    CleanupScratch,
    /// Remove the package's entry from the registry index.
    UpdateRegistry,
    /// Delete the backup after success.
    DropBackup,
    /// Bring the backup back after a failure.
    Restore,
    Succeeded,
    Failed,
}

/// Whether the caller's last action succeeded.
#[derive(Debug)]
pub enum UninstallEvent {
    Done,
    Failed(String),
}

/// What the session asks the caller to do next.
#[derive(Debug)]
pub enum UninstallAction {
    CopyToBackup { from: String, to: String },
    RemoveLink(String),
    RemoveDir(String),
    RemoveScratch(String),
    RemoveRegistryEntry { index: String, key: String },
    RemoveBackup(String),
    RestoreFromBackup { backup: String, to: String },
    Finish(Result<(), PackageError>),
}

/// Where the package manager keeps what it uninstalls from.
#[derive(Debug)]
pub struct PackageUninstaller {
    pub package_root: String,
    pub bin_path: String,
    pub goinfre: String,
    pub registry_path: String,
}

/// One uninstall attempt of one package.
#[derive(Debug)]
pub struct UninstallSession {
    pub package: Package,
    pub package_dir: String,
    pub backup_dir: String,
    pub scratch_dir: String,
    pub bin_path: String,
    pub registry_path: String,
    pub registry_key: String,
    pub phase: UninstallPhase,
    /// The failure that the session restores after.
    pub error: Option<PackageError>,
    /// What the session ends with when it fails.
    pub outcome: Option<PackageError>,
}

/// The first link to remove, or the directory when there is none.
pub open spec fn links_from(p: Package, i: int) -> UninstallPhase {
    if i < p.binaries@.len() {
        UninstallPhase::RemoveLink(i as usize)
    } else {
        UninstallPhase::RemoveDir
    }
}

/// Whether a phase removes something that the backup must bring back.
pub open spec fn destructive(ph: UninstallPhase) -> bool {
    ph == UninstallPhase::RemoveDir || ph == UninstallPhase::CleanupScratch || ph == UninstallPhase::UpdateRegistry
}

/// The error of a failed destructive step.
pub open spec fn step_error(ph: UninstallPhase, m: String) -> PackageError {
    match ph {
        UninstallPhase::RemoveDir => PackageError::RemovalFailed(m),
        UninstallPhase::CleanupScratch => PackageError::GoinfreCleanupFailed(m),
        _ => PackageError::RegistryUpdateFailed(m),
    }
}

/// The phase that an event leads to.
pub open spec fn next_phase(s: UninstallSession, e: UninstallEvent) -> UninstallPhase {
    match s.phase {
        UninstallPhase::Backup => if e is Done {
            links_from(s.package, 0)
        } else {
            UninstallPhase::Failed
        },
        UninstallPhase::RemoveLink(i) => links_from(s.package, i + 1),
        UninstallPhase::RemoveDir => if e is Done {
            UninstallPhase::CleanupScratch
        } else {
            UninstallPhase::Restore
        },
        UninstallPhase::CleanupScratch => if e is Done {
            UninstallPhase::UpdateRegistry
        } else {
            UninstallPhase::Restore
        },
        UninstallPhase::UpdateRegistry => if e is Done {
            UninstallPhase::DropBackup
        } else {
            UninstallPhase::Restore
        },
        UninstallPhase::DropBackup => UninstallPhase::Succeeded,
        UninstallPhase::Restore => UninstallPhase::Failed,
        UninstallPhase::Succeeded => UninstallPhase::Succeeded,
        UninstallPhase::Failed => UninstallPhase::Failed,
    }
}

/// The failure that a session restores after, once an event is seen.
pub open spec fn error_after(s: UninstallSession, e: UninstallEvent) -> Option<PackageError> {
    match e {
        UninstallEvent::Failed(m) => if destructive(s.phase) {
            Some(step_error(s.phase, m))
        } else {
            s.error
        },
        UninstallEvent::Done => s.error,
    }
}

/// What a session ends with when it fails, once an event is seen: a failed
/// backup ends it at once; after a restore, the failure that caused it, or
/// the restore's own failure, which is the graver.
pub open spec fn outcome_after(s: UninstallSession, e: UninstallEvent) -> Option<PackageError> {
    match s.phase {
        UninstallPhase::Backup => match e {
            UninstallEvent::Failed(m) => Some(PackageError::BackupFailed(m)),
            UninstallEvent::Done => s.outcome,
        },
        UninstallPhase::Restore => match e {
            UninstallEvent::Failed(m) => Some(PackageError::RestoreFailed(m)),
            UninstallEvent::Done => s.error,
        },
        _ => s.outcome,
    }
}

/// The link of the binary at `i`.
pub open spec fn unlink_path(s: UninstallSession, i: int) -> Seq<char> {
    path_join(s.bin_path@, s.package.binaries@[i]@)
}

/// The action that a session in a given phase asks for.
pub open spec fn action_fits(s: UninstallSession, a: UninstallAction) -> bool {
    match s.phase {
        UninstallPhase::Backup => a == UninstallAction::CopyToBackup { from: s.package_dir, to: s.backup_dir },
        UninstallPhase::RemoveLink(i) => match a {
            UninstallAction::RemoveLink(l) => l@ == unlink_path(s, i as int),
            _ => false,
        },
        UninstallPhase::RemoveDir => a == UninstallAction::RemoveDir(s.package_dir),
        UninstallPhase::CleanupScratch => a == UninstallAction::RemoveScratch(s.scratch_dir),
        UninstallPhase::UpdateRegistry => a == UninstallAction::RemoveRegistryEntry {
            index: s.registry_path,
            key: s.registry_key,
        },
        UninstallPhase::DropBackup => a == UninstallAction::RemoveBackup(s.backup_dir),
        UninstallPhase::Restore => a == UninstallAction::RestoreFromBackup { backup: s.backup_dir, to: s.package_dir },
        UninstallPhase::Succeeded => a == UninstallAction::Finish(Ok(())),
        UninstallPhase::Failed => match (a, s.outcome) {
            (UninstallAction::Finish(Err(e1)), Some(e2)) => e1 == e2,
            _ => false,
        },
    }
}

impl PackageUninstaller {
    pub fn new(package_root: String, bin_path: String, goinfre: String, registry_path: String) -> (r: Self)
        ensures
            r.package_root == package_root,
            r.bin_path == bin_path,
            r.goinfre == goinfre,
            r.registry_path == registry_path,
    {
        PackageUninstaller { package_root, bin_path, goinfre, registry_path }
    }

    /// The directory of an installed package: `package_root/provider_name`.
    pub fn get_package_directory(&self, reference: &PackageReference) -> (r: String)
        ensures
            r@ == path_join(self.package_root@, dir_name_spec(reference.provider@, reference.name@)),
    {
        proof {
            reveal_strlit("_");
            reveal_strlit("/");
        }
        let dir = join_with(reference.provider.as_str(), "_", reference.name.as_str());
        join_with(self.package_root.as_str(), "/", dir.as_str())
    }

    /// The backup of a package directory: the same name with a
    /// `.backup_version` suffix.
    pub fn get_backup_directory(&self, reference: &PackageReference, package: &Package) -> (r: String)
        ensures
            r@ == path_join(self.package_root@, dir_name_spec(reference.provider@, reference.name@)) + ".backup_"@
                + package.version@,
    {
        let dir = self.get_package_directory(reference);
        join_with(dir.as_str(), ".backup_", package.version.as_str())
    }

    /// Starts uninstalling the package of `reference`, given its installed
    /// manifest; without one the package is not installed.
    pub fn begin(&self, reference: &PackageReference, manifest: Option<Package>) -> (r: Result<UninstallSession, PackageError>)
        ensures
            manifest is None ==> (match r {
                Err(PackageError::NotFound(n)) => n == reference.name,
                _ => false,
            }),
            match manifest {
                Some(p) => match r {
                    Ok(s) => {
                        &&& s.package == p
                        &&& s.phase == UninstallPhase::Backup
                        &&& s.error is None
                        &&& s.outcome is None
                        &&& s.package_dir@ == path_join(self.package_root@, dir_name_spec(reference.provider@, reference.name@))
                        &&& s.backup_dir@ == s.package_dir@ + ".backup_"@ + p.version@
                        &&& s.scratch_dir@ == path_join(self.goinfre@, reference.name@)
                        &&& s.bin_path == self.bin_path
                        &&& s.registry_path == self.registry_path
                        &&& s.registry_key@ == reference.provider@ + seq![':'] + reference.name@
                    },
                    Err(_) => false,
                },
                None => true,
            },
    {
        proof {
            reveal_strlit("/");
        }
        let package = match manifest {
            Some(p) => p,
            None => {
                return Err(PackageError::NotFound(reference.name.clone()));
            },
        };
        let package_dir = self.get_package_directory(reference);
        let backup_dir = self.get_backup_directory(reference, &package);
        let scratch_dir = join_with(self.goinfre.as_str(), "/", reference.name.as_str());
        Ok(UninstallSession {
            package,
            package_dir,
            backup_dir,
            scratch_dir,
            bin_path: self.bin_path.clone(),
            registry_path: self.registry_path.clone(),
            registry_key: reference.to_text(),
            phase: UninstallPhase::Backup,
            error: None,
            outcome: None,
        })
    }
}

impl UninstallSession {
    /// A link step names a binary.
    pub open spec fn wf(&self) -> bool {
        match self.phase {
            UninstallPhase::RemoveLink(i) => i < self.package.binaries@.len(),
            UninstallPhase::Failed => self.outcome is Some,
            UninstallPhase::Restore => self.error is Some,
            _ => true,
        }
    }

    /// Moves the session on by what the caller saw.
    pub fn on_event(&mut self, e: UninstallEvent)
        requires
            old(self).wf(),
        ensures
            final(self).wf(),
            final(self).phase == next_phase(*old(self), e),
            final(self).error == error_after(*old(self), e),
            final(self).outcome == outcome_after(*old(self), e),
            final(self).package == old(self).package,
            final(self).package_dir == old(self).package_dir,
            final(self).backup_dir == old(self).backup_dir,
            final(self).scratch_dir == old(self).scratch_dir,
            final(self).bin_path == old(self).bin_path,
            final(self).registry_path == old(self).registry_path,
            final(self).registry_key == old(self).registry_key,
    {
        let n = self.package.binaries.len();
        match self.phase {
            UninstallPhase::Backup => match e {
                UninstallEvent::Done => {
                    self.phase = if n > 0 {
                        UninstallPhase::RemoveLink(0)
                    } else {
                        UninstallPhase::RemoveDir
                    };
                },
                UninstallEvent::Failed(m) => {
                    self.outcome = Some(PackageError::BackupFailed(m));
                    self.phase = UninstallPhase::Failed;
                },
            },
            UninstallPhase::RemoveLink(i) => {
                self.phase = if i < n - 1 {
                    UninstallPhase::RemoveLink(i + 1)
                } else {
                    UninstallPhase::RemoveDir
                };
            },
            UninstallPhase::RemoveDir => match e {
                UninstallEvent::Done => {
                    self.phase = UninstallPhase::CleanupScratch;
                },
                UninstallEvent::Failed(m) => {
                    self.error = Some(PackageError::RemovalFailed(m));
                    self.phase = UninstallPhase::Restore;
                },
            },
            UninstallPhase::CleanupScratch => match e {
                UninstallEvent::Done => {
                    self.phase = UninstallPhase::UpdateRegistry;
                },
                UninstallEvent::Failed(m) => {
                    self.error = Some(PackageError::GoinfreCleanupFailed(m));
                    self.phase = UninstallPhase::Restore;
                },
            },
            UninstallPhase::UpdateRegistry => match e {
                UninstallEvent::Done => {
                    self.phase = UninstallPhase::DropBackup;
                },
                UninstallEvent::Failed(m) => {
                    self.error = Some(PackageError::RegistryUpdateFailed(m));
                    self.phase = UninstallPhase::Restore;
                },
            },
            UninstallPhase::DropBackup => {
                self.phase = UninstallPhase::Succeeded;
            },
            UninstallPhase::Restore => {
                match e {
                    UninstallEvent::Done => {
                        self.outcome = match &self.error {
                            Some(err) => Some(err.duplicate()),
                            None => None,
                        };
                    },
                    UninstallEvent::Failed(m) => {
                        self.outcome = Some(PackageError::RestoreFailed(m));
                    },
                }
                self.phase = UninstallPhase::Failed;
            },
            UninstallPhase::Succeeded => {},
            UninstallPhase::Failed => {},
        }
    }

    /// The action that the session asks for in its phase.
    pub fn next_action(&self) -> (r: UninstallAction)
        requires
            self.wf(),
        ensures
            action_fits(*self, r),
    {
        proof {
            reveal_strlit("/");
        }
        match self.phase {
            UninstallPhase::Backup => UninstallAction::CopyToBackup {
                from: self.package_dir.clone(),
                to: self.backup_dir.clone(),
            },
            UninstallPhase::RemoveLink(i) => {
                let l = join_with(self.bin_path.as_str(), "/", self.package.binaries[i].as_str());
                assert(l@ == unlink_path(*self, i as int));
                UninstallAction::RemoveLink(l)
            },
            UninstallPhase::RemoveDir => UninstallAction::RemoveDir(self.package_dir.clone()),
            UninstallPhase::CleanupScratch => UninstallAction::RemoveScratch(self.scratch_dir.clone()),
            UninstallPhase::UpdateRegistry => UninstallAction::RemoveRegistryEntry {
                index: self.registry_path.clone(),
                key: self.registry_key.clone(),
            },
            UninstallPhase::DropBackup => UninstallAction::RemoveBackup(self.backup_dir.clone()),
            UninstallPhase::Restore => UninstallAction::RestoreFromBackup {
                backup: self.backup_dir.clone(),
                to: self.package_dir.clone(),
            },
            UninstallPhase::Succeeded => UninstallAction::Finish(Ok(())),
            UninstallPhase::Failed => {
                let e = match &self.outcome {
                    Some(e) => e.duplicate(),
                    None => PackageError::RestoreFailed(String::new()),
                };
                UninstallAction::Finish(Err(e))
            },
        }
    }
}

/// Uninstall restore: when a step that removes part of the package fails,
/// the session turns to restoring the package directory from its backup,
/// copied before any removal; once that is done it fails with the first
/// error, or with the restore's own failure when the restore fails too.
pub proof fn lemma_uninstall_restore(s: UninstallSession, m: String, t: UninstallSession, m2: String)
    requires
        destructive(s.phase),
        t.phase == UninstallPhase::Restore,
    ensures
        next_phase(s, UninstallEvent::Failed(m)) == UninstallPhase::Restore,
        error_after(s, UninstallEvent::Failed(m)) == Some(step_error(s.phase, m)),
        forall|a: UninstallAction|
            #[trigger] action_fits(t, a) ==> a == (UninstallAction::RestoreFromBackup {
                backup: t.backup_dir,
                to: t.package_dir,
            }),
        next_phase(t, UninstallEvent::Done) == UninstallPhase::Failed,
        outcome_after(t, UninstallEvent::Done) == t.error,
        next_phase(t, UninstallEvent::Failed(m2)) == UninstallPhase::Failed,
        outcome_after(t, UninstallEvent::Failed(m2)) == Some(PackageError::RestoreFailed(m2)),
{
}

} // verus!
