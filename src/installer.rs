//! What is installed, and the decisions around installing from the users'
//! repositories: which package a request finds, which of its dependencies
//! must be installed first, where its files go, and whether an upgrade is
//! due.
use vstd::prelude::*;

use crate::error::InstallationError;
use crate::models::string_views;
use crate::registry::{file_name, file_name_spec, path_join};
use crate::repository::{
    copy_strings, entry_of, hits, index_names, lookup_spec, opt_view, Package, Repository, RepositoryManager,
};
use crate::text::{join_with, lemma_push_unique, lemma_remove_unique, str_eq};
use crate::version::{is_newer_version, parses_as_version, semver_newer, semver_valid};

verus! {

/// What is recorded of an installed package.
#[derive(Debug)]
pub struct InstallationMetadata {
    pub installed_version: String,
    pub installed_from: String,
    /// Seconds since the Unix epoch.
    pub install_date: i64,
    pub files: Vec<String>,
}

/// Installs packages from the users' repositories and keeps the record of
/// what is installed, one entry per package name.
#[derive(Debug)]
pub struct PackageInstaller {
    pub repo_manager: RepositoryManager,
    pub bin_path: String,
    pub temp_path: String,
    pub installed_packages: Vec<(String, InstallationMetadata)>,
}

/// Where one file of a package goes: from the repository, through the
/// work directory, into the binaries directory.
#[derive(Debug)]
pub struct FileCopy {
    pub source: String,
    pub staged: String,
    pub target: String,
}

/// What installing a request takes.
#[derive(Debug)]
pub struct InstallPlan {
    /// The user whose repository holds the package.
    pub username: String,
    pub package: Package,
    /// The package's dependencies that are not installed yet, in order.
    pub missing_dependencies: Vec<String>,
    pub work_dir: String,
    pub copies: Vec<FileCopy>,
}

impl InstallPlan {
    /// The record of a finished install: the package's version, the user it
    /// came from, the time, and every file placed in the binaries directory.
    pub fn record(&self, install_date: i64) -> (r: InstallationMetadata)
        ensures
            r.installed_version == self.package.version,
            r.installed_from == self.username,
            r.install_date == install_date,
            r.files@.len() == self.copies@.len(),
            forall|k: int| 0 <= k < self.copies@.len() ==> #[trigger] r.files@[k] == self.copies@[k].target,
    {
        let mut files: Vec<String> = Vec::new();
        let mut k: usize = 0;
        while k < self.copies.len()
            invariant
                k <= self.copies@.len(),
                files@.len() == k,
                forall|t: int| 0 <= t < k ==> #[trigger] files@[t] == self.copies@[t].target,
            decreases self.copies@.len() - k,
        {
            files.push(self.copies[k].target.clone());
            k = k + 1;
        }
        InstallationMetadata {
            installed_version: self.package.version.clone(),
            installed_from: self.username.clone(),
            install_date,
            files,
        }
    }
}

/// The names of the installed packages, in order.
pub open spec fn installed_names(v: Seq<(String, InstallationMetadata)>) -> Seq<Seq<char>> {
    v.map_values(|e: (String, InstallationMetadata)| e.0@)
}

/// The dependencies that are not installed, in order.
pub open spec fn missing_spec(deps: Seq<String>, installed: Seq<(String, InstallationMetadata)>) -> Seq<Seq<char>>
    decreases deps.len(),
{
    if deps.len() == 0 {
        Seq::empty()
    } else {
        let rest = missing_spec(deps.drop_last(), installed);
        if installed_names(installed).contains(deps.last()@) {
            rest
        } else {
            rest.push(deps.last()@)
        }
    }
}

/// The text that names a request in an error: `name@version`, or
/// `name@latest`.
pub open spec fn request_text(name: Seq<char>, version: Option<Seq<char>>) -> Seq<char> {
    name + "@"@ + match version {
        Some(v) => v,
        None => "latest"@,
    }
}

/// Where the files of a package version lie in a user's repository.
pub open spec fn repo_files_dir(root: Seq<char>, user: Seq<char>, p: Package) -> Seq<char> {
    path_join(path_join(path_join(path_join(root, user), "packages"@), p.name@), p.version@)
}

/// The recorded version of `name`, from its first record.
pub open spec fn installed_version_spec(v: Seq<(String, InstallationMetadata)>, name: Seq<char>) -> Option<Seq<char>> {
    if exists|i: int| 0 <= i < v.len() && v[i].0@ == name {
        let i = choose|i: int| 0 <= i < v.len() && v[i].0@ == name && forall|j: int| 0 <= j < i ==> v[j].0@ != name;
        Some(v[i].1.installed_version@)
    } else {
        None
    }
}

/// What an upgrade check of `name` gives, from its recorded version `cur`
/// and the search hits `hs` for its latest version: not found without a
/// record or a hit; a failure when either version is not a semantic version;
/// else the latest version when it is strictly newer, or nothing.
pub open spec fn upgrade_fits(
    r: Result<Option<String>, InstallationError>,
    name: Seq<char>,
    cur: Option<Seq<char>>,
    hs: Seq<(Seq<char>, Package)>,
) -> bool {
    match cur {
        None => match r {
            Err(InstallationError::PackageNotFound(n)) => n@ == name,
            _ => false,
        },
        Some(c) => if hs.len() == 0 {
            match r {
                Err(InstallationError::PackageNotFound(n)) => n@ == name,
                _ => false,
            }
        } else if !semver_valid(c) || !semver_valid(hs[0].1.version@) {
            r matches Err(InstallationError::InstallationFailed(_))
        } else if semver_newer(c, hs[0].1.version@) {
            match r {
                Ok(Some(l)) => l@ == hs[0].1.version@,
                _ => false,
            }
        } else {
            r == Ok::<Option<String>, InstallationError>(None)
        },
    }
}

proof fn lemma_first_installed(v: Seq<(String, InstallationMetadata)>, name: Seq<char>, i: int)
    requires
        0 <= i < v.len(),
        v[i].0@ == name,
        forall|j: int| 0 <= j < i ==> v[j].0@ != name,
    ensures
        installed_version_spec(v, name) == Some(v[i].1.installed_version@),
{
    let k = choose|k: int| 0 <= k < v.len() && v[k].0@ == name && forall|j: int| 0 <= j < k ==> v[j].0@ != name;
    if k < i {
        assert(v[k].0@ != name);
    } else if k > i {
        assert(v[i].0@ != name);
    }
}

/// Every package name that the repositories' indexes hold, repository by
/// repository.
pub open spec fn all_index_names(repos: Seq<(String, Repository)>) -> Seq<Seq<char>>
    decreases repos.len(),
{
    if repos.len() == 0 {
        Seq::empty()
    } else {
        all_index_names(repos.drop_last()) + index_names(repos.last().1.index@)
    }
}

/// Whether the name `d` is resolved or waits to be.
pub open spec fn covered(names: Seq<(String, Package)>, pending: Seq<String>, d: Seq<char>) -> bool {
    (exists|k: int| 0 <= k < names.len() && #[trigger] names[k].0@ == d) || string_views(pending).contains(d)
}

/// The dependency names that a resolution holds, in order.
pub open spec fn resolved_names(v: Seq<(String, Package)>) -> Seq<Seq<char>> {
    v.map_values(|e: (String, Package)| e.0@)
}

/// When some entry of an index has a name, a first one has it.
proof fn lemma_first_exists(idx: Seq<(String, Vec<Package>)>, n: Seq<char>, i: int)
    requires
        0 <= i < idx.len(),
        idx[i].0@ == n,
    ensures
        exists|k: int| 0 <= k < idx.len() && idx[k].0@ == n && forall|j: int| 0 <= j < k ==> idx[j].0@ != n,
    decreases i,
{
    if exists|j: int| 0 <= j < i && idx[j].0@ == n {
        let j = choose|j: int| 0 <= j < i && idx[j].0@ == n;
        lemma_first_exists(idx, n, j);
    } else {
        assert(forall|j: int| 0 <= j < i ==> idx[j].0@ != n);
    }
}

/// A chain of dependency names from `package`: its first name is one of the
/// package's dependencies, and each next name is a dependency of the
/// package that a search finds first for the name before it.
pub open spec fn name_chain(repos: Seq<(String, Repository)>, package: Package, w: Seq<Seq<char>>) -> bool {
    &&& w.len() > 0
    &&& string_views(package.dependencies@).contains(w[0])
    &&& forall|i: int|
        0 <= i < w.len() - 1 ==> hits(repos, #[trigger] w[i], None).len() > 0 && string_views(
            hits(repos, w[i], None)[0].1.dependencies@,
        ).contains(w[i + 1])
}

/// Whether the dependency name `n` is reached from `package`.
pub open spec fn name_reachable(repos: Seq<(String, Repository)>, package: Package, n: Seq<char>) -> bool {
    exists|w: Seq<Seq<char>>| #[trigger] name_chain(repos, package, w) && w.last() == n
}

proof fn lemma_chain_extend(repos: Seq<(String, Repository)>, package: Package, x: Seq<char>, y: Seq<char>)
    requires
        name_reachable(repos, package, x),
        hits(repos, x, None).len() > 0,
        string_views(hits(repos, x, None)[0].1.dependencies@).contains(y),
    ensures
        name_reachable(repos, package, y),
{
    let w = choose|w: Seq<Seq<char>>| #[trigger] name_chain(repos, package, w) && w.last() == x;
    let v = w.push(y);
    assert forall|i: int| 0 <= i < v.len() - 1 implies hits(repos, #[trigger] v[i], None).len() > 0 && string_views(
        hits(repos, v[i], None)[0].1.dependencies@,
    ).contains(v[i + 1]) by {
        if i < w.len() - 1 {
            assert(v[i] == w[i] && v[i + 1] == w[i + 1]);
        } else {
            assert(v[i] == x && v[i + 1] == y);
        }
    }
    assert(v[0] == w[0]);
    assert(name_chain(repos, package, v));
}

/// A set of names that holds the package's dependencies and, for each of its
/// names, the dependencies of that name's first hit, holds every name that
/// is reached from the package.
proof fn lemma_closure_covers(
    repos: Seq<(String, Repository)>,
    package: Package,
    v: Seq<(String, Package)>,
    w: Seq<Seq<char>>,
)
    requires
        forall|d: int|
            0 <= d < package.dependencies@.len() ==> resolved_names(v).contains(#[trigger] package.dependencies@[d]@),
        forall|k: int|
            0 <= k < v.len() ==> hits(repos, #[trigger] v[k].0@, None).len() > 0 && v[k].1.same(
                hits(repos, v[k].0@, None)[0].1,
            ),
        forall|k: int, d: int|
            0 <= k < v.len() && 0 <= d < v[k].1.dependencies@.len() ==> resolved_names(v).contains(
                #[trigger] v[k].1.dependencies@[d]@,
            ),
        name_chain(repos, package, w),
    ensures
        resolved_names(v).contains(w.last()),
    decreases w.len(),
{
    if w.len() == 1 {
        let d = choose|d: int| 0 <= d < string_views(package.dependencies@).len() && string_views(package.dependencies@)[d] == w[0];
        assert(package.dependencies@[d]@ == w[0]);
    } else {
        let u = w.drop_last();
        assert forall|i: int| 0 <= i < u.len() - 1 implies hits(repos, #[trigger] u[i], None).len() > 0 && string_views(
            hits(repos, u[i], None)[0].1.dependencies@,
        ).contains(u[i + 1]) by {
            assert(u[i] == w[i] && u[i + 1] == w[i + 1]);
        }
        assert(name_chain(repos, package, u));
        lemma_closure_covers(repos, package, v, u);
        let x = w[w.len() - 2];
        assert(u.last() == x);
        let k = choose|k: int| 0 <= k < resolved_names(v).len() && resolved_names(v)[k] == x;
        assert(v[k].0@ == x);
        assert(hits(repos, w[w.len() - 2], None).len() > 0);
        let deps = hits(repos, x, None)[0].1.dependencies@;
        assert(v[k].1.dependencies@ == deps);
        let d = choose|d: int| 0 <= d < string_views(deps).len() && string_views(deps)[d] == w.last();
        assert(v[k].1.dependencies@[d]@ == w.last());
    }
}

/// A name that a search finds is a name of some repository's index.
proof fn lemma_hit_named(repos: Seq<(String, Repository)>, n: Seq<char>)
    requires
        hits(repos, n, None).len() > 0,
    ensures
        all_index_names(repos).contains(n),
    decreases repos.len(),
{
    let a = all_index_names(repos.drop_last());
    let idx = repos.last().1.index@;
    if lookup_spec(idx, n, None) is Some {
        assert(entry_of(idx, n) is Some);
        assert(exists|i: int| 0 <= i < idx.len() && idx[i].0@ == n);
        let i0 = choose|i: int| 0 <= i < idx.len() && idx[i].0@ == n;
        lemma_first_exists(idx, n, i0);
        let i = entry_of(idx, n).unwrap();
        assert(idx[i].0@ == n);
        assert(index_names(idx)[i] == n);
        assert(all_index_names(repos)[a.len() + i] == n);
    } else {
        lemma_hit_named(repos.drop_last(), n);
        let k = choose|k: int| 0 <= k < a.len() && a[k] == n;
        assert(all_index_names(repos)[k] == n);
    }
}

/// Distinct names, each among those of `t`, are no more than `t` holds.
proof fn lemma_distinct_within(s: Seq<Seq<char>>, t: Seq<Seq<char>>)
    requires
        s.no_duplicates(),
        forall|i: int| 0 <= i < s.len() ==> t.contains(#[trigger] s[i]),
    ensures
        s.len() <= t.len(),
{
    broadcast use vstd::seq_lib::seq_to_set_is_finite;
    s.unique_seq_to_set();
    t.lemma_cardinality_of_set();
    assert(s.to_set().subset_of(t.to_set())) by {
        assert forall|x: Seq<char>| s.to_set().contains(x) implies t.to_set().contains(x) by {
            let i = choose|i: int| 0 <= i < s.len() && s[i] == x;
            assert(t.contains(s[i]));
        }
    }
    vstd::set_lib::lemma_len_subset(s.to_set(), t.to_set());
}

fn find_installed(v: &Vec<(String, InstallationMetadata)>, name: &str) -> (r: Option<usize>)
    ensures
        match r {
            Some(i) => i < v@.len() && v@[i as int].0@ == name@ && forall|j: int| 0 <= j < i ==> v@[j].0@ != name@,
            None => !installed_names(v@).contains(name@),
        },
{
    let mut i: usize = 0;
    while i < v.len()
        invariant
            i <= v@.len(),
            forall|j: int| 0 <= j < i ==> v@[j].0@ != name@,
        decreases v@.len() - i,
    {
        if str_eq(v[i].0.as_str(), name) {
            return Some(i);
        }
        i = i + 1;
    }
    proof {
        if installed_names(v@).contains(name@) {
            let j = choose|j: int| 0 <= j < installed_names(v@).len() && installed_names(v@)[j] == name@;
            assert(v@[j].0@ == name@);
        }
    }
    None
}

impl PackageInstaller {
    /// An installer over the given repositories and paths, with the record
    /// loaded from its metadata file.
    pub fn new(
        repo_manager: RepositoryManager,
        bin_path: String,
        temp_path: String,
        installed_packages: Vec<(String, InstallationMetadata)>,
    ) -> (r: Self)
        ensures
            r.repo_manager == repo_manager,
            r.bin_path == bin_path,
            r.temp_path == temp_path,
            r.installed_packages == installed_packages,
    {
        PackageInstaller { repo_manager, bin_path, temp_path, installed_packages }
    }

    /// Each package name is recorded once.
    pub open spec fn wf(&self) -> bool {
        installed_names(self.installed_packages@).no_duplicates()
    }

    /// The file that holds the record: `temp_path/installed_packages.toml`.
    pub fn metadata_path(&self) -> (r: String)
        ensures
            r@ == path_join(self.temp_path@, "installed_packages.toml"@),
    {
        proof {
            reveal_strlit("/");
        }
        join_with(self.temp_path.as_str(), "/", "installed_packages.toml")
    }

    /// Whether a package of this name is installed.
    pub fn is_package_installed(&self, name: &str) -> (r: bool)
        ensures
            r == installed_names(self.installed_packages@).contains(name@),
    {
        match find_installed(&self.installed_packages, name) {
            Some(i) => {
                assert(installed_names(self.installed_packages@)[i as int] == name@);
                true
            },
            None => false,
        }
    }

    /// The installed version of a package.
    pub fn get_installed_version(&self, name: &str) -> (r: Option<&str>)
        ensures
            match r {
                Some(v) => installed_names(self.installed_packages@).contains(name@) && installed_version_spec(
                    self.installed_packages@,
                    name@,
                ) == Some(v@),
                None => !installed_names(self.installed_packages@).contains(name@) && installed_version_spec(
                    self.installed_packages@,
                    name@,
                ) is None,
            },
    {
        match find_installed(&self.installed_packages, name) {
            Some(i) => {
                assert(installed_names(self.installed_packages@)[i as int] == name@);
                proof {
                    lemma_first_installed(self.installed_packages@, name@, i as int);
                }
                Some(self.installed_packages[i].1.installed_version.as_str())
            },
            None => {
                proof {
                    if exists|i: int| 0 <= i < self.installed_packages@.len() && self.installed_packages@[i].0@ == name@ {
                        let i = choose|i: int| 0 <= i < self.installed_packages@.len() && self.installed_packages@[i].0@ == name@;
                        assert(installed_names(self.installed_packages@)[i] == name@);
                    }
                }
                None
            },
        }
    }

    /// Records an installation, replacing any earlier record of the name.
    pub fn record_installation(&mut self, name: String, metadata: InstallationMetadata)
        ensures
            old(self).wf() ==> final(self).wf(),
            final(self).repo_manager == old(self).repo_manager,
            final(self).bin_path == old(self).bin_path,
            final(self).temp_path == old(self).temp_path,
            !installed_names(old(self).installed_packages@).contains(name@) ==> final(self).installed_packages@
                == old(self).installed_packages@.push((name, metadata)),
            installed_names(old(self).installed_packages@).contains(name@) ==> exists|i: int|
                0 <= i < old(self).installed_packages@.len() && old(self).installed_packages@[i].0@ == name@
                    && final(self).installed_packages@ == old(self).installed_packages@.update(i, (name, metadata)),
    {
        match find_installed(&self.installed_packages, name.as_str()) {
            Some(i) => {
                assert(installed_names(self.installed_packages@)[i as int] == name@);
                let ghost before = self.installed_packages@;
                let _ = self.installed_packages.remove(i);
                self.installed_packages.insert(i, (name, metadata));
                assert(self.installed_packages@ =~= before.update(i as int, (name, metadata)));
                assert(installed_names(self.installed_packages@) =~= installed_names(before));
            },
            None => {
                let ghost before = self.installed_packages@;
                let ghost key = name@;
                self.installed_packages.push((name, metadata));
                proof {
                    assert(installed_names(self.installed_packages@) =~= installed_names(before).push(key));
                    if installed_names(before).no_duplicates() {
                        lemma_push_unique(installed_names(before), key);
                    }
                }
            },
        }
    }

    /// Forgets an installed package and hands back its record, whose files
    /// the caller removes.
    pub fn remove_installation(&mut self, name: &str) -> (r: Result<InstallationMetadata, InstallationError>)
        ensures
            old(self).wf() ==> final(self).wf(),
            final(self).repo_manager == old(self).repo_manager,
            !installed_names(old(self).installed_packages@).contains(name@) ==> (r matches Err(
                InstallationError::PackageNotFound(n),
            ) && n@ == name@) && final(self).installed_packages@ == old(self).installed_packages@,
            installed_names(old(self).installed_packages@).contains(name@) ==> exists|i: int|
                0 <= i < old(self).installed_packages@.len() && old(self).installed_packages@[i].0@ == name@
                    && (forall|j: int| 0 <= j < i ==> old(self).installed_packages@[j].0@ != name@)
                    && final(self).installed_packages@ == old(self).installed_packages@.remove(i)
                    && r == Ok::<InstallationMetadata, InstallationError>(old(self).installed_packages@[i].1),
    {
        match find_installed(&self.installed_packages, name) {
            Some(i) => {
                assert(installed_names(self.installed_packages@)[i as int] == name@);
                let ghost before = self.installed_packages@;
                let (_, metadata) = self.installed_packages.remove(i);
                proof {
                    assert(installed_names(self.installed_packages@) =~= installed_names(before).remove(i as int));
                    if installed_names(before).no_duplicates() {
                        lemma_remove_unique(installed_names(before), i as int);
                    }
                }
                Ok(metadata)
            },
            None => Err(InstallationError::PackageNotFound(String::from_str(name))),
        }
    }

    /// The dependencies of a package that are not installed yet, in order.
    pub fn missing_dependencies(&self, package: &Package) -> (r: Vec<String>)
        ensures
            string_views(r@) == missing_spec(package.dependencies@, self.installed_packages@),
    {
        let mut r: Vec<String> = Vec::new();
        let mut i: usize = 0;
        while i < package.dependencies.len()
            invariant
                i <= package.dependencies@.len(),
                string_views(r@) == missing_spec(package.dependencies@.subrange(0, i as int), self.installed_packages@),
            decreases package.dependencies@.len() - i,
        {
            proof {
                let sub = package.dependencies@.subrange(0, i + 1);
                assert(sub.drop_last() =~= package.dependencies@.subrange(0, i as int));
                assert(sub.last() == package.dependencies@[i as int]);
            }
            if !self.is_package_installed(package.dependencies[i].as_str()) {
                let ghost before = r@;
                r.push(package.dependencies[i].clone());
                assert(string_views(r@) =~= string_views(before).push(package.dependencies@[i as int]@));
            }
            i = i + 1;
        }
        assert(package.dependencies@.subrange(0, package.dependencies@.len() as int) =~= package.dependencies@);
        r
    }

    /// What installing `name` (at `version`, or its latest version) takes:
    /// the first repository that holds it, its missing dependencies, and
    /// where each of its files goes.
    pub fn plan_install(&self, name: &str, version: Option<&str>) -> (r: Result<InstallPlan, InstallationError>)
        ensures
            r is Ok <==> hits(self.repo_manager.repositories@, name@, opt_view(version)).len() > 0
                && forall|k: int|
                0 <= k < hits(self.repo_manager.repositories@, name@, opt_view(version))[0].1.files@.len()
                    ==> file_name_spec(
                    #[trigger] hits(self.repo_manager.repositories@, name@, opt_view(version))[0].1.files@[k]@,
                ) is Some,
            hits(self.repo_manager.repositories@, name@, opt_view(version)).len() == 0 ==> (match r {
                Err(InstallationError::PackageNotFound(t)) => t@ == request_text(name@, opt_view(version)),
                _ => false,
            }),
            match r {
                Ok(plan) => {
                    let h = hits(self.repo_manager.repositories@, name@, opt_view(version))[0];
                    &&& plan.username@ == h.0
                    &&& plan.package.same(h.1)
                    &&& string_views(plan.missing_dependencies@) == missing_spec(
                        h.1.dependencies@,
                        self.installed_packages@,
                    )
                    &&& plan.work_dir@ == path_join(self.temp_path@, h.1.name@ + "-"@ + h.1.version@)
                    &&& plan.copies@.len() == h.1.files@.len()
                    &&& forall|k: int|
                        0 <= k < plan.copies@.len() ==> {
                            let f = h.1.files@[k]@;
                            &&& (#[trigger] plan.copies@[k]).source@ == path_join(
                                repo_files_dir(self.repo_manager.sgoinfre_path@, h.0, h.1),
                                f,
                            )
                            &&& plan.copies@[k].staged@ == path_join(plan.work_dir@, f)
                            &&& file_name_spec(f) matches Some(b) && plan.copies@[k].target@ == path_join(
                                self.bin_path@,
                                b,
                            )
                        }
                },
                Err(_) => true,
            },
    {
        proof {
            reveal_strlit("/");
            reveal_strlit("@");
            reveal_strlit("-");
            reveal_strlit("latest");
            reveal_strlit("packages");
        }
        let results = self.repo_manager.search_package(name, version);
        if results.len() == 0 {
            let v = match version {
                Some(v) => v,
                None => "latest",
            };
            return Err(InstallationError::PackageNotFound(join_with(name, "@", v)));
        }
        assert(hits(self.repo_manager.repositories@, name@, opt_view(version)).len() > 0);
        let ghost h = hits(self.repo_manager.repositories@, name@, opt_view(version))[0];
        let username = results[0].0.clone();
        let package = results[0].1.duplicate();
        let missing_dependencies = self.missing_dependencies(&package);
        let stamp = join_with(package.name.as_str(), "-", package.version.as_str());
        let work_dir = join_with(self.temp_path.as_str(), "/", stamp.as_str());
        let a = join_with(self.repo_manager.sgoinfre_path.as_str(), "/", username.as_str());
        let b = join_with(a.as_str(), "/", "packages");
        let c = join_with(b.as_str(), "/", package.name.as_str());
        let files_dir = join_with(c.as_str(), "/", package.version.as_str());
        assert(files_dir@ == repo_files_dir(self.repo_manager.sgoinfre_path@, h.0, h.1));
        let mut copies: Vec<FileCopy> = Vec::new();
        let mut k: usize = 0;
        while k < package.files.len()
            invariant
                k <= package.files@.len(),
                package.same(h.1),
                hits(self.repo_manager.repositories@, name@, opt_view(version)).len() > 0,
                h == hits(self.repo_manager.repositories@, name@, opt_view(version))[0],
                copies@.len() == k,
                forall|t: int|
                    0 <= t < k ==> {
                        let f = h.1.files@[t]@;
                        &&& (#[trigger] copies@[t]).source@ == path_join(files_dir@, f)
                        &&& copies@[t].staged@ == path_join(work_dir@, f)
                        &&& file_name_spec(f) matches Some(b) && copies@[t].target@ == path_join(
                            self.bin_path@,
                            b,
                        )
                    },
                forall|t: int| 0 <= t < k ==> file_name_spec(#[trigger] h.1.files@[t]@) is Some,
            decreases package.files@.len() - k,
        {
            let f = package.files[k].as_str();
            let base = match file_name(f) {
                Some(b) => b,
                None => {
                    assert(file_name_spec(h.1.files@[k as int]@) is None);
                    return Err(InstallationError::InstallationFailed(String::from_str("Invalid file name")));
                },
            };
            let copy = FileCopy {
                source: join_with(files_dir.as_str(), "/", f),
                staged: join_with(work_dir.as_str(), "/", f),
                target: join_with(self.bin_path.as_str(), "/", base.as_str()),
            };
            let ghost prev = copies@;
            proof {
                reveal_strlit("/");
                assert(package.files@[k as int] == h.1.files@[k as int]);
            }
            copies.push(copy);
            proof {
                assert forall|t: int|
                    0 <= t < k + 1 implies {
                        let f = h.1.files@[t]@;
                        &&& (#[trigger] copies@[t]).source@ == path_join(files_dir@, f)
                        &&& copies@[t].staged@ == path_join(work_dir@, f)
                        &&& file_name_spec(f) matches Some(b) && copies@[t].target@ == path_join(
                            self.bin_path@,
                            b,
                        )
                    } by {
                    if t < k {
                        assert(copies@[t] == prev[t]);
                    }
                }
            }
            k = k + 1;
        }
        Ok(InstallPlan { username, package, missing_dependencies, work_dir, copies })
    }

    /// The transitive dependencies of a package, by name: each name found,
    /// once, with the package that a search finds first for it. It fails on
    /// the first name that no repository holds.
    #[verifier::rlimit(100)]
    pub fn resolve_dependencies(&self, package: &Package) -> (r: Result<Vec<(String, Package)>, InstallationError>)
        ensures
            match r {
                Ok(v) => {
                    &&& resolved_names(v@).no_duplicates()
                    &&& forall|k: int|
                        0 <= k < v@.len() ==> hits(self.repo_manager.repositories@, #[trigger] v@[k].0@, None).len() > 0
                            && v@[k].1.same(hits(self.repo_manager.repositories@, v@[k].0@, None)[0].1)
                    &&& forall|d: int|
                        0 <= d < package.dependencies@.len() ==> resolved_names(v@).contains(
                            #[trigger] package.dependencies@[d]@,
                        )
                    &&& forall|k: int, d: int|
                        0 <= k < v@.len() && 0 <= d < v@[k].1.dependencies@.len() ==> resolved_names(v@).contains(
                            #[trigger] v@[k].1.dependencies@[d]@,
                        )
                    &&& forall|k: int|
                        0 <= k < v@.len() ==> name_reachable(self.repo_manager.repositories@, *package, #[trigger] v@[k].0@)
                    &&& forall|n: Seq<char>|
                        #[trigger] name_reachable(self.repo_manager.repositories@, *package, n) ==> resolved_names(
                            v@,
                        ).contains(n)
                },
                Err(e) => exists|n: Seq<char>|
                    name_reachable(self.repo_manager.repositories@, *package, n)
                        && hits(self.repo_manager.repositories@, n, None).len() == 0 && e
                        == InstallationError::DependencyResolutionFailed(
                        (e->DependencyResolutionFailed_0),
                    ) && (e->DependencyResolutionFailed_0)@ == "Dependency not found: "@ + n,
            },
            r is Ok <==> forall|n: Seq<char>|
                #[trigger] name_reachable(self.repo_manager.repositories@, *package, n) ==> hits(
                    self.repo_manager.repositories@,
                    n,
                    None,
                ).len() > 0,
    {
        proof {
            reveal_strlit("");
        }
        let ghost repos = self.repo_manager.repositories@;
        let ghost all = all_index_names(repos);
        let mut pending: Vec<String> = copy_strings(&package.dependencies);
        let mut found: Vec<(String, Package)> = Vec::new();
        proof {
            assert forall|d: int| 0 <= d < package.dependencies@.len() implies covered(
                found@,
                pending@,
                #[trigger] package.dependencies@[d]@,
            ) by {
                assert(string_views(pending@)[d] == package.dependencies@[d]@);
            }
            assert forall|i: int| 0 <= i < pending@.len() implies name_reachable(repos, *package, #[trigger] pending@[i]@) by {
                let w = seq![pending@[i]@];
                assert(string_views(package.dependencies@)[i] == pending@[i]@);
                assert(name_chain(repos, *package, w));
            }
        }
        while pending.len() > 0
            invariant
                repos == self.repo_manager.repositories@,
                all == all_index_names(repos),
                resolved_names(found@).no_duplicates(),
                forall|k: int| 0 <= k < found@.len() ==> name_reachable(repos, *package, #[trigger] found@[k].0@),
                forall|i: int| 0 <= i < pending@.len() ==> name_reachable(repos, *package, #[trigger] pending@[i]@),
                forall|k: int| 0 <= k < found@.len() ==> all.contains(#[trigger] resolved_names(found@)[k]),
                forall|k: int|
                    0 <= k < found@.len() ==> hits(repos, #[trigger] found@[k].0@, None).len() > 0
                        && found@[k].1.same(hits(repos, found@[k].0@, None)[0].1),
                forall|d: int|
                    0 <= d < package.dependencies@.len() ==> covered(found@, pending@, #[trigger] package.dependencies@[d]@),
                forall|k: int, d: int|
                    0 <= k < found@.len() && 0 <= d < found@[k].1.dependencies@.len() ==> covered(
                        found@,
                        pending@,
                        #[trigger] found@[k].1.dependencies@[d]@,
                    ),
            decreases all.len() - found@.len(), pending@.len(),
        {
            proof {
                lemma_distinct_within(resolved_names(found@), all);
            }
            let ghost before = pending@;
            let dep = pending.pop().unwrap();
            proof {
                assert(pending@ == before.drop_last());
                assert(dep == before.last());
                assert(name_reachable(repos, *package, before[before.len() - 1]@));
                assert forall|i: int| 0 <= i < pending@.len() implies name_reachable(repos, *package, #[trigger] pending@[i]@) by {
                    assert(pending@[i] == before[i]);
                }
            }
            let mut seen = false;
            let mut k: usize = 0;
            while k < found.len()
                invariant
                    k <= found@.len(),
                    seen == exists|t: int| 0 <= t < k && #[trigger] found@[t].0@ == dep@,
                decreases found@.len() - k,
            {
                if str_eq(found[k].0.as_str(), dep.as_str()) {
                    seen = true;
                }
                k = k + 1;
            }
            let ghost found0 = found@;
            if seen {
                proof {
                    assert forall|d: Seq<char>| covered(found@, before, d) implies covered(found@, pending@, d) by {
                        if string_views(before).contains(d) {
                            let i = choose|i: int| 0 <= i < string_views(before).len() && string_views(before)[i] == d;
                            if i < before.len() - 1 {
                                assert(string_views(pending@)[i] == d);
                            }
                        }
                    }
                }
                continue;
            }
            let results = self.repo_manager.search_package(dep.as_str(), None);
            proof {
                assert(hits(repos, dep@, opt_view(None::<&str>)) == hits(repos, dep@, None));
            }
            if results.len() == 0 {
                let msg = join_with("Dependency not found: ", dep.as_str(), "");
                proof {
                    reveal_strlit("");
                    assert(msg@ =~= "Dependency not found: "@ + dep@);
                    assert(hits(repos, dep@, None).len() == 0);
                    assert(name_reachable(repos, *package, dep@));
                }
                return Err(InstallationError::DependencyResolutionFailed(msg));
            }
            let p = results[0].1.duplicate();
            proof {
                assert(results@[0].0@ == hits(repos, dep@, None)[0].0);
                lemma_hit_named(repos, dep@);
            }
            let ghost pending1 = pending@;
            let mut t: usize = 0;
            while t < p.dependencies.len()
                invariant
                    t <= p.dependencies@.len(),
                    p.same(hits(repos, dep@, None)[0].1),
                    hits(repos, dep@, None).len() > 0,
                    name_reachable(repos, *package, dep@),
                    forall|i: int| 0 <= i < pending@.len() ==> name_reachable(repos, *package, #[trigger] pending@[i]@),
                    pending@.len() == pending1.len() + t,
                    forall|i: int| 0 <= i < pending1.len() ==> pending@[i] == pending1[i],
                    forall|i: int| 0 <= i < t ==> pending@[pending1.len() + i]@ == #[trigger] p.dependencies@[i]@,
                decreases p.dependencies@.len() - t,
            {
                proof {
                    assert(string_views(p.dependencies@)[t as int] == p.dependencies@[t as int]@);
                    lemma_chain_extend(repos, *package, dep@, p.dependencies@[t as int]@);
                }
                let ghost prev = pending@;
                pending.push(p.dependencies[t].clone());
                proof {
                    assert forall|i: int| 0 <= i < pending@.len() implies name_reachable(repos, *package, #[trigger] pending@[i]@) by {
                        if i < prev.len() {
                            assert(pending@[i] == prev[i]);
                        }
                    }
                }
                t = t + 1;
            }
            let ghost key = dep@;
            found.push((dep, p));
            proof {
                assert forall|k: int| 0 <= k < found@.len() implies name_reachable(repos, *package, #[trigger] found@[k].0@) by {
                    if k < found0.len() {
                        assert(found@[k] == found0[k]);
                    }
                }
                assert(resolved_names(found@) =~= resolved_names(found0).push(key));
                if resolved_names(found0).contains(key) {
                    let i = choose|i: int| 0 <= i < resolved_names(found0).len() && resolved_names(found0)[i] == key;
                    assert(found0[i].0@ == key);
                }
                crate::text::lemma_push_unique(resolved_names(found0), key);
                assert forall|d: Seq<char>| covered(found0, before, d) implies covered(found@, pending@, d) by {
                    if exists|k: int| 0 <= k < found0.len() && #[trigger] found0[k].0@ == d {
                        let k = choose|k: int| 0 <= k < found0.len() && #[trigger] found0[k].0@ == d;
                        assert(found@[k] == found0[k]);
                    } else {
                        let i = choose|i: int| 0 <= i < string_views(before).len() && string_views(before)[i] == d;
                        if i < before.len() - 1 {
                            assert(pending@[i] == pending1[i]);
                            assert(string_views(pending@)[i] == d);
                        } else {
                            assert(found@[found0.len() as int].0@ == d);
                        }
                    }
                }
                assert forall|k: int, d: int|
                    0 <= k < found@.len() && 0 <= d < found@[k].1.dependencies@.len() implies covered(
                        found@,
                        pending@,
                        #[trigger] found@[k].1.dependencies@[d]@,
                    ) by {
                    if k < found0.len() {
                        assert(found@[k] == found0[k]);
                        assert(covered(found0, before, found0[k].1.dependencies@[d]@));
                    } else {
                        assert(string_views(pending@)[pending1.len() + d] == p.dependencies@[d]@);
                    }
                }
                assert forall|d: int| 0 <= d < package.dependencies@.len() implies covered(
                    found@,
                    pending@,
                    #[trigger] package.dependencies@[d]@,
                ) by {
                    assert(covered(found0, before, package.dependencies@[d]@));
                }
                assert forall|k: int| 0 <= k < found@.len() implies all.contains(#[trigger] resolved_names(found@)[k]) by {
                    if k < found0.len() {
                        assert(resolved_names(found@)[k] == resolved_names(found0)[k]);
                    }
                }
                assert forall|k: int|
                    0 <= k < found@.len() implies hits(repos, #[trigger] found@[k].0@, None).len() > 0
                        && found@[k].1.same(hits(repos, found@[k].0@, None)[0].1) by {
                    if k < found0.len() {
                        assert(found@[k] == found0[k]);
                    }
                }
                lemma_distinct_within(resolved_names(found@), all);
            }
        }
        proof {
            assert forall|d: int| 0 <= d < package.dependencies@.len() implies resolved_names(found@).contains(
                #[trigger] package.dependencies@[d]@,
            ) by {
                assert(covered(found@, pending@, package.dependencies@[d]@));
                let k = choose|k: int| 0 <= k < found@.len() && #[trigger] found@[k].0@ == package.dependencies@[d]@;
                assert(resolved_names(found@)[k] == package.dependencies@[d]@);
            }
            assert forall|k: int, d: int|
                0 <= k < found@.len() && 0 <= d < found@[k].1.dependencies@.len() implies resolved_names(found@).contains(
                    #[trigger] found@[k].1.dependencies@[d]@,
                ) by {
                assert(covered(found@, pending@, found@[k].1.dependencies@[d]@));
                let m = choose|m: int| 0 <= m < found@.len() && #[trigger] found@[m].0@ == found@[k].1.dependencies@[d]@;
                assert(resolved_names(found@)[m] == found@[k].1.dependencies@[d]@);
            }
        }
        proof {
            assert forall|n: Seq<char>| #[trigger] name_reachable(repos, *package, n) implies resolved_names(found@).contains(n) by {
                let w = choose|w: Seq<Seq<char>>| #[trigger] name_chain(repos, *package, w) && w.last() == n;
                lemma_closure_covers(repos, *package, found@, w);
            }
            assert forall|n: Seq<char>| #[trigger] name_reachable(repos, *package, n) implies hits(repos, n, None).len() > 0 by {
                let k = choose|k: int| 0 <= k < resolved_names(found@).len() && resolved_names(found@)[k] == n;
                assert(found@[k].0@ == n);
            }
        }
        Ok(found)
    }

    /// Whether `name` is due for an upgrade: the latest version that the
    /// repositories hold, when it is strictly newer than the installed one;
    /// nothing when the installed version is current.
    #[verifier::rlimit(50)]
    pub fn upgrade_candidate(&self, name: &str) -> (r: Result<Option<String>, InstallationError>)
        ensures
            upgrade_fits(
                r,
                name@,
                installed_version_spec(self.installed_packages@, name@),
                hits(self.repo_manager.repositories@, name@, None),
            ),
    {
        let current = match self.get_installed_version(name) {
            Some(v) => v,
            None => {
                return Err(InstallationError::PackageNotFound(String::from_str(name)));
            },
        };
        let results = self.repo_manager.search_package(name, None);
        proof {
            assert(hits(self.repo_manager.repositories@, name@, opt_view(None::<&str>)) == hits(
                self.repo_manager.repositories@,
                name@,
                None,
            ));
        }
        if results.len() == 0 {
            return Err(InstallationError::PackageNotFound(String::from_str(name)));
        }
        if !parses_as_version(current) {
            return Err(InstallationError::InstallationFailed(String::from_str("Invalid current version")));
        }
        let latest = results[0].1.version.as_str();
        proof {
            let hs = hits(self.repo_manager.repositories@, name@, opt_view(None::<&str>));
            assert(hs == hits(self.repo_manager.repositories@, name@, None));
            assert(results@[0].0@ == hs[0].0);
            assert(latest@ == hs[0].1.version@);
        }
        match is_newer_version(current, latest) {
            Some(true) => Ok(Some(String::from_str(latest))),
            Some(false) => Ok(None),
            None => Err(InstallationError::InstallationFailed(String::from_str("Invalid latest version"))),
        }
    }
}

} // verus!
