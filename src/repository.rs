//! Per-user package repositories: each user's namespace holds an index from
//! package name to the versions published under it, oldest first. Only the
//! user's own repository takes new packages.
use vstd::prelude::*;

use crate::error::RepositoryError;
use crate::models::string_views;
use crate::registry::path_join;
use crate::text::{join_with, lemma_push_unique, lemma_remove_unique, str_eq};

verus! {

/// A published package version in a user's repository.
#[derive(Debug)]
pub struct Package {
    pub name: String,
    pub version: String,
    pub description: Option<String>,
    pub dependencies: Vec<String>,
    pub files: Vec<String>,
}

/// A user's repository: where it lives and what it holds.
#[derive(Debug)]
pub struct Repository {
    pub path: String,
    pub index: Vec<(String, Vec<Package>)>,
    pub username: String,
    pub is_own_repo: bool,
}

/// The repositories this user reads, their own among them.
#[derive(Debug)]
pub struct RepositoryManager {
    pub sgoinfre_path: String,
    pub own_repo_path: String,
    pub username: String,
    pub repositories: Vec<(String, Repository)>,
}

fn copy_string_option(o: &Option<String>) -> (r: Option<String>)
    ensures
        r == *o,
{
    match o {
        Some(s) => Some(s.clone()),
        None => None,
    }
}

pub(crate) fn copy_strings(v: &Vec<String>) -> (r: Vec<String>)
    ensures
        r@ == v@,
{
    let mut r: Vec<String> = Vec::new();
    let mut i: usize = 0;
    while i < v.len()
        invariant
            i <= v@.len(),
            r@ == v@.subrange(0, i as int),
        decreases v@.len() - i,
    {
        r.push(v[i].clone());
        assert(r@ =~= v@.subrange(0, i + 1));
        i = i + 1;
    }
    assert(v@.subrange(0, v@.len() as int) =~= v@);
    r
}

impl Package {
    /// Whether two packages hold the same values.
    pub open spec fn same(self, o: Package) -> bool {
        &&& self.name == o.name
        &&& self.version == o.version
        &&& self.description == o.description
        &&& self.dependencies@ == o.dependencies@
        &&& self.files@ == o.files@
    }

    /// A copy of the package.
    pub fn duplicate(&self) -> (r: Package)
        ensures
            r.same(*self),
    {
        Package {
            name: self.name.clone(),
            version: self.version.clone(),
            description: copy_string_option(&self.description),
            dependencies: copy_strings(&self.dependencies),
            files: copy_strings(&self.files),
        }
    }
}

/// Whether the index already holds `name` at `version`: a published
/// version is never replaced.
pub open spec fn holds_version(index: Seq<(String, Vec<Package>)>, name: Seq<char>, version: Seq<char>) -> bool {
    match entry_of(index, name) {
        Some(i) => exists|j: int| 0 <= j < index[i].1@.len() && index[i].1@[j].version@ == version,
        None => false,
    }
}

/// The package names of an index, in order.
pub open spec fn index_names(index: Seq<(String, Vec<Package>)>) -> Seq<Seq<char>> {
    index.map_values(|e: (String, Vec<Package>)| e.0@)
}

/// The first index entry for `name`.
pub open spec fn entry_of(index: Seq<(String, Vec<Package>)>, name: Seq<char>) -> Option<int> {
    if exists|i: int| 0 <= i < index.len() && index[i].0@ == name {
        Some(choose|i: int| 0 <= i < index.len() && index[i].0@ == name && forall|j: int| 0 <= j < i ==> index[j].0@ != name)
    } else {
        None
    }
}

/// The version of a package that a lookup finds: the first one that equals
/// the requested version, or the latest published one when none is asked.
pub open spec fn pick_version(versions: Seq<Package>, version: Option<Seq<char>>) -> Option<int> {
    match version {
        Some(v) => if exists|j: int| 0 <= j < versions.len() && versions[j].version@ == v {
            Some(choose|j: int| 0 <= j < versions.len() && versions[j].version@ == v && forall|k: int| 0 <= k < j ==> versions[k].version@ != v)
        } else {
            None
        },
        None => if versions.len() > 0 {
            Some(versions.len() - 1)
        } else {
            None
        },
    }
}

/// What a lookup of `name` at `version` finds in an index.
pub open spec fn lookup_spec(index: Seq<(String, Vec<Package>)>, name: Seq<char>, version: Option<Seq<char>>) -> Option<Package> {
    match entry_of(index, name) {
        Some(i) => match pick_version(index[i].1@, version) {
            Some(j) => Some(index[i].1@[j]),
            None => None,
        },
        None => None,
    }
}

/// The index after a package version is added: appended to the versions
/// of its name, or under a new entry at the end.
pub open spec fn index_after_add(
    before: Seq<(String, Vec<Package>)>,
    package: Package,
    after: Seq<(String, Vec<Package>)>,
) -> bool {
    match entry_of(before, package.name@) {
        Some(i) => after.len() == before.len() && after[i].0 == before[i].0 && after[i].1@ == before[i].1@.push(
            package,
        ) && forall|j: int| 0 <= j < before.len() && j != i ==> after[j] == before[j],
        None => after.len() == before.len() + 1 && after.subrange(0, before.len() as int) == before
            && after.last().0@ == package.name@ && after.last().1@ == seq![package],
    }
}

pub open spec fn opt_view(o: Option<&str>) -> Option<Seq<char>> {
    match o {
        Some(s) => Some(s@),
        None => None,
    }
}

proof fn lemma_first_entry(index: Seq<(String, Vec<Package>)>, name: Seq<char>, i: int)
    requires
        0 <= i < index.len(),
        index[i].0@ == name,
        forall|j: int| 0 <= j < i ==> index[j].0@ != name,
    ensures
        entry_of(index, name) == Some(i),
{
    let k = choose|k: int| 0 <= k < index.len() && index[k].0@ == name && forall|j: int| 0 <= j < k ==> index[j].0@ != name;
    if k < i {
        assert(index[k].0@ != name);
    } else if k > i {
        assert(index[i].0@ != name);
    }
}

proof fn lemma_first_version(versions: Seq<Package>, v: Seq<char>, j: int)
    requires
        0 <= j < versions.len(),
        versions[j].version@ == v,
        forall|k: int| 0 <= k < j ==> versions[k].version@ != v,
    ensures
        pick_version(versions, Some(v)) == Some(j),
{
    let t = choose|t: int| 0 <= t < versions.len() && versions[t].version@ == v && forall|k: int| 0 <= k < t ==> versions[k].version@ != v;
    if t < j {
        assert(versions[t].version@ != v);
    } else if t > j {
        assert(versions[j].version@ != v);
    }
}

fn find_entry(index: &Vec<(String, Vec<Package>)>, name: &str) -> (r: Option<usize>)
    ensures
        match r {
            Some(i) => i < index@.len() && entry_of(index@, name@) == Some(i as int),
            None => entry_of(index@, name@) is None,
        },
{
    let mut i: usize = 0;
    while i < index.len()
        invariant
            i <= index@.len(),
            forall|j: int| 0 <= j < i ==> index@[j].0@ != name@,
        decreases index@.len() - i,
    {
        if str_eq(index[i].0.as_str(), name) {
            proof {
                lemma_first_entry(index@, name@, i as int);
            }
            return Some(i);
        }
        i = i + 1;
    }
    None
}

impl Repository {
    /// Each package name has one index entry.
    pub open spec fn wf(&self) -> bool {
        index_names(self.index@).no_duplicates()
    }

    /// A repository at `path` with an empty index.
    pub fn new(path: String, username: String, is_own_repo: bool) -> (r: Self)
        ensures
            r.path == path,
            r.username == username,
            r.is_own_repo == is_own_repo,
            r.index@.len() == 0,
            r.wf(),
    {
        Repository { path, index: Vec::new(), username, is_own_repo }
    }

    /// The directories that a repository holds: `packages`, `metadata` and
    /// `index`, under its path.
    pub fn structure_dirs(&self) -> (r: Vec<String>)
        ensures
            string_views(r@) == seq![
                path_join(self.path@, "packages"@),
                path_join(self.path@, "metadata"@),
                path_join(self.path@, "index"@),
            ],
    {
        proof {
            reveal_strlit("/");
        }
        let a = join_with(self.path.as_str(), "/", "packages");
        let b = join_with(self.path.as_str(), "/", "metadata");
        let c = join_with(self.path.as_str(), "/", "index");
        assert(a@ == path_join(self.path@, "packages"@));
        assert(b@ == path_join(self.path@, "metadata"@));
        assert(c@ == path_join(self.path@, "index"@));
        let mut r: Vec<String> = Vec::new();
        r.push(a);
        r.push(b);
        r.push(c);
        assert(string_views(r@)[0] == path_join(self.path@, "packages"@));
        assert(string_views(r@)[1] == path_join(self.path@, "metadata"@));
        assert(string_views(r@)[2] == path_join(self.path@, "index"@));
        assert(string_views(r@) =~= seq![
            path_join(self.path@, "packages"@),
            path_join(self.path@, "metadata"@),
            path_join(self.path@, "index"@),
        ]);
        r
    }

    /// The directory of a published version: `path/packages/name/version`.
    pub fn package_dir(&self, package: &Package) -> (r: String)
        ensures
            r@ == path_join(path_join(path_join(self.path@, "packages"@), package.name@), package.version@),
    {
        proof {
            reveal_strlit("/");
        }
        let a = join_with(self.path.as_str(), "/", "packages");
        let b = join_with(a.as_str(), "/", package.name.as_str());
        join_with(b.as_str(), "/", package.version.as_str())
    }

    /// Adds a package version to the index of the user's own repository;
    /// another user's repository refuses it.
    #[verifier::rlimit(60)]
    pub fn add_package(&mut self, package: Package) -> (r: Result<(), RepositoryError>)
        ensures
            final(self).path == old(self).path,
            final(self).username == old(self).username,
            final(self).is_own_repo == old(self).is_own_repo,
            !old(self).is_own_repo ==> (r matches Err(RepositoryError::PermissionDenied(_)))
                && final(self).index@ == old(self).index@,
            old(self).is_own_repo && holds_version(old(self).index@, package.name@, package.version@) ==> (
            r matches Err(RepositoryError::AlreadyExists(_))) && final(self).index@ == old(self).index@,
            old(self).is_own_repo && !holds_version(old(self).index@, package.name@, package.version@)
                ==> r is Ok && index_after_add(old(self).index@, package, final(self).index@),
            old(self).wf() ==> final(self).wf(),
    {
        if !self.is_own_repo {
            return Err(
                RepositoryError::PermissionDenied(
                    String::from_str("Cannot add packages to non-owned repository"),
                ),
            );
        }
        match find_entry(&self.index, package.name.as_str()) {
            Some(i) => {
                let versions = &self.index[i].1;
                let mut j: usize = 0;
                while j < versions.len()
                    invariant
                        j <= versions@.len(),
                        i < self.index@.len(),
                        versions@ == self.index@[i as int].1@,
                        self.is_own_repo,
                        self.index@ == old(self).index@,
                        entry_of(self.index@, package.name@) == Some(i as int),
                        forall|k: int| 0 <= k < j ==> versions@[k].version@ != package.version@,
                    decreases versions@.len() - j,
                {
                    if str_eq(versions[j].version.as_str(), package.version.as_str()) {
                        assert(holds_version(self.index@, package.name@, package.version@));
                        return Err(
                            RepositoryError::AlreadyExists(join_with(package.name.as_str(), "@", package.version.as_str())),
                        );
                    }
                    j = j + 1;
                }
                let ghost old_index = self.index@;
                let (name, mut versions) = self.index.remove(i);
                versions.push(package);
                self.index.insert(i, (name, versions));
                assert(index_names(self.index@) =~= index_names(old_index));
                proof {
                    assert(entry_of(old_index, package.name@) == Some(i as int));
                    assert forall|j: int| 0 <= j < old_index.len() && j != i implies self.index@[j] == old_index[j] by {}
                }
            },
            None => {
                let name = package.name.clone();
                let ghost before = self.index@;
                let ghost key = name@;
                let mut versions: Vec<Package> = Vec::new();
                versions.push(package);
                self.index.push((name, versions));
                proof {
                    assert(index_names(self.index@) =~= index_names(before).push(key));
                    if index_names(before).contains(key) {
                        let j = choose|j: int| 0 <= j < index_names(before).len() && index_names(before)[j] == key;
                        assert(before[j].0@ == key);
                    }
                    if index_names(before).no_duplicates() {
                        lemma_push_unique(index_names(before), key);
                    }
                }
                assert(self.index@.subrange(0, old(self).index@.len() as int) =~= old(self).index@);
                assert(versions@ =~= seq![package]);
            },
        }
        Ok(())
    }

    /// The package `name` at `version`, or its latest version when none is
    /// given.
    pub fn get_package(&self, name: &str, version: Option<&str>) -> (r: Option<&Package>)
        ensures
            match r {
                Some(p) => lookup_spec(self.index@, name@, opt_view(version)) == Some(*p),
                None => lookup_spec(self.index@, name@, opt_view(version)) is None,
            },
    {
        let i = match find_entry(&self.index, name) {
            Some(i) => i,
            None => {
                return None;
            },
        };
        let versions = &self.index[i].1;
        assert(versions@ == self.index@[i as int].1@);
        match version {
            Some(v) => {
                let mut j: usize = 0;
                while j < versions.len()
                    invariant
                        j <= versions@.len(),
                        version == Some(v),
                        i < self.index@.len(),
                        versions@ == self.index@[i as int].1@,
                        entry_of(self.index@, name@) == Some(i as int),
                        forall|k: int| 0 <= k < j ==> versions@[k].version@ != v@,
                    decreases versions@.len() - j,
                {
                    if str_eq(versions[j].version.as_str(), v) {
                        proof {
                            lemma_first_version(versions@, v@, j as int);
                            assert(opt_view(version) == Some(v@));
                        }
                        return Some(&versions[j]);
                    }
                    j = j + 1;
                }
                None
            },
            None => {
                if versions.len() > 0 {
                    Some(&versions[versions.len() - 1])
                } else {
                    None
                }
            },
        }
    }
}

/// The usernames of the repositories, in order.
pub open spec fn repo_users(r: Seq<(String, Repository)>) -> Seq<Seq<char>> {
    r.map_values(|e: (String, Repository)| e.0@)
}

/// What a search finds: for each repository in order that holds the
/// package, its user and the package.
pub open spec fn hits(repos: Seq<(String, Repository)>, name: Seq<char>, version: Option<Seq<char>>) -> Seq<(Seq<char>, Package)>
    decreases repos.len(),
{
    if repos.len() == 0 {
        Seq::empty()
    } else {
        let rest = hits(repos.drop_last(), name, version);
        match lookup_spec(repos.last().1.index@, name, version) {
            Some(p) => rest.push((repos.last().0@, p)),
            None => rest,
        }
    }
}

/// Whether search results hold, in order, the users and packages found.
pub open spec fn search_fits(r: Seq<(String, Package)>, h: Seq<(Seq<char>, Package)>) -> bool {
    r.len() == h.len() && forall|k: int| 0 <= k < r.len() ==> r[k].0@ == #[trigger] h[k].0 && r[k].1.same(h[k].1)
}

fn find_repo(repos: &Vec<(String, Repository)>, username: &str) -> (r: Option<usize>)
    ensures
        match r {
            Some(i) => i < repos@.len() && repos@[i as int].0@ == username@ && forall|j: int|
                0 <= j < i ==> repos@[j].0@ != username@,
            None => !repo_users(repos@).contains(username@),
        },
{
    let mut i: usize = 0;
    while i < repos.len()
        invariant
            i <= repos@.len(),
            forall|j: int| 0 <= j < i ==> repos@[j].0@ != username@,
        decreases repos@.len() - i,
    {
        if str_eq(repos[i].0.as_str(), username) {
            return Some(i);
        }
        i = i + 1;
    }
    proof {
        if repo_users(repos@).contains(username@) {
            let j = choose|j: int| 0 <= j < repo_users(repos@).len() && repo_users(repos@)[j] == username@;
            assert(repos@[j].0@ == username@);
        }
    }
    None
}

impl RepositoryManager {
    /// Each user's repository is held once.
    pub open spec fn wf(&self) -> bool {
        repo_users(self.repositories@).no_duplicates()
    }

    /// The manager for `username` on the shared volume `/sgoinfre`, with
    /// the user's own repository, if the volume exists.
    pub fn new(username: String, sgoinfre_exists: bool) -> (r: Result<Self, RepositoryError>)
        ensures
            !sgoinfre_exists ==> r matches Err(RepositoryError::InvalidPath(_)),
            sgoinfre_exists ==> match r {
                Ok(m) => m.sgoinfre_path@ == "/sgoinfre"@ && m.own_repo_path@ == path_join("/sgoinfre"@, username@)
                    && m.username == username && m.repositories@.len() == 1 && m.repositories@[0].0 == username
                    && m.repositories@[0].1.path == m.own_repo_path && m.repositories@[0].1.is_own_repo
                    && m.repositories@[0].1.index@.len() == 0 && m.wf(),
                Err(_) => false,
            },
    {
        if !sgoinfre_exists {
            return Err(RepositoryError::InvalidPath(String::from_str("sgoinfre directory does not exist")));
        }
        proof {
            reveal_strlit("/");
        }
        let sgoinfre_path = String::from_str("/sgoinfre");
        let own_repo_path = join_with(sgoinfre_path.as_str(), "/", username.as_str());
        let own = Repository::new(own_repo_path.clone(), username.clone(), true);
        let mut repositories: Vec<(String, Repository)> = Vec::new();
        repositories.push((username.clone(), own));
        assert(repo_users(repositories@).len() == 1);
        Ok(RepositoryManager { sgoinfre_path, own_repo_path, username, repositories })
    }

    /// Reads another user's repository, if their namespace exists.
    pub fn add_repository(&mut self, username: String, path_exists: bool) -> (r: Result<(), RepositoryError>)
        ensures
            old(self).wf() ==> final(self).wf(),
            final(self).username == old(self).username,
            final(self).sgoinfre_path == old(self).sgoinfre_path,
            repo_users(old(self).repositories@).contains(username@) ==> r == Err::<(), RepositoryError>(
                RepositoryError::AlreadyExists(username),
            ) && final(self).repositories@ == old(self).repositories@,
            !repo_users(old(self).repositories@).contains(username@) && !path_exists ==> (r matches Err(
                RepositoryError::NotFound(_),
            )) && final(self).repositories@ == old(self).repositories@,
            !repo_users(old(self).repositories@).contains(username@) && path_exists ==> r is Ok
                && final(self).repositories@.len() == old(self).repositories@.len() + 1
                && final(self).repositories@.subrange(0, old(self).repositories@.len() as int)
                == old(self).repositories@ && final(self).repositories@.last().0 == username
                && final(self).repositories@.last().1.path@ == path_join(old(self).sgoinfre_path@, username@)
                && final(self).repositories@.last().1.username == username
                && !final(self).repositories@.last().1.is_own_repo
                && final(self).repositories@.last().1.index@.len() == 0,
    {
        match find_repo(&self.repositories, username.as_str()) {
            Some(i) => {
                assert(repo_users(self.repositories@)[i as int] == username@);
                return Err(RepositoryError::AlreadyExists(username));
            },
            None => {},
        }
        if !path_exists {
            return Err(
                RepositoryError::NotFound(join_with("Repository for user ", username.as_str(), " does not exist")),
            );
        }
        proof {
            reveal_strlit("/");
        }
        let path = join_with(self.sgoinfre_path.as_str(), "/", username.as_str());
        let repo = Repository::new(path, username.clone(), false);
        let ghost key = username@;
        self.repositories.push((username, repo));
        proof {
            assert(repo_users(self.repositories@) =~= repo_users(old(self).repositories@).push(key));
            if repo_users(old(self).repositories@).no_duplicates() {
                lemma_push_unique(repo_users(old(self).repositories@), key);
            }
        }
        assert(self.repositories@.subrange(0, old(self).repositories@.len() as int) =~= old(self).repositories@);
        Ok(())
    }

    /// Stops reading a user's repository; the user's own cannot be removed.
    pub fn remove_repository(&mut self, username: &str) -> (r: Result<(), RepositoryError>)
        ensures
            old(self).wf() ==> final(self).wf(),
            final(self).username == old(self).username,
            username@ == old(self).username@ ==> (r matches Err(RepositoryError::PermissionDenied(_)))
                && final(self).repositories@ == old(self).repositories@,
            username@ != old(self).username@ && !repo_users(old(self).repositories@).contains(username@)
                ==> (r matches Err(RepositoryError::NotFound(_))) && final(self).repositories@ == old(
                self).repositories@,
            username@ != old(self).username@ && repo_users(old(self).repositories@).contains(username@)
                ==> r is Ok && exists|i: int|
                0 <= i < old(self).repositories@.len() && old(self).repositories@[i].0@ == username@
                    && final(self).repositories@ == old(self).repositories@.remove(i),
    {
        if str_eq(username, self.username.as_str()) {
            return Err(RepositoryError::PermissionDenied(String::from_str("Cannot remove own repository")));
        }
        match find_repo(&self.repositories, username) {
            Some(i) => {
                assert(repo_users(self.repositories@)[i as int] == username@);
                let ghost before = self.repositories@;
                let _ = self.repositories.remove(i);
                proof {
                    assert(repo_users(self.repositories@) =~= repo_users(before).remove(i as int));
                    if repo_users(before).no_duplicates() {
                        lemma_remove_unique(repo_users(before), i as int);
                    }
                }
                Ok(())
            },
            None => Err(RepositoryError::NotFound(String::from_str(username))),
        }
    }

    /// Adds a package version to the user's own repository.
    pub fn publish_package(&mut self, package: Package) -> (r: Result<(), RepositoryError>)
        ensures
            old(self).wf() ==> final(self).wf(),
            final(self).username == old(self).username,
            final(self).repositories@.len() == old(self).repositories@.len(),
            !repo_users(old(self).repositories@).contains(old(self).username@) ==> (r matches Err(
                RepositoryError::NotFound(_),
            )) && final(self).repositories@ == old(self).repositories@,
            repo_users(old(self).repositories@).contains(old(self).username@) ==> exists|i: int|
                0 <= i < old(self).repositories@.len() && old(self).repositories@[i].0@ == old(self).username@
                    && (forall|j: int| 0 <= j < i ==> old(self).repositories@[j].0@ != old(self).username@)
                    && (forall|j: int|
                    0 <= j < old(self).repositories@.len() && j != i ==> final(self).repositories@[j]
                        == old(self).repositories@[j])
                    && final(self).repositories@[i].0 == old(self).repositories@[i].0
                    && (old(self).repositories@[i].1.is_own_repo && holds_version(
                    old(self).repositories@[i].1.index@,
                    package.name@,
                    package.version@,
                ) ==> (r matches Err(RepositoryError::AlreadyExists(_)))
                    && final(self).repositories@[i].1.index@ == old(self).repositories@[i].1.index@)
                    && (old(self).repositories@[i].1.is_own_repo && !holds_version(
                    old(self).repositories@[i].1.index@,
                    package.name@,
                    package.version@,
                ) ==> r is Ok && index_after_add(
                    old(self).repositories@[i].1.index@,
                    package,
                    final(self).repositories@[i].1.index@,
                ))
                    && (!old(self).repositories@[i].1.is_own_repo ==> (r matches Err(
                    RepositoryError::PermissionDenied(_),
                )) && final(self).repositories@[i].1.index@ == old(self).repositories@[i].1.index@),
    {
        match find_repo(&self.repositories, self.username.as_str()) {
            Some(i) => {
                assert(repo_users(self.repositories@)[i as int] == self.username@);
                let ghost before = self.repositories@;
                let (user, mut repo) = self.repositories.remove(i);
                let r = repo.add_package(package);
                self.repositories.insert(i, (user, repo));
                proof {
                    assert forall|j: int| 0 <= j < before.len() && j != i implies self.repositories@[j] == before[j] by {
                        if j < i {
                        } else {
                        }
                    }
                    assert(repo_users(self.repositories@) =~= repo_users(before));
                }
                r
            },
            None => Err(RepositoryError::NotFound(String::from_str("Own repository not initialized"))),
        }
    }

    /// The package `name` at `version` (or its latest version) in every
    /// repository that holds it, with that repository's user, in order.
    pub fn search_package(&self, name: &str, version: Option<&str>) -> (r: Vec<(String, Package)>)
        ensures
            search_fits(r@, hits(self.repositories@, name@, opt_view(version))),
    {
        let mut r: Vec<(String, Package)> = Vec::new();
        let mut i: usize = 0;
        while i < self.repositories.len()
            invariant
                i <= self.repositories@.len(),
                search_fits(r@, hits(self.repositories@.subrange(0, i as int), name@, opt_view(version))),
            decreases self.repositories@.len() - i,
        {
            proof {
                let sub = self.repositories@.subrange(0, i + 1);
                assert(sub.drop_last() =~= self.repositories@.subrange(0, i as int));
                assert(sub.last() == self.repositories@[i as int]);
            }
            let ghost prev = hits(self.repositories@.subrange(0, i as int), name@, opt_view(version));
            match self.repositories[i].1.get_package(name, version) {
                Some(p) => {
                    r.push((self.repositories[i].0.clone(), p.duplicate()));
                    proof {
                        let h = hits(self.repositories@.subrange(0, i + 1), name@, opt_view(version));
                        assert(h == prev.push((self.repositories@[i as int].0@, *p)));
                        assert forall|k: int| 0 <= k < r@.len() implies r@[k].0@ == #[trigger] h[k].0 && r@[k].1.same(h[k].1) by {
                            if k < prev.len() {
                                assert(h[k] == prev[k]);
                            }
                        }
                        assert(search_fits(r@, h));
                    }
                },
                None => {
                    assert(hits(self.repositories@.subrange(0, i + 1), name@, opt_view(version)) == prev);
                },
            }
            i = i + 1;
        }
        assert(self.repositories@.subrange(0, self.repositories@.len() as int) =~= self.repositories@);
        r
    }
}

} // verus!
