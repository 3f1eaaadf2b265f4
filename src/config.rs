//! The user's configuration: working paths and the configured package
//! repositories, each under a unique name.
use vstd::prelude::*;

use crate::error::ConfigError;
use crate::registry::path_join;
use crate::text::{join_with, lemma_push_unique, lemma_remove_unique, str_eq};

verus! {

/// A configured package repository.
#[derive(Debug, Clone)]
pub struct Repository {
    pub url: String,
    pub enabled: bool,
    pub priority: u32,
}

/// The configuration: where to work and which repositories to use.
#[derive(Debug)]
pub struct Config {
    pub config_version: String,
    pub temp_path: String,
    pub bin_path: String,
    pub sgoinfre_username: Option<String>,
    pub repositories: Vec<(String, Repository)>,
}

/// The priority of a repository added without one.
pub const DEFAULT_PRIORITY: u32 = 100;

/// Whether a path is absolute: it starts at the root.
pub open spec fn is_absolute(p: Seq<char>) -> bool {
    p.len() > 0 && p[0] == '/'
}

/// Whether `p` starts with `q`.
pub open spec fn starts_with(p: Seq<char>, q: Seq<char>) -> bool {
    q.len() <= p.len() && p.subrange(0, q.len() as int) == q
}

/// Whether a repository URL is acceptable: non-empty, over http or https.
pub open spec fn url_ok(u: Seq<char>) -> bool {
    u.len() > 0 && (starts_with(u, "http://"@) || starts_with(u, "https://"@))
}

/// The names of the configured repositories, in order.
pub open spec fn repo_names(r: Seq<(String, Repository)>) -> Seq<Seq<char>> {
    r.map_values(|e: (String, Repository)| e.0@)
}

/// Whether a configuration is acceptable.
pub open spec fn config_ok(c: Config) -> bool {
    &&& is_absolute(c.temp_path@)
    &&& is_absolute(c.bin_path@)
    &&& c.repositories@.len() > 0
    &&& forall|i: int| 0 <= i < c.repositories@.len() ==> url_ok(#[trigger] c.repositories@[i].1.url@)
}

/// Relies on `dirs::cache_dir`: the user's cache directory, when one is
/// known; it depends on the environment.
#[verifier::external_body]
fn cache_dir() -> (r: Option<String>) {
    dirs::cache_dir().and_then(|p| p.into_os_string().into_string().ok())
}

/// Relies on `dirs::home_dir`: the user's home directory, when one is known;
/// it depends on the environment.
#[verifier::external_body]
fn home_dir() -> (r: Option<String>) {
    dirs::home_dir().and_then(|p| p.into_os_string().into_string().ok())
}

/// Whether `p` starts with `q`.
pub fn has_prefix(p: &str, q: &str) -> (r: bool)
    ensures
        r == starts_with(p@, q@),
{
    let n = p.unicode_len();
    let m = q.unicode_len();
    if m > n {
        return false;
    }
    let head = p.substring_char(0, m);
    str_eq(head, q)
}

fn position_of_repo(repos: &Vec<(String, Repository)>, name: &str) -> (r: Option<usize>)
    ensures
        match r {
            Some(i) => i < repos@.len() && repos@[i as int].0@ == name@,
            None => !repo_names(repos@).contains(name@),
        },
{
    let mut i: usize = 0;
    while i < repos.len()
        invariant
            i <= repos@.len(),
            forall|j: int| 0 <= j < i ==> repos@[j].0@ != name@,
        decreases repos@.len() - i,
    {
        if str_eq(repos[i].0.as_str(), name) {
            return Some(i);
        }
        i = i + 1;
    }
    proof {
        if repo_names(repos@).contains(name@) {
            let j = choose|j: int| 0 <= j < repo_names(repos@).len() && repo_names(repos@)[j] == name@;
            assert(repos@[j].0@ == name@);
        }
    }
    None
}

/// The configuration under the given cache and home directories: work in
/// `cache/rust-package-manager` (`/tmp` without a cache directory), link
/// binaries into `home/.local/bin` (`/usr/local` without a home), and use
/// the one default repository.
pub fn config_with_dirs(cache: Option<String>, home: Option<String>) -> (r: Config)
    ensures
        r.config_version@ == "1.0"@,
        r.temp_path@ == path_join(
            match cache {
                Some(c) => c@,
                None => "/tmp"@,
            },
            "rust-package-manager"@,
        ),
        r.bin_path@ == path_join(
            match home {
                Some(h) => h@,
                None => "/usr/local"@,
            },
            ".local/bin"@,
        ),
        r.wf(),
        r.sgoinfre_username is None,
        r.repositories@.len() == 1,
        r.repositories@[0].0@ == "default"@,
        r.repositories@[0].1.url@ == "https://default-repo.example.com"@,
        r.repositories@[0].1.enabled,
        r.repositories@[0].1.priority == DEFAULT_PRIORITY,
{
    proof {
        reveal_strlit("/");
    }
    let cache_base = match cache {
        Some(c) => c,
        None => String::from_str("/tmp"),
    };
    let home_base = match home {
        Some(h) => h,
        None => String::from_str("/usr/local"),
    };
    let mut repositories: Vec<(String, Repository)> = Vec::new();
    repositories.push(
        (
            String::from_str("default"),
            Repository {
                url: String::from_str("https://default-repo.example.com"),
                enabled: true,
                priority: DEFAULT_PRIORITY,
            },
        ),
    );
    assert(repo_names(repositories@).len() == 1);
    Config {
        config_version: String::from_str("1.0"),
        temp_path: join_with(cache_base.as_str(), "/", "rust-package-manager"),
        bin_path: join_with(home_base.as_str(), "/", ".local/bin"),
        sgoinfre_username: None,
        repositories,
    }
}

impl Config {
    /// Repository names are unique.
    pub open spec fn wf(&self) -> bool {
        repo_names(self.repositories@).no_duplicates()
    }

    /// The default configuration for this user's cache and home directories.
    pub fn default() -> (r: Config)
        ensures
            r.config_version@ == "1.0"@,
            r.wf(),
            r.sgoinfre_username is None,
            r.repositories@.len() == 1,
            r.repositories@[0].0@ == "default"@,
            r.repositories@[0].1.url@ == "https://default-repo.example.com"@,
            r.repositories@[0].1.enabled,
            r.repositories@[0].1.priority == DEFAULT_PRIORITY,
            exists|base: Seq<char>| r.temp_path@ == path_join(base, "rust-package-manager"@),
            exists|base: Seq<char>| r.bin_path@ == path_join(base, ".local/bin"@),
    {
        config_with_dirs(cache_dir(), home_dir())
    }

    /// Checks the configuration: absolute working paths, at least one
    /// repository, and every repository URL non-empty over http or https.
    pub fn validate(&self) -> (r: Result<(), ConfigError>)
        ensures
            r is Ok <==> config_ok(*self),
            r is Err ==> r matches Err(ConfigError::ValidationError(_)),
    {
        if !has_prefix(self.temp_path.as_str(), "/") {
            proof {
                reveal_strlit("/");
                if is_absolute(self.temp_path@) {
                    assert(self.temp_path@.subrange(0, 1) =~= "/"@);
                }
            }
            return Err(ConfigError::ValidationError(String::from_str("temp_path must be absolute")));
        }
        if !has_prefix(self.bin_path.as_str(), "/") {
            proof {
                reveal_strlit("/");
                if is_absolute(self.bin_path@) {
                    assert(self.bin_path@.subrange(0, 1) =~= "/"@);
                }
            }
            return Err(ConfigError::ValidationError(String::from_str("bin_path must be absolute")));
        }
        proof {
            reveal_strlit("/");
            assert(self.temp_path@.subrange(0, 1)[0] == '/');
            assert(self.bin_path@.subrange(0, 1)[0] == '/');
        }
        if self.repositories.len() == 0 {
            return Err(
                ConfigError::ValidationError(String::from_str("At least one repository must be configured")),
            );
        }
        let mut i: usize = 0;
        while i < self.repositories.len()
            invariant
                i <= self.repositories@.len(),
                forall|j: int| 0 <= j < i ==> url_ok(#[trigger] self.repositories@[j].1.url@),
            decreases self.repositories@.len() - i,
        {
            let name = self.repositories[i].0.as_str();
            let url = self.repositories[i].1.url.as_str();
            if url.unicode_len() == 0 {
                return Err(
                    ConfigError::ValidationError(join_with("Repository '", name, "' has an empty URL")),
                );
            }
            if !has_prefix(url, "http://") && !has_prefix(url, "https://") {
                return Err(
                    ConfigError::ValidationError(
                        join_with("Repository '", name, "' URL must start with http:// or https://"),
                    ),
                );
            }
            i = i + 1;
        }
        Ok(())
    }

    /// Adds a repository under a new name, enabled, with the default
    /// priority.
    pub fn add_repository(&mut self, name: String, url: String) -> (r: Result<(), ConfigError>)
        ensures
            old(self).wf() ==> final(self).wf(),
            final(self).temp_path == old(self).temp_path,
            final(self).bin_path == old(self).bin_path,
            repo_names(old(self).repositories@).contains(name@) ==> (r matches Err(
                ConfigError::ValidationError(_),
            )) && final(self).repositories@ == old(self).repositories@,
            !repo_names(old(self).repositories@).contains(name@) ==> r is Ok
                && final(self).repositories@ == old(self).repositories@.push(
                (name, Repository { url, enabled: true, priority: DEFAULT_PRIORITY }),
            ),
    {
        match position_of_repo(&self.repositories, name.as_str()) {
            Some(i) => {
                assert(repo_names(self.repositories@)[i as int] == name@);
                return Err(
                    ConfigError::ValidationError(join_with("Repository '", name.as_str(), "' already exists")),
                );
            },
            None => {},
        }
        let ghost before = self.repositories@;
        let ghost key = name@;
        self.repositories.push((name, Repository { url, enabled: true, priority: DEFAULT_PRIORITY }));
        proof {
            assert(repo_names(self.repositories@) =~= repo_names(before).push(key));
            if repo_names(before).no_duplicates() {
                lemma_push_unique(repo_names(before), key);
            }
        }
        Ok(())
    }

    /// Removes a repository by name. The last repository cannot be removed:
    /// a configuration needs at least one, and a failed call changes nothing.
    pub fn remove_repository(&mut self, name: &str) -> (r: Result<(), ConfigError>)
        ensures
            old(self).wf() ==> final(self).wf(),
            final(self).temp_path == old(self).temp_path,
            final(self).bin_path == old(self).bin_path,
            !repo_names(old(self).repositories@).contains(name@) ==> (r matches Err(
                ConfigError::ValidationError(_),
            )) && final(self).repositories@ == old(self).repositories@,
            repo_names(old(self).repositories@).contains(name@) && old(self).repositories@.len() == 1
                ==> (r matches Err(ConfigError::ValidationError(_))),
            repo_names(old(self).repositories@).contains(name@) && old(self).repositories@.len() > 1
                ==> r is Ok && exists|i: int|
                0 <= i < old(self).repositories@.len() && old(self).repositories@[i].0@ == name@
                    && final(self).repositories@ == old(self).repositories@.remove(i),
            r is Err ==> (r matches Err(ConfigError::ValidationError(_))) && final(self).repositories@
                == old(self).repositories@,
    {
        match position_of_repo(&self.repositories, name) {
            Some(i) => {
                assert(repo_names(self.repositories@)[i as int] == name@);
                if self.repositories.len() == 1 {
                    return Err(ConfigError::ValidationError(String::from_str("Cannot remove last repository")));
                }
                let ghost before = self.repositories@;
                self.repositories.remove(i);
                proof {
                    assert(repo_names(self.repositories@) =~= repo_names(before).remove(i as int));
                    if repo_names(before).no_duplicates() {
                        lemma_remove_unique(repo_names(before), i as int);
                    }
                }
                Ok(())
            },
            None => Err(ConfigError::ValidationError(join_with("Repository '", name, "' does not exist"))),
        }
    }
}

} // verus!
