//! The registry store: turns references typed by a user into package
//! locations, and keeps the set of trusted provider namespaces.
use vstd::prelude::*;

use crate::models::{string_views, Package, PackageReference};
use crate::text::{
    count_char, joined, last_index_of, lemma_joined_lacks, lemma_last_index_after, lemma_split_joined, last_position, lemma_last_index_bounds, position_of,
    split_pair, split_pair_spec, str_eq,
};
use crate::text::{lemma_push_unique, lemma_remove_unique};

verus! {

/// Why a registry operation failed.
#[derive(Debug, Clone, PartialEq, Eq)]
pub enum RegistryError {
    ProviderNotFound(String),
    PackageNotFound { name: String, provider: String },
    PackageConfigNotFound(String),
    InvalidPackageConfig(String),
    InvalidPackageReference(String),
    NoDefaultProvider,
    PathNotFound(String),
    OperationFailed(String),
}

/// The persisted registry configuration: the trusted providers and the
/// provider used for bare package names.
#[derive(Debug, Clone)]
pub struct RegistryConfig {
    pub providers: Vec<String>,
    pub default_provider: Option<String>,
}

/// The registry: its configuration and the roots of the shared volumes.
#[derive(Debug)]
pub struct RegistryManager {
    pub config: RegistryConfig,
    pub config_path: String,
    pub sgoinfre: String,
    pub goinfre: String,
}

/// `a/b`.
pub open spec fn path_join(a: Seq<char>, b: Seq<char>) -> Seq<char> {
    a + seq!['/'] + b
}

/// The directory name of a package: `provider_name`.
pub open spec fn dir_name_spec(provider: Seq<char>, name: Seq<char>) -> Seq<char> {
    joined(provider, '_', name)
}

/// Where a package lives under the shared root: `root/provider/provider_name`.
pub open spec fn package_path_spec(root: Seq<char>, provider: Seq<char>, name: Seq<char>) -> Seq<
    char,
> {
    path_join(path_join(root, provider), dir_name_spec(provider, name))
}

/// Whether the end of `p` is a `/` or a `.` component after a `/`, which
/// the last component of a path passes over.
pub open spec fn droppable_tail(p: Seq<char>) -> bool {
    p.len() > 0 && (p.last() == '/' || (p.last() == '.' && p.len() >= 2 && p[p.len() - 2] == '/'))
}

/// A path without its trailing `/`s and `.` components.
pub open spec fn trim_tail(p: Seq<char>) -> Seq<char>
    decreases p.len(),
{
    if droppable_tail(p) {
        trim_tail(p.drop_last())
    } else {
        p
    }
}

/// The last component of a path: what follows its last `/` once trailing
/// `/`s and `.` components are dropped, unless that is empty, `.` or `..`.
pub open spec fn file_name_spec(path: Seq<char>) -> Option<Seq<char>> {
    let p = trim_tail(path);
    let f = p.subrange(last_index_of(p, '/') + 1, p.len() as int);
    if f.len() == 0 || f == seq!['.'] || f == seq!['.', '.'] {
        None
    } else {
        Some(f)
    }
}

/// The reference that a package directory's path names, if any.
pub open spec fn reference_of_path(p: Seq<char>) -> Option<(Seq<char>, Seq<char>)> {
    match file_name_spec(p) {
        Some(d) => split_pair_spec(d, '_'),
        None => None,
    }
}

/// A provider or package name that can stand in a directory name and be
/// read back from it.
pub open spec fn valid_component(s: Seq<char>) -> bool {
    !s.contains('_') && !s.contains('/')
}

/// The reference that a typed text denotes, given the default provider:
/// `provider:name`, or a bare `name` under the default provider.
pub open spec fn parse_reference_spec(text: Seq<char>, default: Option<Seq<char>>) -> Option<
    (Seq<char>, Seq<char>),
> {
    if count_char(text, ':') == 1 {
        split_pair_spec(text, ':')
    } else if count_char(text, ':') == 0 {
        match default {
            Some(d) => Some((d, text)),
            None => None,
        }
    } else {
        None
    }
}

/// Whether `r` is the error that names `u` as an unknown provider.
pub open spec fn provider_not_found<T>(r: Result<T, RegistryError>, u: Seq<char>) -> bool {
    match r {
        Err(RegistryError::ProviderNotFound(x)) => x@ == u,
        _ => false,
    }
}

/// Whether two manifests agree on everything but the provider.
pub open spec fn same_but_provider(p: Package, q: Package) -> bool {
    p == Package { provider: p.provider, ..q }
}

/// Whether `q` occurs as a contiguous part of `t`.
pub open spec fn is_substring(q: Seq<char>, t: Seq<char>) -> bool {
    exists|k: int| 0 <= k && k + q.len() <= t.len() && #[trigger] t.subrange(k, k + q.len()) == q
}

/// The lowercase form of a string, as `str::to_lowercase` gives it.
pub uninterp spec fn lower_of(s: Seq<char>) -> Seq<char>;

/// Whether a package name matches a search query, ignoring case.
pub open spec fn name_matches(name: Seq<char>, query: Seq<char>) -> bool {
    is_substring(lower_of(query), lower_of(name))
}

/// The empty query, once lowercased, matches every package.
proof fn lemma_empty_query_matches_all(ps: Seq<Package>, query: Seq<char>)
    requires
        lower_of(query).len() == 0,
    ensures
        matching_positions(ps, query) == Seq::new(ps.len(), |i: int| i as usize),
    decreases ps.len(),
{
    if ps.len() > 0 {
        lemma_empty_query_matches_all(ps.drop_last(), query);
        let t = lower_of(ps.last().name@);
        assert(t.subrange(0, 0int + lower_of(query).len()) =~= lower_of(query));
        assert(is_substring(lower_of(query), t));
        assert(matching_positions(ps, query) =~= Seq::new(ps.len(), |i: int| i as usize));
    } else {
        assert(matching_positions(ps, query) =~= Seq::new(ps.len(), |i: int| i as usize));
    }
}

/// The positions, in order, of the packages whose name matches the query.
pub open spec fn matching_positions(ps: Seq<Package>, query: Seq<char>) -> Seq<usize>
    decreases ps.len(),
{
    if ps.len() == 0 {
        Seq::empty()
    } else {
        let rest = matching_positions(ps.drop_last(), query);
        if name_matches(ps.last().name@, query) {
            rest.push((ps.len() - 1) as usize)
        } else {
            rest
        }
    }
}

/// A reference whose provider and name hold neither `_` nor `/` is read back
/// from its package directory's path; one whose parts hold no `:` is read back
/// from `provider:name`; and a bare name without `:` is read as a name under
/// the default provider.
pub proof fn lemma_reference_round_trip(
    root: Seq<char>,
    provider: Seq<char>,
    name: Seq<char>,
    default: Seq<char>,
)
    requires
        valid_component(provider),
        valid_component(name),
    ensures
        reference_of_path(package_path_spec(root, provider, name)) == Some((provider, name)),
        !provider.contains(':') && !name.contains(':') ==> parse_reference_spec(
            joined(provider, ':', name),
            None,
        ) == Some((provider, name)),
        !name.contains(':') ==> parse_reference_spec(name, Some(default)) == Some(
            (default, name),
        ),
{
    let d = dir_name_spec(provider, name);
    let x = path_join(root, provider);
    let p = package_path_spec(root, provider, name);
    lemma_joined_lacks(provider, '_', name, '/');
    assert(p.last() == d.last());
    assert(d[d.len() - 1] != '/');
    if d.len() >= 2 {
        assert(p[p.len() - 2] == d[d.len() - 2]);
        assert(d[d.len() - 2] != '/');
    } else {
        assert(d[0] == '_');
    }
    assert(!droppable_tail(p));
    assert(trim_tail(p) == p);
    if d == seq!['.'] {
        assert(d[provider.len() as int] == '.');
    }
    assert(p =~= (x + seq!['/']) + d);
    lemma_last_index_after(x + seq!['/'], d, '/');
    assert(p.subrange(x.len() + 1 as int, p.len() as int) =~= d);
    assert(d[provider.len() as int] == '_');
    if d == seq!['.', '.'] {
        assert(d[provider.len() as int] == '.');
    }
    lemma_split_joined(provider, '_', name);
    if !provider.contains(':') && !name.contains(':') {
        lemma_split_joined(provider, ':', name);
        crate::text::lemma_count_concat(provider + seq![':'], name, ':');
        crate::text::lemma_count_concat(provider, seq![':'], ':');
        crate::text::lemma_count_single(':', ':');
        crate::text::lemma_count_zero(provider, ':');
        crate::text::lemma_count_zero(name, ':');
    }
    crate::text::lemma_count_zero(name, ':');
}

/// Relies on `str::to_lowercase`: the result depends on the characters alone,
/// and the empty string stays empty.
#[verifier::external_body]
fn lowercase(s: &str) -> (r: String)
    ensures
        r@ == lower_of(s@),
        s@.len() == 0 ==> r@.len() == 0,
{
    s.to_lowercase()
}

/// Whether the first `n` characters of `path` end in a `/` or in a `.`
/// component after a `/`.
fn tail_droppable(path: &str, n: usize) -> (r: bool)
    requires
        n <= path@.len(),
    ensures
        r == droppable_tail(path@.subrange(0, n as int)),
{
    if n == 0 {
        return false;
    }
    let c = path.get_char(n - 1);
    if c == '/' {
        return true;
    }
    c == '.' && n >= 2 && path.get_char(n - 2) == '/'
}

/// The last component of a path.
pub fn file_name(path: &str) -> (r: Option<String>)
    ensures
        file_name_spec(path@) == (match r {
            Some(f) => Some(f@),
            None => None::<Seq<char>>,
        }),
{
    let mut n = path.unicode_len();
    assert(path@.subrange(0, n as int) =~= path@);
    while tail_droppable(path, n)
        invariant
            n <= path@.len(),
            trim_tail(path@) == trim_tail(path@.subrange(0, n as int)),
        decreases n,
    {
        assert(path@.subrange(0, n as int).drop_last() =~= path@.subrange(0, n - 1));
        n = n - 1;
    }
    let p = path.substring_char(0, n);
    proof {
        assert(p@ == path@.subrange(0, n as int));
        assert(!droppable_tail(p@));
        assert(trim_tail(p@) == p@);
        lemma_last_index_bounds(p@, '/');
    }
    let start: usize = match last_position(p, '/') {
        Some(k) => k + 1,
        None => 0,
    };
    let f = p.substring_char(start, n);
    let m = f.unicode_len();
    if m == 0 {
        return None;
    }
    if m == 2 && f.get_char(0) == '.' && f.get_char(1) == '.' {
        assert(f@ =~= seq!['.', '.']);
        return None;
    }
    if m == 1 && f.get_char(0) == '.' {
        assert(f@ =~= seq!['.']);
        return None;
    }
    proof {
        if f@ == seq!['.', '.'] {
            assert(f@[0] == '.');
        }
        if f@ == seq!['.'] {
            assert(f@[0] == '.');
        }
    }
    Some(String::from_str(f))
}

/// Whether `q` occurs as a contiguous part of `t`.
pub fn contains_substring(t: &str, q: &str) -> (r: bool)
    ensures
        r == is_substring(q@, t@),
{
    let n = t.unicode_len();
    let m = q.unicode_len();
    if m > n {
        assert(!is_substring(q@, t@));
        return false;
    }
    let mut k: usize = 0;
    while k <= n - m
        invariant
            n == t@.len(),
            m == q@.len(),
            m <= n,
            k <= n - m + 1,
            forall|j: int| 0 <= j < k ==> #[trigger] t@.subrange(j, j + m) != q@,
        decreases n - m + 1 - k,
    {
        let mut i: usize = 0;
        let mut same = true;
        while i < m
            invariant
                n == t@.len(),
                m == q@.len(),
                k + m <= n,
                i <= m,
                same == forall|j: int| 0 <= j < i ==> t@[k + j] == q@[j],
            decreases m - i,
        {
            if t.get_char(k + i) != q.get_char(i) {
                same = false;
            }
            i = i + 1;
        }
        if same {
            assert(t@.subrange(k as int, k + m) =~= q@);
            return true;
        }
        proof {
            if t@.subrange(k as int, k + m) == q@ {
                assert forall|j: int| 0 <= j < m implies t@[k + j] == q@[j] by {
                    assert(t@.subrange(k as int, k + m)[j] == t@[k + j]);
                }
            }
        }
        k = k + 1;
    }
    false
}

impl RegistryConfig {
    /// A configuration with no providers and no default provider.
    pub fn empty() -> (r: Self)
        ensures
            r.providers@.len() == 0,
            r.default_provider is None,
    {
        RegistryConfig { providers: Vec::new(), default_provider: None }
    }
}

impl RegistryManager {
    /// The registry over a loaded configuration, with the shared volumes at
    /// `/sgoinfre` and `/goinfre`.
    pub fn new(config: RegistryConfig, config_path: String) -> (r: Self)
        ensures
            r.config == config,
            r.config_path == config_path,
            r.sgoinfre@ == "/sgoinfre"@,
            r.goinfre@ == "/goinfre"@,
    {
        RegistryManager {
            config,
            config_path,
            sgoinfre: String::from_str("/sgoinfre"),
            goinfre: String::from_str("/goinfre"),
        }
    }

    /// The registry over a loaded configuration and the given volume roots.
    pub fn with_roots(config: RegistryConfig, config_path: String, sgoinfre: String, goinfre: String) -> (r: Self)
        ensures
            r.config == config,
            r.config_path == config_path,
            r.sgoinfre == sgoinfre,
            r.goinfre == goinfre,
    {
        RegistryManager { config, config_path, sgoinfre, goinfre }
    }

    /// Providers are listed once each.
    pub open spec fn wf(&self) -> bool {
        self.providers_view().no_duplicates()
    }

    pub open spec fn providers_view(&self) -> Seq<Seq<char>> {
        string_views(self.config.providers@)
    }

    pub open spec fn default_view(&self) -> Option<Seq<char>> {
        match self.config.default_provider {
            Some(d) => Some(d@),
            None => None,
        }
    }

    /// The configured providers.
    pub fn list_providers(&self) -> (r: &Vec<String>)
        ensures
            r@ == self.config.providers@,
    {
        &self.config.providers
    }

    /// The provider that bare package names refer to.
    pub fn get_default_provider(&self) -> (r: Option<&str>)
        ensures
            match r {
                Some(s) => self.default_view() == Some(s@),
                None => self.default_view() is None,
            },
    {
        match &self.config.default_provider {
            Some(d) => Some(d.as_str()),
            None => None,
        }
    }

    /// The directory of a package: `sgoinfre/provider/provider_name`.
    pub fn get_package_path(&self, reference: &PackageReference) -> (r: String)
        ensures
            r@ == package_path_spec(self.sgoinfre@, reference.provider@, reference.name@),
    {
        proof {
            reveal_strlit("/");
            reveal_strlit("_");
        }
        let dir = crate::text::join_with(reference.provider.as_str(), "_", reference.name.as_str());
        let base = crate::text::join_with(self.sgoinfre.as_str(), "/", reference.provider.as_str());
        crate::text::join_with(base.as_str(), "/", dir.as_str())
    }

    /// The reference that a package directory's path names: its last
    /// component must be `provider_name` with exactly one `_`.
    pub fn path_to_package_reference(&self, path: &str) -> (r: Result<PackageReference, RegistryError>)
        ensures
            match r {
                Ok(rf) => reference_of_path(path@) == Some((rf.provider@, rf.name@)),
                Err(e) => reference_of_path(path@) is None && (match e {
                    RegistryError::InvalidPackageReference(t) => t@ == (match file_name_spec(
                        path@,
                    ) {
                        Some(d) => d,
                        None => path@,
                    }),
                    _ => false,
                }),
            },
    {
        let dir = match file_name(path) {
            Some(d) => d,
            None => {
                return Err(RegistryError::InvalidPackageReference(String::from_str(path)));
            },
        };
        match split_pair(dir.as_str(), '_') {
            Some((provider, name)) => Ok(PackageReference { provider, name }),
            None => Err(RegistryError::InvalidPackageReference(dir)),
        }
    }

    /// Reads `provider:name`, or a bare `name` under the default provider.
    pub fn parse_package_reference(&self, text: &str) -> (r: Result<PackageReference, RegistryError>)
        ensures
            match r {
                Ok(rf) => parse_reference_spec(text@, self.default_view()) == Some(
                    (rf.provider@, rf.name@),
                ),
                Err(e) => parse_reference_spec(text@, self.default_view()) is None && (match e {
                    RegistryError::NoDefaultProvider => count_char(text@, ':') == 0,
                    RegistryError::InvalidPackageReference(t) => count_char(text@, ':') >= 2
                        && t@ == text@,
                    _ => false,
                }),
            },
    {
        match split_pair(text, ':') {
            Some((provider, name)) => {
                return Ok(PackageReference { provider, name });
            },
            None => {},
        }
        if crate::text::contains_char(text, ':') {
            proof {
                crate::text::lemma_count_zero(text@, ':');
            }
            return Err(RegistryError::InvalidPackageReference(String::from_str(text)));
        }
        proof {
            crate::text::lemma_count_zero(text@, ':');
        }
        match self.get_default_provider() {
            Some(d) => Ok(PackageReference { provider: String::from_str(d), name: String::from_str(text) }),
            None => Err(RegistryError::NoDefaultProvider),
        }
    }

    /// Adds a provider whose namespace exists on the shared volume; adding a
    /// provider that is already configured changes nothing.
    pub fn add_provider(&mut self, username: &str, namespace_exists: bool) -> (r: Result<(), RegistryError>)
        ensures
            old(self).wf() ==> final(self).wf(),
            final(self).sgoinfre == old(self).sgoinfre,
            final(self).goinfre == old(self).goinfre,
            final(self).config_path == old(self).config_path,
            final(self).default_view() == old(self).default_view(),
            old(self).providers_view().contains(username@) ==> r is Ok && final(self).providers_view()
                == old(self).providers_view(),
            !old(self).providers_view().contains(username@) && !namespace_exists ==> final(self).providers_view() == old(self).providers_view() && provider_not_found(r, username@),
            !old(self).providers_view().contains(username@) && namespace_exists ==> r is Ok
                && final(self).providers_view() == old(self).providers_view().push(username@),
    {
        match position_of(&self.config.providers, username) {
            Some(i) => {
                assert(self.providers_view()[i as int] == username@);
                return Ok(());
            },
            None => {},
        }
        if !namespace_exists {
            return Err(RegistryError::ProviderNotFound(String::from_str(username)));
        }
        self.config.providers.push(String::from_str(username));
        assert(self.providers_view() =~= old(self).providers_view().push(username@));
        proof {
            if old(self).wf() {
                lemma_push_unique(old(self).providers_view(), username@);
            }
        }
        Ok(())
    }

    /// Removes a configured provider, clearing the default provider if it
    /// was that one.
    pub fn remove_provider(&mut self, username: &str) -> (r: Result<(), RegistryError>)
        ensures
            old(self).wf() ==> final(self).wf(),
            final(self).sgoinfre == old(self).sgoinfre,
            final(self).goinfre == old(self).goinfre,
            final(self).config_path == old(self).config_path,
            !old(self).providers_view().contains(username@) ==> provider_not_found(r, username@) && final(self).providers_view() == old(self).providers_view()
                && final(self).default_view() == old(self).default_view(),
            old(self).providers_view().contains(username@) ==> r is Ok && exists|i: int|
                0 <= i < old(self).providers_view().len() && old(self).providers_view()[i]
                    == username@ && (forall|j: int|
                    0 <= j < i ==> old(self).providers_view()[j] != username@)
                    && final(self).providers_view() == old(self).providers_view().remove(i),
            old(self).providers_view().contains(username@) ==> final(self).default_view() == (
            if old(self).default_view() == Some(username@) {
                None
            } else {
                old(self).default_view()
            }),
    {
        match position_of(&self.config.providers, username) {
            Some(i) => {
                let ghost before = self.providers_view();
                assert(before[i as int] == username@);
                self.config.providers.remove(i);
                assert(self.providers_view() =~= before.remove(i as int));
                proof {
                    if before.no_duplicates() {
                        lemma_remove_unique(before, i as int);
                    }
                }
                let clear = match &self.config.default_provider {
                    Some(d) => str_eq(d.as_str(), username),
                    None => false,
                };
                if clear {
                    self.config.default_provider = None;
                }
                Ok(())
            },
            None => {
                assert(!self.providers_view().contains(username@));
                Err(RegistryError::ProviderNotFound(String::from_str(username)))
            },
        }
    }

    /// Makes a configured provider the default one.
    pub fn set_default_provider(&mut self, username: &str) -> (r: Result<(), RegistryError>)
        ensures
            final(self).sgoinfre == old(self).sgoinfre,
            final(self).goinfre == old(self).goinfre,
            final(self).config_path == old(self).config_path,
            final(self).providers_view() == old(self).providers_view(),
            old(self).providers_view().contains(username@) ==> r is Ok && final(self).default_view()
                == Some(username@),
            !old(self).providers_view().contains(username@) ==> provider_not_found(r, username@) && final(self).default_view() == old(self).default_view(),
    {
        match position_of(&self.config.providers, username) {
            Some(i) => {
                assert(self.providers_view()[i as int] == username@);
                self.config.default_provider = Some(String::from_str(username));
                Ok(())
            },
            None => {
                assert(!self.providers_view().contains(username@));
                Err(RegistryError::ProviderNotFound(String::from_str(username)))
            },
        }
    }

    /// The directory of a package of a configured provider, given whether
    /// that directory exists.
    pub fn resolve_package_location(&self, reference: &PackageReference, package_exists: bool) -> (r: Result<String, RegistryError>)
        ensures
            !self.providers_view().contains(reference.provider@) ==> r == Err::<String, RegistryError>(
                RegistryError::ProviderNotFound(reference.provider),
            ),
            self.providers_view().contains(reference.provider@) && !package_exists ==> r == Err::<
                String,
                RegistryError,
            >(RegistryError::PackageNotFound { name: reference.name, provider: reference.provider }),
            self.providers_view().contains(reference.provider@) && package_exists ==> (match r {
                Ok(p) => p@ == package_path_spec(self.sgoinfre@, reference.provider@, reference.name@),
                Err(_) => false,
            }),
    {
        match position_of(&self.config.providers, reference.provider.as_str()) {
            Some(i) => {
                assert(self.providers_view()[i as int] == reference.provider@);
            },
            None => {
                assert(!self.providers_view().contains(reference.provider@));
                return Err(RegistryError::ProviderNotFound(reference.provider.clone()));
            },
        }
        if !package_exists {
            return Err(
                RegistryError::PackageNotFound {
                    name: reference.name.clone(),
                    provider: reference.provider.clone(),
                },
            );
        }
        Ok(self.get_package_path(reference))
    }

    /// The positions of the packages whose name holds the query, ignoring case.
    pub fn search_packages(&self, packages: &Vec<Package>, query: &str) -> (r: Vec<usize>)
        ensures
            r@ == matching_positions(packages@, query@),
            query@.len() == 0 ==> r@ == Seq::new(packages@.len(), |i: int| i as usize),
    {
        let q = lowercase(query);
        proof {
            if query@.len() == 0 {
                lemma_empty_query_matches_all(packages@, query@);
            }
        }
        let mut r: Vec<usize> = Vec::new();
        let mut i: usize = 0;
        while i < packages.len()
            invariant
                i <= packages@.len(),
                q@ == lower_of(query@),
                r@ == matching_positions(packages@.subrange(0, i as int), query@),
            decreases packages@.len() - i,
        {
            proof {
                let s = packages@.subrange(0, i + 1);
                assert(s.drop_last() =~= packages@.subrange(0, i as int));
                assert(s.last() == packages@[i as int]);
            }
            let name = lowercase(packages[i].name.as_str());
            if contains_substring(name.as_str(), q.as_str()) {
                r.push(i);
            }
            i = i + 1;
        }
        assert(packages@.subrange(0, packages@.len() as int) =~= packages@);
        r
    }
}

/// A provider namespace on the shared volume.
#[derive(Debug, Clone)]
pub struct Provider {
    pub username: String,
    pub path: String,
}

impl Provider {
    /// The namespace of `username` under the shared root.
    pub fn new(username: String, sgoinfre_path: &str) -> (r: Self)
        ensures
            r.username == username,
            r.path@ == path_join(sgoinfre_path@, username@),
    {
        proof {
            reveal_strlit("/");
        }
        let path = crate::text::join_with(sgoinfre_path, "/", username.as_str());
        Provider { path, username }
    }
}

impl RegistryManager {
    /// The providers whose packages a listing covers: the one asked for, or
    /// every configured provider.
    pub fn providers_to_list(&self, provider: Option<&str>) -> (r: Vec<String>)
        ensures
            match provider {
                Some(p) => string_views(r@) == seq![p@],
                None => string_views(r@) == self.providers_view(),
            },
    {
        match provider {
            Some(p) => {
                let mut r: Vec<String> = Vec::new();
                r.push(String::from_str(p));
                assert(string_views(r@) =~= seq![p@]);
                r
            },
            None => {
                let mut r: Vec<String> = Vec::new();
                let mut i: usize = 0;
                while i < self.config.providers.len()
                    invariant
                        i <= self.config.providers@.len(),
                        r@.len() == i,
                        string_views(r@) == string_views(self.config.providers@.subrange(0, i as int)),
                    decreases self.config.providers@.len() - i,
                {
                    let ghost before = r@;
                    let item = self.config.providers[i].clone();
                    assert(item == self.config.providers@[i as int]);
                    r.push(item);
                    assert(r@ == before.push(self.config.providers@[i as int]));
                    proof {
                        let full = self.config.providers@.subrange(0, i + 1);
                        let prev = self.config.providers@.subrange(0, i as int);
                        assert forall|k: int| 0 <= k < r@.len() implies #[trigger] string_views(r@)[k] == string_views(full)[k] by {
                            if k < i {
                                assert(r@[k] == before[k]);
                                assert(string_views(before)[k] == string_views(prev)[k]);
                                assert(prev[k] == full[k]);
                            } else {
                                assert(r@[k] == self.config.providers@[i as int]);
                            }
                        }
                        assert(string_views(r@) =~= string_views(full));
                    }
                    i = i + 1;
                }
                assert(self.config.providers@.subrange(0, self.config.providers@.len() as int) =~= self.config.providers@);
                r
            },
        }
    }

    /// A manifest listed under a provider's namespace, credited to that
    /// provider.
    pub fn with_listing_provider(&self, package: Package, provider: &str) -> (r: Package)
        ensures
            same_but_provider(r, package),
            r.provider matches Some(p) && p@ == provider@,
    {
        let mut package = package;
        package.provider = Some(String::from_str(provider));
        package
    }

    /// A manifest read from a package directory, with the provider that the
    /// directory's name gives when the manifest names none.
    pub fn with_provider_from_path(&self, package: Package, path: &str) -> (r: Result<Package, RegistryError>)
        ensures
            package.provider is Some ==> r == Ok::<Package, RegistryError>(package),
            package.provider is None ==> match r {
                Ok(p) => same_but_provider(p, package) && match reference_of_path(
                    path@,
                ) {
                    Some((prov, _)) => p.provider matches Some(pv) && pv@ == prov,
                    None => false,
                },
                Err(_) => reference_of_path(path@) is None,
            },
    {
        if package.provider.is_some() {
            return Ok(package);
        }
        let reference = match self.path_to_package_reference(path) {
            Ok(r) => r,
            Err(e) => {
                return Err(e);
            },
        };
        let mut package = package;
        package.provider = Some(reference.provider);
        Ok(package)
    }
}

} // verus!
