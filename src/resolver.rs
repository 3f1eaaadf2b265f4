//! Dependency resolution: the ordered, cycle-free closure of a package's
//! dependencies over a catalog of known packages, dependencies first.
use vstd::prelude::*;

use crate::models::{dep_list, Package, PackageDependency};
use crate::text::str_eq;
use crate::validator::{compatible, SystemValidator};

verus! {

/// Why a package could not be resolved.
#[derive(Debug, Clone, PartialEq, Eq)]
pub enum ResolveError {
    /// The package with this key depends on itself, directly or not.
    CircularDependencyDetected(String),
    /// No known package satisfies the dependency of this name.
    DependencyNotFound(String),
    /// The package of this name does not run on this platform.
    Incompatible(String),
}

/// Whether a catalog package satisfies a dependency: same name, and same
/// provider when the dependency names one.
pub open spec fn dep_matches(p: Package, d: PackageDependency) -> bool {
    p.name@ == d.name@ && match d.provider {
        Some(dp) => match p.provider {
            Some(pp) => pp@ == dp@,
            None => false,
        },
        None => true,
    }
}

/// The first position at or after `i` of a catalog package that satisfies `d`.
pub open spec fn find_from(cat: Seq<Package>, d: PackageDependency, i: int) -> Option<int>
    decreases cat.len() - i,
{
    if i < 0 || i >= cat.len() {
        None
    } else if dep_matches(cat[i], d) {
        Some(i)
    } else {
        find_from(cat, d, i + 1)
    }
}

/// The first position at or after `i` of a catalog package with the key `k`.
pub open spec fn find_key_from(cat: Seq<Package>, k: Seq<char>, i: int) -> Option<int>
    decreases cat.len() - i,
{
    if i < 0 || i >= cat.len() {
        None
    } else if key_spec(cat[i]) == k {
        Some(i)
    } else {
        find_key_from(cat, k, i + 1)
    }
}

/// The position that stands for every catalog package of the same key: the
/// first one. A key names one package version.
pub open spec fn canon(cat: Seq<Package>, x: int) -> int {
    match find_key_from(cat, key_spec(cat[x]), 0) {
        Some(c) => c,
        None => x,
    }
}

/// The package that a dependency resolves to: the one that stands for the
/// key of the first package that satisfies it.
pub open spec fn lookup(cat: Seq<Package>, d: PackageDependency) -> Option<int> {
    match find_from(cat, d, 0) {
        Some(i) => Some(canon(cat, i)),
        None => None,
    }
}

proof fn lemma_find_key_from(cat: Seq<Package>, k: Seq<char>, i: int, x: int)
    requires
        0 <= i <= x < cat.len(),
        key_spec(cat[x]) == k,
    ensures
        match find_key_from(cat, k, i) {
            Some(c) => i <= c <= x && key_spec(cat[c]) == k && forall|j: int| i <= j < c ==> key_spec(cat[j]) != k,
            None => false,
        },
    decreases x - i,
{
    if key_spec(cat[i]) != k {
        lemma_find_key_from(cat, k, i + 1, x);
    }
}

/// The standing position of a package is no later, has the same key, and
/// stands for itself.
pub proof fn lemma_canon(cat: Seq<Package>, x: int)
    requires
        0 <= x < cat.len(),
    ensures
        0 <= canon(cat, x) <= x,
        key_spec(cat[canon(cat, x)]) == key_spec(cat[x]),
        canon(cat, canon(cat, x)) == canon(cat, x),
{
    lemma_find_key_from(cat, key_spec(cat[x]), 0, x);
    let c = canon(cat, x);
    lemma_find_key_from(cat, key_spec(cat[c]), 0, c);
}

/// Two standing positions with the same key are the same position.
pub proof fn lemma_canon_keys(cat: Seq<Package>, x: int, y: int)
    requires
        0 <= x < cat.len(),
        0 <= y < cat.len(),
        canon(cat, x) == x,
        canon(cat, y) == y,
        key_spec(cat[x]) == key_spec(cat[y]),
    ensures
        x == y,
{
    lemma_find_key_from(cat, key_spec(cat[x]), 0, x);
}

/// The plan's packages each stand for their key.
pub open spec fn all_canonical(cat: Seq<Package>, plan: Seq<usize>) -> bool {
    forall|k: int| 0 <= k < plan.len() ==> canon(cat, #[trigger] plan[k] as int) == plan[k] as int
}

/// No two packages of a plan share a key.
pub open spec fn keys_distinct(cat: Seq<Package>, plan: Seq<usize>) -> bool {
    forall|a: int, b: int|
        0 <= a < plan.len() && 0 <= b < plan.len() && a != b ==> key_spec(cat[#[trigger] plan[a] as int])
            != key_spec(cat[#[trigger] plan[b] as int])
}

pub proof fn lemma_find_from_range(cat: Seq<Package>, d: PackageDependency, i: int)
    ensures
        match find_from(cat, d, i) {
            Some(x) => i <= x < cat.len() && x >= 0 && dep_matches(cat[x], d),
            None => true,
        },
    decreases cat.len() - i,
{
    if 0 <= i < cat.len() && !dep_matches(cat[i], d) {
        lemma_find_from_range(cat, d, i + 1);
    }
}

/// Whether `x` stands in `plan` before position `k`.
pub open spec fn placed_before(plan: Seq<usize>, x: int, k: int) -> bool {
    exists|m: int| 0 <= m < k && plan[m] as int == x
}

/// Whether `x` stands anywhere in `plan`.
pub open spec fn placed(plan: Seq<usize>, x: int) -> bool {
    placed_before(plan, x, plan.len() as int)
}

/// A plan over the catalog: packages listed once each, each one compatible
/// with the platform, and each one after every package its required
/// dependencies resolve to.
pub open spec fn valid_plan(cat: Seq<Package>, plan: Seq<usize>, os: Seq<char>, arch: Seq<char>) -> bool {
    &&& plan.no_duplicates()
    &&& forall|k: int| 0 <= k < plan.len() ==> (plan[k] as int) < cat.len()
    &&& forall|k: int| 0 <= k < plan.len() ==> compatible(#[trigger] cat[plan[k] as int], os, arch)
    &&& forall|k: int, j: int|
        0 <= k < plan.len() && 0 <= j < dep_list(cat[plan[k] as int].dependencies).len() ==> (
        match #[trigger] lookup(cat, dep_list(cat[plan[k] as int].dependencies)[j]) {
            Some(x) => placed_before(plan, x, k),
            None => false,
        })
}

/// The package that the `j`-th required dependency of the package at `a`
/// resolves to.
pub open spec fn dep_target(cat: Seq<Package>, a: int, j: int) -> Option<int> {
    lookup(cat, dep_list(cat[a].dependencies)[j])
}

/// Whether the package at `a` requires the package at `b`.
pub open spec fn req_edge(cat: Seq<Package>, a: int, b: int) -> bool {
    exists|j: int| 0 <= j < dep_list(cat[a].dependencies).len() && #[trigger] dep_target(cat, a, j) == Some(b)
}

/// A walk along required dependencies through the catalog.
pub open spec fn is_walk(cat: Seq<Package>, w: Seq<int>) -> bool {
    &&& w.len() > 0
    &&& forall|i: int| 0 <= i < w.len() ==> 0 <= #[trigger] w[i] < cat.len()
    &&& forall|i: int| 0 <= i < w.len() - 1 ==> #[trigger] req_edge(cat, w[i], w[i + 1])
}

/// A package that cannot be installed here as it stands: it does not run on
/// the platform, or one of its required dependencies is unknown.
pub open spec fn broken(cat: Seq<Package>, n: int, os: Seq<char>, arch: Seq<char>) -> bool {
    ||| !compatible(cat[n], os, arch)
    ||| exists|j: int| 0 <= j < dep_list(cat[n].dependencies).len() && #[trigger] dep_target(cat, n, j) is None
}

/// A walk that shows a package cannot be resolved: it ends at a broken
/// package, or it goes round a cycle.
pub open spec fn bad_walk(cat: Seq<Package>, w: Seq<int>, os: Seq<char>, arch: Seq<char>) -> bool {
    broken(cat, w.last(), os, arch) || !w.no_duplicates()
}

/// Whether the package at `n` resolves: no walk from it along required
/// dependencies reaches a broken package or a cycle.
pub open spec fn sound(cat: Seq<Package>, n: int, os: Seq<char>, arch: Seq<char>) -> bool {
    forall|w: Seq<int>| #[trigger] is_walk(cat, w) && w[0] == n ==> !bad_walk(cat, w, os, arch)
}

/// Every package in the plan resolves.
pub open spec fn all_sound(cat: Seq<Package>, plan: Seq<usize>, os: Seq<char>, arch: Seq<char>) -> bool {
    forall|k: int| 0 <= k < plan.len() ==> sound(cat, #[trigger] plan[k] as int, os, arch)
}

/// What an error from resolving the package at `node` shows, given the
/// packages in progress: a cycle shows a walk that repeats a package or
/// comes back to one in progress; any other error shows a walk to a broken
/// package.
pub open spec fn explains(
    cat: Seq<Package>,
    node: int,
    path: Seq<usize>,
    e: ResolveError,
    os: Seq<char>,
    arch: Seq<char>,
) -> bool {
    exists|w: Seq<int>|
        #[trigger] is_walk(cat, w) && w[0] == node && match e {
            ResolveError::CircularDependencyDetected(k) => circular_fits(cat, path, w, k),
            _ => broken(cat, w.last(), os, arch),
        }
}

/// Whether the walk `w` comes back to its last package: that package lies
/// on a cycle.
pub open spec fn returns_to_last(w: Seq<int>) -> bool {
    exists|i: int| 0 <= i < w.len() - 1 && w[i] == w.last()
}

/// A circular-dependency error for the walk `w`: it names the key of the
/// walk's last package, which is in progress or on a cycle of the walk.
pub open spec fn circular_fits(cat: Seq<Package>, path: Seq<usize>, w: Seq<int>, k: String) -> bool {
    k@ == key_spec(cat[w.last()]) && (placed(path, w.last()) || returns_to_last(w))
}

proof fn lemma_walk_prepend(cat: Seq<Package>, a: int, j: int, w: Seq<int>)
    requires
        0 <= a < cat.len(),
        0 <= j < dep_list(cat[a].dependencies).len(),
        is_walk(cat, w),
        dep_target(cat, a, j) == Some(w[0]),
    ensures
        is_walk(cat, seq![a] + w),
        (seq![a] + w)[0] == a,
        (seq![a] + w).last() == w.last(),
        !w.no_duplicates() ==> !(seq![a] + w).no_duplicates(),
        w.last() == a ==> !(seq![a] + w).no_duplicates(),
{
    let v = seq![a] + w;
    assert forall|i: int| 0 <= i < v.len() implies 0 <= #[trigger] v[i] < cat.len() by {
        if i > 0 {
            assert(v[i] == w[i - 1]);
        }
    }
    assert forall|i: int| 0 <= i < v.len() - 1 implies #[trigger] req_edge(cat, v[i], v[i + 1]) by {
        if i == 0 {
            assert(dep_target(cat, a, j) == Some(v[1]));
        } else {
            assert(v[i] == w[i - 1] && v[i + 1] == w[i]);
            assert(req_edge(cat, w[i - 1], w[i - 1 + 1]));
        }
    }
    if !w.no_duplicates() {
        let (p, q) = choose|p: int, q: int| 0 <= p < w.len() && 0 <= q < w.len() && p != q && w[p] == w[q];
        assert(v[p + 1] == w[p] && v[q + 1] == w[q]);
    }
    if w.last() == a {
        assert(v[0] == a && v[v.len() - 1] == a);
    }
}

/// A package that runs on the platform and whose required dependencies all
/// resolve, resolves itself, whatever its optional dependencies: those play
/// no part in whether a package resolves.
pub proof fn lemma_sound_from_children(cat: Seq<Package>, node: int, os: Seq<char>, arch: Seq<char>)
    requires
        0 <= node < cat.len(),
        compatible(cat[node], os, arch),
        forall|j: int| 0 <= j < dep_list(cat[node].dependencies).len() ==> match #[trigger] dep_target(cat, node, j) {
            Some(x) => sound(cat, x, os, arch),
            None => false,
        },
    ensures
        sound(cat, node, os, arch),
{
    assert forall|w: Seq<int>| #[trigger] is_walk(cat, w) && w[0] == node implies !bad_walk(cat, w, os, arch) by {
        if w.len() == 1 {
            assert(w.last() == node);
            assert(w.no_duplicates());
            if broken(cat, node, os, arch) {
                let j = choose|j: int| 0 <= j < dep_list(cat[node].dependencies).len() && #[trigger] dep_target(cat, node, j) is None;
                assert(dep_target(cat, node, j) is None);
            }
        } else {
            let w1 = w.drop_first();
            assert(req_edge(cat, w[0], w[1]));
            let j = choose|j: int| 0 <= j < dep_list(cat[node].dependencies).len() && #[trigger] dep_target(cat, node, j) == Some(w[1]);
            let c = w[1];
            assert(sound(cat, c, os, arch));
            assert(is_walk(cat, w1)) by {
                assert forall|i: int| 0 <= i < w1.len() implies 0 <= #[trigger] w1[i] < cat.len() by {
                    assert(w1[i] == w[i + 1]);
                }
                assert forall|i: int| 0 <= i < w1.len() - 1 implies #[trigger] req_edge(cat, w1[i], w1[i + 1]) by {
                    assert(w1[i] == w[i + 1] && w1[i + 1] == w[i + 2]);
                    assert(req_edge(cat, w[i + 1], w[i + 1 + 1]));
                }
            }
            assert(w1[0] == c);
            assert(!bad_walk(cat, w1, os, arch));
            assert(w1.last() == w.last());
            if !w.no_duplicates() {
                let (p, q) = choose|p: int, q: int| 0 <= p < w.len() && 0 <= q < w.len() && p != q && w[p] == w[q];
                if p > 0 && q > 0 {
                    assert(w1[p - 1] == w[p] && w1[q - 1] == w[q]);
                } else {
                    let i = if p == 0 { q } else { p };
                    assert(w[i] == node);
                    let u = w1.subrange(0, i).push(c);
                    assert(u[0] == c);
                    assert(u[i] == c);
                    assert(!u.no_duplicates());
                    assert(is_walk(cat, u)) by {
                        assert forall|t: int| 0 <= t < u.len() implies 0 <= #[trigger] u[t] < cat.len() by {
                            if t < i {
                                assert(u[t] == w1[t]);
                            }
                        }
                        assert forall|t: int| 0 <= t < u.len() - 1 implies #[trigger] req_edge(cat, u[t], u[t + 1]) by {
                            if t < i - 1 {
                                assert(u[t] == w1[t] && u[t + 1] == w1[t + 1]);
                                assert(req_edge(cat, w1[t], w1[t + 1]));
                            } else {
                                assert(u[t] == w1[i - 1]);
                                assert(w1[i - 1] == w[i]);
                                assert(u[t + 1] == c);
                                assert(dep_target(cat, node, j) == Some(c));
                            }
                        }
                    }
                    assert(bad_walk(cat, u, os, arch));
                }
            }
        }
    }
}

/// The package that the `j`-th optional dependency of the package at `a`
/// resolves to.
pub open spec fn opt_target(cat: Seq<Package>, a: int, j: int) -> Option<int> {
    lookup(cat, dep_list(cat[a].optional_dependencies)[j])
}

/// Whether the package at `a` depends on the package at `b`, required or
/// optionally.
pub open spec fn dep_edge(cat: Seq<Package>, a: int, b: int) -> bool {
    req_edge(cat, a, b) || exists|j: int|
        0 <= j < dep_list(cat[a].optional_dependencies).len() && #[trigger] opt_target(cat, a, j) == Some(b)
}

/// A walk along dependencies, required or optional.
pub open spec fn is_dep_walk(cat: Seq<Package>, w: Seq<int>) -> bool {
    &&& w.len() > 0
    &&& forall|i: int| 0 <= i < w.len() ==> 0 <= #[trigger] w[i] < cat.len()
    &&& forall|i: int| 0 <= i < w.len() - 1 ==> #[trigger] dep_edge(cat, w[i], w[i + 1])
}

/// Whether the package at `b` is the one at `a` or one that `a` depends on,
/// directly or not.
pub open spec fn reaches(cat: Seq<Package>, a: int, b: int) -> bool {
    exists|w: Seq<int>| #[trigger] is_dep_walk(cat, w) && w[0] == a && w.last() == b
}

proof fn lemma_reaches_self(cat: Seq<Package>, a: int)
    requires
        0 <= a < cat.len(),
    ensures
        reaches(cat, a, a),
{
    let w = seq![a];
    assert(is_dep_walk(cat, w));
}

proof fn lemma_reaches_prepend(cat: Seq<Package>, a: int, b: int, x: int)
    requires
        0 <= a < cat.len(),
        dep_edge(cat, a, b),
        reaches(cat, b, x),
    ensures
        reaches(cat, a, x),
{
    let w = choose|w: Seq<int>| #[trigger] is_dep_walk(cat, w) && w[0] == b && w.last() == x;
    let v = seq![a] + w;
    assert forall|i: int| 0 <= i < v.len() implies 0 <= #[trigger] v[i] < cat.len() by {
        if i > 0 {
            assert(v[i] == w[i - 1]);
        }
    }
    assert forall|i: int| 0 <= i < v.len() - 1 implies #[trigger] dep_edge(cat, v[i], v[i + 1]) by {
        if i > 0 {
            assert(v[i] == w[i - 1] && v[i + 1] == w[i]);
            assert(dep_edge(cat, w[i - 1], w[i - 1 + 1]));
        }
    }
    assert(is_dep_walk(cat, v));
    assert(v.last() == x);
}

/// The packages added after `from` in `after` reach `node`'s dependency
/// `i`, so they reach `node`.
proof fn lemma_extend_reach(
    cat: Seq<Package>,
    node: int,
    i: int,
    from: int,
    before: Seq<usize>,
    after: Seq<usize>,
)
    requires
        0 <= node < cat.len(),
        dep_edge(cat, node, i),
        0 <= from <= before.len(),
        before.is_prefix_of(after),
        forall|k: int| from <= k < before.len() ==> reaches(cat, node, #[trigger] before[k] as int),
        forall|k: int| before.len() <= k < after.len() ==> reaches(cat, i, #[trigger] after[k] as int),
    ensures
        forall|k: int| from <= k < after.len() ==> reaches(cat, node, #[trigger] after[k] as int),
{
    assert forall|k: int| from <= k < after.len() implies reaches(cat, node, #[trigger] after[k] as int) by {
        if k < before.len() {
            assert(after[k] == before[k]);
        } else {
            lemma_reaches_prepend(cat, node, i, after[k] as int);
        }
    }
}

/// How an optional dependency `x` of the package at `a`, placed at `k`,
/// stands with a plan: it comes before `k`; or it does not resolve; or its
/// required dependencies lead back to a package that depends on `a`, so it
/// was in progress when `a` was resolved.
pub open spec fn optional_handled(
    cat: Seq<Package>,
    plan: Seq<usize>,
    a: int,
    k: int,
    x: int,
    os: Seq<char>,
    arch: Seq<char>,
) -> bool {
    placed_before(plan, x, k) || !sound(cat, x, os, arch) || exists|w: Seq<int>|
        #[trigger] is_walk(cat, w) && w[0] == x && reaches(cat, w.last(), a)
}

/// Every optional dependency of a plan's packages stands as
/// `optional_handled` says.
pub open spec fn optionals_placed(cat: Seq<Package>, plan: Seq<usize>, os: Seq<char>, arch: Seq<char>) -> bool {
    forall|k: int, j: int|
        0 <= k < plan.len() && 0 <= j < dep_list(cat[plan[k] as int].optional_dependencies).len() ==> match #[trigger] opt_target(
            cat,
            plan[k] as int,
            j,
        ) {
            Some(x) => optional_handled(cat, plan, plan[k] as int, k, x, os, arch),
            None => true,
        }
}

/// Every package in progress depends, directly or not, on `node`.
pub open spec fn path_reaches(cat: Seq<Package>, path: Seq<usize>, node: int) -> bool {
    forall|m: int| 0 <= m < path.len() ==> reaches(cat, #[trigger] path[m] as int, node)
}

/// How an optional dependency `x` of `node` stands while `node` is being
/// resolved.
pub open spec fn optional_done(
    cat: Seq<Package>,
    resolved: Seq<usize>,
    node: int,
    x: int,
    os: Seq<char>,
    arch: Seq<char>,
) -> bool {
    placed(resolved, x) || !sound(cat, x, os, arch) || exists|w: Seq<int>|
        #[trigger] is_walk(cat, w) && w[0] == x && reaches(cat, w.last(), node)
}

proof fn lemma_reaches_append(cat: Seq<Package>, y: int, a: int, b: int)
    requires
        reaches(cat, y, a),
        dep_edge(cat, a, b),
        0 <= b < cat.len(),
    ensures
        reaches(cat, y, b),
{
    let w = choose|w: Seq<int>| #[trigger] is_dep_walk(cat, w) && w[0] == y && w.last() == a;
    let v = w.push(b);
    assert forall|i: int| 0 <= i < v.len() implies 0 <= #[trigger] v[i] < cat.len() by {
        if i < w.len() {
            assert(v[i] == w[i]);
        }
    }
    assert forall|i: int| 0 <= i < v.len() - 1 implies #[trigger] dep_edge(cat, v[i], v[i + 1]) by {
        if i < w.len() - 1 {
            assert(v[i] == w[i] && v[i + 1] == w[i + 1]);
        } else {
            assert(v[i] == a && v[i + 1] == b);
        }
    }
    assert(is_dep_walk(cat, v));
}

proof fn lemma_path_step(cat: Seq<Package>, path: Seq<usize>, node: usize, i: int)
    requires
        (node as int) < cat.len(),
        0 <= i < cat.len(),
        path_reaches(cat, path, node as int),
        dep_edge(cat, node as int, i),
    ensures
        path_reaches(cat, path.push(node), i),
{
    lemma_reaches_self(cat, node as int);
    assert forall|m: int| 0 <= m < path.push(node).len() implies reaches(cat, #[trigger] path.push(node)[m] as int, i) by {
        if m < path.len() {
            assert(path.push(node)[m] == path[m]);
            lemma_reaches_append(cat, path[m] as int, node as int, i);
        } else {
            assert(path.push(node)[m] == node);
            lemma_reaches_append(cat, node as int, node as int, i);
        }
    }
}

/// The key that identifies a package in messages: `provider:name@version`,
/// with `default` for a package without a provider.
pub open spec fn key_spec(p: Package) -> Seq<char> {
    let head = match p.provider {
        Some(pr) => pr@,
        None => "default"@,
    };
    head + seq![':'] + p.name@ + seq!['@'] + p.version@
}

/// A list of distinct positions below `n` has at most `n` entries.
pub proof fn lemma_distinct_bounded(s: Seq<usize>, n: nat)
    requires
        s.no_duplicates(),
        forall|i: int| 0 <= i < s.len() ==> (s[i] as int) < n,
    ensures
        s.len() <= n,
    decreases n,
{
    if n == 0 {
        if s.len() > 0 {
            assert(s[0] < 0);
        }
    } else if s.contains((n - 1) as usize) {
        let k = choose|k: int| 0 <= k < s.len() && s[k] == (n - 1) as usize;
        let t = s.remove(k);
        assert forall|i: int| 0 <= i < t.len() implies (t[i] as int) < n - 1 by {
            if i < k {
                assert(t[i] == s[i]);
            } else {
                assert(t[i] == s[i + 1]);
            }
        }
        assert(t.no_duplicates()) by {
            assert forall|i: int, j: int| 0 <= i < t.len() && 0 <= j < t.len() && i != j implies t[i]
                != t[j] by {
                let si = if i < k { i } else { i + 1 };
                let sj = if j < k { j } else { j + 1 };
                assert(t[i] == s[si]);
                assert(t[j] == s[sj]);
            }
        }
        lemma_distinct_bounded(t, (n - 1) as nat);
    } else {
        assert forall|i: int| 0 <= i < s.len() implies (s[i] as int) < n - 1 by {
            if s[i] as int == n - 1 {
                assert(s.contains((n - 1) as usize));
            }
        }
        lemma_distinct_bounded(s, (n - 1) as nat);
    }
}

/// The key that identifies a package: `provider:name@version`.
pub fn package_key(p: &Package) -> (r: String)
    ensures
        r@ == key_spec(*p),
{
    proof {
        reveal_strlit("default");
        reveal_strlit(":");
        reveal_strlit("@");
    }
    let head = match &p.provider {
        Some(pr) => crate::text::join_with(pr.as_str(), ":", p.name.as_str()),
        None => crate::text::join_with("default", ":", p.name.as_str()),
    };
    crate::text::join_with(head.as_str(), "@", p.version.as_str())
}

/// Whether a catalog package satisfies a dependency.
fn matches_dependency(p: &Package, d: &PackageDependency) -> (r: bool)
    ensures
        r == dep_matches(*p, *d),
{
    if !str_eq(p.name.as_str(), d.name.as_str()) {
        return false;
    }
    match &d.provider {
        Some(dp) => match &p.provider {
            Some(pp) => str_eq(pp.as_str(), dp.as_str()),
            None => false,
        },
        None => true,
    }
}

/// The position of the package that a dependency resolves to.
pub fn find_dependency(catalog: &Vec<Package>, d: &PackageDependency) -> (r: Option<usize>)
    ensures
        match r {
            Some(i) => lookup(catalog@, *d) == Some(i as int) && i < catalog@.len() && canon(catalog@, i as int)
                == i as int,
            None => lookup(catalog@, *d) is None,
        },
{
    proof {
        lemma_find_from_range(catalog@, *d, 0);
    }
    let mut i: usize = 0;
    while i < catalog.len()
        invariant
            i <= catalog@.len(),
            find_from(catalog@, *d, 0) == find_from(catalog@, *d, i as int),
        decreases catalog@.len() - i,
    {
        if matches_dependency(&catalog[i], d) {
            proof {
                lemma_canon(catalog@, i as int);
            }
            return Some(canonical(catalog, i));
        }
        i = i + 1;
    }
    None
}

/// The position that stands for the key of the package at `x`.
pub fn canonical(catalog: &Vec<Package>, x: usize) -> (r: usize)
    requires
        x < catalog@.len(),
    ensures
        r as int == canon(catalog@, x as int),
{
    let key = package_key(&catalog[x]);
    proof {
        lemma_find_key_from(catalog@, key@, 0, x as int);
    }
    let mut j: usize = 0;
    while j < x
        invariant
            j <= x < catalog@.len(),
            key@ == key_spec(catalog@[x as int]),
            find_key_from(catalog@, key@, 0) == find_key_from(catalog@, key@, j as int),
        decreases x - j,
    {
        let kj = package_key(&catalog[j]);
        if str_eq(kj.as_str(), key.as_str()) {
            return j;
        }
        j = j + 1;
    }
    x
}

fn contains_index(v: &Vec<usize>, x: usize) -> (r: bool)
    ensures
        r == v@.contains(x),
{
    let mut i: usize = 0;
    while i < v.len()
        invariant
            i <= v@.len(),
            forall|j: int| 0 <= j < i ==> v@[j] != x,
        decreases v@.len() - i,
    {
        if v[i] == x {
            return true;
        }
        i = i + 1;
    }
    false
}

/// Resolves packages of a catalog into a plan, dependencies first. It holds
/// the plan built so far and the packages whose resolution is in progress.
pub struct DependencyResolver {
    pub resolved: Vec<usize>,
    pub in_progress: Vec<usize>,
}

impl DependencyResolver {
    /// A resolver with nothing resolved and nothing in progress.
    pub fn new() -> (r: Self)
        ensures
            r.resolved@.len() == 0,
            r.in_progress@.len() == 0,
    {
        DependencyResolver { resolved: Vec::new(), in_progress: Vec::new() }
    }

    pub open spec fn path_ok(path: Seq<usize>, n: nat) -> bool {
        &&& path.no_duplicates()
        &&& forall|k: int| 0 <= k < path.len() ==> (path[k] as int) < n
    }

    /// Resolves the package at `node` and, before it, its dependencies:
    /// all required ones, and those optional ones that resolve.
    fn resolve_package(
        &mut self,
        catalog: &Vec<Package>,
        node: usize,
        os: &str,
        arch: &str,
    ) -> (r: Result<(), ResolveError>)
        requires
            node < catalog@.len(),
            Self::path_ok(old(self).in_progress@, catalog@.len()),
            valid_plan(catalog@, old(self).resolved@, os@, arch@),
            all_sound(catalog@, old(self).resolved@, os@, arch@),
            all_canonical(catalog@, old(self).resolved@),
            canon(catalog@, node as int) == node as int,
            optionals_placed(catalog@, old(self).resolved@, os@, arch@),
            path_reaches(catalog@, old(self).in_progress@, node as int),
        ensures
            optionals_placed(catalog@, final(self).resolved@, os@, arch@),
            all_canonical(catalog@, final(self).resolved@),
            final(self).in_progress@ == old(self).in_progress@,
            valid_plan(catalog@, final(self).resolved@, os@, arch@),
            all_sound(catalog@, final(self).resolved@, os@, arch@),
            r is Ok ==> sound(catalog@, node as int, os@, arch@),
            match r {
                Err(e) => explains(catalog@, node as int, old(self).in_progress@, e, os@, arch@),
                Ok(_) => true,
            },
            old(self).resolved@.is_prefix_of(final(self).resolved@),
            r is Ok ==> final(self).resolved@.contains(node),
            r is Ok && !old(self).resolved@.contains(node) ==> final(self).resolved@.last() == node,
            forall|k: int|
                old(self).resolved@.len() <= k < final(self).resolved@.len() ==> reaches(
                    catalog@,
                    node as int,
                    #[trigger] final(self).resolved@[k] as int,
                ),
            forall|x: usize|
                old(self).in_progress@.contains(x) && !old(self).resolved@.contains(x)
                    ==> !#[trigger] final(self).resolved@.contains(x),
        decreases catalog@.len() - old(self).in_progress@.len(),
    {
        let ghost single = seq![node as int];
        assert(is_walk(catalog@, single));
        if contains_index(&self.in_progress, node) {
            proof {
                let m = choose|m: int| 0 <= m < self.in_progress@.len() && self.in_progress@[m] == node;
                assert(placed(self.in_progress@, single.last()));
            }
            let key = package_key(&catalog[node]);
            assert(circular_fits(catalog@, self.in_progress@, single, key));
            return Err(ResolveError::CircularDependencyDetected(key));
        }
        if contains_index(&self.resolved, node) {
            proof {
                let m = choose|m: int| 0 <= m < self.resolved@.len() && self.resolved@[m] == node;
                assert(sound(catalog@, self.resolved@[m] as int, os@, arch@));
            }
            return Ok(());
        }
        let pkg = &catalog[node];
        if SystemValidator::validate_package_requirements(pkg, os, arch).is_err() {
            assert(broken(catalog@, single.last(), os@, arch@));
            return Err(ResolveError::Incompatible(pkg.name.clone()));
        }
        let ghost path0 = self.in_progress@;
        let ghost plan0 = self.resolved@;
        self.in_progress.push(node);
        proof {
            assert(self.in_progress@ == path0.push(node));
            assert(self.in_progress@.no_duplicates()) by {
                assert forall|i: int, j: int|
                    0 <= i < self.in_progress@.len() && 0 <= j < self.in_progress@.len() && i
                        != j implies self.in_progress@[i] != self.in_progress@[j] by {
                    if i == path0.len() {
                        assert(path0.contains(self.in_progress@[j]) || j == i);
                    }
                    if j == path0.len() {
                        assert(path0.contains(self.in_progress@[i]) || j == i);
                    }
                }
            }
            lemma_distinct_bounded(self.in_progress@, catalog@.len());
        }
        let deps: &Vec<PackageDependency> = match &pkg.dependencies {
            Some(v) => v,
            None => &Vec::new(),
        };
        assert(deps@ == dep_list(pkg.dependencies));
        let mut j: usize = 0;
        while j < deps.len()
            invariant
                path0 == old(self).in_progress@,
                plan0 == old(self).resolved@,
                !path0.contains(node),
                node < catalog@.len(),
                self.in_progress@ == path0.push(node),
                Self::path_ok(self.in_progress@, catalog@.len()),
                self.in_progress@.len() <= catalog@.len(),
                valid_plan(catalog@, self.resolved@, os@, arch@),
                all_sound(catalog@, self.resolved@, os@, arch@),
                all_canonical(catalog@, self.resolved@),
                canon(catalog@, node as int) == node as int,
                optionals_placed(catalog@, self.resolved@, os@, arch@),
                path_reaches(catalog@, path0, node as int),
                compatible(catalog@[node as int], os@, arch@),
                plan0.is_prefix_of(self.resolved@),
                forall|k: int|
                    plan0.len() <= k < self.resolved@.len() ==> reaches(
                        catalog@,
                        node as int,
                        #[trigger] self.resolved@[k] as int,
                    ),
                forall|x: usize|
                    path0.push(node).contains(x) && !plan0.contains(x)
                        ==> !#[trigger] self.resolved@.contains(x),
                j <= deps@.len(),
                deps@ == dep_list(catalog@[node as int].dependencies),
                forall|t: int|
                    0 <= t < j ==> match #[trigger] lookup(catalog@, deps@[t]) {
                        Some(x) => placed(self.resolved@, x),
                        None => false,
                    },
            decreases deps@.len() - j,
        {
            match find_dependency(catalog, &deps[j]) {
                Some(i) => {
                    let ghost before = self.resolved@;
                    proof {
                        assert(dep_target(catalog@, node as int, j as int) == Some(i as int));
                        assert(dep_edge(catalog@, node as int, i as int));
                        lemma_path_step(catalog@, path0, node, i as int);
                    }
                    let res = self.resolve_package(catalog, i, os, arch);
                    proof {
                        assert(dep_target(catalog@, node as int, j as int) == Some(i as int));
                        assert(dep_edge(catalog@, node as int, i as int));
                        lemma_extend_reach(catalog@, node as int, i as int, plan0.len() as int, before, self.resolved@);
                    }
                    match res {
                        Ok(()) => {},
                        Err(e) => {
                            proof {
                                let pth = path0.push(node);
                                assert(dep_target(catalog@, node as int, j as int) == Some(i as int));
                                let wc = choose|w: Seq<int>|
                                    #[trigger] is_walk(catalog@, w) && w[0] == i as int && match e {
                                        ResolveError::CircularDependencyDetected(k) => circular_fits(catalog@, pth, w, k),
                                        _ => broken(catalog@, w.last(), os@, arch@),
                                    };
                                lemma_walk_prepend(catalog@, node as int, j as int, wc);
                                let w = seq![node as int] + wc;
                                if e is CircularDependencyDetected {
                                    let k = e->CircularDependencyDetected_0;
                                    if returns_to_last(wc) {
                                        let t = choose|t: int| 0 <= t < wc.len() - 1 && wc[t] == wc.last();
                                        assert(w[t + 1] == w.last());
                                    } else if wc.last() == node as int {
                                        assert(w[0] == w.last());
                                    } else {
                                        let m = choose|m: int| 0 <= m < pth.len() && pth[m] as int == wc.last();
                                        assert(m < path0.len());
                                        assert(path0[m] == pth[m]);
                                        assert(placed(path0, w.last()));
                                    }
                                    assert(circular_fits(catalog@, path0, w, k));
                                }
                                assert(is_walk(catalog@, w) && w[0] == node as int);
                            }
                            self.in_progress.pop();
                            assert(self.in_progress@ =~= path0);
                            return Err(e);
                        },
                    }
                    proof {
                        assert forall|t: int| 0 <= t < j implies match #[trigger] lookup(
                            catalog@,
                            deps@[t],
                        ) {
                            Some(x) => placed(self.resolved@, x),
                            None => false,
                        } by {
                            if let Some(x) = lookup(catalog@, deps@[t]) {
                                let m = choose|m: int| 0 <= m < before.len() && before[m] as int == x;
                                assert(self.resolved@[m] == before[m]);
                            }
                        }
                    }
                },
                None => {
                    proof {
                        let w = seq![node as int];
                        assert(w.last() == node as int && w[0] == node as int);
                        assert(is_walk(catalog@, w));
                        assert(dep_target(catalog@, node as int, j as int) is None);
                        assert(broken(catalog@, w.last(), os@, arch@));
                    }
                    self.in_progress.pop();
                    assert(self.in_progress@ =~= path0);
                    return Err(ResolveError::DependencyNotFound(deps[j].name.clone()));
                },
            }
            j = j + 1;
        }
        let opts: &Vec<PackageDependency> = match &pkg.optional_dependencies {
            Some(v) => v,
            None => &Vec::new(),
        };
        assert(opts@ == dep_list(pkg.optional_dependencies));
        let mut j: usize = 0;
        while j < opts.len()
            invariant
                opts@ == dep_list(catalog@[node as int].optional_dependencies),
                forall|t: int|
                    0 <= t < j ==> match #[trigger] opt_target(catalog@, node as int, t) {
                        Some(x) => optional_done(catalog@, self.resolved@, node as int, x, os@, arch@),
                        None => true,
                    },
                path0 == old(self).in_progress@,
                plan0 == old(self).resolved@,
                !path0.contains(node),
                node < catalog@.len(),
                self.in_progress@ == path0.push(node),
                Self::path_ok(self.in_progress@, catalog@.len()),
                self.in_progress@.len() <= catalog@.len(),
                valid_plan(catalog@, self.resolved@, os@, arch@),
                all_sound(catalog@, self.resolved@, os@, arch@),
                all_canonical(catalog@, self.resolved@),
                canon(catalog@, node as int) == node as int,
                optionals_placed(catalog@, self.resolved@, os@, arch@),
                path_reaches(catalog@, path0, node as int),
                compatible(catalog@[node as int], os@, arch@),
                plan0.is_prefix_of(self.resolved@),
                forall|k: int|
                    plan0.len() <= k < self.resolved@.len() ==> reaches(
                        catalog@,
                        node as int,
                        #[trigger] self.resolved@[k] as int,
                    ),
                forall|x: usize|
                    path0.push(node).contains(x) && !plan0.contains(x)
                        ==> !#[trigger] self.resolved@.contains(x),
                j <= opts@.len(),
                deps@ == dep_list(catalog@[node as int].dependencies),
                forall|t: int|
                    0 <= t < deps@.len() ==> match #[trigger] lookup(catalog@, deps@[t]) {
                        Some(x) => placed(self.resolved@, x),
                        None => false,
                    },
            decreases opts@.len() - j,
        {
            match find_dependency(catalog, &opts[j]) {
                Some(i) => {
                    let ghost before = self.resolved@;
                    proof {
                        assert(opts@ == dep_list(catalog@[node as int].optional_dependencies));
                        assert(opt_target(catalog@, node as int, j as int) == Some(i as int));
                        assert(dep_edge(catalog@, node as int, i as int));
                        lemma_path_step(catalog@, path0, node, i as int);
                    }
                    let res = self.resolve_package(catalog, i, os, arch);
                    proof {
                        let pth = path0.push(node);
                        assert forall|t: int| 0 <= t < j implies match #[trigger] opt_target(catalog@, node as int, t) {
                            Some(x) => optional_done(catalog@, self.resolved@, node as int, x, os@, arch@),
                            None => true,
                        } by {
                            if let Some(x) = opt_target(catalog@, node as int, t) {
                                if placed(before, x) {
                                    let m = choose|m: int| 0 <= m < before.len() && before[m] as int == x;
                                    assert(self.resolved@[m] == before[m]);
                                }
                            }
                        }
                        match res {
                            Ok(_) => {
                                let m = choose|m: int| 0 <= m < self.resolved@.len() && self.resolved@[m] == i;
                                assert(placed(self.resolved@, i as int));
                            },
                            Err(e) => {
                                let w = choose|w: Seq<int>|
                                    #[trigger] is_walk(catalog@, w) && w[0] == i as int && match e {
                                        ResolveError::CircularDependencyDetected(k) => circular_fits(catalog@, pth, w, k),
                                        _ => broken(catalog@, w.last(), os@, arch@),
                                    };
                                if e is CircularDependencyDetected {
                                    if returns_to_last(w) {
                                        let t = choose|t: int| 0 <= t < w.len() - 1 && w[t] == w.last();
                                        assert(w[w.len() - 1] == w.last());
                                        assert(bad_walk(catalog@, w, os@, arch@));
                                    } else {
                                        let m = choose|m: int| 0 <= m < pth.len() && pth[m] as int == w.last();
                                        if m < path0.len() {
                                            assert(pth[m] == path0[m]);
                                            assert(reaches(catalog@, path0[m] as int, node as int));
                                        } else {
                                            lemma_reaches_self(catalog@, node as int);
                                        }
                                        assert(reaches(catalog@, w.last(), node as int));
                                    }
                                } else {
                                    assert(bad_walk(catalog@, w, os@, arch@));
                                }
                            },
                        }
                        assert(optional_done(catalog@, self.resolved@, node as int, i as int, os@, arch@));
                    }
                    proof {
                        assert(opts@ == dep_list(catalog@[node as int].optional_dependencies));
                        assert(opt_target(catalog@, node as int, j as int) == Some(i as int));
                        assert(dep_edge(catalog@, node as int, i as int));
                        lemma_extend_reach(catalog@, node as int, i as int, plan0.len() as int, before, self.resolved@);
                        assert forall|t: int| 0 <= t < deps@.len() implies match #[trigger] lookup(
                            catalog@,
                            deps@[t],
                        ) {
                            Some(x) => placed(self.resolved@, x),
                            None => false,
                        } by {
                            if let Some(x) = lookup(catalog@, deps@[t]) {
                                let m = choose|m: int| 0 <= m < before.len() && before[m] as int == x;
                                assert(self.resolved@[m] == before[m]);
                            }
                        }
                    }
                },
                None => {
                    assert(opts@ == dep_list(catalog@[node as int].optional_dependencies));
                    assert(opt_target(catalog@, node as int, j as int) is None);
                },
            }
            j = j + 1;
        }
        self.in_progress.pop();
        assert(self.in_progress@ =~= path0);
        let ghost plan1 = self.resolved@;
        proof {
            assert forall|t: int| 0 <= t < dep_list(catalog@[node as int].dependencies).len() implies match #[trigger] dep_target(catalog@, node as int, t) {
                Some(x) => sound(catalog@, x, os@, arch@),
                None => false,
            } by {
                assert(match lookup(catalog@, deps@[t]) {
                    Some(x) => placed(plan1, x),
                    None => false,
                });
                let x = lookup(catalog@, deps@[t]).unwrap();
                let m = choose|m: int| 0 <= m < plan1.len() && plan1[m] as int == x;
                assert(sound(catalog@, plan1[m] as int, os@, arch@));
            }
            lemma_sound_from_children(catalog@, node as int, os@, arch@);
        }
        assert(path0.push(node).contains(node)) by {
            assert(path0.push(node)[path0.len() as int] == node);
        }
        assert(!plan1.contains(node));
        self.resolved.push(node);
        proof {
            let plan = self.resolved@;
            assert forall|k: int, t: int|
                0 <= k < plan.len() && 0 <= t < dep_list(catalog@[plan[k] as int].optional_dependencies).len() implies match #[trigger] opt_target(
                    catalog@,
                    plan[k] as int,
                    t,
                ) {
                    Some(x) => optional_handled(catalog@, plan, plan[k] as int, k, x, os@, arch@),
                    None => true,
                } by {
                if k < plan1.len() {
                    assert(plan[k] == plan1[k]);
                    assert(match opt_target(catalog@, plan1[k] as int, t) {
                        Some(x) => optional_handled(catalog@, plan1, plan1[k] as int, k, x, os@, arch@),
                        None => true,
                    });
                    if let Some(x) = opt_target(catalog@, plan[k] as int, t) {
                        if placed_before(plan1, x, k) {
                            let m = choose|m: int| 0 <= m < k && plan1[m] as int == x;
                            assert(plan[m] == plan1[m]);
                        }
                    }
                } else {
                    assert(plan[k] == node);
                    assert(match opt_target(catalog@, node as int, t) {
                        Some(x) => optional_done(catalog@, plan1, node as int, x, os@, arch@),
                        None => true,
                    });
                    if let Some(x) = opt_target(catalog@, plan[k] as int, t) {
                        if placed(plan1, x) {
                            let m = choose|m: int| 0 <= m < plan1.len() && plan1[m] as int == x;
                            assert(plan[m] == plan1[m]);
                        }
                    }
                }
            }
        }
        proof {
            assert forall|k: int| 0 <= k < self.resolved@.len() implies canon(catalog@, #[trigger] self.resolved@[k] as int)
                == self.resolved@[k] as int by {
                if k < plan1.len() {
                    assert(self.resolved@[k] == plan1[k]);
                }
            }
            lemma_reaches_self(catalog@, node as int);
            assert forall|k: int|
                plan0.len() <= k < self.resolved@.len() implies reaches(
                    catalog@,
                    node as int,
                    #[trigger] self.resolved@[k] as int,
                ) by {
                if k < plan1.len() {
                    assert(self.resolved@[k] == plan1[k]);
                }
            }
            let plan = self.resolved@;
            assert(plan == plan1.push(node));
            assert(plan.no_duplicates()) by {
                assert forall|a: int, b: int|
                    0 <= a < plan.len() && 0 <= b < plan.len() && a != b implies plan[a] != plan[b] by {
                    if a == plan1.len() {
                        assert(plan1.contains(plan[b]) || a == b);
                    }
                    if b == plan1.len() {
                        assert(plan1.contains(plan[a]) || a == b);
                    }
                }
            }
            assert forall|k: int, t: int|
                0 <= k < plan.len() && 0 <= t < dep_list(catalog@[plan[k] as int].dependencies).len() implies (
                match #[trigger] lookup(catalog@, dep_list(catalog@[plan[k] as int].dependencies)[t]) {
                    Some(x) => placed_before(plan, x, k),
                    None => false,
                }) by {
                if k < plan1.len() {
                    assert(plan[k] == plan1[k]);
                    let dd = dep_list(catalog@[plan1[k] as int].dependencies)[t];
                    assert(match lookup(catalog@, dd) {
                        Some(x) => placed_before(plan1, x, k),
                        None => false,
                    });
                    let x = lookup(catalog@, dd).unwrap();
                    let m = choose|m: int| 0 <= m < k && plan1[m] as int == x;
                    assert(plan[m] == plan1[m]);
                } else {
                    assert(plan[k] == node);
                    assert(match lookup(catalog@, deps@[t]) {
                        Some(x) => placed(plan1, x),
                        None => false,
                    });
                    let x = lookup(catalog@, deps@[t]).unwrap();
                    let m = choose|m: int| 0 <= m < plan1.len() && plan1[m] as int == x;
                    assert(plan[m] == plan1[m]);
                }
            }
            assert(plan.contains(node)) by {
                assert(plan[plan1.len() as int] == node);
            }
            assert(plan0.is_prefix_of(plan));
            assert forall|k: int| 0 <= k < plan.len() implies sound(catalog@, #[trigger] plan[k] as int, os@, arch@) by {
                if k < plan1.len() {
                    assert(plan[k] == plan1[k]);
                }
            }
            assert forall|x: usize|
                path0.contains(x) && !plan0.contains(x) implies !#[trigger] plan.contains(x) by {
                assert(path0.push(node).contains(x)) by {
                    let m = choose|m: int| 0 <= m < path0.len() && path0[m] == x;
                    assert(path0.push(node)[m] == x);
                }
                assert(!plan1.contains(x));
                assert(x != node);
                if plan.contains(x) {
                    let m = choose|m: int| 0 <= m < plan.len() && plan[m] == x;
                    if m < plan1.len() {
                        assert(plan1[m] == x);
                    } else {
                        assert(x == node);
                    }
                }
            }
        }
        Ok(())
    }

    /// Resolves the catalog package at `root`, through the first catalog
    /// package of its key: a key stands for one package version, and a plan
    /// holds each key once. It succeeds exactly when no
    /// walk from the root along required dependencies reaches a broken
    /// package or goes round a cycle; optional dependencies that do not
    /// resolve are left out, and each one that resolves comes before the
    /// package that wants it unless it leads back to that package. The plan
    /// lists the positions of the packages to
    /// install, dependencies before their dependents and the root last.
    pub fn resolve_dependencies(
        &mut self,
        catalog: &Vec<Package>,
        root: usize,
        os: &str,
        arch: &str,
    ) -> (r: Result<Vec<usize>, ResolveError>)
        requires
            root < catalog@.len(),
        ensures
            r is Ok <==> sound(catalog@, canon(catalog@, root as int), os@, arch@),
            match r {
                Ok(plan) => valid_plan(catalog@, plan@, os@, arch@) && all_sound(catalog@, plan@, os@, arch@)
                    && keys_distinct(catalog@, plan@)
                    && optionals_placed(catalog@, plan@, os@, arch@)
                    && (forall|k: int|
                    0 <= k < plan@.len() ==> reaches(catalog@, canon(catalog@, root as int), #[trigger] plan@[k] as int))
                    && plan@.len() > 0 && plan@.last() as int == canon(catalog@, root as int),
                Err(e) => explains(catalog@, canon(catalog@, root as int), Seq::empty(), e, os@, arch@),
            },
    {
        self.resolved = Vec::new();
        self.in_progress = Vec::new();
        proof {
            assert(self.resolved@.no_duplicates());
            lemma_canon(catalog@, root as int);
        }
        let start = canonical(catalog, root);
        let res = self.resolve_package(catalog, start, os, arch);
        match res {
            Ok(()) => {
                let plan = self.resolved.clone();
                assert(plan@ =~= self.resolved@);
                proof {
                    assert forall|a: int, b: int|
                        0 <= a < plan@.len() && 0 <= b < plan@.len() && a != b implies key_spec(
                            catalog@[#[trigger] plan@[a] as int],
                        ) != key_spec(catalog@[#[trigger] plan@[b] as int]) by {
                        if key_spec(catalog@[plan@[a] as int]) == key_spec(catalog@[plan@[b] as int]) {
                            lemma_canon_keys(catalog@, plan@[a] as int, plan@[b] as int);
                        }
                    }
                }
                Ok(plan)
            },
            Err(e) => {
                proof {
                    let w = choose|w: Seq<int>|
                        #[trigger] is_walk(catalog@, w) && w[0] == start as int && match e {
                            ResolveError::CircularDependencyDetected(k) => circular_fits(catalog@, Seq::<usize>::empty(), w, k),
                            _ => broken(catalog@, w.last(), os@, arch@),
                        };
                    if e is CircularDependencyDetected {
                        let t = choose|t: int| 0 <= t < w.len() - 1 && w[t] == w.last();
                        assert(w[w.len() - 1] == w.last());
                    }
                    assert(bad_walk(catalog@, w, os@, arch@));
                }
                Err(e)
            },
        }
    }
}

/// A package from which a walk along required dependencies goes round a
/// cycle does not resolve; and when no package reachable from it is broken,
/// the error that explains the failure is a circular dependency.
pub proof fn lemma_cycle_detected(
    cat: Seq<Package>,
    root: int,
    w: Seq<int>,
    e: ResolveError,
    os: Seq<char>,
    arch: Seq<char>,
)
    requires
        is_walk(cat, w),
        w[0] == root,
        !w.no_duplicates(),
    ensures
        !sound(cat, root, os, arch),
        explains(cat, root, Seq::empty(), e, os, arch) && (forall|v: Seq<int>|
            #[trigger] is_walk(cat, v) && v[0] == root ==> !broken(cat, v.last(), os, arch))
            ==> e is CircularDependencyDetected,
        explains(cat, root, Seq::empty(), e, os, arch) && e is CircularDependencyDetected ==> exists|v: Seq<int>|
            #[trigger] is_walk(cat, v) && v[0] == root && returns_to_last(v) && e->CircularDependencyDetected_0@
                == key_spec(cat[v.last()]),
{
    assert(bad_walk(cat, w, os, arch));
    if explains(cat, root, Seq::empty(), e, os, arch) && e is CircularDependencyDetected {
        let v = choose|v: Seq<int>|
            #[trigger] is_walk(cat, v) && v[0] == root && circular_fits(cat, Seq::empty(), v, e->CircularDependencyDetected_0);
        assert(!placed(Seq::<usize>::empty(), v.last()));
    }
}

/// In a plan, every package that a planned package requires comes strictly
/// before it.
pub proof fn lemma_dependency_first(
    cat: Seq<Package>,
    plan: Seq<usize>,
    os: Seq<char>,
    arch: Seq<char>,
    k: int,
    j: int,
)
    requires
        valid_plan(cat, plan, os, arch),
        0 <= k < plan.len(),
        0 <= j < dep_list(cat[plan[k] as int].dependencies).len(),
    ensures
        exists|m: int| 0 <= m < k && dep_target(cat, plan[k] as int, j) == Some(plan[m] as int),
{
    assert(match lookup(cat, dep_list(cat[plan[k] as int].dependencies)[j]) {
        Some(x) => placed_before(plan, x, k),
        None => false,
    });
}

/// A package that does not resolve never stands in a plan whose packages
/// all resolve, as a plan that succeeds has them: an optional dependency
/// that fails is left out while the package that wants it still resolves.
pub proof fn lemma_unresolved_optional_absent(
    cat: Seq<Package>,
    plan: Seq<usize>,
    os: Seq<char>,
    arch: Seq<char>,
    o: int,
)
    requires
        all_sound(cat, plan, os, arch),
        !sound(cat, o, os, arch),
    ensures
        !placed(plan, o),
{
    if placed(plan, o) {
        let m = choose|m: int| 0 <= m < plan.len() && plan[m] as int == o;
        assert(sound(cat, plan[m] as int, os, arch));
    }
}

/// An optional dependency that does not resolve stays out of a plan: when
/// the root does not bear its name and every package of that name that a
/// dependency resolves to fails to resolve, no package of the plan bears it.
pub proof fn lemma_unresolved_name_absent(
    cat: Seq<Package>,
    plan: Seq<usize>,
    os: Seq<char>,
    arch: Seq<char>,
    root: int,
    name: Seq<char>,
)
    requires
        all_sound(cat, plan, os, arch),
        forall|k: int| 0 <= k < plan.len() ==> reaches(cat, root, #[trigger] plan[k] as int),
        cat[root].name@ != name,
        forall|a: int, b: int| #[trigger] dep_edge(cat, a, b) && cat[b].name@ == name ==> !sound(cat, b, os, arch),
    ensures
        forall|k: int| 0 <= k < plan.len() ==> cat[#[trigger] plan[k] as int].name@ != name,
{
    assert forall|k: int| 0 <= k < plan.len() implies cat[#[trigger] plan[k] as int].name@ != name by {
        assert(reaches(cat, root, plan[k] as int));
        let w = choose|w: Seq<int>| #[trigger] is_dep_walk(cat, w) && w[0] == root && w.last() == plan[k] as int;
        if w.len() > 1 {
            let n = w.len() - 2;
            assert(dep_edge(cat, w[n], w[n + 1]));
            assert(w[n + 1] == plan[k] as int);
            assert(sound(cat, plan[k] as int, os, arch));
        }
    }
}

} // verus!
