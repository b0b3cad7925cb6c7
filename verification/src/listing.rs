//! The files of a package of a path source, and the fingerprint that
//! tells whether they have changed.

use vstd::prelude::*;
use vstd::string::*;
use crate::errors::{SourceError, SourceErrorView};
use crate::filter::{accepts, check_patterns, unusable_pattern, Filter, FilterView};
use crate::package::{root_of, Package, PackageView};
use crate::path_source::{PathSource, PathSourceView};
use crate::paths::FilePath;
use crate::seqs::lemma_filter_step;
use crate::text::{decimal, to_decimal};
use crate::tree::{
    build_dir_name, lemma_walk_lists_nothing_of_package, lemma_walk_reaches,
    lemma_walk_skips_at_root, lockfile_name, may_list, package_at, walk, walk_files, FileTree,
    Paths,
};
use crate::vcs::{
    lemma_listing_accepted, lemma_listing_lists_nothing_of_package, lemma_listing_skips_at_root,
    list_repository, manifest_at_root, package_marked, repository_files, Repository, Scope,
    ScopeView,
};

verus! {

/// What was found at the root of a package: the repository that it lies
/// in, or, where it lies in none, the files below it.
#[derive(Debug)]
pub enum Checkout {
    Versioned(Repository),
    Plain(FileTree),
}

/// The roots of `packages`, in their order.
pub open spec fn roots_of(packages: Seq<PackageView>) -> Paths {
    packages.map_values(|p: PackageView| root_of(p))
}

/// The roots of those of `packages` at or under whose root the package
/// `pkg` lies, in their order: there a repository that holds `pkg` is
/// looked for.
pub open spec fn enclosing_roots(packages: Seq<PackageView>, pkg: PackageView) -> Paths {
    roots_of(packages).filter(|r: Seq<Seq<char>>| r.is_prefix_of(root_of(pkg)))
}

/// The roots of those of `packages` that are not the package `pkg`,
/// which is told by the identity.
pub open spec fn other_roots(packages: Seq<PackageView>, pkg: PackageView) -> Paths {
    roots_of(
        packages.filter(
            |p: PackageView| p.manifest.summary.package_id != pkg.manifest.summary.package_id,
        ),
    )
}

/// The filter of the package `pkg`: its root and its patterns.
pub open spec fn filter_of(pkg: PackageView) -> FilterView {
    FilterView {
        root: root_of(pkg),
        includes: pkg.manifest.includes,
        excludes: pkg.manifest.excludes,
    }
}

/// What the listing of `pkg` in the source `s` goes by.
pub open spec fn scope_of(s: PathSourceView, pkg: PackageView) -> ScopeView {
    ScopeView { filter: filter_of(pkg), others: other_roots(s.packages, pkg) }
}

/// The pattern of the manifest of `pkg` that is no pattern, if there is
/// one. Such a manifest must be mended before its files can be listed.
pub open spec fn bad_pattern(pkg: PackageView) -> Option<Seq<char>> {
    unusable_pattern(pkg.manifest.includes, pkg.manifest.excludes)
}

/// The files of `pkg` that the listing of the repository `repo` gives,
/// or the pattern of its manifest that is none.
pub open spec fn repository_listing(s: PathSourceView, pkg: PackageView, repo: Repository)
    -> Result<Paths, SourceErrorView> {
    match bad_pattern(pkg) {
        Some(pattern) => Err(SourceErrorView::InvalidPattern { pattern }),
        None => repository_files(scope_of(s, pkg), repo),
    }
}

/// The files of `pkg` that the walk of `tree`, found at the root of
/// `pkg`, lists, or the pattern of its manifest that is none.
pub open spec fn walk_listing(pkg: PackageView, tree: FileTree) -> Result<Paths, SourceErrorView> {
    match bad_pattern(pkg) {
        Some(pattern) => Err(SourceErrorView::InvalidPattern { pattern }),
        None => walk_files(filter_of(pkg), root_of(pkg), tree, true),
    }
}

/// The files of the package `pkg` of the source `s`, given what was
/// found at its root: the listing of the repository where there is one,
/// else the walk from the root of the package. A source that has not
/// been updated lists nothing, and neither does a manifest with a
/// pattern that is none.
pub open spec fn listed_files(s: PathSourceView, pkg: PackageView, checkout: Checkout) -> Result<
    Paths,
    SourceErrorView,
> {
    if !s.updated {
        Err(SourceErrorView::NotUpdated)
    } else {
        match checkout {
            Checkout::Versioned(repo) => repository_listing(s, pkg, repo),
            Checkout::Plain(tree) => walk_listing(pkg, tree),
        }
    }
}

/// Neither the lockfile nor the build directory at the root of a
/// package is among its files, whatever the patterns of its manifest
/// say. Where the directory of the package is walked, nothing that lies
/// in them is listed either.
pub proof fn lemma_lockfile_and_build_dir_not_listed(
    s: PathSourceView,
    pkg: PackageView,
    checkout: Checkout,
    name: Seq<char>,
)
    requires
        name == lockfile_name() || name == build_dir_name(),
        checkout matches Checkout::Versioned(repo) ==> manifest_at_root(root_of(pkg), repo),
    ensures
        listed_files(s, pkg, checkout) matches Ok(files) ==> forall|i: int|
            0 <= i < files.len() ==> #[trigger] files[i] != root_of(pkg).push(name),
        checkout is Plain ==> (listed_files(s, pkg, checkout) matches Ok(files) ==> forall|i: int|
            0 <= i < files.len() ==> !root_of(pkg).push(name).is_prefix_of(#[trigger] files[i])),
{
    let target = root_of(pkg).push(name);
    if s.updated && bad_pattern(pkg) is None {
        match checkout {
            Checkout::Versioned(repo) => {
                lemma_listing_skips_at_root(scope_of(s, pkg), repo, name);
            },
            Checkout::Plain(tree) => {
                lemma_walk_skips_at_root(filter_of(pkg), root_of(pkg), tree, name);
                assert(target.is_prefix_of(target)) by {
                    assert(target =~= target.subrange(0, target.len() as int));
                }
            },
        }
    }
}

/// Every listed file is accepted by the filter of the package: it lies
/// at or under the root of the package and the patterns of the manifest
/// select it. Where the directory of the package was walked, the file
/// is also reached by the walk, on a way on which no name is passed over
/// and no directory below the root holds a manifest.
pub proof fn lemma_listed_files_belong(s: PathSourceView, pkg: PackageView, checkout: Checkout)
    ensures
        listed_files(s, pkg, checkout) matches Ok(files) ==> forall|i: int|
            0 <= i < files.len() ==> accepts(filter_of(pkg), #[trigger] files[i]) && (
            checkout matches Checkout::Plain(tree) ==> may_list(
                filter_of(pkg),
                root_of(pkg),
                tree,
                true,
                files[i],
            )),
{
    if s.updated && bad_pattern(pkg) is None {
        match checkout {
            Checkout::Versioned(repo) => {
                lemma_listing_accepted(scope_of(s, pkg), repo);
            },
            Checkout::Plain(tree) => {
                lemma_walk_reaches(filter_of(pkg), root_of(pkg), tree, true);
            },
        }
    }
}

/// Whether what was found at the root of a package agrees with the
/// source that a package lies at `nested`, below that root: the place
/// holds a directory with a manifest wherever a walk could come to it.
pub open spec fn marks_package(checkout: Checkout, root: Seq<Seq<char>>, nested: Seq<Seq<char>>)
    -> bool {
    match checkout {
        Checkout::Plain(tree) => package_at(tree, nested.skip(root.len() as int)),
        Checkout::Versioned(repo) => package_marked(nested, repo),
    }
}

/// No file of a package that is nested in a package is among the files
/// of the outer one: where another package of the source lies below the
/// root of `pkg`, and what was found shows its manifest there, nothing
/// at or under the root of that package is listed for `pkg`, whether a
/// repository is listed or the directory is walked, and whatever the
/// patterns of the manifest say.
pub proof fn lemma_nested_package_not_listed(
    s: PathSourceView,
    pkg: PackageView,
    checkout: Checkout,
    k: int,
)
    requires
        0 <= k < other_roots(s.packages, pkg).len(),
        root_of(pkg).is_prefix_of(other_roots(s.packages, pkg)[k]),
        root_of(pkg).len() < other_roots(s.packages, pkg)[k].len(),
        marks_package(checkout, root_of(pkg), other_roots(s.packages, pkg)[k]),
    ensures
        listed_files(s, pkg, checkout) matches Ok(files) ==> forall|i: int|
            0 <= i < files.len() ==> !other_roots(s.packages, pkg)[k].is_prefix_of(
                #[trigger] files[i],
            ),
{
    let root = root_of(pkg);
    let nested = other_roots(s.packages, pkg)[k];
    if s.updated && bad_pattern(pkg) is None {
        match checkout {
            Checkout::Versioned(repo) => {
                lemma_listing_lists_nothing_of_package(scope_of(s, pkg), repo, k);
            },
            Checkout::Plain(tree) => {
                let way = nested.skip(root.len() as int);
                assert(root + way =~= nested) by {
                    assert(root =~= nested.subrange(0, root.len() as int));
                }
                lemma_walk_lists_nothing_of_package(filter_of(pkg), root, tree, true, way);
            },
        }
    }
}

/// The time that counts for a file: the time of its last change, or zero
/// where that could not be had.
pub open spec fn time_of(t: Option<u64>) -> nat {
    match t {
        Some(x) => x as nat,
        None => 0,
    }
}

/// The latest of the times that count, or zero where there are none.
pub open spec fn latest(times: Seq<Option<u64>>) -> nat
    decreases times.len(),
{
    if times.len() == 0 {
        0
    } else {
        let before = latest(times.drop_last());
        if time_of(times.last()) > before {
            time_of(times.last())
        } else {
            before
        }
    }
}

/// `latest` is no earlier than any of the times and, unless it is zero,
/// is one of them.
pub proof fn lemma_latest(times: Seq<Option<u64>>)
    ensures
        forall|i: int| 0 <= i < times.len() ==> time_of(#[trigger] times[i]) <= latest(times),
        latest(times) == 0 || exists|i: int|
            0 <= i < times.len() && time_of(#[trigger] times[i]) == latest(times),
    decreases times.len(),
{
    if times.len() > 0 {
        let front = times.drop_last();
        lemma_latest(front);
        assert forall|i: int| 0 <= i < times.len() implies time_of(#[trigger] times[i]) <= latest(
            times,
        ) by {
            if i < times.len() - 1 {
                assert(front[i] == times[i]);
            }
        }
        if latest(times) != 0 {
            if time_of(times.last()) > latest(front) {
                assert(time_of(times[times.len() - 1]) == latest(times));
            } else {
                let i = choose|i: int|
                    0 <= i < front.len() && time_of(#[trigger] front[i]) == latest(front);
                assert(front[i] == times[i]);
            }
        }
    }
}

/// Whether `mtime`, asked for the time of a file at `path`, may answer
/// `t`.
pub open spec fn observed<F: Fn(&FilePath) -> Option<u64>>(
    mtime: F,
    path: Seq<Seq<char>>,
    t: Option<u64>,
) -> bool {
    exists|p: FilePath| #[trigger] p@ == path && mtime.ensures((&p,), t)
}

/// The fingerprint for the given times of last change: the latest of
/// them as a decimal numeral. A time that could not be had counts as
/// zero.
pub fn fingerprint_of(times: &Vec<Option<u64>>) -> (r: String)
    ensures
        r@ == decimal(latest(times@)),
{
    let mut max: u64 = 0;
    let mut i: usize = 0;
    while i < times.len()
        invariant
            i <= times.len(),
            max == latest(times@.take(i as int)),
        decreases times.len() - i,
    {
        assert(times@.take(i as int + 1).drop_last() =~= times@.take(i as int));
        let t = match times[i] {
            Some(x) => x,
            None => 0,
        };
        if t > max {
            max = t;
        }
        i += 1;
    }
    assert(times@.take(i as int) =~= times@);
    to_decimal(max)
}

impl PathSource {
    /// The directories in which a repository that holds `pkg` is looked
    /// for, in the order in which they are tried: the roots of the
    /// packages of the source at or under which `pkg` lies.
    pub fn repository_candidates(&self, pkg: &Package) -> (r: Result<Vec<FilePath>, SourceError>)
        ensures
            match r {
                Ok(roots) => self@.updated && roots.deep_view() == enclosing_roots(
                    self@.packages,
                    pkg@,
                ),
                Err(e) => !self@.updated && e@ == SourceErrorView::NotUpdated,
            },
    {
        if !self.is_updated() {
            return Err(SourceError::NotUpdated);
        }
        let root = pkg.root();
        let packages = self.packages();
        let ghost pred = |r: Seq<Seq<char>>| r.is_prefix_of(root_of(pkg@));
        let ghost roots = roots_of(self@.packages);
        let mut found: Vec<FilePath> = Vec::new();
        let mut i: usize = 0;
        assert(roots.take(0).filter(pred) =~= Paths::empty()) by {
            reveal(Seq::filter);
        }
        while i < packages.len()
            invariant
                i <= packages.len(),
                packages.deep_view() == self@.packages,
                roots == roots_of(self@.packages),
                root@ == root_of(pkg@),
                pred == |r: Seq<Seq<char>>| r.is_prefix_of(root_of(pkg@)),
                found.deep_view() == roots.take(i as int).filter(pred),
            decreases packages.len() - i,
        {
            proof {
                lemma_filter_step(roots, pred, i as int);
                assert(packages.deep_view()[i as int] == packages[i as int]@);
            }
            let candidate = packages[i].root();
            if root.starts_with(&candidate) {
                let ghost before = found.deep_view();
                found.push(candidate);
                assert(found.deep_view() =~= before.push(candidate@));
            }
            i += 1;
        }
        assert(roots.take(i as int) =~= roots);
        Ok(found)
    }

    /// What the listing of `pkg` goes by: the filter of `pkg`, and the
    /// roots of the other packages of the source.
    pub fn scope(&self, pkg: &Package) -> (r: Scope)
        ensures
            r@ == scope_of(self@, pkg@),
    {
        let packages = self.packages();
        let ghost pred = |p: PackageView|
            p.manifest.summary.package_id != pkg@.manifest.summary.package_id;
        let mut others: Vec<FilePath> = Vec::new();
        let mut i: usize = 0;
        assert(roots_of(self@.packages.take(0).filter(pred)) =~= Paths::empty()) by {
            reveal(Seq::filter);
        }
        while i < packages.len()
            invariant
                i <= packages.len(),
                packages.deep_view() == self@.packages,
                pred == |p: PackageView|
                    p.manifest.summary.package_id != pkg@.manifest.summary.package_id,
                others.deep_view() == roots_of(self@.packages.take(i as int).filter(pred)),
            decreases packages.len() - i,
        {
            proof {
                lemma_filter_step(self@.packages, pred, i as int);
                assert(packages.deep_view()[i as int] == packages[i as int]@);
            }
            if !packages[i].package_id().same(pkg.package_id()) {
                let ghost before = others.deep_view();
                let ghost kept = self@.packages.take(i as int).filter(pred);
                others.push(packages[i].root());
                assert(others.deep_view() =~= before.push(root_of(packages[i as int]@)));
                assert(roots_of(kept.push(packages[i as int]@)) =~= roots_of(kept).push(
                    root_of(packages[i as int]@),
                ));
            }
            i += 1;
        }
        assert(self@.packages.take(i as int) =~= self@.packages);
        let filter = Filter::new(pkg.root(), pkg.manifest().includes(), pkg.manifest().excludes());
        Scope { filter, others }
    }

    /// The files of `pkg` that the repository `repo` knows of. A pattern
    /// of the manifest that is none is reported before anything is
    /// listed.
    pub fn list_files_git(&self, pkg: &Package, repo: &Repository) -> (r: Result<
        Vec<FilePath>,
        SourceError,
    >)
        ensures
            match repository_listing(self@, pkg@, *repo) {
                Ok(files) => r matches Ok(found) && found.deep_view() == files,
                Err(e) => r matches Err(x) && x@ == e,
            },
    {
        match check_patterns(pkg.manifest().includes(), pkg.manifest().excludes()) {
            Some(pattern) => {
                return Err(SourceError::InvalidPattern { pattern });
            },
            None => {},
        }
        let scope = self.scope(pkg);
        let mut found: Vec<FilePath> = Vec::new();
        match list_repository(&scope, repo, &mut found) {
            Err(e) => Err(e),
            Ok(()) => {
                proof {
                    let files = repository_files(scope@, *repo)->Ok_0;
                    assert(Paths::empty() + files =~= files);
                }
                Ok(found)
            },
        }
    }

    /// The files of `pkg` that the walk of `tree`, found at the root of
    /// `pkg`, lists. A pattern of the manifest that is none is reported
    /// before anything is listed.
    pub fn list_files_walk(&self, pkg: &Package, tree: &FileTree) -> (r: Result<
        Vec<FilePath>,
        SourceError,
    >)
        ensures
            match walk_listing(pkg@, *tree) {
                Ok(files) => r matches Ok(found) && found.deep_view() == files,
                Err(e) => r matches Err(x) && x@ == e,
            },
    {
        match check_patterns(pkg.manifest().includes(), pkg.manifest().excludes()) {
            Some(pattern) => {
                return Err(SourceError::InvalidPattern { pattern });
            },
            None => {},
        }
        let root = pkg.root();
        let filter = Filter::new(pkg.root(), pkg.manifest().includes(), pkg.manifest().excludes());
        let mut found: Vec<FilePath> = Vec::new();
        match walk(&filter, &root, tree, true, &mut found) {
            Err(e) => Err(e),
            Ok(()) => {
                proof {
                    let files = walk_files(filter@, root@, *tree, true)->Ok_0;
                    assert(Paths::empty() + files =~= files);
                }
                Ok(found)
            },
        }
    }

    /// The files that belong to `pkg`, given what was found at its root.
    /// Where the package lies in a repository, the files that the
    /// repository knows of are listed, which leaves out what the version
    /// control ignores; else the directory of the package is walked. In
    /// both cases only files that the patterns of the manifest select are
    /// listed.
    pub fn list_files(&self, pkg: &Package, checkout: &Checkout) -> (r: Result<
        Vec<FilePath>,
        SourceError,
    >)
        ensures
            match listed_files(self@, pkg@, *checkout) {
                Ok(files) => r matches Ok(found) && found.deep_view() == files,
                Err(e) => r matches Err(x) && x@ == e,
            },
    {
        if !self.is_updated() {
            return Err(SourceError::NotUpdated);
        }
        match checkout {
            Checkout::Versioned(repo) => self.list_files_git(pkg, repo),
            Checkout::Plain(tree) => self.list_files_walk(pkg, tree),
        }
    }

    /// The fingerprint of `pkg`: the latest time of last change among its
    /// files, as a decimal numeral. `mtime` is asked once for each file
    /// that `list_files` gives, in their order; a file of which it knows
    /// no time counts as changed at time zero.
    pub fn fingerprint<F: Fn(&FilePath) -> Option<u64>>(
        &self,
        pkg: &Package,
        checkout: &Checkout,
        mtime: F,
    ) -> (r: Result<String, SourceError>)
        requires
            forall|p: &FilePath| #[trigger] mtime.requires((p,)),
        ensures
            match listed_files(self@, pkg@, *checkout) {
                Ok(files) => r matches Ok(text) && exists|times: Seq<Option<u64>>|
                    {
                        &&& times.len() == files.len()
                        &&& #[trigger] decimal(latest(times)) == text@
                        &&& forall|i: int|
                            0 <= i < files.len() ==> observed(mtime, files[i], #[trigger] times[i])
                    },
                Err(e) => r matches Err(x) && x@ == e,
            },
    {
        let files = match self.list_files(pkg, checkout) {
            Err(e) => {
                return Err(e);
            },
            Ok(files) => files,
        };
        let mut times: Vec<Option<u64>> = Vec::new();
        let mut i: usize = 0;
        while i < files.len()
            invariant
                i <= files.len(),
                times@.len() == i,
                forall|p: &FilePath| #[trigger] mtime.requires((p,)),
                forall|k: int|
                    0 <= k < i ==> observed(mtime, files.deep_view()[k], #[trigger] times@[k]),
            decreases files.len() - i,
        {
            let t = mtime(&files[i]);
            assert(files[i as int]@ == files.deep_view()[i as int]);
            assert(observed(mtime, files.deep_view()[i as int], t));
            times.push(t);
            i += 1;
        }
        let text = fingerprint_of(&times);
        assert(decimal(latest(times@)) == text@);
        Ok(text)
    }
}

} // verus!
