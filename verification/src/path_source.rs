//! A source of packages that is a directory on this machine.

use vstd::prelude::*;
use vstd::string::*;
use crate::dependency::{dep_matches, Dependency, DependencyView};
use crate::errors::{SourceError, SourceErrorView};
use crate::package::{clone_packages, root_of, Package, PackageView};
use crate::package_id::{PackageId, PackageIdView, SourceId, SourceIdView, SourceKind};
use crate::paths::{path_text, FilePath};
use crate::seqs::lemma_filter_step;
use crate::summary::{Summary, SummaryView};

verus! {

/// The packages found below one directory. A source is made empty and
/// filled once, by its first update; until then it answers no question.
#[derive(Debug)]
pub struct PathSource {
    id: SourceId,
    path: FilePath,
    updated: bool,
    packages: Vec<Package>,
}

/// What a `PathSource` stands for.
pub struct PathSourceView {
    pub id: SourceIdView,
    pub path: Seq<Seq<char>>,
    pub updated: bool,
    pub packages: Seq<PackageView>,
}

impl View for PathSource {
    type V = PathSourceView;

    closed spec fn view(&self) -> PathSourceView {
        PathSourceView {
            id: self.id@,
            path: self.path@,
            updated: self.updated,
            packages: self.packages.deep_view(),
        }
    }
}

/// The source after an update that found `discovered`: the first update
/// takes in what was found, and every later one changes nothing.
pub open spec fn after_update(s: PathSourceView, discovered: Seq<PackageView>) -> PathSourceView {
    if s.updated {
        s
    } else {
        PathSourceView { updated: true, packages: s.packages + discovered, ..s }
    }
}

/// Updating an updated source changes nothing: two updates leave what
/// the first one left, whatever the second would have found.
pub proof fn lemma_update_idempotent(
    s: PathSourceView,
    first: Seq<PackageView>,
    second: Seq<PackageView>,
)
    ensures
        after_update(after_update(s, first), second) == after_update(s, first),
        after_update(s, first).updated,
{
}

/// The first package at or after `from` whose root is `path`.
pub open spec fn package_at(packages: Seq<PackageView>, path: Seq<Seq<char>>, from: int) -> Option<
    PackageView,
>
    decreases packages.len() - from,
{
    if from < 0 || from >= packages.len() {
        None
    } else if root_of(packages[from]) == path {
        Some(packages[from])
    } else {
        package_at(packages, path, from + 1)
    }
}

/// The summaries of `packages`, in their order.
pub open spec fn summaries_of(packages: Seq<PackageView>) -> Seq<SummaryView> {
    packages.map_values(|p: PackageView| p.manifest.summary)
}

/// Those of `summaries` that `dep` asks for, in their order.
pub open spec fn matching(summaries: Seq<SummaryView>, dep: DependencyView) -> Seq<SummaryView> {
    summaries.filter(|s: SummaryView| dep_matches(dep, s.package_id))
}

/// Those of `packages` whose identity is among `ids`, in their order.
pub open spec fn chosen(packages: Seq<PackageView>, ids: Seq<PackageIdView>) -> Seq<PackageView> {
    packages.filter(|p: PackageView| ids.contains(p.manifest.summary.package_id))
}

/// Whether `id` is among `ids`.
pub fn contains_id(ids: &[PackageId], id: &PackageId) -> (r: bool)
    ensures
        r == ids.deep_view().contains(id@),
{
    let mut i: usize = 0;
    while i < ids.len()
        invariant
            i <= ids.len(),
            forall|k: int| 0 <= k < i ==> ids.deep_view()[k] != id@,
        decreases ids.len() - i,
    {
        assert(ids.deep_view()[i as int] == ids[i as int]@);
        if ids[i].same(id) {
            return true;
        }
        i += 1;
    }
    false
}

/// Those of `summaries` that `dep` asks for, in their order.
pub fn select_matching(summaries: &Vec<Summary>, dep: &Dependency) -> (r: Vec<Summary>)
    ensures
        r.deep_view() == matching(summaries.deep_view(), dep@),
{
    let ghost pred = |s: SummaryView| dep_matches(dep@, s.package_id);
    let mut r: Vec<Summary> = Vec::new();
    let mut i: usize = 0;
    assert(summaries.deep_view().take(0).filter(pred) =~= Seq::<SummaryView>::empty()) by {
        reveal(Seq::filter);
    }
    while i < summaries.len()
        invariant
            i <= summaries.len(),
            pred == |s: SummaryView| dep_matches(dep@, s.package_id),
            r.deep_view() == summaries.deep_view().take(i as int).filter(pred),
        decreases summaries.len() - i,
    {
        proof {
            lemma_filter_step(summaries.deep_view(), pred, i as int);
            assert(summaries.deep_view()[i as int] == summaries[i as int]@);
        }
        if dep.matches_id(summaries[i].package_id()) {
            let ghost before = r.deep_view();
            r.push(summaries[i].clone());
            assert(r.deep_view() =~= before.push(summaries[i as int]@));
        }
        i += 1;
    }
    assert(summaries.deep_view().take(i as int) =~= summaries.deep_view());
    r
}

impl PathSource {
    /// The source that is the directory `path`, not yet updated.
    pub fn for_path(path: &FilePath) -> (r: Self)
        ensures
            r@ == (PathSourceView {
                id: SourceIdView { kind: SourceKind::Path, location: path_text(path@) },
                path: path@,
                updated: false,
                packages: Seq::empty(),
            }),
    {
        let id = SourceId::for_path(path);
        PathSource::new(path, &id)
    }

    /// The source `id` at the directory `path`, not yet updated. The
    /// directory is expected to hold a manifest; the update finds it and
    /// the packages that can be reached from it.
    pub fn new(path: &FilePath, id: &SourceId) -> (r: Self)
        ensures
            r@ == (PathSourceView {
                id: id@,
                path: path@,
                updated: false,
                packages: Seq::empty(),
            }),
    {
        let r = PathSource {
            id: id.clone(),
            path: path.clone(),
            updated: false,
            packages: Vec::new(),
        };
        assert(r@.packages =~= Seq::empty());
        r
    }

    /// What kind of source this is, in words.
    pub fn describe(&self) -> (r: String)
        ensures
            r@ == "the paths source"@,
    {
        "the paths source".to_owned()
    }

    /// Whether the source has been updated.
    pub fn is_updated(&self) -> (r: bool)
        ensures
            r == self@.updated,
    {
        self.updated
    }

    /// The directory of the source.
    pub fn path(&self) -> (r: &FilePath)
        ensures
            r@ == self@.path,
    {
        &self.path
    }

    /// The identity of the source.
    pub fn source_id(&self) -> (r: &SourceId)
        ensures
            r@ == self@.id,
    {
        &self.id
    }

    /// The packages that the source holds.
    pub fn packages(&self) -> (r: &Vec<Package>)
        ensures
            r.deep_view() == self@.packages,
    {
        &self.packages
    }

    /// Takes in the packages that were found below the directory of the
    /// source, where the source has not been updated yet. An updated
    /// source stays as it is and `discovered` is dropped.
    pub fn update_with(&mut self, discovered: Vec<Package>)
        ensures
            final(self)@ == after_update(old(self)@, discovered.deep_view()),
    {
        if !self.updated {
            let ghost before = self.packages.deep_view();
            let ghost added = discovered.deep_view();
            let mut discovered = discovered;
            self.packages.append(&mut discovered);
            self.updated = true;
            assert(self.packages.deep_view() =~= before + added);
        }
    }

    /// Updates the source: where it has not been updated yet, `read` is
    /// called to find the packages below the directory of the source, and
    /// what it found is taken in; where `read` fails, so does the update,
    /// and the source stays as it was. An updated source stays as it is,
    /// and `read` is not called.
    pub fn update<F: FnOnce() -> Result<Vec<Package>, SourceError>>(&mut self, read: F) -> (r:
        Result<(), SourceError>)
        requires
            !old(self)@.updated ==> read.requires(()),
        ensures
            old(self)@.updated ==> r is Ok && final(self)@ == old(self)@,
            !old(self)@.updated ==> match r {
                Ok(()) => exists|discovered: Vec<Package>|
                    read.ensures((), Ok(discovered)) && final(self)@ == after_update(
                        old(self)@,
                        #[trigger] discovered.deep_view(),
                    ),
                Err(e) => read.ensures((), Err(e)) && final(self)@ == old(self)@,
            },
    {
        if self.updated {
            return Ok(());
        }
        match read() {
            Ok(discovered) => {
                let ghost witness = discovered;
                self.update_with(discovered);
                assert(read.ensures((), Ok(witness)) && self@ == after_update(
                    old(self)@,
                    witness.deep_view(),
                ));
                Ok(())
            },
            Err(e) => Err(e),
        }
    }

    /// The packages of the source: those that it holds, where it has been
    /// updated, and else those that `read` finds.
    pub fn read_packages<F: FnOnce() -> Result<Vec<Package>, SourceError>>(&self, read: F) -> (r:
        Result<Vec<Package>, SourceError>)
        requires
            !self@.updated ==> read.requires(()),
        ensures
            self@.updated ==> (r matches Ok(packages) && packages.deep_view() == self@.packages),
            !self@.updated ==> read.ensures((), r),
    {
        if self.updated {
            Ok(clone_packages(&self.packages))
        } else {
            read()
        }
    }

    /// The package that lies at the root of the source: the first of the
    /// packages whose root is the directory of the source.
    pub fn get_root_package(&self) -> (r: Result<Package, SourceError>)
        ensures
            match r {
                Ok(p) => self@.updated && package_at(self@.packages, self@.path, 0) == Some(p@),
                Err(e) => if self@.updated {
                    e@ == SourceErrorView::NoRootPackage && package_at(
                        self@.packages,
                        self@.path,
                        0,
                    ) is None
                } else {
                    e@ == SourceErrorView::NotUpdated
                },
            },
    {
        if !self.updated {
            return Err(SourceError::NotUpdated);
        }
        let mut i: usize = 0;
        while i < self.packages.len()
            invariant
                i <= self.packages.len(),
                self@.updated,
                package_at(self@.packages, self@.path, 0) == package_at(
                    self@.packages,
                    self@.path,
                    i as int,
                ),
            decreases self.packages.len() - i,
        {
            assert(self@.packages[i as int] == self.packages[i as int]@);
            if self.packages[i].root().same(&self.path) {
                return Ok(self.packages[i].clone());
            }
            i += 1;
        }
        Err(SourceError::NoRootPackage)
    }

    /// The summaries of the packages of the source, in their order.
    pub fn summaries(&self) -> (r: Vec<Summary>)
        ensures
            r.deep_view() == summaries_of(self@.packages),
    {
        let mut r: Vec<Summary> = Vec::new();
        let mut i: usize = 0;
        while i < self.packages.len()
            invariant
                i <= self.packages.len(),
                r.deep_view() == summaries_of(self@.packages.take(i as int)),
            decreases self.packages.len() - i,
        {
            let ghost before = r.deep_view();
            r.push(self.packages[i].summary().clone());
            assert(self@.packages[i as int] == self.packages[i as int]@);
            assert(r.deep_view() =~= before.push(self.packages[i as int]@.manifest.summary));
            assert(r.deep_view() =~= summaries_of(self@.packages.take(i as int + 1)));
            i += 1;
        }
        assert(self@.packages.take(i as int) =~= self@.packages);
        r
    }

    /// Makes the packages `ids` available on this machine. The packages
    /// of a directory are there already, so nothing is done.
    pub fn download(&mut self, ids: &[PackageId]) -> (r: Result<(), SourceError>)
        ensures
            final(self)@ == old(self)@,
            match r {
                Ok(()) => old(self)@.updated,
                Err(e) => !old(self)@.updated && e@ == SourceErrorView::NotUpdated,
            },
    {
        if !self.updated {
            return Err(SourceError::NotUpdated);
        }
        Ok(())
    }

    /// The packages of the source whose identity is among `ids`, in the
    /// order in which the packages were found.
    pub fn get(&self, ids: &[PackageId]) -> (r: Result<Vec<Package>, SourceError>)
        ensures
            match r {
                Ok(found) => self@.updated && found.deep_view() == chosen(
                    self@.packages,
                    ids.deep_view(),
                ),
                Err(e) => !self@.updated && e@ == SourceErrorView::NotUpdated,
            },
    {
        if !self.updated {
            return Err(SourceError::NotUpdated);
        }
        let ghost pred = |p: PackageView| ids.deep_view().contains(p.manifest.summary.package_id);
        let mut r: Vec<Package> = Vec::new();
        let mut i: usize = 0;
        assert(self@.packages.take(0).filter(pred) =~= Seq::<PackageView>::empty()) by {
            reveal(Seq::filter);
        }
        while i < self.packages.len()
            invariant
                i <= self.packages.len(),
                pred == |p: PackageView| ids.deep_view().contains(p.manifest.summary.package_id),
                r.deep_view() == self@.packages.take(i as int).filter(pred),
            decreases self.packages.len() - i,
        {
            proof {
                lemma_filter_step(self@.packages, pred, i as int);
                assert(self@.packages[i as int] == self.packages[i as int]@);
            }
            if contains_id(ids, self.packages[i].package_id()) {
                let ghost before = r.deep_view();
                r.push(self.packages[i].clone());
                assert(r.deep_view() =~= before.push(self.packages[i as int]@));
            }
            i += 1;
        }
        assert(self@.packages.take(i as int) =~= self@.packages);
        Ok(r)
    }
}

} // verus!
