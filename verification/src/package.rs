//! Packages: a manifest and the place where it lies.

use vstd::prelude::*;
use vstd::string::*;
use crate::package_id::PackageId;
use crate::paths::{clone_strings, FilePath};
use crate::summary::{Summary, SummaryView};

verus! {

/// What the description of a package says: its summary, and the patterns
/// for the files that belong to it.
#[derive(Debug)]
pub struct Manifest {
    pub summary: Summary,
    pub includes: Vec<String>,
    pub excludes: Vec<String>,
}

/// What a `Manifest` stands for.
pub struct ManifestView {
    pub summary: SummaryView,
    pub includes: Seq<Seq<char>>,
    pub excludes: Seq<Seq<char>>,
}

impl View for Manifest {
    type V = ManifestView;

    open spec fn view(&self) -> ManifestView {
        ManifestView {
            summary: self.summary@,
            includes: self.includes.deep_view(),
            excludes: self.excludes.deep_view(),
        }
    }
}

impl DeepView for Manifest {
    type V = ManifestView;

    open spec fn deep_view(&self) -> ManifestView {
        self.view()
    }
}

impl Clone for Manifest {
    fn clone(&self) -> (r: Self)
        ensures
            r@ == self@,
    {
        Manifest {
            summary: self.summary.clone(),
            includes: clone_strings(&self.includes),
            excludes: clone_strings(&self.excludes),
        }
    }
}

impl Manifest {
    /// The manifest with the given summary and patterns.
    pub fn new(summary: Summary, includes: Vec<String>, excludes: Vec<String>) -> (r: Self)
        ensures
            r@ == (ManifestView {
                summary: summary@,
                includes: includes.deep_view(),
                excludes: excludes.deep_view(),
            }),
    {
        Manifest { summary, includes, excludes }
    }

    /// The summary of the package.
    pub fn summary(&self) -> (r: &Summary)
        ensures
            r@ == self@.summary,
    {
        &self.summary
    }

    /// The patterns of the files that belong to the package. Where there
    /// are any, only files that match one of them belong to it.
    pub fn includes(&self) -> (r: &Vec<String>)
        ensures
            r.deep_view() == self@.includes,
    {
        &self.includes
    }

    /// The patterns of the files that do not belong to the package. They
    /// count only where there are no inclusion patterns.
    pub fn excludes(&self) -> (r: &Vec<String>)
        ensures
            r.deep_view() == self@.excludes,
    {
        &self.excludes
    }
}

/// A package: its manifest, and the path of the file that holds it.
#[derive(Debug)]
pub struct Package {
    pub manifest: Manifest,
    pub manifest_path: FilePath,
}

/// What a `Package` stands for.
pub struct PackageView {
    pub manifest: ManifestView,
    pub manifest_path: Seq<Seq<char>>,
}

impl View for Package {
    type V = PackageView;

    open spec fn view(&self) -> PackageView {
        PackageView { manifest: self.manifest@, manifest_path: self.manifest_path@ }
    }
}

impl DeepView for Package {
    type V = PackageView;

    open spec fn deep_view(&self) -> PackageView {
        self.view()
    }
}

impl Clone for Package {
    fn clone(&self) -> (r: Self)
        ensures
            r@ == self@,
    {
        Package { manifest: self.manifest.clone(), manifest_path: self.manifest_path.clone() }
    }
}

/// The directory that holds `path`: the path without its last component.
pub open spec fn directory_of(path: Seq<Seq<char>>) -> Seq<Seq<char>> {
    if path.len() > 0 {
        path.drop_last()
    } else {
        path
    }
}

/// The root of a package: the directory that holds its manifest.
pub open spec fn root_of(p: PackageView) -> Seq<Seq<char>> {
    directory_of(p.manifest_path)
}

impl Package {
    /// The package with the given manifest, found at `manifest_path`.
    pub fn new(manifest: Manifest, manifest_path: FilePath) -> (r: Self)
        ensures
            r@ == (PackageView { manifest: manifest@, manifest_path: manifest_path@ }),
    {
        Package { manifest, manifest_path }
    }

    /// The manifest of the package.
    pub fn manifest(&self) -> (r: &Manifest)
        ensures
            r@ == self@.manifest,
    {
        &self.manifest
    }

    /// The path of the file that holds the manifest.
    pub fn manifest_path(&self) -> (r: &FilePath)
        ensures
            r@ == self@.manifest_path,
    {
        &self.manifest_path
    }

    /// The directory that holds the manifest.
    pub fn root(&self) -> (r: FilePath)
        ensures
            r@ == root_of(self@),
    {
        self.manifest_path.parent()
    }

    /// The summary of the package.
    pub fn summary(&self) -> (r: &Summary)
        ensures
            r@ == self@.manifest.summary,
    {
        &self.manifest.summary
    }

    /// The identity of the package.
    pub fn package_id(&self) -> (r: &PackageId)
        ensures
            r@ == self@.manifest.summary.package_id,
    {
        self.manifest.summary.package_id()
    }

    /// The name of the package.
    pub fn name(&self) -> (r: &str)
        ensures
            r@ == self@.manifest.summary.package_id.name,
    {
        self.manifest.summary.name()
    }
}

/// Duplicates a list of packages.
pub fn clone_packages(v: &Vec<Package>) -> (r: Vec<Package>)
    ensures
        r.deep_view() == v.deep_view(),
{
    let mut r: Vec<Package> = Vec::new();
    let mut i: usize = 0;
    while i < v.len()
        invariant
            i <= v.len(),
            r.deep_view() == v.deep_view().take(i as int),
        decreases v.len() - i,
    {
        let ghost before = r.deep_view();
        r.push(v[i].clone());
        assert(r.deep_view() =~= before.push(v[i as int]@));
        assert(r.deep_view() =~= v.deep_view().take(i as int + 1));
        i += 1;
    }
    assert(v.deep_view().take(i as int) =~= v.deep_view());
    r
}

} // verus!
