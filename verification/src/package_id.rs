//! Identities: where a package comes from, and which package it is.

use vstd::prelude::*;
use vstd::string::*;
use crate::paths::{same_text, FilePath, path_text};
use crate::version::{Version, VersionView};

verus! {

/// The kind of place that packages come from.
#[derive(Clone, Copy, Debug, PartialEq, Eq, Structural)]
pub enum SourceKind {
    Path,
    Git,
    Registry,
}

/// A place that packages come from.
#[derive(Debug, PartialEq, Eq)]
pub struct SourceId {
    pub kind: SourceKind,
    pub location: String,
}

/// What a `SourceId` stands for.
pub struct SourceIdView {
    pub kind: SourceKind,
    pub location: Seq<char>,
}

impl View for SourceId {
    type V = SourceIdView;

    open spec fn view(&self) -> SourceIdView {
        SourceIdView { kind: self.kind, location: self.location@ }
    }
}

impl DeepView for SourceId {
    type V = SourceIdView;

    open spec fn deep_view(&self) -> SourceIdView {
        self.view()
    }
}

impl Clone for SourceId {
    fn clone(&self) -> (r: Self)
        ensures
            r@ == self@,
    {
        SourceId { kind: self.kind, location: self.location.clone() }
    }
}

impl SourceId {
    /// The source of the given kind at the given location.
    pub fn new(kind: SourceKind, location: String) -> (r: Self)
        ensures
            r@ == (SourceIdView { kind, location: location@ }),
    {
        SourceId { kind, location }
    }

    /// The source that is the directory `path`.
    pub fn for_path(path: &FilePath) -> (r: Self)
        ensures
            r@ == (SourceIdView { kind: SourceKind::Path, location: path_text(path@) }),
    {
        SourceId { kind: SourceKind::Path, location: path.to_text() }
    }

    /// Whether two sources are the same.
    pub fn same(&self, other: &SourceId) -> (r: bool)
        ensures
            r == (self@ == other@),
    {
        self.kind == other.kind && same_text(self.location.as_str(), other.location.as_str())
    }
}

/// The identity of a package: its name, its version and its source.
#[derive(Debug, PartialEq, Eq)]
pub struct PackageId {
    pub name: String,
    pub version: Version,
    pub source_id: SourceId,
}

/// What a `PackageId` stands for.
pub struct PackageIdView {
    pub name: Seq<char>,
    pub version: VersionView,
    pub source_id: SourceIdView,
}

impl View for PackageId {
    type V = PackageIdView;

    open spec fn view(&self) -> PackageIdView {
        PackageIdView { name: self.name@, version: self.version@, source_id: self.source_id@ }
    }
}

impl DeepView for PackageId {
    type V = PackageIdView;

    open spec fn deep_view(&self) -> PackageIdView {
        self.view()
    }
}

impl Clone for PackageId {
    fn clone(&self) -> (r: Self)
        ensures
            r@ == self@,
    {
        PackageId {
            name: self.name.clone(),
            version: self.version.clone(),
            source_id: self.source_id.clone(),
        }
    }
}

impl PackageId {
    /// The identity made of the three given parts.
    pub fn new(name: String, version: Version, source_id: SourceId) -> (r: Self)
        ensures
            r@ == (PackageIdView { name: name@, version: version@, source_id: source_id@ }),
    {
        PackageId { name, version, source_id }
    }

    /// The name of the package.
    pub fn name(&self) -> (r: &str)
        ensures
            r@ == self@.name,
    {
        self.name.as_str()
    }

    /// The version of the package.
    pub fn version(&self) -> (r: &Version)
        ensures
            r@ == self@.version,
    {
        &self.version
    }

    /// The source of the package.
    pub fn source_id(&self) -> (r: &SourceId)
        ensures
            r@ == self@.source_id,
    {
        &self.source_id
    }

    /// Whether two identities agree in name, version and source.
    pub fn same(&self, other: &PackageId) -> (r: bool)
        ensures
            r == (self@ == other@),
    {
        same_text(self.name.as_str(), other.name.as_str()) && self.version.same(&other.version)
            && self.source_id.same(&other.source_id)
    }
}

} // verus!
