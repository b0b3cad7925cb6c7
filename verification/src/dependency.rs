//! Requirements of one package on another.

use vstd::prelude::*;
use vstd::string::*;
use crate::package_id::{PackageId, PackageIdView};
use crate::paths::same_text;
use crate::version::meets;

verus! {

/// A requirement: the name of the package that is needed, the versions of
/// it that will do, and two flags.
#[derive(Debug, PartialEq, Eq)]
pub struct Dependency {
    pub name: String,
    pub req: String,
    pub optional: bool,
    pub transitive: bool,
}

/// What a `Dependency` stands for.
pub struct DependencyView {
    pub name: Seq<char>,
    pub req: Seq<char>,
    pub optional: bool,
    pub transitive: bool,
}

impl View for Dependency {
    type V = DependencyView;

    open spec fn view(&self) -> DependencyView {
        DependencyView {
            name: self.name@,
            req: self.req@,
            optional: self.optional,
            transitive: self.transitive,
        }
    }
}

impl DeepView for Dependency {
    type V = DependencyView;

    open spec fn deep_view(&self) -> DependencyView {
        self.view()
    }
}

impl Clone for Dependency {
    fn clone(&self) -> (r: Self)
        ensures
            r@ == self@,
    {
        Dependency {
            name: self.name.clone(),
            req: self.req.clone(),
            optional: self.optional,
            transitive: self.transitive,
        }
    }
}

/// Whether the package `id` is one that the requirement `dep` asks for:
/// the names agree and the version meets the requirement.
pub open spec fn dep_matches(dep: DependencyView, id: PackageIdView) -> bool {
    dep.name == id.name && meets(dep.req, id.version)
}

impl Dependency {
    /// A requirement on the package `name` in the versions that `req`
    /// spells; it is neither optional nor limited to development.
    pub fn new(name: String, req: String) -> (r: Self)
        ensures
            r@ == (DependencyView { name: name@, req: req@, optional: false, transitive: true }),
    {
        Dependency { name, req, optional: false, transitive: true }
    }

    /// The same requirement, optional or not as `optional` says.
    pub fn optional(self, optional: bool) -> (r: Self)
        ensures
            r@ == (DependencyView { optional, ..self@ }),
    {
        Dependency { name: self.name, req: self.req, optional, transitive: self.transitive }
    }

    /// The same requirement, handed on to dependents or not as
    /// `transitive` says. A development-only requirement is not.
    pub fn transitive(self, transitive: bool) -> (r: Self)
        ensures
            r@ == (DependencyView { transitive, ..self@ }),
    {
        Dependency { name: self.name, req: self.req, optional: self.optional, transitive }
    }

    /// The name of the package that is needed.
    pub fn name(&self) -> (r: &str)
        ensures
            r@ == self@.name,
    {
        self.name.as_str()
    }

    /// The text of the version requirement.
    pub fn version_req(&self) -> (r: &str)
        ensures
            r@ == self@.req,
    {
        self.req.as_str()
    }

    /// Whether the requirement may be left out.
    pub fn is_optional(&self) -> (r: bool)
        ensures
            r == self@.optional,
    {
        self.optional
    }

    /// Whether the requirement is handed on to dependents.
    pub fn is_transitive(&self) -> (r: bool)
        ensures
            r == self@.transitive,
    {
        self.transitive
    }

    /// Whether the package `id` is one that this requirement asks for.
    pub fn matches_id(&self, id: &PackageId) -> (r: bool)
        ensures
            r == dep_matches(self@, id@),
    {
        same_text(self.name.as_str(), id.name.as_str()) && id.version.satisfies(self.req.as_str())
    }
}

} // verus!
