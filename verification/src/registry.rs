//! Registries: what can be asked for the packages that meet a
//! requirement.

use vstd::prelude::*;
use crate::dependency::Dependency;
use crate::errors::{SourceError, SourceErrorView};
use crate::path_source::{matching, select_matching, summaries_of, PathSource};
use crate::summary::{Summary, SummaryView};

verus! {

/// Something that knows of packages and can say which of them meet a
/// requirement.
pub trait Registry {
    /// The summaries that the registry chooses from, in its order, or
    /// `None` where it cannot answer yet.
    spec fn offered(&self) -> Option<Seq<SummaryView>>;

    /// The summaries of the packages that `dep` asks for: those whose
    /// name is the name that `dep` gives and whose version meets its
    /// requirement, in the order of the registry. Asking changes nothing
    /// that later answers depend on.
    fn query(&mut self, dep: &Dependency) -> (r: Result<Vec<Summary>, SourceError>)
        ensures
            final(self).offered() == old(self).offered(),
            match old(self).offered() {
                Some(all) => r matches Ok(found) && found.deep_view() == matching(all, dep@),
                None => r matches Err(e) && e@ == SourceErrorView::NotUpdated,
            },
    ;
}

/// A list of summaries is a registry that offers what it holds.
impl Registry for Vec<Summary> {
    open spec fn offered(&self) -> Option<Seq<SummaryView>> {
        Some(self.deep_view())
    }

    fn query(&mut self, dep: &Dependency) -> (r: Result<Vec<Summary>, SourceError>)
        ensures
            final(self).deep_view() == old(self).deep_view(),
    {
        Ok(select_matching(self, dep))
    }
}

/// A path source is a registry that offers its packages once it has
/// been updated. Asking leaves the source as it is.
impl Registry for PathSource {
    open spec fn offered(&self) -> Option<Seq<SummaryView>> {
        if self@.updated {
            Some(summaries_of(self@.packages))
        } else {
            None
        }
    }

    fn query(&mut self, dep: &Dependency) -> (r: Result<Vec<Summary>, SourceError>)
        ensures
            final(self)@ == old(self)@,
    {
        if !self.is_updated() {
            return Err(SourceError::NotUpdated);
        }
        let all = self.summaries();
        Ok(select_matching(&all, dep))
    }
}

} // verus!
