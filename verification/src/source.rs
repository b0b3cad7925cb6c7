//! Sources: places that packages come from, and what can be asked of
//! them.

use vstd::prelude::*;
use vstd::string::*;
use crate::errors::{SourceError, SourceErrorView};
use crate::listing::{latest, listed_files, observed, Checkout};
use crate::package::{Package, PackageView};
use crate::package_id::PackageId;
use crate::path_source::{after_update, chosen, PathSource};
use crate::paths::FilePath;
use crate::registry::Registry;
use crate::text::decimal;
use crate::tree::Paths;

verus! {

/// A place that packages come from. A source is filled by its first
/// update and answers no question before; every later update leaves it
/// as it is.
pub trait Source: Registry {
    /// Whether the source has been updated.
    spec fn ready(&self) -> bool;

    /// The packages that the source holds, in the order in which they
    /// were found.
    spec fn held(&self) -> Seq<PackageView>;

    /// The files that belong to `pkg`, given what was found at its root,
    /// or why they cannot be listed.
    spec fn listing(&self, pkg: PackageView, checkout: Checkout) -> Result<Paths, SourceErrorView>;

    /// Updates the source: the first time `read` is called to find the
    /// packages, and what it found is taken in; afterwards nothing is
    /// done. Where `read` fails, so does the update, and the source
    /// stays as it was.
    fn update<F: FnOnce() -> Result<Vec<Package>, SourceError>>(&mut self, read: F) -> (r: Result<
        (),
        SourceError,
    >)
        requires
            !old(self).ready() ==> read.requires(()),
        ensures
            old(self).ready() ==> r is Ok && final(self).ready() && final(self).held() == old(
                self,
            ).held(),
            !old(self).ready() ==> match r {
                Ok(()) => final(self).ready() && exists|discovered: Vec<Package>|
                    read.ensures((), Ok(discovered)) && final(self).held() == old(self).held()
                        + #[trigger] discovered.deep_view(),
                Err(e) => read.ensures((), Err(e)) && !final(self).ready() && final(self).held()
                    == old(self).held(),
            },
    ;

    /// Makes the packages `ids` available on this machine. The source
    /// holds afterwards what it held before.
    fn download(&mut self, ids: &[PackageId]) -> (r: Result<(), SourceError>)
        ensures
            final(self).ready() == old(self).ready(),
            final(self).held() == old(self).held(),
            match r {
                Ok(()) => old(self).ready(),
                Err(e) => !old(self).ready() && e@ == SourceErrorView::NotUpdated,
            },
    ;

    /// The packages of the source whose identity is among `ids`, in the
    /// order of the source.
    fn get(&self, ids: &[PackageId]) -> (r: Result<Vec<Package>, SourceError>)
        ensures
            match r {
                Ok(found) => self.ready() && found.deep_view() == chosen(
                    self.held(),
                    ids.deep_view(),
                ),
                Err(e) => !self.ready() && e@ == SourceErrorView::NotUpdated,
            },
    ;

    /// The files that belong to `pkg`, given what was found at its root.
    /// A source that has not been updated lists nothing.
    fn list_files(&self, pkg: &Package, checkout: &Checkout) -> (r: Result<
        Vec<FilePath>,
        SourceError,
    >)
        ensures
            !self.ready() ==> (r matches Err(e) && e@ == SourceErrorView::NotUpdated),
            self.ready() ==> match self.listing(pkg@, *checkout) {
                Ok(files) => r matches Ok(found) && found.deep_view() == files,
                Err(e) => r matches Err(x) && x@ == e,
            },
    ;

    /// A text that changes when a file of `pkg` changes: the latest time
    /// of last change among the files of `pkg`, as a decimal numeral.
    /// `mtime` tells the time of the last change of a file, where it can
    /// be had; a file of which it knows no time counts as changed at
    /// time zero. Where the files cannot be listed, the fingerprint
    /// fails as the listing does.
    fn fingerprint<F: Fn(&FilePath) -> Option<u64>>(
        &self,
        pkg: &Package,
        checkout: &Checkout,
        mtime: F,
    ) -> (r: Result<String, SourceError>)
        requires
            forall|p: &FilePath| #[trigger] mtime.requires((p,)),
        ensures
            !self.ready() ==> (r matches Err(e) && e@ == SourceErrorView::NotUpdated),
            self.ready() ==> match self.listing(pkg@, *checkout) {
                Ok(files) => r matches Ok(text) && exists|times: Seq<Option<u64>>|
                    {
                        &&& times.len() == files.len()
                        &&& #[trigger] decimal(latest(times)) == text@
                        &&& forall|i: int|
                            0 <= i < files.len() ==> observed(mtime, files[i], #[trigger] times[i])
                    },
                Err(e) => r matches Err(x) && x@ == e,
            },
    ;
}

/// A directory on this machine is a source.
impl Source for PathSource {
    open spec fn ready(&self) -> bool {
        self@.updated
    }

    open spec fn held(&self) -> Seq<PackageView> {
        self@.packages
    }

    open spec fn listing(&self, pkg: PackageView, checkout: Checkout) -> Result<
        Paths,
        SourceErrorView,
    > {
        listed_files(self@, pkg, checkout)
    }

    fn update<F: FnOnce() -> Result<Vec<Package>, SourceError>>(&mut self, read: F) -> (r: Result<
        (),
        SourceError,
    >)
        ensures
            old(self)@.updated ==> r is Ok && final(self)@ == old(self)@,
            !old(self)@.updated ==> match r {
                Ok(()) => exists|discovered: Vec<Package>|
                    read.ensures((), Ok(discovered)) && final(self)@ == after_update(
                        old(self)@,
                        #[trigger] discovered.deep_view(),
                    ),
                Err(e) => read.ensures((), Err(e)) && final(self)@ == old(self)@,
            },
    {
        PathSource::update(self, read)
    }

    fn download(&mut self, ids: &[PackageId]) -> (r: Result<(), SourceError>)
        ensures
            final(self)@ == old(self)@,
    {
        PathSource::download(self, ids)
    }

    fn get(&self, ids: &[PackageId]) -> (r: Result<Vec<Package>, SourceError>) {
        PathSource::get(self, ids)
    }

    fn list_files(&self, pkg: &Package, checkout: &Checkout) -> (r: Result<
        Vec<FilePath>,
        SourceError,
    >)
        ensures
            match listed_files(self@, pkg@, *checkout) {
                Ok(files) => r matches Ok(found) && found.deep_view() == files,
                Err(e) => r matches Err(x) && x@ == e,
            },
    {
        PathSource::list_files(self, pkg, checkout)
    }

    fn fingerprint<F: Fn(&FilePath) -> Option<u64>>(
        &self,
        pkg: &Package,
        checkout: &Checkout,
        mtime: F,
    ) -> (r: Result<String, SourceError>)
        ensures
            match listed_files(self@, pkg@, *checkout) {
                Ok(files) => r matches Ok(text) && exists|times: Seq<Option<u64>>|
                    {
                        &&& times.len() == files.len()
                        &&& #[trigger] decimal(latest(times)) == text@
                        &&& forall|i: int|
                            0 <= i < files.len() ==> observed(mtime, files[i], #[trigger] times[i])
                    },
                Err(e) => r matches Err(x) && x@ == e,
            },
    {
        PathSource::fingerprint(self, pkg, checkout, mtime)
    }
}

} // verus!
