//! Versions of packages, and the test of a version against a requirement.

use vstd::prelude::*;
use vstd::string::*;
use crate::paths::same_text;

verus! {

/// A version: three numbers, a pre-release label and a build label, both
/// possibly empty.
#[derive(Debug, PartialEq, Eq)]
pub struct Version {
    pub major: u64,
    pub minor: u64,
    pub patch: u64,
    pub pre: String,
    pub build: String,
}

/// What a `Version` stands for.
pub struct VersionView {
    pub major: u64,
    pub minor: u64,
    pub patch: u64,
    pub pre: Seq<char>,
    pub build: Seq<char>,
}

impl View for Version {
    type V = VersionView;

    open spec fn view(&self) -> VersionView {
        VersionView {
            major: self.major,
            minor: self.minor,
            patch: self.patch,
            pre: self.pre@,
            build: self.build@,
        }
    }
}

impl DeepView for Version {
    type V = VersionView;

    open spec fn deep_view(&self) -> VersionView {
        self.view()
    }
}

impl Clone for Version {
    fn clone(&self) -> (r: Self)
        ensures
            r@ == self@,
    {
        Version {
            major: self.major,
            minor: self.minor,
            patch: self.patch,
            pre: self.pre.clone(),
            build: self.build.clone(),
        }
    }
}

/// The answer of `semver::VersionReq::matches` for the requirement that
/// `req` spells and the version made of the other arguments. It is `None`
/// where `req` spells no requirement, or `pre` or `build` no label.
pub uninterp spec fn semver_matches(
    req: Seq<char>,
    major: u64,
    minor: u64,
    patch: u64,
    pre: Seq<char>,
    build: Seq<char>,
) -> Option<bool>;

/// Asks `semver::VersionReq::matches` whether the version made of the
/// given parts meets the requirement that `req` spells. The requirement
/// and the two labels are first read by `semver::VersionReq::parse`,
/// `semver::Prerelease::new` and `semver::BuildMetadata::new`; where one
/// of them refuses its text the answer is `None`. The contract only names
/// the answer: the same texts and numbers always give the same one.
#[verifier::external_body]
fn requirement_matches(
    req: &str,
    major: u64,
    minor: u64,
    patch: u64,
    pre: &str,
    build: &str,
) -> (r: Option<bool>)
    ensures
        r == semver_matches(req@, major, minor, patch, pre@, build@),
{
    let req = semver::VersionReq::parse(req).ok()?;
    let pre = semver::Prerelease::new(pre).ok()?;
    let build = semver::BuildMetadata::new(build).ok()?;
    Some(req.matches(&semver::Version { major, minor, patch, pre, build }))
}

/// Whether version `v` meets the requirement that `req` spells.
pub open spec fn meets(req: Seq<char>, v: VersionView) -> bool {
    semver_matches(req, v.major, v.minor, v.patch, v.pre, v.build) == Some(true)
}

impl Version {
    /// The version `major.minor.patch`, without labels.
    pub fn new(major: u64, minor: u64, patch: u64) -> (r: Self)
        ensures
            r@ == (VersionView { major, minor, patch, pre: Seq::empty(), build: Seq::empty() }),
    {
        Version { major, minor, patch, pre: String::new(), build: String::new() }
    }

    /// The version with the given numbers and labels.
    pub fn with_labels(major: u64, minor: u64, patch: u64, pre: String, build: String) -> (r: Self)
        ensures
            r@ == (VersionView { major, minor, patch, pre: pre@, build: build@ }),
    {
        Version { major, minor, patch, pre, build }
    }

    /// Whether two versions are the same in every part.
    pub fn same(&self, other: &Version) -> (r: bool)
        ensures
            r == (self@ == other@),
    {
        let r = self.major == other.major && self.minor == other.minor && self.patch == other.patch
            && same_text(self.pre.as_str(), other.pre.as_str()) && same_text(
            self.build.as_str(),
            other.build.as_str(),
        );
        r
    }

    /// Whether this version meets the requirement that `req` spells. A
    /// text that spells no requirement is met by no version.
    pub fn satisfies(&self, req: &str) -> (r: bool)
        ensures
            r == meets(req@, self@),
    {
        match requirement_matches(
            req,
            self.major,
            self.minor,
            self.patch,
            self.pre.as_str(),
            self.build.as_str(),
        ) {
            Some(b) => b,
            None => false,
        }
    }
}

} // verus!
