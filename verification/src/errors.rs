//! What can go wrong, and the words for it.

use vstd::prelude::*;
use vstd::string::*;
use crate::paths::{path_text, FilePath};

verus! {

/// Why a set of dependencies and features is no valid summary.
#[derive(Debug, PartialEq, Eq)]
pub enum ValidationError {
    /// A development-only dependency is marked optional.
    OptionalDevDependency { dependency: String },
    /// A feature names, in plain form, a dependency that is not optional.
    NotOptional { feature: String, dependency: String },
    /// A feature names a dependency that does not exist.
    NotADependency { feature: String, dependency: String },
    /// A feature turns on a feature that does not exist.
    NotAFeature { feature: String, required: String },
}

/// What a `ValidationError` stands for.
pub enum ValidationErrorView {
    OptionalDevDependency { dependency: Seq<char> },
    NotOptional { feature: Seq<char>, dependency: Seq<char> },
    NotADependency { feature: Seq<char>, dependency: Seq<char> },
    NotAFeature { feature: Seq<char>, required: Seq<char> },
}

impl View for ValidationError {
    type V = ValidationErrorView;

    open spec fn view(&self) -> ValidationErrorView {
        match self {
            ValidationError::OptionalDevDependency { dependency } => {
                ValidationErrorView::OptionalDevDependency { dependency: dependency@ }
            },
            ValidationError::NotOptional { feature, dependency } => {
                ValidationErrorView::NotOptional { feature: feature@, dependency: dependency@ }
            },
            ValidationError::NotADependency { feature, dependency } => {
                ValidationErrorView::NotADependency { feature: feature@, dependency: dependency@ }
            },
            ValidationError::NotAFeature { feature, required } => {
                ValidationErrorView::NotAFeature { feature: feature@, required: required@ }
            },
        }
    }
}

/// The message of a validation error.
pub open spec fn validation_message(e: ValidationErrorView) -> Seq<char> {
    match e {
        ValidationErrorView::OptionalDevDependency { dependency } => {
            "Dev-dependencies are not allowed to be optional: `"@ + dependency + "`"@
        },
        ValidationErrorView::NotOptional { feature, dependency } => {
            "Feature `"@ + feature + "` depends on `"@ + dependency
                + "` which is not an optional dependency.\nConsider adding `optional = true` to the dependency"@
        },
        ValidationErrorView::NotADependency { feature, dependency } => {
            "Feature `"@ + feature + "` requires `"@ + dependency + "` which is not a dependency"@
        },
        ValidationErrorView::NotAFeature { feature, required } => {
            "Feature `"@ + feature + "` requires `"@ + required + "` which is not a feature"@
        },
    }
}

impl ValidationError {
    /// The message for the user.
    pub fn message(&self) -> (r: String)
        ensures
            r@ == validation_message(self@),
    {
        match self {
            ValidationError::OptionalDevDependency { dependency } => {
                let mut r = "Dev-dependencies are not allowed to be optional: `".to_owned();
                r.append(dependency.as_str());
                r.append("`");
                r
            },
            ValidationError::NotOptional { feature, dependency } => {
                let mut r = "Feature `".to_owned();
                r.append(feature.as_str());
                r.append("` depends on `");
                r.append(dependency.as_str());
                r.append(
                    "` which is not an optional dependency.\nConsider adding `optional = true` to the dependency",
                );
                r
            },
            ValidationError::NotADependency { feature, dependency } => {
                let mut r = "Feature `".to_owned();
                r.append(feature.as_str());
                r.append("` requires `");
                r.append(dependency.as_str());
                r.append("` which is not a dependency");
                r
            },
            ValidationError::NotAFeature { feature, required } => {
                let mut r = "Feature `".to_owned();
                r.append(feature.as_str());
                r.append("` requires `");
                r.append(required.as_str());
                r.append("` which is not a feature");
                r
            },
        }
    }
}

/// Why an operation of a source failed.
#[derive(Debug, PartialEq, Eq)]
pub enum SourceError {
    /// The source was asked before it was updated. This is a fault of the
    /// caller, not of the user.
    NotUpdated,
    /// No package of the source lies at the root of the source. This is a
    /// fault of the caller, not of the user.
    NoRootPackage,
    /// The repository has no working directory, so there are no files to
    /// list. This is a fault of the caller, not of the user.
    BareRepository,
    /// A directory could not be read.
    UnreadableDirectory { path: FilePath },
    /// The packages of the source could not be read.
    Discovery { message: String },
    /// A pattern of a manifest is no pattern.
    InvalidPattern { pattern: String },
}

/// What a `SourceError` stands for.
pub enum SourceErrorView {
    NotUpdated,
    NoRootPackage,
    BareRepository,
    UnreadableDirectory { path: Seq<Seq<char>> },
    Discovery { message: Seq<char> },
    InvalidPattern { pattern: Seq<char> },
}

impl View for SourceError {
    type V = SourceErrorView;

    open spec fn view(&self) -> SourceErrorView {
        match self {
            SourceError::NotUpdated => SourceErrorView::NotUpdated,
            SourceError::NoRootPackage => SourceErrorView::NoRootPackage,
            SourceError::BareRepository => SourceErrorView::BareRepository,
            SourceError::UnreadableDirectory { path } => {
                SourceErrorView::UnreadableDirectory { path: path@ }
            },
            SourceError::Discovery { message } => SourceErrorView::Discovery { message: message@ },
            SourceError::InvalidPattern { pattern } => {
                SourceErrorView::InvalidPattern { pattern: pattern@ }
            },
        }
    }
}

/// Whether an error shows a fault in the calling code rather than in what
/// the user wrote or in the file system.
pub open spec fn internal(e: SourceErrorView) -> bool {
    e is NotUpdated || e is NoRootPackage || e is BareRepository
}

/// The message of a source error.
pub open spec fn source_message(e: SourceErrorView) -> Seq<char> {
    match e {
        SourceErrorView::NotUpdated => "source has not been updated"@,
        SourceErrorView::NoRootPackage => "no package found in source"@,
        SourceErrorView::BareRepository => "Can't list files on a bare repository."@,
        SourceErrorView::UnreadableDirectory { path } => {
            "failed to read directory `"@ + path_text(path) + "`"@
        },
        SourceErrorView::Discovery { message } => message,
        SourceErrorView::InvalidPattern { pattern } => {
            "could not parse pattern `"@ + pattern + "`"@
        },
    }
}

impl SourceError {
    /// Whether the error shows a fault in the calling code.
    pub fn is_internal(&self) -> (r: bool)
        ensures
            r == internal(self@),
    {
        match self {
            SourceError::NotUpdated => true,
            SourceError::NoRootPackage => true,
            SourceError::BareRepository => true,
            _ => false,
        }
    }

    /// The message for the user.
    pub fn message(&self) -> (r: String)
        ensures
            r@ == source_message(self@),
    {
        match self {
            SourceError::NotUpdated => "source has not been updated".to_owned(),
            SourceError::NoRootPackage => "no package found in source".to_owned(),
            SourceError::BareRepository => "Can't list files on a bare repository.".to_owned(),
            SourceError::UnreadableDirectory { path } => {
                let mut r = "failed to read directory `".to_owned();
                r.append(path.to_text().as_str());
                r.append("`");
                r
            },
            SourceError::Discovery { message } => message.clone(),
            SourceError::InvalidPattern { pattern } => {
                let mut r = "could not parse pattern `".to_owned();
                r.append(pattern.as_str());
                r.append("`");
                r
            },
        }
    }
}

} // verus!
