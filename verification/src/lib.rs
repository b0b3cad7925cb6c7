//! The metadata core of a package manager: validated package summaries,
//! a path source that lists and fingerprints the files of a package, and
//! a cache of parsed manifests.

pub mod dependency;
pub mod errors;
pub mod features;
pub mod filter;
pub mod keys;
pub mod listing;
pub mod manifest_cache;
pub mod package;
pub mod package_id;
pub mod path_source;
pub mod paths;
pub mod registry;
pub mod seqs;
pub mod source;
pub mod summary;
pub mod text;
pub mod tree;
pub mod vcs;
pub mod version;
