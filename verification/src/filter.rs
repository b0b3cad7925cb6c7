//! Which files of a package's directory belong to the package, as its
//! manifest's patterns say.

use vstd::prelude::*;
use vstd::string::*;
use crate::paths::{clone_strings, path_text, FilePath};

verus! {

/// Whether `glob::Pattern::new` takes `pattern` for a pattern.
pub uninterp spec fn glob_compiles(pattern: Seq<char>) -> bool;

/// The answer of `glob::Pattern::matches` for the pattern that `pattern`
/// spells, where it spells one, and the text `text`.
pub uninterp spec fn glob_matches(pattern: Seq<char>, text: Seq<char>) -> bool;

/// What trying `pattern` on `text` gives: whether the pattern matches
/// all of the text, or `None` where `pattern` is no pattern.
pub open spec fn glob_match(pattern: Seq<char>, text: Seq<char>) -> Option<bool> {
    if glob_compiles(pattern) {
        Some(glob_matches(pattern, text))
    } else {
        None
    }
}

/// Compiles `pattern` with `glob::Pattern::new` and asks
/// `glob::Pattern::matches` whether the pattern matches all of `text`;
/// the answer is `None` where `pattern` does not compile. The contract
/// only names the two answers: whether a text compiles depends on that
/// text alone, and the same pattern and text always match or always do
/// not. The characters that the pattern language takes for path
/// separators are those of the platform that the library is built for.
#[verifier::external_body]
fn pattern_matches(pattern: &str, text: &str) -> (r: Option<bool>)
    ensures
        r == if glob_compiles(pattern@) {
            Some(glob_matches(pattern@, text@))
        } else {
            None::<bool>
        },
{
    match glob::Pattern::new(pattern) {
        Ok(compiled) => Some(compiled.matches(text)),
        Err(_) => None,
    }
}

/// The first of `patterns`, from `from` on, that is no pattern.
pub open spec fn first_unusable(patterns: Seq<Seq<char>>, from: int) -> Option<Seq<char>>
    decreases patterns.len() - from,
{
    if from < 0 || from >= patterns.len() {
        None
    } else if !glob_compiles(patterns[from]) {
        Some(patterns[from])
    } else {
        first_unusable(patterns, from + 1)
    }
}

/// The pattern that makes a manifest unusable for listing files, if
/// there is one: the first exclusion pattern that is no pattern, or else
/// the first such inclusion pattern.
pub open spec fn unusable_pattern(includes: Seq<Seq<char>>, excludes: Seq<Seq<char>>) -> Option<
    Seq<char>,
> {
    match first_unusable(excludes, 0) {
        Some(p) => Some(p),
        None => first_unusable(includes, 0),
    }
}

/// The first of `patterns` that is no pattern. A text is tried as a
/// pattern on the empty text, which shows whether it compiles.
pub fn find_unusable(patterns: &Vec<String>) -> (r: Option<String>)
    ensures
        r is Some == first_unusable(patterns.deep_view(), 0) is Some,
        r matches Some(p) ==> Some(p@) == first_unusable(patterns.deep_view(), 0),
{
    let mut i: usize = 0;
    while i < patterns.len()
        invariant
            i <= patterns.len(),
            first_unusable(patterns.deep_view(), 0) == first_unusable(
                patterns.deep_view(),
                i as int,
            ),
        decreases patterns.len() - i,
    {
        assert(patterns.deep_view()[i as int] == patterns[i as int]@);
        if pattern_matches(patterns[i].as_str(), "").is_none() {
            return Some(patterns[i].clone());
        }
        i += 1;
    }
    None
}

/// The pattern that makes a manifest unusable for listing files, if
/// there is one.
pub fn check_patterns(includes: &Vec<String>, excludes: &Vec<String>) -> (r: Option<String>)
    ensures
        r is Some == unusable_pattern(includes.deep_view(), excludes.deep_view()) is Some,
        r matches Some(p) ==> Some(p@) == unusable_pattern(
            includes.deep_view(),
            excludes.deep_view(),
        ),
{
    match find_unusable(excludes) {
        Some(p) => Some(p),
        None => find_unusable(includes),
    }
}

/// Whether one of `patterns`, from `from` on, matches `text`. A pattern
/// that does not compile matches nothing.
pub open spec fn any_match_from(patterns: Seq<Seq<char>>, text: Seq<char>, from: int) -> bool {
    exists|i: int| from <= i < patterns.len() && glob_match(#[trigger] patterns[i], text) == Some(true)
}

/// Whether one of `patterns` matches `text`.
pub open spec fn any_match(patterns: Seq<Seq<char>>, text: Seq<char>) -> bool {
    any_match_from(patterns, text, 0)
}

/// The rule of the patterns: a text that matches an inclusion pattern
/// belongs; where there are no inclusion patterns, a text belongs that
/// matches no exclusion pattern.
pub open spec fn selected(includes: Seq<Seq<char>>, excludes: Seq<Seq<char>>, text: Seq<char>) -> bool {
    any_match(includes, text) || (includes.len() == 0 && !any_match(excludes, text))
}

/// The files that belong to the package at `root`.
#[derive(Debug)]
pub struct Filter {
    pub root: FilePath,
    pub includes: Vec<String>,
    pub excludes: Vec<String>,
}

/// What a `Filter` stands for.
pub struct FilterView {
    pub root: Seq<Seq<char>>,
    pub includes: Seq<Seq<char>>,
    pub excludes: Seq<Seq<char>>,
}

impl View for Filter {
    type V = FilterView;

    open spec fn view(&self) -> FilterView {
        FilterView {
            root: self.root@,
            includes: self.includes.deep_view(),
            excludes: self.excludes.deep_view(),
        }
    }
}

/// Whether `path` belongs to the package of `filter`: it is the root or
/// lies under it, and the text of what follows the root is selected by
/// the patterns.
pub open spec fn accepts(filter: FilterView, path: Seq<Seq<char>>) -> bool {
    filter.root.is_prefix_of(path) && selected(
        filter.includes,
        filter.excludes,
        path_text(path.skip(filter.root.len() as int)),
    )
}

/// Whether one of `patterns` matches `text`.
pub fn matches_any(patterns: &Vec<String>, text: &str) -> (r: bool)
    ensures
        r == any_match(patterns.deep_view(), text@),
{
    let mut i: usize = 0;
    while i < patterns.len()
        invariant
            i <= patterns.len(),
            any_match(patterns.deep_view(), text@) == any_match_from(
                patterns.deep_view(),
                text@,
                i as int,
            ),
        decreases patterns.len() - i,
    {
        assert(patterns.deep_view()[i as int] == patterns[i as int]@);
        match pattern_matches(patterns[i].as_str(), text) {
            Some(true) => {
                return true;
            },
            _ => {},
        }
        assert(any_match_from(patterns.deep_view(), text@, i as int) == any_match_from(
            patterns.deep_view(),
            text@,
            i as int + 1,
        )) by {
            if any_match_from(patterns.deep_view(), text@, i as int) {
                let k = choose|k: int|
                    i <= k < patterns.len() && glob_match(
                        #[trigger] patterns.deep_view()[k],
                        text@,
                    ) == Some(true);
                assert(k != i);
            }
        }
        i += 1;
    }
    false
}

impl Filter {
    /// The filter for the package at `root` with the given patterns.
    pub fn new(root: FilePath, includes: &Vec<String>, excludes: &Vec<String>) -> (r: Self)
        ensures
            r@ == (FilterView {
                root: root@,
                includes: includes.deep_view(),
                excludes: excludes.deep_view(),
            }),
    {
        Filter { root, includes: clone_strings(includes), excludes: clone_strings(excludes) }
    }

    /// Whether `path` belongs to the package. A path that does not lie
    /// under the root does not.
    pub fn accepts(&self, path: &FilePath) -> (r: bool)
        ensures
            r == accepts(self@, path@),
    {
        match path.strip_prefix(&self.root) {
            None => false,
            Some(relative) => {
                let text = relative.to_text();
                matches_any(&self.includes, text.as_str()) || (self.includes.len() == 0
                    && !matches_any(&self.excludes, text.as_str()))
            },
        }
    }
}

} // verus!
