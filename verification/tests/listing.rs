use cargo_core::errors::SourceError;
use cargo_core::features::FeatureMap;
use cargo_core::listing::{fingerprint_of, Checkout};
use cargo_core::package::{Manifest, Package};
use cargo_core::package_id::{PackageId, SourceId};
use cargo_core::path_source::PathSource;
use cargo_core::paths::FilePath;
use cargo_core::summary::Summary;
use cargo_core::tree::{has_manifest_entry, is_passed_over, DirEntry, FileTree};
use cargo_core::vcs::{RepoEntry, RepoNode, Repository};
use cargo_core::version::Version;

fn strings(items: &[&str]) -> Vec<String> {
    items.iter().map(|s| s.to_string()).collect()
}

fn path(parts: &[&str]) -> FilePath {
    FilePath::new(parts.iter().map(|s| s.to_string()).collect())
}

fn package_with(name: &str, dir: &[&str], includes: &[&str], excludes: &[&str]) -> Package {
    let id = PackageId::new(name.to_string(), Version::new(1, 0, 0), SourceId::for_path(&path(&["p"])));
    let summary = Summary::new(id, Vec::new(), FeatureMap::new()).unwrap();
    let manifest = Manifest::new(summary, strings(includes), strings(excludes));
    Package::new(manifest, path(dir).join("Cargo.toml"))
}

fn package(name: &str, dir: &[&str]) -> Package {
    package_with(name, dir, &[], &[])
}

fn source(packages: Vec<Package>) -> PathSource {
    let mut source = PathSource::for_path(&path(&["p"]));
    source.update_with(packages);
    source
}

fn file(name: &str) -> DirEntry {
    DirEntry { name: name.to_string(), node: FileTree::File }
}

fn dir(name: &str, entries: Vec<DirEntry>) -> DirEntry {
    DirEntry { name: name.to_string(), node: FileTree::Directory { entries } }
}

fn indexed(parts: &[&str]) -> RepoEntry {
    RepoEntry { path: path(parts), node: RepoNode::File }
}

fn repository(workdir: &[&str], index: Vec<RepoEntry>) -> Repository {
    Repository { workdir: Some(path(workdir)), index, unborn: false, statuses: Vec::new() }
}

fn texts(files: &[FilePath]) -> Vec<String> {
    files.iter().map(|f| f.to_text()).collect()
}

#[test]
fn a_plain_package_lists_its_sources_only() {
    let tree = FileTree::Directory {
        entries: vec![
            file("Cargo.toml"),
            dir("src", vec![file("main.rs")]),
            dir("target", vec![dir("debug", vec![file("foo")])]),
            file("Cargo.lock"),
        ],
    };
    let pkg = package_with("foo", &["p"], &["src/*"], &[]);
    let files = source(vec![package("foo", &["p"])]).list_files(&pkg, &Checkout::Plain(tree)).unwrap();
    assert_eq!(files, vec![path(&["p", "src", "main.rs"])]);
}

#[test]
fn a_plain_package_without_patterns_lists_manifest_and_sources() {
    let tree = FileTree::Directory {
        entries: vec![
            file("Cargo.toml"),
            dir("src", vec![file("main.rs")]),
            dir("target", vec![dir("debug", vec![file("foo")])]),
            file("Cargo.lock"),
        ],
    };
    let pkg = package("foo", &["p"]);
    let files = source(vec![package("foo", &["p"])]).list_files(&pkg, &Checkout::Plain(tree)).unwrap();
    assert_eq!(texts(&files), vec!["p/Cargo.toml", "p/src/main.rs"]);
}

#[test]
fn listing_fails_before_the_update() {
    let pkg = package("foo", &["p"]);
    let plain = Checkout::Plain(FileTree::Directory { entries: vec![file("main.rs")] });
    let not_updated = PathSource::for_path(&path(&["p"]));
    assert_eq!(not_updated.list_files(&pkg, &plain).unwrap_err(), SourceError::NotUpdated);
    assert_eq!(not_updated.fingerprint(&pkg, &plain, |_| Some(5)).unwrap_err(), SourceError::NotUpdated);
}

#[test]
fn the_walk_skips_lockfile_and_build_directory_at_the_root_only() {
    let tree = FileTree::Directory {
        entries: vec![
            file("Cargo.lock"),
            dir("target", vec![file("out")]),
            dir(".git", vec![file("HEAD")]),
            dir(
                "sub",
                vec![
                    file("Cargo.lock"),
                    dir("target", vec![file("kept")]),
                    dir(".git", vec![file("HEAD")]),
                ],
            ),
        ],
    };
    let pkg = package_with("foo", &["p"], &["*"], &[]);
    let files = source(vec![package("foo", &["p"])]).list_files_walk(&pkg, &tree).unwrap();
    assert_eq!(texts(&files), vec!["p/sub/Cargo.lock", "p/sub/target/kept"]);
}

#[test]
fn the_walk_stays_out_of_nested_packages() {
    let tree = FileTree::Directory {
        entries: vec![
            file("Cargo.toml"),
            dir("inner", vec![file("Cargo.toml"), dir("src", vec![file("lib.rs")])]),
            dir("docs", vec![file("guide.md"), dir("deep", vec![file("Cargo.toml"), file("x")])]),
            dir("locked", vec![]),
        ],
    };
    let pkg = package("foo", &["p"]);
    let files = source(vec![package("foo", &["p"])]).list_files_walk(&pkg, &tree).unwrap();
    assert_eq!(texts(&files), vec!["p/Cargo.toml", "p/docs/guide.md"]);
}

#[test]
fn the_walk_enters_the_root_although_it_holds_a_manifest() {
    let tree = FileTree::Directory { entries: vec![file("Cargo.toml"), file("build.rs")] };
    let pkg = package_with("foo", &["p"], &[], &["Cargo.toml"]);
    let files = source(Vec::new()).list_files_walk(&pkg, &tree).unwrap();
    assert_eq!(texts(&files), vec!["p/build.rs"]);
}

#[test]
fn the_walk_fails_at_an_unreadable_directory() {
    let tree = FileTree::Directory {
        entries: vec![
            file("a"),
            DirEntry { name: "closed".to_string(), node: FileTree::Unreadable { has_manifest: false } },
            file("b"),
        ],
    };
    let pkg = package("foo", &["p"]);
    let err = source(Vec::new()).list_files_walk(&pkg, &tree).unwrap_err();
    assert_eq!(err, SourceError::UnreadableDirectory { path: path(&["p", "closed"]) });
    let root = FileTree::Unreadable { has_manifest: true };
    let err = source(Vec::new()).list_files_walk(&pkg, &root).unwrap_err();
    assert_eq!(err, SourceError::UnreadableDirectory { path: path(&["p"]) });
}

#[test]
fn the_walk_passes_an_unreadable_nested_package() {
    let tree = FileTree::Directory {
        entries: vec![
            file("a"),
            DirEntry { name: "inner".to_string(), node: FileTree::Unreadable { has_manifest: true } },
            DirEntry { name: "target".to_string(), node: FileTree::Unreadable { has_manifest: false } },
            file("b"),
        ],
    };
    let pkg = package("foo", &["p"]);
    let files = source(Vec::new()).list_files_walk(&pkg, &tree).unwrap();
    assert_eq!(texts(&files), vec!["p/a", "p/b"]);
}

#[test]
fn a_root_that_is_a_file_is_listed_itself() {
    let pkg = package("foo", &["p"]);
    let files = source(Vec::new()).list_files_walk(&pkg, &FileTree::File).unwrap();
    assert_eq!(texts(&files), vec!["p"]);
}

#[test]
fn walk_helpers_know_the_special_names() {
    assert!(is_passed_over(false, ".git"));
    assert!(is_passed_over(true, ".git"));
    assert!(is_passed_over(true, "target"));
    assert!(is_passed_over(true, "Cargo.lock"));
    assert!(!is_passed_over(false, "target"));
    assert!(!is_passed_over(false, "Cargo.lock"));
    assert!(!is_passed_over(true, "src"));
    assert!(has_manifest_entry(&vec![file("a"), file("Cargo.toml")]));
    assert!(!has_manifest_entry(&vec![file("a"), file("cargo.toml")]));
    assert!(!has_manifest_entry(&Vec::new()));
}

#[test]
fn a_repository_lists_its_tracked_files_in_the_package() {
    let repo = repository(
        &["p"],
        vec![
            indexed(&["Cargo.toml"]),
            indexed(&["Cargo.lock"]),
            indexed(&["src", "main.rs"]),
            indexed(&["src", "Cargo.lock"]),
            indexed(&["target"]),
            indexed(&["target", "debug", "foo"]),
            indexed(&["README.md"]),
        ],
    );
    let pkg = package_with("foo", &["p"], &[], &["*.md"]);
    let files = source(vec![package("foo", &["p"])]).list_files(&pkg, &Checkout::Versioned(repo)).unwrap();
    assert_eq!(texts(&files), vec!["p/Cargo.toml", "p/src/main.rs", "p/target/debug/foo"]);
}

#[test]
fn a_repository_leaves_out_what_lies_outside_the_package() {
    let repo = repository(
        &["p"],
        vec![indexed(&["README.md"]), indexed(&["member", "src", "lib.rs"]), indexed(&["other", "x"])],
    );
    let member = package("member", &["p", "member"]);
    let s = source(vec![package("top", &["p"]), package("member", &["p", "member"])]);
    let files = s.list_files_git(&member, &repo).unwrap();
    assert_eq!(texts(&files), vec!["p/member/src/lib.rs"]);
}

#[test]
fn a_repository_leaves_out_nested_packages() {
    let repo = repository(
        &["p"],
        vec![
            indexed(&["src", "lib.rs"]),
            indexed(&["member", "Cargo.toml"]),
            indexed(&["member", "src", "lib.rs"]),
            indexed(&["memberish", "notes"]),
        ],
    );
    let top = package("top", &["p"]);
    let s = source(vec![package("top", &["p"]), package("member", &["p", "member"])]);
    let files = s.list_files_git(&top, &repo).unwrap();
    assert_eq!(texts(&files), vec!["p/src/lib.rs", "p/memberish/notes"]);
}

#[test]
fn untracked_files_count_only_before_the_first_commit() {
    let mut repo = repository(&["p"], vec![indexed(&["a"])]);
    repo.statuses = vec![indexed(&["b"]), indexed(&["Cargo.lock"])];
    let pkg = package("foo", &["p"]);
    let s = source(vec![package("foo", &["p"])]);
    assert_eq!(texts(&s.list_files_git(&pkg, &repo).unwrap()), vec!["p/a"]);
    repo.unborn = true;
    assert_eq!(texts(&s.list_files_git(&pkg, &repo).unwrap()), vec!["p/a", "p/b"]);
}

#[test]
fn a_submodule_is_listed_as_a_repository() {
    let inner = repository(&["p", "vendor"], vec![indexed(&["lib.c"]), indexed(&["Cargo.lock"])]);
    let repo = repository(
        &["p"],
        vec![
            indexed(&["a"]),
            RepoEntry { path: path(&["vendor"]), node: RepoNode::Submodule(inner) },
            indexed(&["z"]),
        ],
    );
    let pkg = package("foo", &["p"]);
    let files = source(vec![package("foo", &["p"])]).list_files_git(&pkg, &repo).unwrap();
    assert_eq!(texts(&files), vec!["p/a", "p/vendor/lib.c", "p/z"]);
}

#[test]
fn a_directory_that_is_no_submodule_is_walked() {
    let tree = FileTree::Directory {
        entries: vec![file("x"), dir(".git", vec![file("HEAD")]), dir("target", vec![file("y")])],
    };
    let owned = FileTree::Directory { entries: vec![file("Cargo.toml"), file("x")] };
    let repo = repository(
        &["p"],
        vec![
            RepoEntry { path: path(&["extra"]), node: RepoNode::Directory(tree) },
            RepoEntry { path: path(&["owned"]), node: RepoNode::Directory(owned) },
        ],
    );
    let pkg = package("foo", &["p"]);
    let files = source(vec![package("foo", &["p"])]).list_files_git(&pkg, &repo).unwrap();
    assert_eq!(texts(&files), vec!["p/extra/x", "p/extra/target/y"]);
}

#[test]
fn a_bare_repository_cannot_be_listed() {
    let repo = Repository { workdir: None, index: vec![indexed(&["a"])], unborn: false, statuses: Vec::new() };
    let pkg = package("foo", &["p"]);
    let err = source(vec![package("foo", &["p"])]).list_files_git(&pkg, &repo).unwrap_err();
    assert_eq!(err, SourceError::BareRepository);
}

#[test]
fn a_submodule_that_does_not_open_is_walked() {
    let pkg = package("foo", &["p"]);
    let s = source(vec![package("foo", &["p"])]);
    let checked_out = FileTree::Directory {
        entries: vec![file(".git"), file("lib.c"), dir("src", vec![file("more.c"), file("Cargo.lock")])],
    };
    let repo = repository(
        &["p"],
        vec![
            indexed(&["a"]),
            RepoEntry { path: path(&["vendor"]), node: RepoNode::Directory(checked_out) },
            indexed(&["z"]),
        ],
    );
    assert_eq!(
        texts(&s.list_files_git(&pkg, &repo).unwrap()),
        vec!["p/a", "p/vendor/lib.c", "p/vendor/src/more.c", "p/vendor/src/Cargo.lock", "p/z"]
    );
    let empty = repository(
        &["p"],
        vec![RepoEntry { path: path(&["vendor"]), node: RepoNode::Directory(FileTree::Directory { entries: Vec::new() }) }],
    );
    assert!(s.list_files_git(&pkg, &empty).unwrap().is_empty());
}

#[test]
fn a_directory_that_cannot_be_read_ends_the_listing_unless_left_out() {
    let pkg = package("foo", &["p"]);
    let s = source(vec![package("foo", &["p"])]);
    let closed = repository(
        &["p"],
        vec![
            indexed(&["a"]),
            RepoEntry { path: path(&["vendor"]), node: RepoNode::Directory(FileTree::Unreadable { has_manifest: false }) },
        ],
    );
    assert_eq!(
        s.list_files_git(&pkg, &closed).unwrap_err(),
        SourceError::UnreadableDirectory { path: path(&["p", "vendor"]) }
    );
    let skipped = repository(
        &["p"],
        vec![
            indexed(&["a"]),
            RepoEntry { path: path(&["target"]), node: RepoNode::Directory(FileTree::Unreadable { has_manifest: false }) },
        ],
    );
    assert_eq!(texts(&s.list_files_git(&pkg, &skipped).unwrap()), vec!["p/a"]);
}

#[test]
fn no_file_of_a_nested_package_is_listed_for_the_outer_one() {
    let outer = package_with("outer", &["p"], &["*"], &[]);
    let s = source(vec![package("outer", &["p"]), package("inner", &["p", "extra", "inner"])]);
    let walked = FileTree::Directory {
        entries: vec![
            file("Cargo.toml"),
            dir("src", vec![file("lib.rs")]),
            dir(
                "extra",
                vec![file("notes"), dir("inner", vec![file("Cargo.toml"), dir("src", vec![file("lib.rs")])])],
            ),
        ],
    };
    let plain = s.list_files(&outer, &Checkout::Plain(walked)).unwrap();
    assert_eq!(texts(&plain), vec!["p/Cargo.toml", "p/src/lib.rs", "p/extra/notes"]);
    let untracked = FileTree::Directory {
        entries: vec![file("notes"), dir("inner", vec![file("Cargo.toml"), dir("src", vec![file("lib.rs")])])],
    };
    let repo = repository(
        &["p"],
        vec![
            indexed(&["Cargo.toml"]),
            indexed(&["src", "lib.rs"]),
            indexed(&["extra", "inner", "Cargo.toml"]),
            indexed(&["extra", "inner", "src", "lib.rs"]),
            RepoEntry { path: path(&["extra"]), node: RepoNode::Directory(untracked) },
        ],
    );
    let versioned = s.list_files(&outer, &Checkout::Versioned(repo)).unwrap();
    assert_eq!(texts(&versioned), vec!["p/Cargo.toml", "p/src/lib.rs", "p/extra/notes"]);
    let nested = path(&["p", "extra", "inner"]);
    assert!(plain.iter().chain(versioned.iter()).all(|f| !f.starts_with(&nested)));
}

#[test]
fn the_fingerprint_is_the_latest_time() {
    assert_eq!(fingerprint_of(&vec![Some(100), None]), "100");
    assert_eq!(fingerprint_of(&vec![None, None]), "0");
    assert_eq!(fingerprint_of(&Vec::new()), "0");
    assert_eq!(fingerprint_of(&vec![Some(3), Some(17), Some(5)]), "17");
    assert_eq!(fingerprint_of(&vec![Some(u64::MAX), Some(1)]), "18446744073709551615");
}

#[test]
fn the_fingerprint_asks_for_each_listed_file() {
    let tree = FileTree::Directory {
        entries: vec![file("old"), file("gone"), dir("target", vec![file("newest")]), file("new")],
    };
    let pkg = package("foo", &["p"]);
    let s = source(vec![package("foo", &["p"])]);
    let asked = std::cell::RefCell::new(Vec::new());
    let text = s
        .fingerprint(&pkg, &Checkout::Plain(tree), |f| {
            asked.borrow_mut().push(f.to_text());
            match f.file_name().map(|n| n.as_str()) {
                Some("old") => Some(100),
                Some("new") => Some(250),
                Some("newest") => Some(999),
                _ => None,
            }
        })
        .unwrap();
    assert_eq!(text, "250");
    assert_eq!(asked.into_inner(), vec!["p/old", "p/gone", "p/new"]);
}

#[test]
fn the_fingerprint_of_a_package_without_readable_files_is_zero() {
    let tree = FileTree::Directory { entries: vec![file("a"), file("b")] };
    let pkg = package("foo", &["p"]);
    let s = source(vec![package("foo", &["p"])]);
    assert_eq!(s.fingerprint(&pkg, &Checkout::Plain(tree), |_| None).unwrap(), "0");
    let empty = FileTree::Directory { entries: Vec::new() };
    assert_eq!(s.fingerprint(&pkg, &Checkout::Plain(empty), |_| Some(7)).unwrap(), "0");
}

#[test]
fn the_fingerprint_of_one_dated_and_one_lost_file_is_the_date() {
    let repo = repository(&["p"], vec![indexed(&["dated"]), indexed(&["lost"])]);
    let pkg = package("foo", &["p"]);
    let s = source(vec![package("foo", &["p"])]);
    let text = s
        .fingerprint(&pkg, &Checkout::Versioned(repo), |f| if f.is_named("dated") { Some(100) } else { None })
        .unwrap();
    assert_eq!(text, "100");
}

#[test]
fn a_manifest_with_a_broken_pattern_lists_nothing() {
    let tree = FileTree::Directory { entries: vec![file("a")] };
    let s = source(vec![package("foo", &["p"])]);
    let broken = package_with("foo", &["p"], &["src/*", "a**b"], &[]);
    assert_eq!(
        s.list_files(&broken, &Checkout::Plain(FileTree::Directory { entries: vec![file("a")] })).unwrap_err(),
        SourceError::InvalidPattern { pattern: "a**b".to_string() }
    );
    assert_eq!(
        s.list_files_walk(&broken, &tree).unwrap_err(),
        SourceError::InvalidPattern { pattern: "a**b".to_string() }
    );
    let repo = repository(&["p"], vec![indexed(&["a"])]);
    assert_eq!(
        s.list_files_git(&broken, &repo).unwrap_err(),
        SourceError::InvalidPattern { pattern: "a**b".to_string() }
    );
    assert_eq!(
        s.fingerprint(&broken, &Checkout::Versioned(repo), |_| Some(1)).unwrap_err(),
        SourceError::InvalidPattern { pattern: "a**b".to_string() }
    );
}

#[test]
fn broken_exclusion_patterns_are_reported_first() {
    let tree = FileTree::Directory { entries: Vec::new() };
    let s = source(Vec::new());
    let broken = package_with("foo", &["p"], &["[", "ok"], &["fine", "***", "[x"]);
    let err = s.list_files_walk(&broken, &tree).unwrap_err();
    assert_eq!(err, SourceError::InvalidPattern { pattern: "***".to_string() });
    assert_eq!(err.message(), "could not parse pattern `***`");
    assert!(!err.is_internal());
    let bare = Repository { workdir: None, index: Vec::new(), unborn: false, statuses: Vec::new() };
    assert_eq!(
        s.list_files_git(&broken, &bare).unwrap_err(),
        SourceError::InvalidPattern { pattern: "***".to_string() }
    );
}
