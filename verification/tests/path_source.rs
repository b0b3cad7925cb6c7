use cargo_core::dependency::Dependency;
use cargo_core::errors::SourceError;
use cargo_core::features::FeatureMap;
use cargo_core::package::{Manifest, Package};
use cargo_core::package_id::{PackageId, SourceId, SourceKind};
use cargo_core::path_source::PathSource;
use cargo_core::paths::FilePath;
use cargo_core::registry::Registry;
use cargo_core::summary::{Summary, SummaryVec};
use cargo_core::version::Version;

fn path(parts: &[&str]) -> FilePath {
    FilePath::new(parts.iter().map(|s| s.to_string()).collect())
}

fn id(name: &str, major: u64) -> PackageId {
    PackageId::new(name.to_string(), Version::new(major, 0, 0), SourceId::for_path(&path(&["p"])))
}

fn package(name: &str, major: u64, dir: &[&str]) -> Package {
    let summary = Summary::new(id(name, major), Vec::new(), FeatureMap::new()).unwrap();
    let manifest = Manifest::new(summary, Vec::new(), Vec::new());
    Package::new(manifest, path(dir).join("Cargo.toml"))
}

fn updated(packages: Vec<Package>) -> PathSource {
    let mut source = PathSource::for_path(&path(&["p"]));
    source.update_with(packages);
    source
}

fn names(packages: &[Package]) -> Vec<String> {
    packages.iter().map(|p| p.name().to_string()).collect()
}

#[test]
fn a_new_source_is_empty_and_not_updated() {
    let source = PathSource::for_path(&path(&["home", "p"]));
    assert!(!source.is_updated());
    assert_eq!(source.packages().len(), 0);
    assert_eq!(source.path(), &path(&["home", "p"]));
    assert_eq!(source.source_id().kind, SourceKind::Path);
    assert_eq!(source.source_id().location, "home/p");
    let other = PathSource::new(&path(&["q"]), &SourceId::new(SourceKind::Git, "x".to_string()));
    assert_eq!(other.source_id().kind, SourceKind::Git);
    assert_eq!(other.path(), &path(&["q"]));
    assert!(!other.is_updated());
}

#[test]
fn every_question_fails_before_the_first_update() {
    let mut source = PathSource::for_path(&path(&["p"]));
    let pkg = package("foo", 1, &["p"]);
    let dep = Dependency::new("foo".to_string(), "*".to_string());
    assert_eq!(source.get_root_package().unwrap_err(), SourceError::NotUpdated);
    assert_eq!(source.query(&dep).unwrap_err(), SourceError::NotUpdated);
    assert_eq!(source.get(&[id("foo", 1)]).unwrap_err(), SourceError::NotUpdated);
    assert_eq!(source.download(&[id("foo", 1)]).unwrap_err(), SourceError::NotUpdated);
    assert_eq!(source.repository_candidates(&pkg).unwrap_err(), SourceError::NotUpdated);
    assert!(SourceError::NotUpdated.is_internal());
}

#[test]
fn update_takes_in_what_was_found() {
    let mut source = PathSource::for_path(&path(&["p"]));
    let result = source.update(|| Ok(vec![package("foo", 1, &["p"]), package("bar", 1, &["p", "bar"])]));
    assert_eq!(result, Ok(()));
    assert!(source.is_updated());
    assert_eq!(names(source.packages()), vec!["foo", "bar"]);
}

#[test]
fn update_twice_is_update_once() {
    let mut calls = 0;
    let mut source = PathSource::for_path(&path(&["p"]));
    source
        .update(|| {
            calls += 1;
            Ok(vec![package("foo", 1, &["p"])])
        })
        .unwrap();
    source
        .update(|| {
            calls += 1;
            Ok(vec![package("other", 1, &["p", "other"])])
        })
        .unwrap();
    assert_eq!(calls, 1);
    assert_eq!(names(source.packages()), vec!["foo"]);
    source.update_with(vec![package("third", 1, &["p", "third"])]);
    assert_eq!(names(source.packages()), vec!["foo"]);
    assert!(source.is_updated());
}

#[test]
fn a_failed_update_leaves_the_source_as_it_was() {
    let mut source = PathSource::for_path(&path(&["p"]));
    let failure = SourceError::Discovery { message: "no manifest".to_string() };
    let result = source.update(|| Err(SourceError::Discovery { message: "no manifest".to_string() }));
    assert_eq!(result, Err(failure));
    assert!(!source.is_updated());
    assert_eq!(source.packages().len(), 0);
    source.update(|| Ok(vec![package("foo", 1, &["p"])])).unwrap();
    assert_eq!(names(source.packages()), vec!["foo"]);
}

#[test]
fn read_packages_reads_only_before_the_update() {
    let mut source = PathSource::for_path(&path(&["p"]));
    let read = source.read_packages(|| Ok(vec![package("disk", 1, &["p"])])).unwrap();
    assert_eq!(names(&read), vec!["disk"]);
    source.update_with(vec![package("foo", 1, &["p"])]);
    let held = source.read_packages(|| Ok(vec![package("disk", 1, &["p"])])).unwrap();
    assert_eq!(names(&held), vec!["foo"]);
}

#[test]
fn the_root_package_is_the_first_at_the_root() {
    let source = updated(vec![
        package("inner", 1, &["p", "inner"]),
        package("foo", 1, &["p"]),
        package("twin", 1, &["p"]),
    ]);
    assert_eq!(source.get_root_package().unwrap().name(), "foo");
}

#[test]
fn a_source_without_a_package_at_its_root_has_no_root_package() {
    let source = updated(vec![package("inner", 1, &["p", "inner"])]);
    let err = source.get_root_package().unwrap_err();
    assert_eq!(err, SourceError::NoRootPackage);
    assert!(err.is_internal());
    assert_eq!(err.message(), "no package found in source");
    assert_eq!(updated(Vec::new()).get_root_package().unwrap_err(), SourceError::NoRootPackage);
}

#[test]
fn query_gives_the_matching_summaries_in_order() {
    let mut source = updated(vec![
        package("foo", 2, &["p", "foo2"]),
        package("bar", 1, &["p", "bar"]),
        package("foo", 1, &["p", "foo1"]),
        package("foo", 3, &["p", "foo3"]),
    ]);
    let found = source.query(&Dependency::new("foo".to_string(), "<3".to_string())).unwrap();
    let versions: Vec<u64> = found.iter().map(|s| s.version().major).collect();
    assert_eq!(found.names(), vec!["foo", "foo"]);
    assert_eq!(versions, vec![2, 1]);
    assert!(source.query(&Dependency::new("baz".to_string(), "*".to_string())).unwrap().is_empty());
    assert!(source.query(&Dependency::new("foo".to_string(), "^9".to_string())).unwrap().is_empty());
}

#[test]
fn a_list_of_summaries_is_a_registry() {
    let mut list = vec![
        Summary::new(id("foo", 1), Vec::new(), FeatureMap::new()).unwrap(),
        Summary::new(id("bar", 1), Vec::new(), FeatureMap::new()).unwrap(),
        Summary::new(id("foo", 2), Vec::new(), FeatureMap::new()).unwrap(),
    ];
    let found = list.query(&Dependency::new("foo".to_string(), "*".to_string())).unwrap();
    assert_eq!(found.len(), 2);
    assert_eq!(found[0].package_id(), &id("foo", 1));
    assert_eq!(found[1].package_id(), &id("foo", 2));
    let exact = list.query(&Dependency::new("foo".to_string(), "=2.0.0".to_string())).unwrap();
    assert_eq!(exact.len(), 1);
    assert_eq!(exact[0].package_id(), &id("foo", 2));
    assert_eq!(list.len(), 3);
}

#[test]
fn get_keeps_the_order_of_the_source() {
    let source = updated(vec![
        package("a", 1, &["p", "a"]),
        package("b", 1, &["p", "b"]),
        package("c", 1, &["p", "c"]),
    ]);
    let found = source.get(&[id("c", 1), id("a", 1), id("missing", 1)]).unwrap();
    assert_eq!(names(&found), vec!["a", "c"]);
    assert!(source.get(&[]).unwrap().is_empty());
    assert!(source.get(&[id("a", 2)]).unwrap().is_empty());
}

#[test]
fn download_does_nothing() {
    let mut source = updated(vec![package("a", 1, &["p", "a"])]);
    assert_eq!(source.download(&[id("a", 1), id("unknown", 1)]), Ok(()));
    assert_eq!(names(source.packages()), vec!["a"]);
    assert!(source.is_updated());
}

#[test]
fn repositories_are_looked_for_at_the_enclosing_roots() {
    let source = updated(vec![
        package("top", 1, &["p"]),
        package("side", 1, &["p", "side"]),
        package("mid", 1, &["p", "mid"]),
        package("leaf", 1, &["p", "mid", "leaf"]),
    ]);
    let leaf = package("leaf", 1, &["p", "mid", "leaf"]);
    assert_eq!(
        source.repository_candidates(&leaf).unwrap(),
        vec![path(&["p"]), path(&["p", "mid"]), path(&["p", "mid", "leaf"])]
    );
    let top = package("top", 1, &["p"]);
    assert_eq!(source.repository_candidates(&top).unwrap(), vec![path(&["p"])]);
    let stranger = package("stranger", 1, &["q"]);
    assert!(source.repository_candidates(&stranger).unwrap().is_empty());
}

#[test]
fn a_package_knows_its_root_and_its_manifest() {
    let pkg = package("foo", 1, &["p", "foo"]);
    assert_eq!(pkg.root(), path(&["p", "foo"]));
    assert_eq!(pkg.manifest_path(), &path(&["p", "foo", "Cargo.toml"]));
    assert_eq!(pkg.package_id(), &id("foo", 1));
    assert_eq!(pkg.summary().name(), "foo");
    assert_eq!(pkg.manifest().includes().len(), 0);
    assert_eq!(pkg.manifest().excludes().len(), 0);
    assert_eq!(pkg.clone().manifest_path(), pkg.manifest_path());
}

#[test]
fn errors_of_a_source_have_messages() {
    assert_eq!(SourceError::NotUpdated.message(), "source has not been updated");
    assert_eq!(SourceError::BareRepository.message(), "Can't list files on a bare repository.");
    assert!(SourceError::BareRepository.is_internal());
    let unreadable = SourceError::UnreadableDirectory { path: path(&["p", "secret"]) };
    assert_eq!(unreadable.message(), "failed to read directory `p/secret`");
    assert!(!unreadable.is_internal());
    let discovery = SourceError::Discovery { message: "could not read".to_string() };
    assert_eq!(discovery.message(), "could not read");
    assert!(!discovery.is_internal());
}

#[test]
fn a_path_source_says_what_it_is() {
    assert_eq!(PathSource::for_path(&path(&["p"])).describe(), "the paths source");
}
