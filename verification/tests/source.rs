use cargo_core::dependency::Dependency;
use cargo_core::errors::SourceError;
use cargo_core::features::FeatureMap;
use cargo_core::listing::Checkout;
use cargo_core::package::{Manifest, Package};
use cargo_core::package_id::{PackageId, SourceId};
use cargo_core::path_source::PathSource;
use cargo_core::paths::FilePath;
use cargo_core::source::Source;
use cargo_core::summary::Summary;
use cargo_core::tree::{DirEntry, FileTree};
use cargo_core::version::Version;

fn path(parts: &[&str]) -> FilePath {
    FilePath::new(parts.iter().map(|s| s.to_string()).collect())
}

fn id(name: &str) -> PackageId {
    PackageId::new(name.to_string(), Version::new(1, 0, 0), SourceId::for_path(&path(&["p"])))
}

fn package(name: &str, dir: &[&str]) -> Package {
    let summary = Summary::new(id(name), Vec::new(), FeatureMap::new()).unwrap();
    Package::new(Manifest::new(summary, Vec::new(), Vec::new()), path(dir).join("Cargo.toml"))
}

fn fill<S: Source>(source: &mut S, packages: Vec<Package>) -> Result<(), SourceError> {
    source.update(|| Ok(packages))
}

fn names_of<S: Source>(source: &mut S, ids: &[PackageId], dep: &Dependency) -> (Vec<String>, usize) {
    let got = source.get(ids).unwrap();
    let asked = source.query(dep).unwrap();
    (got.iter().map(|p| p.name().to_string()).collect(), asked.len())
}

#[test]
fn a_path_source_serves_as_a_source() {
    let mut source = PathSource::for_path(&path(&["p"]));
    fill(&mut source, vec![package("foo", &["p"]), package("bar", &["p", "bar"])]).unwrap();
    fill(&mut source, vec![package("late", &["p", "late"])]).unwrap();
    let dep = Dependency::new("bar".to_string(), "1".to_string());
    let (got, asked) = names_of(&mut source, &[id("bar"), id("late"), id("foo")], &dep);
    assert_eq!(got, vec!["foo", "bar"]);
    assert_eq!(asked, 1);
    assert_eq!(Source::download(&mut source, &[id("foo")]), Ok(()));
}

#[test]
fn a_source_answers_nothing_before_its_update() {
    let mut source = PathSource::for_path(&path(&["p"]));
    let pkg = package("foo", &["p"]);
    let plain = Checkout::Plain(FileTree::Directory {
        entries: vec![DirEntry { name: "a".to_string(), node: FileTree::File }],
    });
    assert_eq!(Source::get(&source, &[id("foo")]).unwrap_err(), SourceError::NotUpdated);
    assert_eq!(Source::download(&mut source, &[]).unwrap_err(), SourceError::NotUpdated);
    assert_eq!(Source::list_files(&source, &pkg, &plain).unwrap_err(), SourceError::NotUpdated);
    assert_eq!(Source::fingerprint(&source, &pkg, &plain, |_| Some(1)).unwrap_err(), SourceError::NotUpdated);
    let failed = Source::update(&mut source, || Err(SourceError::Discovery { message: "gone".to_string() }));
    assert_eq!(failed, Err(SourceError::Discovery { message: "gone".to_string() }));
    assert_eq!(Source::get(&source, &[id("foo")]).unwrap_err(), SourceError::NotUpdated);
    Source::update(&mut source, || Ok(vec![package("foo", &["p"])])).unwrap();
    assert_eq!(Source::list_files(&source, &pkg, &plain).unwrap(), vec![path(&["p", "a"])]);
    assert_eq!(Source::fingerprint(&source, &pkg, &plain, |_| Some(41)).unwrap(), "41");
}
