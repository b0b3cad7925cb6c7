use std::rc::Rc;

use cargo_core::keys::{place_of, KeySet, Place, Segment};
use cargo_core::manifest_cache::{
    deserialize, parse_manifest, pretty_filename, LoadError, ManifestCache, ManifestError, ParseOutput,
};
use cargo_core::paths::FilePath;

fn path(parts: &[&str]) -> FilePath {
    FilePath::new(parts.iter().map(|s| s.to_string()).collect())
}

fn key(name: &str) -> Segment {
    Segment::Key { key: name.to_string() }
}

fn dotted(path: &[Segment]) -> String {
    let mut text = String::new();
    let owned: Vec<Segment> = path
        .iter()
        .map(|s| match s {
            Segment::Index { index } => Segment::Index { index: *index },
            Segment::Key { key } => Segment::Key { key: key.clone() },
            Segment::Optional => Segment::Optional,
            Segment::NewtypeStruct => Segment::NewtypeStruct,
            Segment::NewtypeVariant => Segment::NewtypeVariant,
        })
        .collect();
    cargo_core::keys::stringify(&mut text, &owned);
    text
}

fn keys(set: &KeySet) -> Vec<String> {
    (0..set.len()).map(|i| set.key_at(i).to_string()).collect()
}

#[test]
fn stringify_joins_keys_with_dots() {
    assert_eq!(dotted(&[key("package"), key("metadata"), key("foo")]), "package.metadata.foo");
    assert_eq!(dotted(&[key("package")]), "package");
    assert_eq!(dotted(&[]), "");
}

#[test]
fn stringify_writes_positions_as_bare_numbers() {
    assert_eq!(dotted(&[key("bin"), Segment::Index { index: 0 }, key("nmae")]), "bin.0.nmae");
    assert_eq!(dotted(&[Segment::Index { index: 12 }]), "12");
    assert_eq!(dotted(&[key("a"), Segment::Index { index: 10 }, Segment::Index { index: 7 }]), "a.10.7");
}

#[test]
fn stringify_passes_over_wrappers() {
    assert_eq!(
        dotted(&[
            Segment::NewtypeStruct,
            key("dependencies"),
            Segment::Optional,
            key("serde"),
            Segment::NewtypeVariant,
            key("typo"),
        ]),
        "dependencies.serde.typo"
    );
    assert_eq!(dotted(&[Segment::Optional, Segment::NewtypeStruct]), "");
}

#[test]
fn stringify_appends_to_what_is_there() {
    let mut text = "root".to_string();
    cargo_core::keys::stringify(&mut text, &vec![key("a"), Segment::Index { index: 1 }]);
    assert_eq!(text, "root.a.1");
    let mut same = "root".to_string();
    cargo_core::keys::stringify(&mut same, &vec![Segment::Optional]);
    assert_eq!(same, "root");
}

#[test]
fn texts_are_placed_as_in_a_dictionary() {
    assert_eq!(place_of("a", "b"), Place::Before);
    assert_eq!(place_of("b", "a"), Place::After);
    assert_eq!(place_of("a", "a"), Place::Same);
    assert_eq!(place_of("", ""), Place::Same);
    assert_eq!(place_of("", "a"), Place::Before);
    assert_eq!(place_of("ab", "a"), Place::After);
    assert_eq!(place_of("a.b", "ab"), Place::Before);
    assert_eq!(place_of("B", "a"), Place::Before);
    assert_eq!(place_of("z", "\u{e9}"), Place::Before);
}

#[test]
fn a_key_set_is_ordered_and_holds_each_key_once() {
    let mut set = KeySet::new();
    assert!(set.insert("package.metadata".to_string()));
    assert!(set.insert("badges".to_string()));
    assert!(set.insert("package.foo".to_string()));
    assert!(!set.insert("badges".to_string()));
    assert!(set.insert("workspace".to_string()));
    assert!(set.insert("a".to_string()));
    assert_eq!(keys(&set), vec!["a", "badges", "package.foo", "package.metadata", "workspace"]);
    assert!(set.contains("package.foo"));
    assert!(!set.contains("package"));
    let mut expected = std::collections::BTreeSet::new();
    for k in ["package.metadata", "badges", "package.foo", "badges", "workspace", "a"] {
        expected.insert(k.to_string());
    }
    assert_eq!(keys(&set), expected.into_iter().collect::<Vec<String>>());
}

#[test]
fn deserialize_collects_the_unused_keys() {
    let ignored = vec![
        vec![key("package"), key("metadata")],
        vec![key("bin"), Segment::Index { index: 1 }, key("nmae")],
        vec![key("package"), key("metadata")],
        vec![key("badges")],
    ];
    let output = deserialize("the manifest".to_string(), &ignored);
    assert_eq!(*output.manifest, "the manifest");
    assert_eq!(keys(&output.unused), vec!["badges", "bin.1.nmae", "package.metadata"]);
    let clean = deserialize(7u32, &Vec::new());
    assert_eq!(*clean.manifest, 7);
    assert_eq!(clean.unused.len(), 0);
}

#[test]
fn a_manifest_is_parsed_once_for_a_directory() {
    let mut cache: ManifestCache<String> = ManifestCache::new();
    let mut parses = 0;
    let file = path(&["p", "foo", "Cargo.toml"]);
    let first = parse_manifest(&file, &mut cache, || {
        parses += 1;
        Ok(deserialize("foo".to_string(), &vec![vec![key("typo")]]))
    })
    .unwrap();
    let second = parse_manifest(&file, &mut cache, || {
        parses += 1;
        Ok(deserialize("changed".to_string(), &Vec::new()))
    })
    .unwrap();
    assert_eq!(parses, 1);
    assert!(Rc::ptr_eq(&first, &second));
    assert_eq!(*second.manifest, "foo");
    assert_eq!(keys(&second.unused), vec!["typo"]);
    assert_eq!(cache.len(), 1);
}

#[test]
fn the_cache_goes_by_the_directory_of_the_manifest() {
    let mut cache: ManifestCache<u32> = ManifestCache::new();
    let one = parse_manifest(&path(&["p", "a", "Cargo.toml"]), &mut cache, || Ok(deserialize(1, &Vec::new()))).unwrap();
    let two = parse_manifest(&path(&["p", "b", "Cargo.toml"]), &mut cache, || Ok(deserialize(2, &Vec::new()))).unwrap();
    let again = parse_manifest(&path(&["p", "a", "other.toml"]), &mut cache, || Ok(deserialize(3, &Vec::new()))).unwrap();
    assert_eq!(*one.manifest, 1);
    assert_eq!(*two.manifest, 2);
    assert!(Rc::ptr_eq(&one, &again));
    assert_eq!(cache.len(), 2);
    assert!(Rc::ptr_eq(&cache.get(&path(&["p", "b"])).unwrap(), &two));
    assert!(cache.get(&path(&["p"])).is_none());
}

#[test]
fn a_manifest_that_cannot_be_read_is_not_cached() {
    let mut cache: ManifestCache<u32> = ManifestCache::new();
    let file = path(&["p", "Cargo.toml"]);
    let err = parse_manifest(&file, &mut cache, || Err(LoadError::Read { cause: "permission denied".to_string() }))
        .unwrap_err();
    assert_eq!(err.manifest_path, file);
    assert_eq!(err.causes, vec!["failed to read `p/Cargo.toml`".to_string(), "permission denied".to_string()]);
    assert_eq!(cache.len(), 0);
    let retried = parse_manifest(&file, &mut cache, || Ok(deserialize(5, &Vec::new()))).unwrap();
    assert_eq!(*retried.manifest, 5);
}

#[test]
fn a_manifest_that_cannot_be_parsed_names_its_file() {
    let mut cache: ManifestCache<u32> = ManifestCache::new();
    let file = path(&["", "home", "p", "Cargo.toml"]);
    let err = parse_manifest(&file, &mut cache, || Err(LoadError::Parse { cause: "expected `=`".to_string() }))
        .unwrap_err();
    assert_eq!(
        err,
        ManifestError {
            manifest_path: path(&["", "home", "p", "Cargo.toml"]),
            causes: vec![
                "failed to parse manifest at `/home/p/Cargo.toml`".to_string(),
                "expected `=`".to_string()
            ],
        }
    );
    assert_eq!(ManifestError::new(LoadError::Parse { cause: "x".to_string() }, &file), ManifestError {
        manifest_path: path(&["", "home", "p", "Cargo.toml"]),
        causes: vec!["failed to parse manifest at `/home/p/Cargo.toml`".to_string(), "x".to_string()],
    });
}

#[test]
fn a_manifest_is_shown_relative_to_the_current_directory() {
    let file = path(&["home", "me", "p", "Cargo.toml"]);
    assert_eq!(pretty_filename(&file, &path(&["home", "me"])), path(&["p", "Cargo.toml"]));
    assert_eq!(pretty_filename(&file, &path(&["home", "you"])), file);
    assert_eq!(pretty_filename(&file, &path(&[])), file);
    assert_eq!(pretty_filename(&file, &file), path(&[]));
}

#[test]
fn parse_output_shares_its_manifest() {
    let output: ParseOutput<String> = deserialize("m".to_string(), &Vec::new());
    let shared = Rc::clone(&output.manifest);
    assert!(Rc::ptr_eq(&shared, &output.manifest));
}
