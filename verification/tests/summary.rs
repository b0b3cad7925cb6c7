use cargo_core::dependency::Dependency;
use cargo_core::errors::ValidationError;
use cargo_core::features::{Feature, FeatureMap};
use cargo_core::package_id::{PackageId, SourceId, SourceKind};
use cargo_core::summary::{Summary, SummaryVec};
use cargo_core::version::Version;

fn strings(items: &[&str]) -> Vec<String> {
    items.iter().map(|s| s.to_string()).collect()
}

fn id(name: &str, major: u64) -> PackageId {
    PackageId::new(
        name.to_string(),
        Version::new(major, 0, 0),
        SourceId::new(SourceKind::Registry, "https://example.org/index".to_string()),
    )
}

fn dep(name: &str) -> Dependency {
    Dependency::new(name.to_string(), "*".to_string())
}

fn table(entries: &[(&str, &[&str], &[&str])]) -> FeatureMap {
    let mut map = FeatureMap::new();
    for (name, deps, feats) in entries {
        map.insert(name.to_string(), Feature::new(strings(deps), strings(feats)));
    }
    map
}

#[test]
fn new_accepts_a_consistent_summary() {
    let deps = vec![dep("log"), dep("serde").optional(true), dep("quickcheck").transitive(false)];
    let features = table(&[
        ("default", &["serde"], &["std"]),
        ("std", &["log/std"], &[]),
    ]);
    let summary = Summary::new(id("foo", 1), deps, features).unwrap();
    assert_eq!(summary.name(), "foo");
    assert_eq!(summary.version(), &Version::new(1, 0, 0));
    assert_eq!(summary.source_id().kind, SourceKind::Registry);
    assert_eq!(summary.package_id(), &id("foo", 1));
    assert_eq!(summary.dependencies().len(), 3);
    assert_eq!(summary.dependencies()[1].name(), "serde");
    assert_eq!(summary.features().len(), 2);
    assert!(summary.features().contains_key("std"));
    assert_eq!(summary.features().get("default").unwrap().dependencies(), &strings(&["serde"]));
}

#[test]
fn new_accepts_no_dependencies_and_no_features() {
    let summary = Summary::new(id("empty", 1), Vec::new(), FeatureMap::new()).unwrap();
    assert_eq!(summary.dependencies().len(), 0);
    assert_eq!(summary.features().len(), 0);
}

#[test]
fn optional_dev_dependency_is_refused() {
    let deps = vec![dep("log"), dep("quickcheck").optional(true).transitive(false)];
    let err = Summary::new(id("foo", 1), deps, FeatureMap::new()).unwrap_err();
    assert_eq!(err, ValidationError::OptionalDevDependency { dependency: "quickcheck".to_string() });
    assert_eq!(err.message(), "Dev-dependencies are not allowed to be optional: `quickcheck`");
}

#[test]
fn optional_dev_dependency_is_reported_before_feature_faults() {
    let deps = vec![dep("quickcheck").optional(true).transitive(false)];
    let features = table(&[("default", &["missing"], &["nothing"])]);
    let err = Summary::new(id("foo", 1), deps, features).unwrap_err();
    assert_eq!(err, ValidationError::OptionalDevDependency { dependency: "quickcheck".to_string() });
}

#[test]
fn feature_naming_an_unknown_dependency_is_refused() {
    let deps = vec![dep("log")];
    let features = table(&[("default", &["x"], &[])]);
    let err = Summary::new(id("foo", 1), deps, features).unwrap_err();
    assert_eq!(
        err,
        ValidationError::NotADependency { feature: "default".to_string(), dependency: "x".to_string() }
    );
    assert_eq!(err.message(), "Feature `default` requires `x` which is not a dependency");
}

#[test]
fn reexport_of_an_unknown_dependency_is_refused() {
    let deps = vec![dep("log")];
    let features = table(&[("default", &["x/y"], &[])]);
    let err = Summary::new(id("foo", 1), deps, features).unwrap_err();
    assert_eq!(
        err,
        ValidationError::NotADependency { feature: "default".to_string(), dependency: "x".to_string() }
    );
}

#[test]
fn feature_naming_a_required_dependency_is_refused() {
    let deps = vec![dep("x")];
    let features = table(&[("default", &["x"], &[])]);
    let err = Summary::new(id("foo", 1), deps, features).unwrap_err();
    assert_eq!(
        err,
        ValidationError::NotOptional { feature: "default".to_string(), dependency: "x".to_string() }
    );
    assert_eq!(
        err.message(),
        "Feature `default` depends on `x` which is not an optional dependency.\nConsider adding `optional = true` to the dependency"
    );
}

#[test]
fn reexport_of_a_required_dependency_is_accepted() {
    let deps = vec![dep("x")];
    let features = table(&[("default", &["x/y"], &[])]);
    assert!(Summary::new(id("foo", 1), deps, features).is_ok());
}

#[test]
fn token_is_split_at_its_first_slash() {
    let deps = vec![dep("x")];
    let features = table(&[("default", &["x/y/z"], &[])]);
    assert!(Summary::new(id("foo", 1), deps, features).is_ok());
}

#[test]
fn feature_requiring_an_unknown_feature_is_refused() {
    let features = table(&[("default", &[], &["g"])]);
    let err = Summary::new(id("foo", 1), Vec::new(), features).unwrap_err();
    assert_eq!(
        err,
        ValidationError::NotAFeature { feature: "default".to_string(), required: "g".to_string() }
    );
    assert_eq!(err.message(), "Feature `default` requires `g` which is not a feature");
}

#[test]
fn tokens_are_checked_before_required_features() {
    let features = table(&[("default", &["x"], &["g"])]);
    let err = Summary::new(id("foo", 1), Vec::new(), features).unwrap_err();
    assert_eq!(
        err,
        ValidationError::NotADependency { feature: "default".to_string(), dependency: "x".to_string() }
    );
}

#[test]
fn features_are_checked_in_the_order_of_the_table() {
    let features = table(&[("a", &[], &["a"]), ("b", &[], &["missing"]), ("c", &["gone"], &[])]);
    let err = Summary::new(id("foo", 1), Vec::new(), features).unwrap_err();
    assert_eq!(
        err,
        ValidationError::NotAFeature { feature: "b".to_string(), required: "missing".to_string() }
    );
}

#[test]
fn summaries_are_equal_by_identity_alone() {
    let plain = Summary::new(id("foo", 1), Vec::new(), FeatureMap::new()).unwrap();
    let rich = Summary::new(
        id("foo", 1),
        vec![dep("log").optional(true)],
        table(&[("default", &["log"], &[])]),
    )
    .unwrap();
    let other = Summary::new(id("foo", 2), Vec::new(), FeatureMap::new()).unwrap();
    assert!(plain == rich);
    assert!(plain != other);
    assert!(rich != other);
}

#[test]
fn override_id_changes_the_identity_only() {
    let summary = Summary::new(
        id("foo", 1),
        vec![dep("log").optional(true), dep("rand")],
        table(&[("default", &["log"], &[])]),
    )
    .unwrap();
    let moved = summary.clone().override_id(id("bar", 7));
    assert_eq!(moved.package_id(), &id("bar", 7));
    assert_eq!(moved.name(), "bar");
    assert_eq!(moved.dependencies(), summary.dependencies());
    assert_eq!(moved.features().len(), 1);
    assert_eq!(moved.features().name_at(0), "default");
    assert_eq!(moved.features().feature_at(0), summary.features().feature_at(0));
}

#[test]
fn map_dependencies_keeps_count_and_order() {
    let summary = Summary::new(
        id("foo", 1),
        vec![dep("a"), dep("b"), dep("c")],
        FeatureMap::new(),
    )
    .unwrap();
    let calls = std::cell::RefCell::new(Vec::new());
    let mapped = summary.map_dependencies(|d| {
        calls.borrow_mut().push(d.name().to_string());
        let name = format!("{}-sys", d.name());
        Dependency::new(name, "1".to_string()).optional(d.is_optional())
    });
    assert_eq!(calls.into_inner(), strings(&["a", "b", "c"]));
    let names: Vec<&str> = mapped.dependencies().iter().map(|d| d.name()).collect();
    assert_eq!(names, vec!["a-sys", "b-sys", "c-sys"]);
    assert_eq!(mapped.dependencies()[0].version_req(), "1");
    assert_eq!(mapped.package_id(), &id("foo", 1));
}

#[test]
fn map_dependencies_does_not_check_again() {
    let summary = Summary::new(id("foo", 1), vec![dep("a")], FeatureMap::new()).unwrap();
    let mapped = summary.map_dependencies(|d| d.optional(true).transitive(false));
    assert!(mapped.dependencies()[0].is_optional());
    assert!(!mapped.dependencies()[0].is_transitive());
}

#[test]
fn names_lists_the_package_names_in_order() {
    let list = vec![
        Summary::new(id("b", 1), Vec::new(), FeatureMap::new()).unwrap(),
        Summary::new(id("a", 1), Vec::new(), FeatureMap::new()).unwrap(),
        Summary::new(id("b", 2), Vec::new(), FeatureMap::new()).unwrap(),
    ];
    assert_eq!(list.names(), strings(&["b", "a", "b"]));
    assert_eq!(Vec::<Summary>::new().names(), Vec::<String>::new());
}

#[test]
fn feature_map_keeps_one_entry_per_name() {
    let mut map = FeatureMap::new();
    map.insert("a".to_string(), Feature::new(strings(&["x"]), Vec::new()));
    map.insert("b".to_string(), Feature::new(Vec::new(), Vec::new()));
    map.insert("a".to_string(), Feature::new(strings(&["y"]), Vec::new()));
    assert_eq!(map.len(), 2);
    assert_eq!(map.name_at(0), "a");
    assert_eq!(map.name_at(1), "b");
    assert_eq!(map.get("a").unwrap().dependencies(), &strings(&["y"]));
    assert_eq!(map.index_of("b"), Some(1));
    assert!(map.get("c").is_none());
    assert!(!map.contains_key("c"));
}
