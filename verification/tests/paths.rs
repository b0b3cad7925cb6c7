use cargo_core::paths::{clone_strings, same_text, FilePath};
use cargo_core::text::{join, split_first, to_decimal};

fn path(parts: &[&str]) -> FilePath {
    FilePath::new(parts.iter().map(|s| s.to_string()).collect())
}

#[test]
fn file_name_is_the_last_component() {
    assert_eq!(path(&["p", "src", "main.rs"]).file_name(), Some(&"main.rs".to_string()));
    assert_eq!(path(&[]).file_name(), None);
    assert!(path(&["p", "Cargo.lock"]).is_named("Cargo.lock"));
    assert!(!path(&["p", "Cargo.lock", "x"]).is_named("Cargo.lock"));
    assert!(!path(&[]).is_named(""));
}

#[test]
fn parent_drops_the_last_component() {
    assert_eq!(path(&["p", "Cargo.toml"]).parent(), path(&["p"]));
    assert_eq!(path(&["p"]).parent(), path(&[]));
    assert_eq!(path(&[]).parent(), path(&[]));
}

#[test]
fn join_and_concat_extend_a_path() {
    assert_eq!(path(&["p"]).join("src"), path(&["p", "src"]));
    assert_eq!(path(&[]).join("src"), path(&["src"]));
    assert_eq!(path(&["p"]).concat(&path(&["src", "lib.rs"])), path(&["p", "src", "lib.rs"]));
    assert_eq!(path(&["p"]).concat(&path(&[])), path(&["p"]));
    assert_eq!(path(&["p", "q"]).depth(), 2);
}

#[test]
fn starts_with_is_the_prefix_relation() {
    let file = path(&["p", "src", "main.rs"]);
    assert!(file.starts_with(&path(&[])));
    assert!(file.starts_with(&path(&["p"])));
    assert!(file.starts_with(&path(&["p", "src"])));
    assert!(file.starts_with(&file));
    assert!(!file.starts_with(&path(&["p", "sr"])));
    assert!(!file.starts_with(&path(&["p", "src", "main.rs", "x"])));
    assert!(!file.starts_with(&path(&["src"])));
}

#[test]
fn strip_prefix_gives_what_follows_the_base() {
    let file = path(&["p", "src", "main.rs"]);
    assert_eq!(file.strip_prefix(&path(&["p"])), Some(path(&["src", "main.rs"])));
    assert_eq!(file.strip_prefix(&file), Some(path(&[])));
    assert_eq!(file.strip_prefix(&path(&["q"])), None);
}

#[test]
fn same_compares_components() {
    assert!(path(&["a", "b"]).same(&path(&["a", "b"])));
    assert!(!path(&["a", "b"]).same(&path(&["a"])));
    assert!(!path(&["a"]).same(&path(&["a", "b"])));
    assert!(!path(&["a", "b"]).same(&path(&["a", "c"])));
    assert!(path(&[]).same(&path(&[])));
}

#[test]
fn to_text_puts_slashes_between_components() {
    assert_eq!(path(&["src", "bin", "main.rs"]).to_text(), "src/bin/main.rs");
    assert_eq!(path(&["main.rs"]).to_text(), "main.rs");
    assert_eq!(path(&[]).to_text(), "");
    assert_eq!(path(&["", "p"]).to_text(), "/p");
}

#[test]
fn clone_of_a_path_is_the_same_path() {
    let file = path(&["p", "src"]);
    assert_eq!(file.clone(), file);
    assert_eq!(clone_strings(&file.parts), file.parts);
}

#[test]
fn same_text_compares_characters() {
    assert!(same_text("", ""));
    assert!(same_text("Cargo.toml", "Cargo.toml"));
    assert!(!same_text("Cargo.toml", "Cargo.tom"));
    assert!(!same_text("Cargo.toml", "cargo.toml"));
    assert!(same_text("h\u{e9}llo", "h\u{e9}llo"));
    assert!(!same_text("h\u{e9}llo", "hello"));
}

#[test]
fn split_first_cuts_at_the_first_separator() {
    assert_eq!(split_first("serde/derive", '/'), ("serde".to_string(), true));
    assert_eq!(split_first("serde", '/'), ("serde".to_string(), false));
    assert_eq!(split_first("a/b/c", '/'), ("a".to_string(), true));
    assert_eq!(split_first("/b", '/'), ("".to_string(), true));
    assert_eq!(split_first("a/", '/'), ("a".to_string(), true));
    assert_eq!(split_first("", '/'), ("".to_string(), false));
    assert_eq!(split_first("\u{e9}t\u{e9}/x", '/'), ("\u{e9}t\u{e9}".to_string(), true));
}

#[test]
fn to_decimal_writes_numerals() {
    assert_eq!(to_decimal(0), "0");
    assert_eq!(to_decimal(7), "7");
    assert_eq!(to_decimal(10), "10");
    assert_eq!(to_decimal(100), "100");
    assert_eq!(to_decimal(1234567890), "1234567890");
    assert_eq!(to_decimal(u64::MAX), "18446744073709551615");
}

#[test]
fn join_puts_the_separator_between_segments() {
    let parts = vec!["a".to_string(), "b".to_string(), "c".to_string()];
    assert_eq!(join(&parts, "."), "a.b.c");
    assert_eq!(join(&parts, ""), "abc");
    assert_eq!(join(&vec!["a".to_string()], "/"), "a");
    assert_eq!(join(&Vec::new(), "/"), "");
    assert_eq!(join(&vec!["".to_string(), "".to_string()], "/"), "/");
}
