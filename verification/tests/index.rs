//! Tests of the ignore-pattern engine: partitioning, precedence, the filter
//! axis, and metadata exclusion, run against the real glob crate.

use wn_core::errors::ObjectError;
use wn_core::index::{
    compile_matchers, is_indexable, partition_patterns, select_files, wnignore_path,
};

fn strings(v: &[&str]) -> Vec<String> {
    v.iter().map(|s| s.to_string()).collect()
}

#[test]
fn partition_splits_positive_and_negative() {
    let lines = strings(&["*.log", "!keep.log", "", "build/**"]);
    let (positive, negative) = partition_patterns(&lines);
    assert_eq!(positive, strings(&["keep.log"]));
    assert_eq!(negative, strings(&[".wn/**/*", "*.log", "build/**"]));
}

#[test]
fn partition_of_no_lines_keeps_builtin() {
    let (positive, negative) = partition_patterns(&Vec::new());
    assert_eq!(positive, Vec::<String>::new());
    assert_eq!(negative, strings(&[".wn/**/*"]));
}

#[test]
fn ignore_precedence() {
    let (positive, negative) = partition_patterns(&strings(&["*.log", "!keep.log"]));
    let m = compile_matchers(&negative, &positive, "**/*").unwrap();
    let tree = strings(&["a.log", "keep.log", "b.txt"]);
    let mut picked = select_files(&m, &tree);
    picked.sort();
    assert_eq!(picked, strings(&["b.txt", "keep.log"]));
}

#[test]
fn positive_overrides_negative_never_the_reverse() {
    let (positive, negative) = partition_patterns(&strings(&["*.log", "!keep.log"]));
    let m = compile_matchers(&negative, &positive, "**/*").unwrap();
    assert!(is_indexable(&m, "keep.log"));
    assert!(!is_indexable(&m, "other.log"));
    assert!(is_indexable(&m, "notes.txt"));
}

#[test]
fn filter_independence() {
    let (positive, negative) = partition_patterns(&Vec::new());
    let m = compile_matchers(&negative, &positive, "src/**/*.rs").unwrap();
    let tree = strings(&["src/a.rs", "src/b.txt", "lib/c.rs"]);
    let picked = select_files(&m, &tree);
    assert_eq!(picked, strings(&["src/a.rs"]));
}

#[test]
fn filter_applies_to_force_included_paths_too() {
    let (positive, negative) = partition_patterns(&strings(&["*.log", "!keep.log"]));
    let m = compile_matchers(&negative, &positive, "*.txt").unwrap();
    assert!(!is_indexable(&m, "keep.log"));
    assert!(is_indexable(&m, "b.txt"));
}

#[test]
fn metadata_excluded_with_empty_ignore_file() {
    let (positive, negative) = partition_patterns(&Vec::new());
    let m = compile_matchers(&negative, &positive, "**/*").unwrap();
    let tree = strings(&[".wn/objects/ab/cdef", ".wn/refs/main", "a.txt"]);
    let picked = select_files(&m, &tree);
    assert_eq!(picked, strings(&["a.txt"]));
}

#[test]
fn invalid_pattern_is_compile_error() {
    let good: Vec<String> = Vec::new();
    // An unclosed character class is invalid glob syntax.
    let bad = strings(&["a[b"]);
    assert!(matches!(
        compile_matchers(&bad, &good, "**/*"),
        Err(ObjectError::PatternCompileError)
    ));
    assert!(matches!(
        compile_matchers(&good, &bad, "**/*"),
        Err(ObjectError::PatternCompileError)
    ));
    assert!(matches!(
        compile_matchers(&good, &good, "a[b"),
        Err(ObjectError::PatternCompileError)
    ));
}

#[test]
fn selection_keeps_input_order() {
    let (positive, negative) = partition_patterns(&Vec::new());
    let m = compile_matchers(&negative, &positive, "**/*").unwrap();
    let tree = strings(&["z.txt", "a.txt", "m/q.rs"]);
    let picked = select_files(&m, &tree);
    assert_eq!(picked, tree);
}

#[test]
fn ignore_file_path() {
    assert_eq!(wnignore_path("/repo"), "/repo/.wnignore");
}
