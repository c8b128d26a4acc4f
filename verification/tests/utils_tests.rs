//! Hashing and path-string behaviour.

use cdd::hashing::{hash_strings, hex_encode};
use cdd::pathstr::{
    join_path, normalize_path, parent_dir, relative_path_string, sort_strings, split_char,
    trim_string, with_extension,
};

#[test]
fn test_hex_encode() {
    assert_eq!(hex_encode(&vec![0x00, 0xff, 0xab]), "00ffab");
    assert_eq!(hex_encode(&vec![]), "");
}

#[test]
fn test_hash_strings_deterministic() {
    let strings = vec!["foo".to_string(), "bar".to_string()];
    let hash1 = hash_strings(&strings, 12);
    let hash2 = hash_strings(&strings, 12);
    assert_eq!(hash1, hash2);
    assert_eq!(hash1.len(), 12);
}

#[test]
fn test_hash_strings_order_matters() {
    let strings1 = vec!["foo".to_string(), "bar".to_string()];
    let strings2 = vec!["bar".to_string(), "foo".to_string()];
    let hash1 = hash_strings(&strings1, 12);
    let hash2 = hash_strings(&strings2, 12);
    assert_ne!(hash1, hash2);
}

#[test]
fn test_hash_strings_exact_value() {
    // the digest comes from the outside crate: hold it to a known value
    let strings = vec!["foo".to_string(), "bar".to_string()];
    assert_eq!(hash_strings(&strings, 12), "d78931fcf266");
    let swapped = vec!["bar".to_string(), "foo".to_string()];
    assert_eq!(hash_strings(&swapped, 12), "150ebdbb4d4f");
}

#[test]
fn test_relative_path_string() {
    let root = "/home/user/project".to_string();
    let path = "/home/user/project/src/index.ts".to_string();
    assert_eq!(relative_path_string(&path, &root), "src/index.ts");

    // When path is not under root, returns the full path
    let other_path = "/other/path/file.ts".to_string();
    assert_eq!(relative_path_string(&other_path, &root), "/other/path/file.ts");
}

#[test]
fn test_parent_dir_and_join() {
    assert_eq!(parent_dir(&"/a/b/c.ts".to_string()), "/a/b");
    assert_eq!(parent_dir(&"/a.ts".to_string()), "/");
    assert_eq!(parent_dir(&"a.ts".to_string()), "");
    assert_eq!(join_path(&"/a/b".to_string(), &"c.ts".to_string()), "/a/b/c.ts");
    assert_eq!(join_path(&"/a/".to_string(), &"c.ts".to_string()), "/a/c.ts");
}

#[test]
fn test_normalize_path() {
    assert_eq!(normalize_path(&"/root/./b".to_string()), "/root/b");
    assert_eq!(normalize_path(&"/root/a/../b.ts".to_string()), "/root/b.ts");
    assert_eq!(normalize_path(&"/root//x".to_string()), "/root/x");
    assert_eq!(normalize_path(&"a/./b".to_string()), "a/b");
}

#[test]
fn test_with_extension() {
    assert_eq!(with_extension(&"/p/dist/index.js".to_string(), &"ts".to_string()), "/p/dist/index.ts");
    assert_eq!(with_extension(&"/p/src/x".to_string(), &"ts".to_string()), "/p/src/x.ts");
}

#[test]
fn test_sort_and_split() {
    let v = vec!["b".to_string(), "a".to_string(), "ab".to_string()];
    let s = sort_strings(&v);
    assert_eq!(s, vec!["a".to_string(), "ab".to_string(), "b".to_string()]);
    let pieces = split_char(&"a,,b".to_string(), ',');
    assert_eq!(pieces, vec!["a".to_string(), "".to_string(), "b".to_string()]);
    assert_eq!(trim_string(&"  x\t".to_string()), "x");
}
