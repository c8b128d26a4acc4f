//! Result assembly: aggregate hash, allow-list filtering and parsing, JSON
//! value construction, and cycle deduplication.

use cdd::config::AllowedCycle;
use cdd::cycles::{canonical_key, deduplicate_cycles, CycleEdge, CycleInfo};
use cdd::output::{
    compute_cycles_hash, filter_allowed_cycles, generate_json_output, parse_allowlist_file,
};

fn make_cycle(files: &[&str], root: &str) -> CycleInfo {
    let n = files.len();
    let mut edges = Vec::new();
    for i in 0..n {
        let from = files[i];
        let to = files[(i + 1) % n];
        edges.push(CycleEdge {
            from_file: format!("{}/{}", root, from),
            to_file: format!("{}/{}", root, to),
            line: 1,
            import_text: format!("import from '{}'", to),
        });
    }
    CycleInfo { edges, hash: "testhash".to_string() }
}

#[test]
fn test_compute_cycles_hash_deterministic() {
    let root = "/project";
    let cycles = vec![make_cycle(&["a.ts", "b.ts"], root), make_cycle(&["c.ts", "d.ts"], root)];

    let hash1 = compute_cycles_hash(&cycles);
    let hash2 = compute_cycles_hash(&cycles);

    assert_eq!(hash1, hash2);
    assert_eq!(hash1.len(), 12);
}

#[test]
fn test_filter_allowed_cycles() {
    let root = "/project".to_string();
    let cycles = vec![make_cycle(&["a.ts", "b.ts"], &root), make_cycle(&["c.ts", "d.ts"], &root)];

    let allowed = vec![AllowedCycle {
        files: vec!["a.ts".to_string(), "b.ts".to_string()],
        reason: Some("Known issue".to_string()),
    }];

    let filtered = filter_allowed_cycles(cycles, &allowed, &root);

    assert_eq!(filtered.len(), 1);
    assert!(filtered[0].files().iter().any(|f| f.ends_with("c.ts")));
}

#[test]
fn test_parse_allowlist_file() {
    let content = r#"
# This is a comment
src/a.ts > src/b.ts

src/c.ts > src/d.ts > src/e.ts
"#;

    let allowed = parse_allowlist_file(content);

    assert_eq!(allowed.len(), 2);
    assert_eq!(allowed[0].files, vec!["src/a.ts", "src/b.ts"]);
    assert_eq!(allowed[1].files, vec!["src/c.ts", "src/d.ts", "src/e.ts"]);
}

#[test]
fn test_generate_json_output() {
    let root = "/project".to_string();
    let cycles = vec![make_cycle(&["a.ts", "b.ts"], &root)];

    let output = generate_json_output(&cycles, &root, 10);

    assert_eq!(output.total_files, 10);
    assert_eq!(output.total_cycles, 1);
    assert_eq!(output.cycles.len(), 1);
    assert_eq!(output.cycles[0].edges[0].from_file, "a.ts");
}

#[test]
fn rotated_cycles_share_one_canonical_key_and_collapse() {
    let root = "/project".to_string();
    // the same underlying cycle, discovered from two different start nodes
    let c1 = make_cycle(&["a.ts", "b.ts", "c.ts"], &root);
    let c2 = make_cycle(&["b.ts", "c.ts", "a.ts"], &root);
    assert_eq!(canonical_key(&c1, &root), canonical_key(&c2, &root));
    assert_eq!(canonical_key(&c1, &root), "a.ts > b.ts > c.ts");

    let unique = deduplicate_cycles(&vec![c1, c2], &root);
    assert_eq!(unique.len(), 1);

    // a different cycle does not collapse
    let c3 = make_cycle(&["a.ts", "d.ts"], &root);
    let unique2 = deduplicate_cycles(
        &vec![make_cycle(&["a.ts", "b.ts", "c.ts"], &root), c3],
        &root,
    );
    assert_eq!(unique2.len(), 2);
}

#[test]
fn filter_keeps_order_and_matches_by_set() {
    let root = "/project".to_string();
    let cycles = vec![
        make_cycle(&["a.ts", "b.ts"], &root),
        make_cycle(&["b.ts", "a.ts"], &root),
        make_cycle(&["c.ts"], &root),
    ];
    // order inside an entry does not matter: both a-b cycles match
    let allowed = vec![AllowedCycle {
        files: vec!["b.ts".to_string(), "a.ts".to_string()],
        reason: None,
    }];
    let filtered = filter_allowed_cycles(cycles, &allowed, &root);
    assert_eq!(filtered.len(), 1);
    assert!(filtered[0].files()[0].ends_with("c.ts"));
}
