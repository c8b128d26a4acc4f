//! End-to-end analysis scenarios over the file-set model.

use cdd::analysis::{is_relevant_change, run_analysis, AnalysisResult};
use cdd::config::AllowedCycle;
use cdd::fileset::FileSet;
use cdd::records::{ImportKind, ImportRecord};
use cdd::tsconfig::{AliasEntry, PathAliases};
use cdd::workspace::{ExportEntry, ExportValue, Exports, PackageInfo, Workspace};

fn rec(src: &str, line: u32, text: &str) -> ImportRecord {
    ImportRecord {
        source: src.to_string(),
        line,
        raw_text: text.to_string(),
        is_type_only: false,
        kind: ImportKind::EsModule,
    }
}

fn type_rec(src: &str, line: u32, text: &str) -> ImportRecord {
    ImportRecord {
        source: src.to_string(),
        line,
        raw_text: text.to_string(),
        is_type_only: true,
        kind: ImportKind::EsModule,
    }
}

fn analyze(
    root: &str,
    files: Vec<&str>,
    imports: Vec<Vec<ImportRecord>>,
    ignore_type_imports: bool,
    aliases: Option<PathAliases>,
    workspace: Option<Workspace>,
) -> AnalysisResult {
    let files: Vec<String> = files.into_iter().map(|s| s.to_string()).collect();
    let fs = FileSet::new(files.clone());
    run_analysis(
        &root.to_string(),
        &files,
        &imports,
        ignore_type_imports,
        &aliases,
        &workspace,
        &fs,
        &vec![],
    )
}

#[test]
fn no_import_edges_no_cycles() {
    let r = analyze(
        "/root",
        vec!["/root/a.ts", "/root/b.ts", "/root/c.ts"],
        vec![vec![], vec![], vec![]],
        false,
        None,
        None,
    );
    assert_eq!(r.cycles.len(), 0);
    assert_eq!(r.total_files, 3);
}

#[test]
fn unresolved_imports_give_no_edges() {
    let r = analyze(
        "/root",
        vec!["/root/a.ts", "/root/b.ts"],
        vec![vec![rec("lodash", 1, "import 'lodash'")], vec![rec("./missing", 1, "import './missing'")]],
        false,
        None,
        None,
    );
    assert_eq!(r.cycles.len(), 0);
}

#[test]
fn self_loop_yields_one_cycle_of_one_edge() {
    let r = analyze(
        "/root",
        vec!["/root/a.ts"],
        vec![vec![rec("./a", 3, "import './a'")]],
        false,
        None,
        None,
    );
    assert_eq!(r.cycles.len(), 1);
    assert_eq!(r.cycles[0].edges.len(), 1);
    assert_eq!(r.cycles[0].edges[0].from_file, "/root/a.ts");
    assert_eq!(r.cycles[0].edges[0].to_file, "/root/a.ts");
    assert_eq!(r.cycles[0].edges[0].line, 3);
    assert_eq!(r.cycles[0].hash, "238591e18c6a");
}

#[test]
fn mutual_import_yields_one_cycle_either_order() {
    let r1 = analyze(
        "/root",
        vec!["/root/a.ts", "/root/b.ts"],
        vec![vec![rec("./b", 1, "import './b'")], vec![rec("./a", 1, "import './a'")]],
        false,
        None,
        None,
    );
    let r2 = analyze(
        "/root",
        vec!["/root/b.ts", "/root/a.ts"],
        vec![vec![rec("./a", 1, "import './a'")], vec![rec("./b", 1, "import './b'")]],
        false,
        None,
        None,
    );
    assert_eq!(r1.cycles.len(), 1);
    assert_eq!(r2.cycles.len(), 1);
    assert_eq!(r1.cycles[0].hash, r2.cycles[0].hash);
    assert_eq!(r1.cycles_hash, r2.cycles_hash);
    // both traversals start at the lexicographically smallest relative path
    assert_eq!(r1.cycles[0].edges[0].from_file, "/root/a.ts");
    assert_eq!(r2.cycles[0].edges[0].from_file, "/root/a.ts");
}

#[test]
fn two_file_cycle_hash_and_shape() {
    let r = analyze(
        "/root",
        vec!["/root/a.ts", "/root/b.ts"],
        vec![vec![rec("./b", 1, "import './b'")], vec![rec("./a", 2, "import './a'")]],
        false,
        None,
        None,
    );
    assert_eq!(r.cycles.len(), 1);
    let c = &r.cycles[0];
    assert_eq!(c.edges.len(), 2);
    assert_eq!(c.hash.len(), 12);
    assert!(c.hash.chars().all(|ch| ch.is_ascii_hexdigit() && !ch.is_ascii_uppercase()));
    assert_eq!(c.hash, "8076238ec3e9");
    // stable across repeated runs
    let r2 = analyze(
        "/root",
        vec!["/root/a.ts", "/root/b.ts"],
        vec![vec![rec("./b", 1, "import './b'")], vec![rec("./a", 2, "import './a'")]],
        false,
        None,
        None,
    );
    assert_eq!(r2.cycles[0].hash, c.hash);
    assert_eq!(r2.cycles_hash, r.cycles_hash);
}

#[test]
fn hash_invariant_under_root_translation_but_not_rename() {
    let a = analyze(
        "/root",
        vec!["/root/a.ts", "/root/b.ts"],
        vec![vec![rec("./b", 1, "i")], vec![rec("./a", 1, "i")]],
        false,
        None,
        None,
    );
    let b = analyze(
        "/elsewhere/deep",
        vec!["/elsewhere/deep/a.ts", "/elsewhere/deep/b.ts"],
        vec![vec![rec("./b", 1, "i")], vec![rec("./a", 1, "i")]],
        false,
        None,
        None,
    );
    assert_eq!(a.cycles[0].hash, b.cycles[0].hash);
    let renamed = analyze(
        "/root",
        vec!["/root/c.ts", "/root/b.ts"],
        vec![vec![rec("./b", 1, "i")], vec![rec("./c", 1, "i")]],
        false,
        None,
        None,
    );
    assert_ne!(renamed.cycles[0].hash, a.cycles[0].hash);
}

#[test]
fn type_only_cycle_ignored_with_flag() {
    let files = vec!["/root/a.ts", "/root/b.ts"];
    let imports = vec![
        vec![type_rec("./b", 1, "import type { B } from './b'")],
        vec![type_rec("./a", 1, "import type { A } from './a'")],
    ];
    let with_types = analyze("/root", files.clone(), imports.clone(), false, None, None);
    assert_eq!(with_types.cycles.len(), 1);
    let without = analyze("/root", files, imports, true, None, None);
    assert_eq!(without.cycles.len(), 0);
}

#[test]
fn alias_pattern_resolves_like_relative_import() {
    let aliases = PathAliases {
        base_url: None,
        paths: vec![AliasEntry {
            pattern: "@/*".to_string(),
            replacements: vec!["src/*".to_string()],
        }],
        config_dir: "/root".to_string(),
    };
    let via_alias = analyze(
        "/root",
        vec!["/root/src/main.ts", "/root/src/utils/helper.ts"],
        vec![
            vec![rec("@/utils/helper", 1, "import '@/utils/helper'")],
            vec![rec("../main", 1, "import '../main'")],
        ],
        false,
        Some(aliases),
        None,
    );
    assert_eq!(via_alias.cycles.len(), 1);
    let via_relative = analyze(
        "/root",
        vec!["/root/src/main.ts", "/root/src/utils/helper.ts"],
        vec![
            vec![rec("./utils/helper", 1, "import './utils/helper'")],
            vec![rec("../main", 1, "import '../main'")],
        ],
        false,
        None,
        None,
    );
    assert_eq!(via_alias.cycles[0].hash, via_relative.cycles[0].hash);
}

#[test]
fn workspace_export_cycle_keeps_import_text() {
    let workspace = Workspace {
        root: "/root".to_string(),
        packages: vec![PackageInfo {
            name: "@pkg".to_string(),
            path: "/root/packages/pkg".to_string(),
            main: None,
            module: None,
            exports: Some(Exports::Object(vec![ExportEntry {
                key: "./x".to_string(),
                value: ExportValue::Direct("./src/x.ts".to_string()),
            }])),
        }],
    };
    let r = analyze(
        "/root",
        vec!["/root/a.ts", "/root/packages/pkg/src/x.ts"],
        vec![
            vec![rec("@pkg/x", 4, "import '@pkg/x'")],
            vec![rec("../../../a", 2, "import '../../../a'")],
        ],
        false,
        None,
        Some(workspace),
    );
    assert_eq!(r.cycles.len(), 1);
    let texts: Vec<&str> = r.cycles[0].edges.iter().map(|e| e.import_text.as_str()).collect();
    assert!(texts.contains(&"import '@pkg/x'"));
}

#[test]
fn allowlist_removes_exact_file_set_only() {
    let files = vec!["/root/a.ts", "/root/b.ts"];
    let imports = vec![vec![rec("./b", 1, "i")], vec![rec("./a", 1, "i")]];
    let fs_files: Vec<String> = files.iter().map(|s| s.to_string()).collect();
    let fs = FileSet::new(fs_files.clone());
    let exact = vec![AllowedCycle {
        files: vec!["a.ts".to_string(), "b.ts".to_string()],
        reason: None,
    }];
    let r = run_analysis(
        &"/root".to_string(),
        &fs_files,
        &imports,
        false,
        &None,
        &None,
        &fs,
        &exact,
    );
    assert_eq!(r.cycles.len(), 0);
    // the aggregate hash is computed before filtering
    assert_eq!(r.cycles_hash, "fa8185085160");

    let superset = vec![AllowedCycle {
        files: vec!["a.ts".to_string(), "b.ts".to_string(), "c.ts".to_string()],
        reason: None,
    }];
    let r2 = run_analysis(
        &"/root".to_string(),
        &fs_files,
        &imports,
        false,
        &None,
        &None,
        &fs,
        &superset,
    );
    assert_eq!(r2.cycles.len(), 1);

    let subset = vec![AllowedCycle { files: vec!["a.ts".to_string()], reason: None }];
    let r3 = run_analysis(
        &"/root".to_string(),
        &fs_files,
        &imports,
        false,
        &None,
        &None,
        &fs,
        &subset,
    );
    assert_eq!(r3.cycles.len(), 1);
}

#[test]
fn watch_change_relevance() {
    let excludes = vec!["dist".to_string()];
    assert!(is_relevant_change(&"/root/src/a.ts".to_string(), &excludes));
    assert!(!is_relevant_change(&"/root/dist/a.ts".to_string(), &excludes));
    assert!(!is_relevant_change(&"/root/src/readme.md".to_string(), &excludes));
    assert!(!is_relevant_change(&"/root/src/noext".to_string(), &excludes));
}
