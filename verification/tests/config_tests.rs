//! Configuration lookup and merging.

use cdd::config::{
    baseline_from_cycles, find_config, AllowedCycle, CddConfig, ConfigStore, ConfigStoreEntry,
    MergedConfig,
};
use cdd::cycles::{CycleEdge, CycleInfo};
use cdd::fileset::FileSet;

fn config_with(expected_cycles: Option<usize>, expected_hash: Option<&str>) -> CddConfig {
    CddConfig {
        exclude: None,
        ignore_type_imports: None,
        expected_cycles,
        tsconfig_path: None,
        expected_hash: expected_hash.map(|s| s.to_string()),
        allowed_cycles: None,
    }
}

#[test]
fn test_find_config() {
    let fs = FileSet::new(vec![
        "/home/user/project/.cddrc.json".to_string(),
        "/home/user/project/src/a.ts".to_string(),
    ]);
    let store = ConfigStore {
        entries: vec![ConfigStoreEntry {
            path: "/home/user/project/.cddrc.json".to_string(),
            config: config_with(Some(5), None),
        }],
    };
    let result = find_config(&"/home/user/project".to_string(), &fs, &store);
    assert!(result.is_some());
    let (path, config) = result.unwrap();
    assert_eq!(path, "/home/user/project/.cddrc.json");
    assert_eq!(config.expected_cycles, Some(5));
}

#[test]
fn find_config_walks_up_and_skips_unparsed() {
    // a config file exists in the starting directory but did not parse;
    // the parent holds a good one
    let fs = FileSet::new(vec![
        "/proj/sub/.cddrc.json".to_string(),
        "/proj/cdd.config.json".to_string(),
        "/proj/sub/a.ts".to_string(),
    ]);
    let store = ConfigStore {
        entries: vec![ConfigStoreEntry {
            path: "/proj/cdd.config.json".to_string(),
            config: config_with(Some(2), None),
        }],
    };
    let result = find_config(&"/proj/sub".to_string(), &fs, &store);
    let (path, config) = result.unwrap();
    assert_eq!(path, "/proj/cdd.config.json");
    assert_eq!(config.expected_cycles, Some(2));
}

#[test]
fn find_config_none_when_absent() {
    let fs = FileSet::new(vec!["/proj/a.ts".to_string()]);
    let store = ConfigStore { entries: vec![] };
    assert!(find_config(&"/proj".to_string(), &fs, &store).is_none());
}

#[test]
fn test_merged_config_cli_precedence() {
    let file_config = config_with(Some(5), Some("oldhash"));

    let merged = MergedConfig::new(
        vec![],
        false,
        Some(10),
        None,
        Some("newhash".to_string()),
        None,
        Some(file_config),
    );

    assert_eq!(merged.expected_cycles, 10);
    assert_eq!(merged.expected_hash, Some("newhash".to_string()));
}

#[test]
fn merged_config_unions_excludes_and_allowlists() {
    let file_config = CddConfig {
        exclude: Some(vec!["dist".to_string(), "build".to_string()]),
        ignore_type_imports: Some(true),
        expected_cycles: None,
        tsconfig_path: Some("tsconfig.json".to_string()),
        expected_hash: None,
        allowed_cycles: Some(vec![AllowedCycle {
            files: vec!["a.ts".to_string()],
            reason: None,
        }]),
    };
    let merged = MergedConfig::new(
        vec!["dist".to_string(), "tmp".to_string()],
        false,
        None,
        None,
        None,
        Some(vec![AllowedCycle { files: vec!["b.ts".to_string()], reason: None }]),
        Some(file_config),
    );
    assert_eq!(merged.exclude, vec!["dist", "build", "tmp"]);
    assert!(merged.ignore_type_imports);
    assert_eq!(merged.expected_cycles, 0);
    assert_eq!(merged.tsconfig_path, Some("tsconfig.json".to_string()));
    assert_eq!(merged.expected_hash, None);
    assert_eq!(merged.allowed_cycles.len(), 2);
    assert_eq!(merged.allowed_cycles[0].files, vec!["a.ts"]);
    assert_eq!(merged.allowed_cycles[1].files, vec!["b.ts"]);
}

#[test]
fn baseline_holds_relative_paths_per_cycle() {
    let cycles = vec![CycleInfo {
        edges: vec![
            CycleEdge {
                from_file: "/proj/a.ts".to_string(),
                to_file: "/proj/b.ts".to_string(),
                line: 1,
                import_text: "i".to_string(),
            },
            CycleEdge {
                from_file: "/proj/b.ts".to_string(),
                to_file: "/proj/a.ts".to_string(),
                line: 1,
                import_text: "i".to_string(),
            },
        ],
        hash: "h".to_string(),
    }];
    let baseline = baseline_from_cycles(&cycles, &"/proj".to_string());
    assert_eq!(baseline.len(), 1);
    assert_eq!(baseline[0].files, vec!["a.ts", "b.ts"]);
}
