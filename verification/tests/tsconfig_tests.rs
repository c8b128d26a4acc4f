//! Path-alias loading and resolution over the file-set model.

use cdd::fileset::FileSet;
use cdd::tsconfig::{
    load_tsconfig, resolve_extends, AliasEntry, PathAliases, TsConfigData, TsConfigStore,
    TsConfigStoreEntry,
};

fn fs() -> FileSet {
    FileSet::new(vec![
        "/root/tsconfig.json".to_string(),
        "/root/base.json".to_string(),
        "/root/src/utils/helper.ts".to_string(),
        "/root/lib/legacy.ts".to_string(),
        "/root/shared/exact.ts".to_string(),
    ])
}

fn store() -> TsConfigStore {
    TsConfigStore {
        entries: vec![
            TsConfigStoreEntry {
                path: "/root/tsconfig.json".to_string(),
                data: TsConfigData {
                    extends: Some("./base".to_string()),
                    base_url: None,
                    paths: vec![AliasEntry {
                        pattern: "@/*".to_string(),
                        replacements: vec!["src/*".to_string()],
                    }],
                },
            },
            TsConfigStoreEntry {
                path: "/root/base.json".to_string(),
                data: TsConfigData {
                    extends: None,
                    base_url: None,
                    paths: vec![
                        AliasEntry {
                            pattern: "#lib/*".to_string(),
                            replacements: vec!["lib/*".to_string()],
                        },
                        AliasEntry {
                            pattern: "@/*".to_string(),
                            replacements: vec!["overridden/*".to_string()],
                        },
                        AliasEntry {
                            pattern: "shared-exact".to_string(),
                            replacements: vec!["shared/exact.ts".to_string()],
                        },
                    ],
                },
            },
        ],
    }
}

#[test]
fn resolve_extends_appends_json() {
    let fs = fs();
    let r = resolve_extends(&"./base".to_string(), &"/root".to_string(), &fs);
    assert_eq!(r.unwrap(), "/root/base.json");
}

#[test]
fn load_follows_extends_and_child_overrides() {
    let fs = fs();
    let aliases = load_tsconfig(&"/root".to_string(), &fs, &store()).expect("loads");
    assert_eq!(aliases.config_dir, "/root");

    // inherited pattern from the base configuration still works
    let lib = aliases.resolve(&"#lib/legacy".to_string(), &fs);
    assert_eq!(lib.unwrap(), "/root/lib/legacy.ts");

    // the child's mapping for the shared pattern wins over the base's
    let child = aliases.resolve(&"@/utils/helper".to_string(), &fs);
    assert_eq!(child.unwrap(), "/root/src/utils/helper.ts");

    // an exact (non-wildcard) pattern resolves through the probe
    let exact = aliases.resolve(&"shared-exact".to_string(), &fs);
    assert_eq!(exact.unwrap(), "/root/shared/exact.ts");
}

#[test]
fn unresolvable_extends_fails_the_load() {
    // the configuration names a parent that does not exist anywhere
    let fs = FileSet::new(vec!["/root/tsconfig.json".to_string()]);
    let store = TsConfigStore {
        entries: vec![TsConfigStoreEntry {
            path: "/root/tsconfig.json".to_string(),
            data: TsConfigData {
                extends: Some("./nowhere".to_string()),
                base_url: None,
                paths: vec![],
            },
        }],
    };
    assert!(load_tsconfig(&"/root".to_string(), &fs, &store).is_none());
}

#[test]
fn unparsed_parent_degrades_to_child_settings() {
    // the parent file exists but was not parsed: the child's own settings hold
    let fs = FileSet::new(vec![
        "/root/tsconfig.json".to_string(),
        "/root/base.json".to_string(),
        "/root/src/utils/helper.ts".to_string(),
    ]);
    let store = TsConfigStore {
        entries: vec![TsConfigStoreEntry {
            path: "/root/tsconfig.json".to_string(),
            data: TsConfigData {
                extends: Some("./base".to_string()),
                base_url: None,
                paths: vec![AliasEntry {
                    pattern: "@/*".to_string(),
                    replacements: vec!["src/*".to_string()],
                }],
            },
        }],
    };
    let aliases = load_tsconfig(&"/root".to_string(), &fs, &store).expect("loads");
    assert_eq!(
        aliases.resolve(&"@/utils/helper".to_string(), &fs).unwrap(),
        "/root/src/utils/helper.ts"
    );
}

#[test]
fn load_missing_config_is_none() {
    let fs = FileSet::new(vec!["/root/src/a.ts".to_string()]);
    assert!(load_tsconfig(&"/root".to_string(), &fs, &TsConfigStore { entries: vec![] }).is_none());
}

#[test]
fn wildcard_candidates_are_probed_for_existence() {
    let fs = fs();
    let aliases = PathAliases {
        base_url: None,
        paths: vec![AliasEntry {
            pattern: "@/*".to_string(),
            replacements: vec!["src/*".to_string()],
        }],
        config_dir: "/root".to_string(),
    };
    // the target file exists, with the .ts extension supplied by the probe
    assert_eq!(
        aliases.resolve(&"@/utils/helper".to_string(), &fs).unwrap(),
        "/root/src/utils/helper.ts"
    );
    // a substituted candidate that exists nowhere resolves to nothing
    assert!(aliases.resolve(&"@/missing/thing".to_string(), &fs).is_none());
}

#[test]
fn base_url_is_a_last_resort_and_unchecked() {
    let fs = fs();
    let aliases = PathAliases {
        base_url: Some("/root/src".to_string()),
        paths: vec![],
        config_dir: "/root".to_string(),
    };
    // returned unconditionally, even though no such file exists
    assert_eq!(
        aliases.resolve(&"anything/at/all".to_string(), &fs).unwrap(),
        "/root/src/anything/at/all"
    );
}
