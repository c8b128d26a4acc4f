//! Workspace detection and package resolution over the file-set model.

use cdd::fileset::FileSet;
use cdd::workspace::{
    glob_match, CondEntry, ExportEntry, ExportValue, Exports, ManifestStore, ManifestStoreEntry,
    PackageManifest, Workspace,
};

fn test_fileset() -> FileSet {
    FileSet::new(vec![
        "/root/package.json".to_string(),
        "/root/packages/ui/package.json".to_string(),
        "/root/packages/ui/src/index.ts".to_string(),
        "/root/packages/utils/package.json".to_string(),
        "/root/packages/utils/src/index.ts".to_string(),
        "/root/packages/utils/src/helpers.ts".to_string(),
    ])
}

fn test_store() -> ManifestStore {
    ManifestStore {
        entries: vec![
            ManifestStoreEntry {
                path: "/root/packages/ui/package.json".to_string(),
                manifest: PackageManifest {
                    name: Some("@test/ui".to_string()),
                    main: Some("dist/index.js".to_string()),
                    module: Some("dist/index.mjs".to_string()),
                    exports: None,
                },
            },
            ManifestStoreEntry {
                path: "/root/packages/utils/package.json".to_string(),
                manifest: PackageManifest {
                    name: Some("@test/utils".to_string()),
                    main: None,
                    module: None,
                    exports: Some(Exports::Object(vec![
                        ExportEntry {
                            key: ".".to_string(),
                            value: ExportValue::Conditional(vec![
                                CondEntry {
                                    key: "import".to_string(),
                                    value: "./src/index.ts".to_string(),
                                },
                                CondEntry {
                                    key: "require".to_string(),
                                    value: "./dist/index.cjs".to_string(),
                                },
                            ]),
                        },
                        ExportEntry {
                            key: "./helpers".to_string(),
                            value: ExportValue::Direct("./src/helpers.ts".to_string()),
                        },
                    ])),
                },
            },
        ],
    }
}

fn detect() -> Option<Workspace> {
    Workspace::detect(
        &"/root".to_string(),
        &Some(vec!["packages/*".to_string()]),
        &None,
        &test_store(),
    )
}

#[test]
fn test_workspace_detection() {
    let workspace = detect().expect("Should detect workspace");
    assert_eq!(workspace.packages.len(), 2);
    assert!(workspace.packages.iter().any(|p| p.name == "@test/ui"));
    assert!(workspace.packages.iter().any(|p| p.name == "@test/utils"));
}

#[test]
fn test_resolve_package_root() {
    let workspace = detect().unwrap();
    let fs = test_fileset();

    // @test/ui has no existing main/module build, so the conventional
    // src/index.ts entry wins
    let resolved = workspace.resolve(&"@test/ui".to_string(), &fs);
    assert!(resolved.is_some());
    let path = resolved.unwrap();
    assert!(path.contains("index.ts"));
}

#[test]
fn test_resolve_with_exports() {
    let workspace = detect().unwrap();
    let fs = test_fileset();

    let resolved = workspace.resolve(&"@test/utils".to_string(), &fs);
    assert!(resolved.is_some());
    let path = resolved.unwrap();
    assert!(path.contains("src/index.ts"));
}

#[test]
fn test_resolve_subpath_export() {
    let workspace = detect().unwrap();
    let fs = test_fileset();

    let resolved = workspace.resolve(&"@test/utils/helpers".to_string(), &fs);
    assert!(resolved.is_some());
    let path = resolved.unwrap();
    assert!(path.contains("helpers.ts"));
}

#[test]
fn test_no_workspace() {
    let store = ManifestStore { entries: vec![] };
    let workspace = Workspace::detect(&"/root".to_string(), &None, &None, &store);
    assert!(workspace.is_none());
}

#[test]
fn empty_pattern_list_means_no_workspace() {
    let workspace = Workspace::detect(&"/root".to_string(), &Some(vec![]), &None, &test_store());
    assert!(workspace.is_none());
}

#[test]
fn pnpm_patterns_used_when_npm_absent() {
    let workspace = Workspace::detect(
        &"/root".to_string(),
        &None,
        &Some(vec!["packages/*".to_string()]),
        &test_store(),
    );
    assert!(workspace.is_some());
    assert_eq!(workspace.unwrap().packages.len(), 2);
}

#[test]
fn unnamed_package_is_not_registered() {
    let store = ManifestStore {
        entries: vec![ManifestStoreEntry {
            path: "/root/packages/anon/package.json".to_string(),
            manifest: PackageManifest { name: None, main: None, module: None, exports: None },
        }],
    };
    let workspace = Workspace::detect(
        &"/root".to_string(),
        &Some(vec!["packages/*".to_string()]),
        &None,
        &store,
    )
    .unwrap();
    assert_eq!(workspace.packages.len(), 0);
}

#[test]
fn glob_star_stays_within_one_component() {
    let pat = "/root/packages/*/package.json".to_string();
    assert!(glob_match(&pat, &"/root/packages/ui/package.json".to_string()));
    assert!(!glob_match(&pat, &"/root/packages/ui/nested/package.json".to_string()));
    assert!(!glob_match(&pat, &"/root/packages/package.json".to_string()));
}

#[test]
fn wildcard_export_substitutes_suffix() {
    let fs = FileSet::new(vec![
        "/root/pkg/package.json".to_string(),
        "/root/pkg/src/parts/button.ts".to_string(),
    ]);
    let workspace = Workspace {
        root: "/root".to_string(),
        packages: vec![cdd::workspace::PackageInfo {
            name: "@w/pkg".to_string(),
            path: "/root/pkg".to_string(),
            main: None,
            module: None,
            exports: Some(Exports::Object(vec![ExportEntry {
                key: "./parts/*".to_string(),
                value: ExportValue::Direct("./src/parts/*.ts".to_string()),
            }])),
        }],
    };
    let resolved = workspace.resolve(&"@w/pkg/parts/button".to_string(), &fs);
    assert_eq!(resolved.unwrap(), "/root/pkg/src/parts/button.ts");
}
