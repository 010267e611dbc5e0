use o_::install::{begin_dependency, plan_dependency, DependencyPlan, DependencyStep};
use o_::install::{
    add_dependency, install_dir, root_dependency_set, install_key, install_report, is_matching_install,
    manifest_candidate, map_manifest_error, project_root, resolve_npm_url, search_next,
    search_start, InstallSet,
};
use o_::pm::{uninstall, uninstall_report};
use o_::pm::{resolve_from_packument, verify_integrity, Manifest, Packument, PmError, RegistryVersion, ResolvedPackage};

fn version(v: &str, deps: &[(&str, &str)]) -> RegistryVersion {
    RegistryVersion {
        version: v.to_string(),
        dependencies: deps.iter().map(|(a, b)| (a.to_string(), b.to_string())).collect(),
        tarball: format!("https://registry.example/p/-/p-{v}.tgz"),
        integrity: Some(format!("sha512-{v}")),
    }
}

fn packument() -> Packument {
    Packument {
        versions: vec![
            version("1.0.0", &[]),
            version("1.2.0", &[("dep", "^2")]),
            version("2.0.0", &[]),
            version("banana", &[]),
            version("1.1.5", &[]),
        ],
    }
}

#[test]
fn resolves_greatest_satisfying_version() {
    let p = resolve_from_packument("p", "^1.0.0", &packument()).unwrap();
    assert_eq!(p.name, "p");
    assert_eq!(p.version, "1.2.0");
    assert_eq!(p.dependencies, vec![("dep".to_string(), "^2".to_string())]);
    assert_eq!(p.tarball_url, "https://registry.example/p/-/p-1.2.0.tgz");
    assert_eq!(p.integrity.as_deref(), Some("sha512-1.2.0"));
    let q = resolve_from_packument("p", "*", &packument()).unwrap();
    assert_eq!(q.version, "2.0.0");
    let exact = resolve_from_packument("p", "1.1.5", &packument()).unwrap();
    assert_eq!(exact.version, "1.1.5");
}

#[test]
fn unsatisfiable_range_is_version_not_found() {
    match resolve_from_packument("p", "^3.0.0", &packument()) {
        Err(PmError::VersionNotFound { package, .. }) => assert_eq!(package, "p"),
        other => panic!("unexpected {:?}", other.map(|r| r.version)),
    }
}

#[test]
fn bad_range_is_invalid_range() {
    match resolve_from_packument("p", ">=>=", &packument()) {
        Err(PmError::InvalidRange { package, range, source }) => {
            assert_eq!(package, "p");
            assert_eq!(range, ">=>=");
            assert_eq!(source, "Invalid semantic version or range");
        }
        other => panic!("unexpected {:?}", other.map(|r| r.version)),
    }
}

#[test]
fn printed_version_missing_from_packument() {
    let p = Packument { versions: vec![version("v1.0.0", &[])] };
    match resolve_from_packument("p", "^1", &p) {
        Err(PmError::MissingResolvedVersion { package, version }) => {
            assert_eq!(package, "p");
            assert_eq!(version, "1.0.0");
        }
        other => panic!("unexpected {:?}", other.map(|r| r.version)),
    }
}

fn resolved(integrity: Option<String>) -> ResolvedPackage {
    ResolvedPackage {
        name: "p".into(),
        version: "1.0.0".into(),
        dependencies: vec![],
        tarball_url: "u".into(),
        integrity,
    }
}

#[test]
fn integrity_checks() {
    let good = ssri::Integrity::from(b"tarball bytes").to_string();
    assert!(verify_integrity(&resolved(Some(good.clone())), b"tarball bytes").is_ok());
    assert!(verify_integrity(&resolved(None), b"anything").is_ok());
    match verify_integrity(&resolved(Some(good)), b"other bytes") {
        Err(PmError::IntegrityMismatch { package, version, .. }) => {
            assert_eq!(package, "p");
            assert_eq!(version, "1.0.0");
        }
        _ => panic!("expected a mismatch"),
    }
    match verify_integrity(&resolved(Some("not an sri".into())), b"x") {
        Err(PmError::InvalidIntegrity { package, version, .. }) => {
            assert_eq!(package, "p");
            assert_eq!(version, "1.0.0");
        }
        _ => panic!("expected an invalid integrity"),
    }
}

#[test]
fn registry_url_escapes_scopes() {
    assert_eq!(resolve_npm_url("react"), "https://registry.npmjs.org/react");
    assert_eq!(resolve_npm_url("@types/node"), "https://registry.npmjs.org/%40types%2Fnode");
}

#[test]
fn install_directories() {
    assert_eq!(install_dir("/p/node_modules", "react"), "/p/node_modules/react");
    assert_eq!(install_dir("/p/node_modules", "@types/node"), "/p/node_modules/@types/node");
    assert_eq!(install_dir("nm/", "a/b/c"), "nm/a/b/c");
}

#[test]
fn install_keys_are_remembered_once() {
    let key = install_key("a", "1.0.0", "/p/node_modules");
    assert_eq!(key, "a@1.0.0::/p/node_modules");
    let mut seen = InstallSet::new();
    assert!(!seen.contains(&key));
    assert!(seen.insert(key.clone()));
    assert!(!seen.insert(key.clone()));
    assert!(seen.contains(&key));
    assert!(seen.insert("b@1::/x".into()));
}

#[test]
fn manifest_search_steps() {
    assert_eq!(search_start("/p/sub/file.js", false), "/p/sub");
    assert_eq!(search_start("/p/sub", true), "/p/sub");
    assert_eq!(search_start("file.js", false), "");
    assert_eq!(search_start("/", false), ".");
    assert_eq!(manifest_candidate("/p/sub"), "/p/sub/package.json");
    assert_eq!(manifest_candidate(""), "package.json");
    assert_eq!(search_next(".", "/p/sub").unwrap(), "/p");
    assert_eq!(search_next(".", "/p").unwrap(), "/");
    match search_next("start", "/") {
        Err(PmError::FindManifest { start, source }) => {
            assert_eq!(start, "start");
            assert_eq!(source, "failed to find package.json from start");
        }
        _ => panic!("expected the end of the search"),
    }
    assert_eq!(project_root("/p/package.json").unwrap(), "/p");
    assert!(matches!(project_root("/"), Err(PmError::ProjectRootMissing { .. })));
}

#[test]
fn manifest_errors_by_kind() {
    assert!(matches!(map_manifest_error("m", true, "bad json"), PmError::ParseManifest { .. }));
    match map_manifest_error("m", false, "gone") {
        PmError::ReadManifest { path, source } => {
            assert_eq!(path, "m");
            assert_eq!(source, "gone");
        }
        _ => panic!("expected a read error"),
    }
}

fn manifest(version: &str) -> Manifest {
    Manifest {
        name: "x".into(),
        version: version.into(),
        dependencies: None,
        dev_dependencies: None,
        optional_dependencies: None,
        peer_dependencies: None,
        scripts: None,
    }
}

#[test]
fn matching_install() {
    assert!(is_matching_install(Some(&manifest("1.0.0")), "1.0.0"));
    assert!(!is_matching_install(Some(&manifest("1.0.1")), "1.0.0"));
    assert!(!is_matching_install(None, "1.0.0"));
}

#[test]
fn install_report_lines() {
    let r = install_report("/p", 3, "/p/package-lock.json");
    assert_eq!(r.summary(), "installed project dependencies");
    let lines = r.print_lines();
    assert_eq!(lines[1], "\x1b[2m- root: /p\x1b[0m");
    assert_eq!(lines[2], "\x1b[2m- dependencies: 3\x1b[0m");
    assert_eq!(lines[3], "\x1b[2m- lockfile: /p/package-lock.json\x1b[0m");
}

#[test]
fn adding_dependencies() {
    let deps = vec![("a".to_string(), "^1".to_string()), ("b".to_string(), "^2".to_string())];
    assert_eq!(
        add_dependency(&deps, "b", "^3"),
        vec![("a".to_string(), "^1".to_string()), ("b".to_string(), "^3".to_string())]
    );
    assert_eq!(
        add_dependency(&deps, "c", "latest"),
        vec![
            ("a".to_string(), "^1".to_string()),
            ("b".to_string(), "^2".to_string()),
            ("c".to_string(), "latest".to_string())
        ]
    );
}

#[test]
fn uninstall_plan_and_report() {
    let plan = uninstall("/h/.config/o-/packages", "@scope/tool");
    assert_eq!(plan.node_modules, "/h/.config/o-/packages/node_modules");
    assert_eq!(plan.package_dir, "/h/.config/o-/packages/node_modules/@scope/tool");
    assert_eq!(plan.lock_key, "node_modules/@scope/tool");
    let r = uninstall_report("vite", "/x/vite");
    assert_eq!(r.summary(), "uninstalled package `vite`");
}

#[test]
fn dependency_steps() {
    let mut seen = InstallSet::new();
    let p = resolved(None);
    match begin_dependency(&mut seen, &p, "/x/node_modules") {
        DependencyStep::Check { target_dir, manifest_path } => {
            assert_eq!(target_dir, "/x/node_modules/p");
            assert_eq!(manifest_path, "/x/node_modules/p/package.json");
        }
        DependencyStep::Skip => panic!("first sight is checked"),
    }
    assert!(matches!(begin_dependency(&mut seen, &p, "/x/node_modules"), DependencyStep::Skip));
    assert!(matches!(begin_dependency(&mut seen, &p, "/y/node_modules"), DependencyStep::Check { .. }));
    match plan_dependency(&p, "/x/node_modules/p", Some(&manifest("1.0.0"))) {
        DependencyPlan::Keep { nested } => assert_eq!(nested, "/x/node_modules/p/node_modules"),
        _ => panic!("same version is kept"),
    }
    match plan_dependency(&p, "/x/node_modules/p", Some(&manifest("0.9.0"))) {
        DependencyPlan::Fresh { parent, nested } => {
            assert_eq!(parent.as_deref(), Some("/x/node_modules"));
            assert_eq!(nested, "/x/node_modules/p/node_modules");
        }
        _ => panic!("another version is replaced"),
    }
    assert!(matches!(plan_dependency(&p, "/x/node_modules/p", None), DependencyPlan::Fresh { .. }));
}

fn pairs(v: &[(&str, &str)]) -> Option<Vec<(String, String)>> {
    Some(v.iter().map(|(a, b)| (a.to_string(), b.to_string())).collect())
}

#[test]
fn root_dependency_set_takes_every_list_in_order() {
    let m = Manifest {
        name: "app".into(),
        version: "1.0.0".into(),
        dependencies: pairs(&[("react", "^18")]),
        dev_dependencies: pairs(&[("vite", "^5"), ("jest", "^29")]),
        optional_dependencies: None,
        peer_dependencies: pairs(&[("react-dom", "^18")]),
        scripts: None,
    };
    let got = root_dependency_set(&m);
    let want: Vec<(String, String)> = pairs(&[("react", "^18"), ("vite", "^5"), ("jest", "^29"), ("react-dom", "^18")]).unwrap();
    assert_eq!(got, want);
    let empty = Manifest { dependencies: None, dev_dependencies: None, peer_dependencies: None, ..m };
    assert!(root_dependency_set(&empty).is_empty());
}
