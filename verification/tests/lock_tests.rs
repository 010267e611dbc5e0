use o_::lock::{lockfile_key, to_btree, LockCollector, LockErrorKind, LockedPackage};
use o_::pm::Manifest;

fn pairs(v: &[(&str, &str)]) -> Vec<(String, String)> {
    v.iter().map(|(a, b)| (a.to_string(), b.to_string())).collect()
}

#[test]
fn btree_order_and_last_wins() {
    let out = to_btree(&pairs(&[("b", "1"), ("a", "2"), ("b", "3")]));
    assert_eq!(out, pairs(&[("a", "2"), ("b", "3")]));
    assert!(to_btree(&Vec::new()).is_empty());
}

#[test]
fn lockfile_keys() {
    assert_eq!(lockfile_key("/p", "/p/node_modules/a").unwrap(), "node_modules/a");
    assert_eq!(lockfile_key("/p", "/p/node_modules/a/node_modules/b").unwrap(), "node_modules/a/node_modules/b");
    assert_eq!(lockfile_key("/p", "/p").unwrap(), "");
    assert_eq!(lockfile_key("/p/", "/p/./x").unwrap(), "x");
    let e = lockfile_key("/p", "/q/a").unwrap_err();
    assert_eq!(e.kind(), LockErrorKind::InvalidInput);
    assert_eq!(e.to_string(), "package path `/q/a` is outside project root `/p`");
}

#[test]
fn collector_builds_a_sorted_lockfile() {
    let mut c = LockCollector::new();
    let manifest = Manifest {
        name: "app".into(),
        version: "1.0.0".into(),
        dependencies: Some(pairs(&[("b", "^1"), ("a", "^2")])),
        dev_dependencies: None,
        optional_dependencies: None,
        peer_dependencies: None,
        scripts: None,
    };
    c.insert_root(&manifest);
    c.insert_package(
        "/p",
        "/p/node_modules/b",
        "b",
        "1.4.0",
        "https://r/b-1.4.0.tgz",
        Some("sha512-x"),
        &pairs(&[("z", "1"), ("y", "2")]),
        &Vec::new(),
        &Vec::new(),
    )
    .unwrap();
    c.insert_package("/p", "/p/node_modules/a", "a", "2.0.0", "https://r/a.tgz", None, &Vec::new(), &Vec::new(), &Vec::new())
        .unwrap();
    let e = c
        .insert_package("/p", "/elsewhere/a", "a", "2.0.0", "u", None, &Vec::new(), &Vec::new(), &Vec::new())
        .unwrap_err();
    assert_eq!(e.kind(), LockErrorKind::InvalidInput);
    assert_eq!(e.to_string(), "package path `/elsewhere/a` is outside project root `/p`");
    let l = c.into_lockfile(&manifest);
    assert_eq!(l.name.as_deref(), Some("app"));
    assert_eq!(l.version.as_deref(), Some("1.0.0"));
    assert_eq!(l.lockfile_version, 3);
    let keys: Vec<&str> = l.packages.iter().map(|(k, _)| k.as_str()).collect();
    assert_eq!(keys, vec!["", "node_modules/a", "node_modules/b"]);
    let root = &l.packages[0].1;
    assert_eq!(root.dependencies, Some(pairs(&[("a", "^2"), ("b", "^1")])));
    assert_eq!(root.dev_dependencies, Some(Vec::new()));
    assert_eq!(root.resolved, None);
    let b = &l.packages[2].1;
    assert_eq!(b.version.as_deref(), Some("1.4.0"));
    assert_eq!(b.resolved.as_deref(), Some("https://r/b-1.4.0.tgz"));
    assert_eq!(b.integrity.as_deref(), Some("sha512-x"));
    assert_eq!(b.dependencies, Some(pairs(&[("y", "2"), ("z", "1")])));
    assert_eq!(b.dev_dependencies, None);
}

#[test]
fn reinstall_replaces_and_remove_drops() {
    let mut c = LockCollector::new();
    c.insert_root_fields("app", "0.1.0", &Vec::new(), &Vec::new(), &Vec::new(), &Vec::new());
    c.insert_package("/p", "/p/node_modules/a", "a", "1.0.0", "u1", None, &Vec::new(), &Vec::new(), &Vec::new())
        .unwrap();
    c.insert_package("/p", "/p/node_modules/a", "a", "1.1.0", "u2", None, &Vec::new(), &Vec::new(), &Vec::new())
        .unwrap();
    let mut l = c.into_lockfile_fields("app", "0.1.0");
    assert_eq!(l.packages.len(), 2);
    assert_eq!(l.packages[1].1.version.as_deref(), Some("1.1.0"));
    l.remove_package("node_modules/a");
    assert_eq!(l.packages.len(), 1);
    l.remove_package("node_modules/none");
    assert_eq!(l.packages.len(), 1);
    let d = LockedPackage::default();
    assert!(d.name.is_none() && d.dependencies.is_none());
}
