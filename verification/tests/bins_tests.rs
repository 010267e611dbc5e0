use o_::bins::{
    bin_dir, bin_link_path, bin_link_targets, default_bin_name, normalize_package_relative_path,
    read_bin_entries, resolve_bin_command, windows_shim, BinField,
};
use o_::pm::PmError;

fn pairs(v: &[(&str, &str)]) -> Vec<(String, String)> {
    v.iter().map(|(a, b)| (a.to_string(), b.to_string())).collect()
}

#[test]
fn default_names() {
    assert_eq!(default_bin_name("eslint"), "eslint");
    assert_eq!(default_bin_name("@vitejs/vite"), "vite");
    assert_eq!(default_bin_name("a/b/c"), "c");
}

#[test]
fn relative_targets() {
    assert_eq!(normalize_package_relative_path("./bin/cli.js"), "bin/cli.js");
    assert_eq!(normalize_package_relative_path("bin/cli.js"), "bin/cli.js");
    assert_eq!(normalize_package_relative_path(".//x"), "/x");
}

#[test]
fn bin_entries_of_a_manifest() {
    let m = "/p/package.json";
    assert!(matches!(read_bin_entries(m, None, &BinField::Missing), Err(PmError::MissingInstalledName { .. })));
    assert!(read_bin_entries(m, Some("x"), &BinField::Missing).unwrap().is_empty());
    assert!(read_bin_entries(m, Some("x"), &BinField::Null).unwrap().is_empty());
    assert_eq!(
        read_bin_entries(m, Some("@s/tool"), &BinField::Text("cli.js".into())).unwrap(),
        pairs(&[("tool", "cli.js")])
    );
    let entries = BinField::Entries(vec![
        ("a".to_string(), Some("a.js".to_string())),
        ("b".to_string(), Some("b.js".to_string())),
    ]);
    assert_eq!(read_bin_entries(m, Some("x"), &entries).unwrap(), pairs(&[("a", "a.js"), ("b", "b.js")]));
    let bad = BinField::Entries(vec![("a".to_string(), Some("a.js".to_string())), ("b".to_string(), None)]);
    match read_bin_entries(m, Some("x"), &bad) {
        Err(PmError::InvalidBinEntry { path, entry }) => {
            assert_eq!(path, m);
            assert_eq!(entry, "b");
        }
        _ => panic!("expected an invalid entry"),
    }
    assert!(matches!(read_bin_entries(m, Some("x"), &BinField::Other), Err(PmError::InvalidBinField { .. })));
}

#[test]
fn command_to_run() {
    let m = "/t/package.json";
    assert_eq!(resolve_bin_command("@s/tool", m, &BinField::Missing).unwrap(), "tool");
    assert_eq!(resolve_bin_command("tool", m, &BinField::Text("x.js".into())).unwrap(), "tool");
    assert_eq!(resolve_bin_command("tool", m, &BinField::Null).unwrap(), "tool");
    let has_default = BinField::Entries(vec![("other".to_string(), None), ("tool".to_string(), None)]);
    assert_eq!(resolve_bin_command("tool", m, &has_default).unwrap(), "tool");
    let single = BinField::Entries(vec![("only".to_string(), Some("o.js".to_string()))]);
    assert_eq!(resolve_bin_command("tool", m, &single).unwrap(), "only");
    let several = BinField::Entries(vec![("a".to_string(), None), ("b".to_string(), None)]);
    match resolve_bin_command("tool", m, &several) {
        Err(PmError::AmbiguousBinEntry { package, path, available }) => {
            assert_eq!(package, "tool");
            assert_eq!(path, m);
            assert_eq!(available, vec!["a".to_string(), "b".to_string()]);
        }
        _ => panic!("expected an ambiguous entry"),
    }
    assert!(matches!(resolve_bin_command("tool", m, &BinField::Other), Err(PmError::InvalidBinField { .. })));
}

#[test]
fn link_locations() {
    let targets = bin_link_targets("/nm/pkg", &pairs(&[("a", "./bin/a.js"), ("b", "b.js")]));
    assert_eq!(targets, pairs(&[("a", "/nm/pkg/bin/a.js"), ("b", "/nm/pkg/b.js")]));
    assert_eq!(bin_dir("/nm"), "/nm/.bin");
    assert_eq!(bin_link_path("/nm/.bin", "a", false), "/nm/.bin/a");
    assert_eq!(bin_link_path("/nm/.bin", "a", true), "/nm/.bin/a.cmd");
    assert_eq!(windows_shim("C:\\t\\a.js"), "@ECHO off\r\nnode \"C:\\t\\a.js\" %*\r\n");
}
