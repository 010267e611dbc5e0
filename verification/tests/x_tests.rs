use o_::pm::PmError;
use o_::x::{binary_present, generated_manifest, parse_package, run_outcome, stderr_string};

fn ok(spec: &str) -> (String, String) {
    parse_package(spec).unwrap()
}

fn invalid(spec: &str) -> String {
    match parse_package(spec) {
        Err(PmError::InvalidPackageSpec { spec }) => spec,
        other => panic!("unexpected {:?}", other.ok()),
    }
}

#[test]
fn package_specs() {
    assert_eq!(ok("vite"), ("vite".to_string(), "latest".to_string()));
    assert_eq!(ok("eslint@^9"), ("eslint".to_string(), "^9".to_string()));
    assert_eq!(ok("  cowsay@1.5.0 "), ("cowsay".to_string(), "1.5.0".to_string()));
    assert_eq!(ok("@vue/cli"), ("@vue/cli".to_string(), "latest".to_string()));
    assert_eq!(ok("@vue/cli@5"), ("@vue/cli".to_string(), "5".to_string()));
    assert_eq!(ok("a@b@c"), ("a@b".to_string(), "c".to_string()));
}

#[test]
fn bad_package_specs() {
    assert_eq!(invalid("   "), "");
    assert_eq!(invalid("@scope"), "@scope");
    assert_eq!(invalid("@scope/x@"), "@scope/x@");
    assert_eq!(invalid("@1.0.0"), "@1.0.0");
    assert_eq!(invalid("name@"), "name@");
}

#[test]
fn throwaway_manifest() {
    assert_eq!(
        generated_manifest("cowsay", "latest"),
        "{\n  \"name\": \"____o-x-generated____\",\n  \"version\": \"1.0.0\",\n  \"private\": true,\n  \"dependencies\": {\n    \"cowsay\": \"latest\"\n  }\n}"
    );
}

#[test]
fn error_output() {
    assert_eq!(stderr_string(b""), None);
    assert_eq!(stderr_string(b"  failed\n"), Some("failed".to_string()));
    assert_eq!(stderr_string(&[0xff, b'x']), Some("\u{FFFD}x".to_string()));
}

#[test]
fn specs_split_back_into_name_and_version() {
    for (name, version) in [("vite", "5.0.0"), ("@scope/tool", "^1"), ("a.b", "latest")] {
        assert_eq!(ok(&format!("{name}@{version}")), (name.to_string(), version.to_string()));
        assert_eq!(ok(name), (name.to_string(), "latest".to_string()));
    }
}

#[test]
fn missing_package_binary() {
    assert!(binary_present("cowsay", "cowsay", "/t/node_modules/.bin/cowsay", true).is_ok());
    match binary_present("cowsay", "cowsay", "/t/node_modules/.bin/cowsay", false) {
        Err(PmError::MissingPackageBinary { package, command, path }) => {
            assert_eq!(package, "cowsay");
            assert_eq!(command, "cowsay");
            assert_eq!(path, "/t/node_modules/.bin/cowsay");
        }
        other => panic!("unexpected {:?}", other),
    }
}

#[test]
fn run_outcomes() {
    assert_eq!(run_outcome("p", "/b/p", true, Some(0), "exit status: 0", b"hi\n", b"").unwrap(), "hi\n");
    assert_eq!(run_outcome("p", "/b/p", true, Some(0), "exit status: 0", b"a\xffb", b"").unwrap(), "a\u{fffd}b");
    match run_outcome("p", "/b/p", false, Some(3), "exit status: 3", b"out", b"  boom\n") {
        Err(PmError::PackageBinaryFailed { package, command, status, stderr }) => {
            assert_eq!(package, "p");
            assert_eq!(command, "/b/p");
            assert_eq!(status, "3");
            assert_eq!(stderr.as_deref(), Some("boom"));
        }
        other => panic!("unexpected {:?}", other),
    }
    match run_outcome("p", "/b/p", false, None, "signal: 9 (SIGKILL)", b"", b"") {
        Err(PmError::PackageBinaryFailed { status, stderr, .. }) => {
            assert_eq!(status, "signal: 9 (SIGKILL)");
            assert_eq!(stderr, None);
        }
        other => panic!("unexpected {:?}", other),
    }
}
