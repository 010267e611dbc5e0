use o_::app_error::AppError;
use o_::cli::{
    check_installed, config_path, execution_error, global_packages_dir, installed_binary, process, resolve_toolchain_path,
    toolchain_added, toolchain_bin_dir, toolchain_removed, Action, Commands, ToolChainCommand,
};
use o_::conf::parse_config;
use o_::error::JSError;
use o_::job::{script_command, script_outcome, shell_command, status_text, JobError};
use o_::pm::Manifest;
use o_::toolchain::{release_target, zip_entry_is_dir};

#[test]
fn paths_under_home() {
    assert_eq!(toolchain_bin_dir("/home/u"), "/home/u/.config/o-/toolchains/bin");
    assert_eq!(config_path("/home/u"), "/home/u/.config/o-/config.toml");
    assert_eq!(global_packages_dir("/home/u/"), "/home/u/.config/o-/packages");
    assert_eq!(resolve_toolchain_path(Some("/h"), "v8").unwrap(), "/h/.config/o-/toolchains/bin/v8");
    assert!(matches!(resolve_toolchain_path(None, "v8"), Err(AppError::HomeDirUnavailable)));
    assert_eq!(installed_binary("/tmp/x", "o-v8"), "/tmp/x/bin/o-v8");
}

#[test]
fn run_needs_a_toolchain_and_a_home() {
    match process(Commands::Run { path: "main.js".into() }, Some("  v8 "), Some("/h")) {
        Ok(Action::RunScript { path, toolchain, binary }) => {
            assert_eq!(path, "main.js");
            assert_eq!(toolchain, "v8");
            assert_eq!(binary, "/h/.config/o-/toolchains/bin/v8");
        }
        other => panic!("unexpected {:?}", other.ok()),
    }
    assert!(matches!(
        process(Commands::Run { path: "m.js".into() }, Some("   "), Some("/h")),
        Err(AppError::MissingToolchainSelection)
    ));
    assert!(matches!(process(Commands::Run { path: "m.js".into() }, None, None), Err(AppError::MissingToolchainSelection)));
    assert!(matches!(process(Commands::Run { path: "m.js".into() }, Some("v8"), None), Err(AppError::HomeDirUnavailable)));
}

#[test]
fn other_commands() {
    let add = Commands::Toolchain { command: ToolChainCommand::Add { user: "u".into(), repo: "r".into() } };
    assert!(matches!(process(add, None, None), Ok(Action::AddToolchain { user, repo }) if user == "u" && repo == "r"));
    let remove = Commands::Toolchain { command: ToolChainCommand::Remove { toolchain: "v8".into() } };
    match process(remove.clone(), None, Some("/h")) {
        Ok(Action::RemoveToolchain { toolchain, path }) => {
            assert_eq!(toolchain, "v8");
            assert_eq!(path, "/h/.config/o-/toolchains/bin/v8");
        }
        other => panic!("unexpected {:?}", other.ok()),
    }
    assert!(matches!(process(remove, None, None), Err(AppError::HomeDirUnavailable)));
    assert!(matches!(
        process(Commands::Install { global: false, package: None }, None, None),
        Ok(Action::InstallProject)
    ));
    assert!(matches!(
        process(Commands::Install { global: true, package: Some("vite".into()) }, None, None),
        Ok(Action::InstallGlobal { package: Some(p) }) if p == "vite"
    ));
    assert!(matches!(process(Commands::Uninstall { name: "vite".into() }, None, None), Ok(Action::Uninstall { name }) if name == "vite"));
}

#[test]
fn toolchain_reports_and_errors() {
    let r = toolchain_added("u", "o-v8", "/h/bin/o-v8");
    assert_eq!(r.summary(), "installed toolchain `o-v8`");
    assert_eq!(r.print_lines()[1], "\x1b[2m- source: u/o-v8\x1b[0m");
    assert_eq!(r.print_lines()[2], "\x1b[2m- binary: /h/bin/o-v8\x1b[0m");
    let r = toolchain_removed("v8", "/h/bin/v8");
    assert_eq!(r.summary(), "removed toolchain `v8`");
    match execution_error("v8", &JSError::runtime("bad"), false) {
        AppError::ToolchainExecution { toolchain, message } => {
            assert_eq!(toolchain, "v8");
            assert_eq!(message, "Runtime Error: bad");
        }
        _ => panic!("expected an execution error"),
    }
}

#[test]
fn release_targets() {
    let t = release_target("github.com", "user", "o-v8", "linux", "x86_64");
    assert_eq!(t.os, "linux");
    assert_eq!(t.arch, "amd64");
    assert!(!t.zip);
    assert_eq!(t.file_name, "o-v8-linux-amd64.tar.gz");
    assert_eq!(t.url, "https://github.com/user/o-v8/releases/latest/download/o-v8-linux-amd64.tar.gz");
    let w = release_target("github.com", "u", "r", "windows", "aarch64");
    assert!(w.zip);
    assert_eq!(w.file_name, "r-windows-arm64.zip");
    let m = release_target("github.com", "u", "r", "macos", "riscv64");
    assert_eq!(m.file_name, "r-darwin-riscv64.tar.gz");
    assert!(zip_entry_is_dir("bin/"));
    assert!(!zip_entry_is_dir("bin/o-v8"));
}

#[test]
fn config_files() {
    assert_eq!(parse_config("[toolchain]\nname = \"spidermonkey\"\n").unwrap(), "spidermonkey");
    assert!(matches!(parse_config("[toolchain]\nversion = 1\n"), Err(AppError::MissingConfigField(f)) if f == "toolchain.name"));
    assert!(matches!(parse_config("[toolchain]\nname = 3\n"), Err(AppError::MissingConfigField(_))));
    assert!(matches!(parse_config("[toolchain"), Err(AppError::ParseConfigToml(_))));
}

#[test]
fn config_name_is_read_under_the_toolchain_table() {
    assert!(matches!(parse_config("[engine]\nname = \"v8\"\n"), Err(AppError::MissingConfigField(f)) if f == "toolchain.name"));
    assert!(matches!(parse_config("name = \"v8\"\n"), Err(AppError::MissingConfigField(_))));
    assert!(matches!(parse_config("[toolchain]\nengine = \"v8\"\n"), Err(AppError::MissingConfigField(_))));
    assert_eq!(parse_config("[other]\nname = \"a\"\n[toolchain]\nname = \"b\"\n").unwrap(), "b");
}

#[test]
fn missing_toolchain_binary_is_not_installed() {
    assert!(check_installed("boa", "/h/.config/o-/toolchains/bin/boa", true).is_ok());
    match check_installed("boa", "/h/.config/o-/toolchains/bin/boa", false) {
        Err(AppError::ToolchainNotInstalled { toolchain, path }) => {
            assert_eq!(toolchain, "boa");
            assert_eq!(path, "/h/.config/o-/toolchains/bin/boa");
        }
        other => panic!("unexpected {:?}", other),
    }
}

fn manifest_with_scripts(scripts: Option<Vec<(String, String)>>) -> Manifest {
    Manifest {
        name: "x".into(),
        version: "1.0.0".into(),
        dependencies: None,
        dev_dependencies: None,
        optional_dependencies: None,
        peer_dependencies: None,
        scripts,
    }
}

#[test]
fn scripts() {
    let m = manifest_with_scripts(Some(vec![("build".into(), "tsc".into()), ("test".into(), "jest".into())]));
    assert_eq!(script_command("test", &m).unwrap(), "jest");
    assert!(matches!(script_command("lint", &m), Err(JobError::MissingScript { name }) if name == "lint"));
    assert!(matches!(script_command("test", &manifest_with_scripts(None)), Err(JobError::MissingScript { .. })));
    let sh = shell_command("echo hi", false);
    assert_eq!(sh.program, "sh");
    assert_eq!(sh.args, vec!["-c".to_string(), "echo hi".to_string()]);
    let cmd = shell_command("echo hi", true);
    assert_eq!(cmd.program, "cmd");
    assert_eq!(cmd.args, vec!["/C".to_string(), "echo hi".to_string()]);
    assert_eq!(status_text(Some(2), "x"), "2");
    assert_eq!(status_text(Some(-1), "x"), "-1");
    assert_eq!(status_text(None, "signal: 9 (SIGKILL)"), "signal: 9 (SIGKILL)");
    assert!(script_outcome("t", "c", true, Some(0), "").is_ok());
    match script_outcome("t", "exit 3", false, Some(3), "") {
        Err(JobError::ScriptFailed { name, command, status }) => {
            assert_eq!((name.as_str(), command.as_str(), status.as_str()), ("t", "exit 3", "3"));
        }
        _ => panic!("expected a failure"),
    }
}
