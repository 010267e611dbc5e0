use o_::app_error::AppError;
use o_::job::JobError;
use o_::pm::PmError;
use o_::report::Report;

fn lines(r: &Report) -> (String, Vec<String>) {
    let all = r.print_lines();
    let plain: Vec<String> = all
        .iter()
        .map(|l| l.replace("\x1b[36m", "").replace("\x1b[2m", "").replace("\x1b[0m", ""))
        .collect();
    (plain[0].clone(), plain[1..].to_vec())
}

#[test]
fn report_builds_up() {
    let r = Report::new("done").detail("a").detail("b");
    assert_eq!(r.summary(), "done");
    assert_eq!(
        r.print_lines(),
        vec![
            "\x1b[36mo-\x1b[0m done".to_string(),
            "\x1b[2m- a\x1b[0m".to_string(),
            "\x1b[2m- b\x1b[0m".to_string()
        ]
    );
    assert_eq!(
        r.error_lines(),
        vec![
            "\x1b[31merror\x1b[0m done".to_string(),
            "\x1b[2m- a\x1b[0m".to_string(),
            "\x1b[2m- b\x1b[0m".to_string()
        ]
    );
}

#[test]
fn job_error_reports() {
    let r = JobError::MissingScript { name: "build".into() }.report();
    assert_eq!(r.summary(), "script `build` is not defined");
    assert_eq!(lines(&r).1, vec!["- add it to the `scripts` section in package.json"]);
    let r = JobError::ScriptFailed { name: "t".into(), command: "exit 2".into(), status: "2".into() }.report();
    assert_eq!(r.summary(), "script `t` failed");
    assert_eq!(lines(&r).1, vec!["- command: exit 2", "- status: 2"]);
    let r = JobError::SpawnScript { name: "t".into(), command: "c".into(), source: "nope".into() }.report();
    assert_eq!(r.summary(), "failed to start script `t`");
    assert_eq!(lines(&r).1, vec!["- command: c", "- cause: nope"]);
    let r = JobError::ReadManifest { path: "/p/package.json".into(), source: "missing".into() }.report();
    assert_eq!(r.summary(), "failed to read package.json");
    assert_eq!(lines(&r).1, vec!["- path: /p/package.json", "- cause: missing"]);
}

#[test]
fn app_error_reports() {
    let r = AppError::HomeDirUnavailable.report();
    assert_eq!(r.summary(), "could not resolve home directory");
    assert_eq!(lines(&r).1, vec!["- `$HOME` is unavailable in the current environment"]);
    let r = AppError::MissingToolchainSelection.report();
    assert_eq!(r.summary(), "no toolchain is selected");
    let r = AppError::ToolchainNotInstalled { toolchain: "v8".into(), path: "/h/bin/v8".into() }.report();
    assert_eq!(r.summary(), "toolchain `v8` is not installed");
    assert_eq!(lines(&r).1, vec!["- path: /h/bin/v8", "- install it with `o- toolchain add <user> <repo>`"]);
    let r = AppError::InstallToolchain { user: "u".into(), repo: "r".into(), source: "s".into() }.report();
    assert_eq!(r.summary(), "failed to install toolchain `r`");
    assert_eq!(lines(&r).1, vec!["- source: u/r", "- cause: s"]);
    let r = AppError::ToolchainExecution { toolchain: "v8".into(), message: "bad".into() }.report();
    assert_eq!(r.summary(), "toolchain `v8` failed");
    assert_eq!(lines(&r).1, vec!["- bad"]);
    let r = AppError::ParseConfigToml("eof".into()).report();
    assert_eq!(r.summary(), "failed to parse config");
    assert_eq!(lines(&r).1, vec!["- expected a valid TOML document", "- cause: eof"]);
    let r = AppError::MissingConfigField("toolchain.name".into()).report();
    assert_eq!(r.summary(), "config field `toolchain.name` is missing");
    let r = AppError::ReadConfig { path: "c".into(), source: "s".into() }.report();
    assert_eq!(r.summary(), "failed to read config");
    let r = AppError::CreateDir { path: "d".into(), source: "s".into() }.report();
    assert_eq!(r.summary(), "failed to prepare directory");
    let r = AppError::MoveToolchain { from: "a".into(), to: "b".into(), source: "s".into() }.report();
    assert_eq!(lines(&r).1, vec!["- from: a", "- to: b", "- cause: s"]);
    let r = AppError::RemoveToolchain { path: "p".into(), source: "s".into() }.report();
    assert_eq!(r.summary(), "failed to remove toolchain");
    let r = AppError::ReadScript { path: "p".into(), source: "s".into() }.report();
    assert_eq!(r.summary(), "failed to read script");
    let r = AppError::Job(JobError::MissingScript { name: "x".into() }).report();
    assert_eq!(r.summary(), "script `x` is not defined");
    let r = AppError::PackageManager(PmError::InvalidTempPath { path: "t".into() }).report();
    assert_eq!(r.summary(), "temporary directory path is not valid UTF-8");
}

#[test]
fn pm_error_reports() {
    let r = PmError::VersionNotFound { package: "a".into(), range: "^9".into() }.report();
    assert_eq!(r.summary(), "no version of `a` satisfies the requested range");
    assert_eq!(lines(&r).1, vec!["- range: ^9"]);
    let r = PmError::AmbiguousBinEntry {
        package: "p".into(),
        path: "m".into(),
        available: vec!["x".into(), "y".into()],
    }
    .report();
    assert_eq!(lines(&r).1, vec!["- path: m", "- available: x, y"]);
    let r = PmError::PackageBinaryFailed {
        package: "p".into(),
        command: "c".into(),
        status: "1".into(),
        stderr: Some("oops".into()),
    }
    .report();
    assert_eq!(r.summary(), "binary of `p` failed");
    assert_eq!(lines(&r).1, vec!["- command: c", "- status: 1", "- stderr: oops"]);
    let r = PmError::PackageBinaryFailed { package: "p".into(), command: "c".into(), status: "1".into(), stderr: None }.report();
    assert_eq!(lines(&r).1, vec!["- command: c", "- status: 1"]);
    let r = PmError::InvalidPackageSpec { spec: "@x".into() }.report();
    assert_eq!(r.summary(), "invalid package spec `@x`");
    let r = PmError::CopyInstall { from: "a".into(), to: "b".into(), source: "s".into() }.report();
    assert_eq!(lines(&r).1, vec!["- from: a", "- to: b", "- cause: s"]);
    let r = PmError::MissingBinTarget { package_dir: "d".into(), target: "t".into() }.report();
    assert_eq!(lines(&r).1, vec!["- package: d", "- target: t"]);
    let r = PmError::IntegrityMismatch { package: "p".into(), version: "1.0.0".into(), source: "s".into() }.report();
    assert_eq!(r.summary(), "integrity check failed for `p`");
    assert_eq!(lines(&r).1, vec!["- version: 1.0.0", "- cause: s"]);
}
