//! Errors of the command-line front end and how they are reported.
use vstd::prelude::*;
use crate::job::{job_error_report, JobError};
use crate::pm::{pm_error_report, PmError};
use crate::report::{rv, Report, ReportView};

verus! {

/// What can go wrong in a command of the CLI.
#[derive(Debug)]
pub enum AppError {
    HomeDirUnavailable,
    ReadConfig { path: String, source: String },
    ParseConfigToml(String),
    MissingConfigField(String),
    CreateDir { path: String, source: String },
    InstallToolchain { user: String, repo: String, source: String },
    MissingToolchainSelection,
    ToolchainNotInstalled { toolchain: String, path: String },
    MoveToolchain { from: String, to: String, source: String },
    RemoveToolchain { path: String, source: String },
    ReadScript { path: String, source: String },
    PackageManager(PmError),
    Job(JobError),
    ToolchainExecution { toolchain: String, message: String },
}

/// The report that describes an error.
pub open spec fn app_error_report(e: AppError) -> ReportView {
    match e {
        AppError::HomeDirUnavailable => rv("could not resolve home directory"@, seq!["`$HOME` is unavailable in the current environment"@]),
        AppError::ReadConfig { path, source } => rv("failed to read config"@, seq!["path: "@ + path@, "cause: "@ + source@]),
        AppError::ParseConfigToml(source) => rv("failed to parse config"@, seq!["expected a valid TOML document"@, "cause: "@ + source@]),
        AppError::MissingConfigField(field) => rv("config field `"@ + field@ + "` is missing"@, seq!["set it in `~/.config/o-/config.toml`"@]),
        AppError::CreateDir { path, source } => rv("failed to prepare directory"@, seq!["path: "@ + path@, "cause: "@ + source@]),
        AppError::InstallToolchain { user, repo, source } => rv("failed to install toolchain `"@ + repo@ + "`"@, seq!["source: "@ + user@ + "/"@ + repo@, "cause: "@ + source@]),
        AppError::MissingToolchainSelection => rv("no toolchain is selected"@, seq!["set `toolchain.name` in `~/.config/o-/config.toml`"@]),
        AppError::ToolchainNotInstalled { toolchain, path } => rv("toolchain `"@ + toolchain@ + "` is not installed"@, seq!["path: "@ + path@, "install it with `o- toolchain add <user> <repo>`"@]),
        AppError::MoveToolchain { from, to, source } => rv("failed to place installed toolchain"@, seq!["from: "@ + from@, "to: "@ + to@, "cause: "@ + source@]),
        AppError::RemoveToolchain { path, source } => rv("failed to remove toolchain"@, seq!["path: "@ + path@, "cause: "@ + source@]),
        AppError::ReadScript { path, source } => rv("failed to read script"@, seq!["path: "@ + path@, "cause: "@ + source@]),
        AppError::ToolchainExecution { toolchain, message } => rv("toolchain `"@ + toolchain@ + "` failed"@, seq![message@]),
        AppError::PackageManager(pm) => pm_error_report(pm),
        AppError::Job(job) => job_error_report(job),
    }
}

impl AppError {
    /// The report that describes this error.
    pub fn report(&self) -> (r: Report)
        ensures
            r@ == app_error_report(*self),
    {
        match self {
            AppError::HomeDirUnavailable => {
                let r = Report::new("could not resolve home directory");
                let r = r.detail("`$HOME` is unavailable in the current environment");
                proof {
                    assert(r@.details =~= seq!["`$HOME` is unavailable in the current environment"@]);
                }
                r
            },
            AppError::ReadConfig { path, source } => {
                let r = Report::new("failed to read config");
                let mut d0 = String::new();
                d0.append("path: ");
                d0.append(path.as_str());
                let r = r.detail(d0.as_str());
                let mut d1 = String::new();
                d1.append("cause: ");
                d1.append(source.as_str());
                let r = r.detail(d1.as_str());
                proof {
                    assert(r@.details =~= seq!["path: "@ + path@, "cause: "@ + source@]);
                }
                r
            },
            AppError::ParseConfigToml(source) => {
                let r = Report::new("failed to parse config");
                let r = r.detail("expected a valid TOML document");
                let mut d1 = String::new();
                d1.append("cause: ");
                d1.append(source.as_str());
                let r = r.detail(d1.as_str());
                proof {
                    assert(r@.details =~= seq!["expected a valid TOML document"@, "cause: "@ + source@]);
                }
                r
            },
            AppError::MissingConfigField(field) => {
                let mut s = String::new();
                s.append("config field `");
                s.append(field.as_str());
                s.append("` is missing");
                let r = Report::new(s.as_str());
                let r = r.detail("set it in `~/.config/o-/config.toml`");
                proof {
                    assert(r@.details =~= seq!["set it in `~/.config/o-/config.toml`"@]);
                }
                r
            },
            AppError::CreateDir { path, source } => {
                let r = Report::new("failed to prepare directory");
                let mut d0 = String::new();
                d0.append("path: ");
                d0.append(path.as_str());
                let r = r.detail(d0.as_str());
                let mut d1 = String::new();
                d1.append("cause: ");
                d1.append(source.as_str());
                let r = r.detail(d1.as_str());
                proof {
                    assert(r@.details =~= seq!["path: "@ + path@, "cause: "@ + source@]);
                }
                r
            },
            AppError::InstallToolchain { user, repo, source } => {
                let mut s = String::new();
                s.append("failed to install toolchain `");
                s.append(repo.as_str());
                s.append("`");
                let r = Report::new(s.as_str());
                let mut d0 = String::new();
                d0.append("source: ");
                d0.append(user.as_str());
                d0.append("/");
                d0.append(repo.as_str());
                let r = r.detail(d0.as_str());
                let mut d1 = String::new();
                d1.append("cause: ");
                d1.append(source.as_str());
                let r = r.detail(d1.as_str());
                proof {
                    assert(r@.details =~= seq!["source: "@ + user@ + "/"@ + repo@, "cause: "@ + source@]);
                }
                r
            },
            AppError::MissingToolchainSelection => {
                let r = Report::new("no toolchain is selected");
                let r = r.detail("set `toolchain.name` in `~/.config/o-/config.toml`");
                proof {
                    assert(r@.details =~= seq!["set `toolchain.name` in `~/.config/o-/config.toml`"@]);
                }
                r
            },
            AppError::ToolchainNotInstalled { toolchain, path } => {
                let mut s = String::new();
                s.append("toolchain `");
                s.append(toolchain.as_str());
                s.append("` is not installed");
                let r = Report::new(s.as_str());
                let mut d0 = String::new();
                d0.append("path: ");
                d0.append(path.as_str());
                let r = r.detail(d0.as_str());
                let r = r.detail("install it with `o- toolchain add <user> <repo>`");
                proof {
                    assert(r@.details =~= seq!["path: "@ + path@, "install it with `o- toolchain add <user> <repo>`"@]);
                }
                r
            },
            AppError::MoveToolchain { from, to, source } => {
                let r = Report::new("failed to place installed toolchain");
                let mut d0 = String::new();
                d0.append("from: ");
                d0.append(from.as_str());
                let r = r.detail(d0.as_str());
                let mut d1 = String::new();
                d1.append("to: ");
                d1.append(to.as_str());
                let r = r.detail(d1.as_str());
                let mut d2 = String::new();
                d2.append("cause: ");
                d2.append(source.as_str());
                let r = r.detail(d2.as_str());
                proof {
                    assert(r@.details =~= seq!["from: "@ + from@, "to: "@ + to@, "cause: "@ + source@]);
                }
                r
            },
            AppError::RemoveToolchain { path, source } => {
                let r = Report::new("failed to remove toolchain");
                let mut d0 = String::new();
                d0.append("path: ");
                d0.append(path.as_str());
                let r = r.detail(d0.as_str());
                let mut d1 = String::new();
                d1.append("cause: ");
                d1.append(source.as_str());
                let r = r.detail(d1.as_str());
                proof {
                    assert(r@.details =~= seq!["path: "@ + path@, "cause: "@ + source@]);
                }
                r
            },
            AppError::ReadScript { path, source } => {
                let r = Report::new("failed to read script");
                let mut d0 = String::new();
                d0.append("path: ");
                d0.append(path.as_str());
                let r = r.detail(d0.as_str());
                let mut d1 = String::new();
                d1.append("cause: ");
                d1.append(source.as_str());
                let r = r.detail(d1.as_str());
                proof {
                    assert(r@.details =~= seq!["path: "@ + path@, "cause: "@ + source@]);
                }
                r
            },
            AppError::ToolchainExecution { toolchain, message } => {
                let mut s = String::new();
                s.append("toolchain `");
                s.append(toolchain.as_str());
                s.append("` failed");
                let r = Report::new(s.as_str());
                let r = r.detail(message.as_str());
                proof {
                    assert(r@.details =~= seq![message@]);
                }
                r
            },
            AppError::PackageManager(pm) => pm.report(),
            AppError::Job(job) => job.report(),
        }
    }
}

} // verus!
