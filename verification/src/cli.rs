//! The commands of the `o-` program and what each one sets out to do.
use vstd::prelude::*;
use crate::app_error::AppError;
use crate::error::{render_spec, JSError};
use crate::path::{push, push_path};
use crate::report::{cat2, cat3, rv, Report, ReportView};
use crate::text::{trim, trim_ws};

verus! {

/// The command line: one command.
#[derive(Debug, Clone, PartialEq, Eq, PartialOrd, Ord)]
pub struct Args {
    pub command: Commands,
}

/// The commands.
#[derive(Debug, Clone, PartialEq, Eq, PartialOrd, Ord)]
pub enum Commands {
    Run { path: String },
    Toolchain { command: ToolChainCommand },
    Install { global: bool, package: Option<String> },
    Uninstall { name: String },
}

/// The toolchain subcommands.
#[derive(Debug, Clone, PartialEq, Eq, PartialOrd, Ord)]
pub enum ToolChainCommand {
    Add { user: String, repo: String },
    Remove { toolchain: String },
}

/// The work a command leads to.
#[derive(Debug)]
pub enum Action {
    /// Run the script at `path` with the toolchain binary at `binary`.
    RunScript { path: String, toolchain: String, binary: String },
    /// Download and place a toolchain.
    AddToolchain { user: String, repo: String },
    /// Delete the toolchain binary at `path`.
    RemoveToolchain { toolchain: String, path: String },
    /// Install a package for the user.
    InstallGlobal { package: Option<String> },
    /// Install the dependencies of the project in the current directory.
    InstallProject,
    /// Remove a package installed for the user.
    Uninstall { name: String },
}

/// The `.config/o-` directory under the home directory.
pub open spec fn config_dir_spec(home: Seq<char>) -> Seq<char> {
    push_path(push_path(home, ".config"@), "o-"@)
}

/// The directory of installed toolchain binaries, under the home directory.
pub open spec fn toolchain_bin_dir_spec(home: Seq<char>) -> Seq<char> {
    push_path(push_path(config_dir_spec(home), "toolchains"@), "bin"@)
}

pub fn toolchain_bin_dir(home: &str) -> (dir: String)
    ensures
        dir@ == toolchain_bin_dir_spec(home@),
{
    let a = push(home, ".config");
    let b = push(a.as_str(), "o-");
    let c = push(b.as_str(), "toolchains");
    let d = push(c.as_str(), "bin");
    d
}

/// Where the binary of an installed toolchain lives.
pub fn resolve_toolchain_path(home: Option<&str>, name: &str) -> (r: Result<String, AppError>)
    ensures
        match home {
            Some(h) => r matches Ok(p) && p@ == push_path(toolchain_bin_dir_spec(h@), name@),
            None => r matches Err(AppError::HomeDirUnavailable),
        },
{
    match home {
        Some(h) => {
            let dir = toolchain_bin_dir(h);
            Ok(push(dir.as_str(), name))
        },
        None => Err(AppError::HomeDirUnavailable),
    }
}

/// The configuration file, under the home directory.
pub fn config_path(home: &str) -> (p: String)
    ensures
        p@ == push_path(config_dir_spec(home@), "config.toml"@),
{
    let a = push(home, ".config");
    let b = push(a.as_str(), "o-");
    let c = push(b.as_str(), "config.toml");
    c
}

/// The directory of the packages installed for the user.
pub fn global_packages_dir(home: &str) -> (p: String)
    ensures
        p@ == push_path(config_dir_spec(home@), "packages"@),
{
    let a = push(home, ".config");
    let b = push(a.as_str(), "o-");
    let c = push(b.as_str(), "packages");
    c
}

/// What a command sets out to do. Running a script needs a toolchain name
/// (trimmed; `MissingToolchainSelection` when empty) and the home
/// directory (`HomeDirUnavailable`), which give the binary's path;
/// removing a toolchain needs the home directory too.
pub fn process(args: Commands, toolchain: Option<&str>, home: Option<&str>) -> (r: Result<
    Action,
    AppError,
>)
    ensures
        match args {
            Commands::Run { path } => {
                let name = trim_ws(
                    match toolchain {
                        Some(t) => t@,
                        None => seq![],
                    },
                );
                if name.len() == 0 {
                    r matches Err(AppError::MissingToolchainSelection)
                } else {
                    match home {
                        None => r matches Err(AppError::HomeDirUnavailable),
                        Some(h) => r matches Ok(Action::RunScript { path: p, toolchain: t, binary })
                            && p == path && t@ == name && binary@ == push_path(
                            toolchain_bin_dir_spec(h@),
                            name,
                        ),
                    }
                }
            },
            Commands::Toolchain { command: ToolChainCommand::Add { user, repo } } => r matches Ok(
                Action::AddToolchain { user: u, repo: rp },
            ) && u == user && rp == repo,
            Commands::Toolchain { command: ToolChainCommand::Remove { toolchain: t } } => match home {
                None => r matches Err(AppError::HomeDirUnavailable),
                Some(h) => r matches Ok(Action::RemoveToolchain { toolchain: t2, path }) && t2 == t
                    && path@ == push_path(toolchain_bin_dir_spec(h@), t@),
            },
            Commands::Install { global, package } => if global {
                r matches Ok(Action::InstallGlobal { package: p }) && p == package
            } else {
                r matches Ok(Action::InstallProject)
            },
            Commands::Uninstall { name } => r matches Ok(Action::Uninstall { name: n }) && n == name,
        },
{
    match args {
        Commands::Run { path } => {
            let name = trim(
                match toolchain {
                    Some(t) => t,
                    None => "",
                },
            );
            proof {
                reveal_strlit("");
            }
            if crate::text::chars_of(name.as_str()).len() == 0 {
                return Err(AppError::MissingToolchainSelection);
            }
            let binary = resolve_toolchain_path(home, name.as_str())?;
            Ok(Action::RunScript { path, toolchain: name, binary })
        },
        Commands::Toolchain { command } => match command {
            ToolChainCommand::Add { user, repo } => Ok(Action::AddToolchain { user, repo }),
            ToolChainCommand::Remove { toolchain } => {
                let path = resolve_toolchain_path(home, toolchain.as_str())?;
                Ok(Action::RemoveToolchain { toolchain, path })
            },
        },
        Commands::Install { global, package } => {
            if global {
                Ok(Action::InstallGlobal { package })
            } else {
                Ok(Action::InstallProject)
            }
        },
        Commands::Uninstall { name } => Ok(Action::Uninstall { name }),
    }
}

/// Whether a script may run with the selected toolchain: `Ok` when its
/// binary is there, `ToolchainNotInstalled` with the toolchain's name and the
/// binary's path when it is not.
pub fn check_installed(toolchain: &str, binary: &str, exists: bool) -> (r: Result<(), AppError>)
    ensures
        exists ==> r is Ok,
        !exists ==> (r matches Err(AppError::ToolchainNotInstalled { toolchain: t, path: p })
            && t@ == toolchain@ && p@ == binary@),
{
    if exists {
        Ok(())
    } else {
        Err(
            AppError::ToolchainNotInstalled {
                toolchain: toolchain.to_owned(),
                path: binary.to_owned(),
            },
        )
    }
}

/// Where a downloaded toolchain's binary is inside the unpacked release.
pub fn installed_binary(unpacked: &str, repo: &str) -> (p: String)
    ensures
        p@ == push_path(push_path(unpacked@, "bin"@), repo@),
{
    let b = push(unpacked, "bin");
    push(b.as_str(), repo)
}

/// What adding a toolchain reports.
pub open spec fn toolchain_added_spec(user: Seq<char>, repo: Seq<char>, target: Seq<char>) -> ReportView {
    rv(
        "installed toolchain `"@ + repo + "`"@,
        seq!["source: "@ + user + "/"@ + repo, "binary: "@ + target],
    )
}

pub fn toolchain_added(user: &str, repo: &str, target: &str) -> (r: Report)
    ensures
        r@ == toolchain_added_spec(user@, repo@, target@),
{
    let summary = cat3("installed toolchain `", repo, "`");
    let source = cat3("source: ", user, "/");
    let source = cat2(source.as_str(), repo);
    let binary = cat2("binary: ", target);
    let r = Report::new(summary.as_str()).detail(source.as_str()).detail(binary.as_str());
    proof {
        let ds = seq!["source: "@ + user@ + "/"@ + repo@, "binary: "@ + target@];
        assert(seq![].push(ds[0]).push(ds[1]) =~= ds);
    }
    r
}

/// What removing a toolchain reports.
pub open spec fn toolchain_removed_spec(toolchain: Seq<char>, path: Seq<char>) -> ReportView {
    rv("removed toolchain `"@ + toolchain + "`"@, seq!["path: "@ + path])
}

pub fn toolchain_removed(toolchain: &str, path: &str) -> (r: Report)
    ensures
        r@ == toolchain_removed_spec(toolchain@, path@),
{
    let summary = cat3("removed toolchain `", toolchain, "`");
    let detail = cat2("path: ", path);
    let r = Report::new(summary.as_str()).detail(detail.as_str());
    proof {
        assert(seq![].push("path: "@ + path@) =~= seq!["path: "@ + path@]);
    }
    r
}

/// The error of a script run that the toolchain failed: the toolchain's
/// name and the rendered error.
pub fn execution_error(toolchain: &str, error: &JSError, color: bool) -> (e: AppError)
    ensures
        e matches AppError::ToolchainExecution { toolchain: t, message } && t@ == toolchain@
            && message@ == render_spec(error@, color),
{
    AppError::ToolchainExecution { toolchain: toolchain.to_owned(), message: error.render(color) }
}

} // verus!
