//! Package installation: manifests, version selection, integrity, bin
//! entries, and the errors of the installer.
use vstd::prelude::*;
use crate::report::{cat2, cat3, rv, Report, ReportView};
use crate::integrity::{
    check_integrity, parse_integrity, sri_matches, sri_mismatch_error, sri_parse_error, sri_parses,
};
use crate::semver::{
    greater, parse_range, parse_version, range_text, satisfies, semver_error_message,
    semver_error_text, semver_greater, semver_range_parses, semver_range_text, semver_satisfies,
    semver_version_parses, semver_version_text, version_text, SemverVersion,
};
use crate::text::{join_strings, join_with, trim_ws, views_of};

verus! {

/// The parts of a package manifest (`package.json`) that installing and
/// running scripts read. Dependency lists and scripts are (name, value)
/// pairs.
pub struct Manifest {
    pub name: String,
    pub version: String,
    pub dependencies: Option<Vec<(String, String)>>,
    pub dev_dependencies: Option<Vec<(String, String)>>,
    pub optional_dependencies: Option<Vec<(String, String)>>,
    pub peer_dependencies: Option<Vec<(String, String)>>,
    pub scripts: Option<Vec<(String, String)>>,
}

/// A dependency list, empty when absent.
pub open spec fn dep_list_view(o: Option<Vec<(String, String)>>) -> Seq<(String, String)> {
    match o {
        Some(v) => v@,
        None => seq![],
    }
}

/// What can go wrong while installing packages. Paths are carried as displayed text and causes as their messages.
#[derive(Debug)]
pub enum PmError {
    FindManifest { start: String, source: String },
    ReadManifest { path: String, source: String },
    ParseManifest { path: String, source: String },
    ProjectRootMissing { path: String },
    CreateDir { path: String, source: String },
    FetchMetadata { package: String, source: String },
    MetadataStatus { package: String, source: String },
    ReadMetadataBody { package: String, source: String },
    ParseMetadata { package: String, source: String },
    InvalidRange { package: String, range: String, source: String },
    VersionNotFound { package: String, range: String },
    MissingResolvedVersion { package: String, version: String },
    DownloadTarball { package: String, source: String },
    TarballStatus { package: String, source: String },
    ReadTarballBody { package: String, source: String },
    InvalidIntegrity { package: String, version: String, source: String },
    IntegrityMismatch { package: String, version: String, source: String },
    ExtractTarball { package: String, source: String },
    MissingPackageDir { package: String, path: String },
    RemoveExistingInstall { path: String, source: String },
    CopyInstall { from: String, to: String, source: String },
    ReadInstalledManifest { path: String, source: String },
    MissingInstalledName { path: String },
    InvalidBinField { path: String },
    InvalidBinEntry { path: String, entry: String },
    MissingBinTarget { package_dir: String, target: String },
    CreateBinLink { command: String, path: String, source: String },
    WriteLockfile { path: String, source: String },
    InvalidPackageSpec { spec: String },
    CreateTempDir { source: String },
    WriteGeneratedManifest { path: String, source: String },
    InvalidTempPath { path: String },
    MissingPackageBinary { package: String, command: String, path: String },
    SpawnPackageBinary { package: String, command: String, source: String },
    PackageBinaryFailed { package: String, command: String, status: String, stderr: Option<String> },
    AmbiguousBinEntry { package: String, path: String, available: Vec<String> },
    WriteProcessOutput { source: String },
}

/// The report that describes an error.
pub open spec fn pm_error_report(e: PmError) -> ReportView {
    match e {
        PmError::FindManifest { start, source } => rv("failed to find package.json"@, seq!["start: "@ + start@, "cause: "@ + source@]),
        PmError::ReadManifest { path, source } => rv("failed to read package.json"@, seq!["path: "@ + path@, "cause: "@ + source@]),
        PmError::ParseManifest { path, source } => rv("failed to parse package.json"@, seq!["path: "@ + path@, "cause: "@ + source@]),
        PmError::ProjectRootMissing { path } => rv("failed to resolve project root"@, seq!["path: "@ + path@]),
        PmError::CreateDir { path, source } => rv("failed to create directory"@, seq!["path: "@ + path@, "cause: "@ + source@]),
        PmError::FetchMetadata { package, source } => rv("failed to fetch package metadata for `"@ + package@ + "`"@, seq!["cause: "@ + source@]),
        PmError::MetadataStatus { package, source } => rv("registry returned an error for `"@ + package@ + "`"@, seq!["cause: "@ + source@]),
        PmError::ReadMetadataBody { package, source } => rv("failed to read package metadata body for `"@ + package@ + "`"@, seq!["cause: "@ + source@]),
        PmError::ParseMetadata { package, source } => rv("failed to decode package metadata for `"@ + package@ + "`"@, seq!["cause: "@ + source@]),
        PmError::InvalidRange { package, range, source } => rv("invalid semver range for `"@ + package@ + "`"@, seq!["range: "@ + range@, "cause: "@ + source@]),
        PmError::VersionNotFound { package, range } => rv("no version of `"@ + package@ + "` satisfies the requested range"@, seq!["range: "@ + range@]),
        PmError::MissingResolvedVersion { package, version } => rv("registry metadata is incomplete for `"@ + package@ + "`"@, seq!["version: "@ + version@]),
        PmError::DownloadTarball { package, source } => rv("failed to download tarball for `"@ + package@ + "`"@, seq!["cause: "@ + source@]),
        PmError::TarballStatus { package, source } => rv("tarball request failed for `"@ + package@ + "`"@, seq!["cause: "@ + source@]),
        PmError::ReadTarballBody { package, source } => rv("failed to read tarball body for `"@ + package@ + "`"@, seq!["cause: "@ + source@]),
        PmError::InvalidIntegrity { package, version, source } => rv("registry integrity is invalid for `"@ + package@ + "`"@, seq!["version: "@ + version@, "cause: "@ + source@]),
        PmError::IntegrityMismatch { package, version, source } => rv("integrity check failed for `"@ + package@ + "`"@, seq!["version: "@ + version@, "cause: "@ + source@]),
        PmError::ExtractTarball { package, source } => rv("failed to extract tarball for `"@ + package@ + "`"@, seq!["cause: "@ + source@]),
        PmError::MissingPackageDir { package, path } => rv("downloaded tarball for `"@ + package@ + "` is malformed"@, seq!["missing: "@ + path@]),
        PmError::RemoveExistingInstall { path, source } => rv("failed to remove existing package installation"@, seq!["path: "@ + path@, "cause: "@ + source@]),
        PmError::CopyInstall { from, to, source } => rv("failed to copy package files"@, seq!["from: "@ + from@, "to: "@ + to@, "cause: "@ + source@]),
        PmError::ReadInstalledManifest { path, source } => rv("failed to read installed package manifest"@, seq!["path: "@ + path@, "cause: "@ + source@]),
        PmError::MissingInstalledName { path } => rv("installed package manifest is missing `name`"@, seq!["path: "@ + path@]),
        PmError::InvalidBinField { path } => rv("installed package has an invalid `bin` field"@, seq!["path: "@ + path@]),
        PmError::InvalidBinEntry { path, entry } => rv("installed package has an invalid `bin` entry"@, seq!["path: "@ + path@, "entry: "@ + entry@]),
        PmError::MissingBinTarget { package_dir, target } => rv("installed package bin target does not exist"@, seq!["package: "@ + package_dir@, "target: "@ + target@]),
        PmError::CreateBinLink { command, path, source } => rv("failed to create bin link `"@ + command@ + "`"@, seq!["path: "@ + path@, "cause: "@ + source@]),
        PmError::WriteLockfile { path, source } => rv("failed to write package-lock.json"@, seq!["path: "@ + path@, "cause: "@ + source@]),
        PmError::InvalidPackageSpec { spec } => rv("invalid package spec `"@ + spec@ + "`"@, seq!["expected `<name>` or `<name>@<version>`"@]),
        PmError::CreateTempDir { source } => rv("failed to create temporary directory"@, seq!["cause: "@ + source@]),
        PmError::WriteGeneratedManifest { path, source } => rv("failed to write generated package.json"@, seq!["path: "@ + path@, "cause: "@ + source@]),
        PmError::InvalidTempPath { path } => rv("temporary directory path is not valid UTF-8"@, seq!["path: "@ + path@]),
        PmError::MissingPackageBinary { package, command, path } => rv("package `"@ + package@ + "` does not provide `"@ + command@ + "`"@, seq!["path: "@ + path@]),
        PmError::SpawnPackageBinary { package, command, source } => rv("failed to start binary of `"@ + package@ + "`"@, seq!["command: "@ + command@, "cause: "@ + source@]),
        PmError::WriteProcessOutput { source } => rv("failed to write process output"@, seq!["cause: "@ + source@]),
        PmError::PackageBinaryFailed { package, command, status, stderr } => {
            let base = seq!["command: "@ + command@, "status: "@ + status@];
            rv("binary of `"@ + package@ + "` failed"@, match stderr {
                Some(err) => base.push("stderr: "@ + err@),
                None => base,
            })
        },
        PmError::AmbiguousBinEntry { package, path, available } => rv(
            "package `"@ + package@ + "` exposes several binaries"@,
            seq!["path: "@ + path@, "available: "@ + join_with(views_of(available@), ", "@)],
        ),
    }
}

impl PmError {
    /// The report that describes this error.
    pub fn report(&self) -> (r: Report)
        ensures
            r@ == pm_error_report(*self),
    {
        match self {
            PmError::FindManifest { start, source } => {
                let r = Report::new("failed to find package.json");
                let mut d0 = String::new();
                d0.append("start: ");
                d0.append(start.as_str());
                let r = r.detail(d0.as_str());
                let mut d1 = String::new();
                d1.append("cause: ");
                d1.append(source.as_str());
                let r = r.detail(d1.as_str());
                proof {
                    assert(r@.details =~= seq!["start: "@ + start@, "cause: "@ + source@]);
                }
                r
            },
            PmError::ReadManifest { path, source } => {
                let r = Report::new("failed to read package.json");
                let mut d0 = String::new();
                d0.append("path: ");
                d0.append(path.as_str());
                let r = r.detail(d0.as_str());
                let mut d1 = String::new();
                d1.append("cause: ");
                d1.append(source.as_str());
                let r = r.detail(d1.as_str());
                proof {
                    assert(r@.details =~= seq!["path: "@ + path@, "cause: "@ + source@]);
                }
                r
            },
            PmError::ParseManifest { path, source } => {
                let r = Report::new("failed to parse package.json");
                let mut d0 = String::new();
                d0.append("path: ");
                d0.append(path.as_str());
                let r = r.detail(d0.as_str());
                let mut d1 = String::new();
                d1.append("cause: ");
                d1.append(source.as_str());
                let r = r.detail(d1.as_str());
                proof {
                    assert(r@.details =~= seq!["path: "@ + path@, "cause: "@ + source@]);
                }
                r
            },
            PmError::ProjectRootMissing { path } => {
                let r = Report::new("failed to resolve project root");
                let mut d0 = String::new();
                d0.append("path: ");
                d0.append(path.as_str());
                let r = r.detail(d0.as_str());
                proof {
                    assert(r@.details =~= seq!["path: "@ + path@]);
                }
                r
            },
            PmError::CreateDir { path, source } => {
                let r = Report::new("failed to create directory");
                let mut d0 = String::new();
                d0.append("path: ");
                d0.append(path.as_str());
                let r = r.detail(d0.as_str());
                let mut d1 = String::new();
                d1.append("cause: ");
                d1.append(source.as_str());
                let r = r.detail(d1.as_str());
                proof {
                    assert(r@.details =~= seq!["path: "@ + path@, "cause: "@ + source@]);
                }
                r
            },
            PmError::FetchMetadata { package, source } => {
                let mut s = String::new();
                s.append("failed to fetch package metadata for `");
                s.append(package.as_str());
                s.append("`");
                let r = Report::new(s.as_str());
                let mut d0 = String::new();
                d0.append("cause: ");
                d0.append(source.as_str());
                let r = r.detail(d0.as_str());
                proof {
                    assert(r@.details =~= seq!["cause: "@ + source@]);
                }
                r
            },
            PmError::MetadataStatus { package, source } => {
                let mut s = String::new();
                s.append("registry returned an error for `");
                s.append(package.as_str());
                s.append("`");
                let r = Report::new(s.as_str());
                let mut d0 = String::new();
                d0.append("cause: ");
                d0.append(source.as_str());
                let r = r.detail(d0.as_str());
                proof {
                    assert(r@.details =~= seq!["cause: "@ + source@]);
                }
                r
            },
            PmError::ReadMetadataBody { package, source } => {
                let mut s = String::new();
                s.append("failed to read package metadata body for `");
                s.append(package.as_str());
                s.append("`");
                let r = Report::new(s.as_str());
                let mut d0 = String::new();
                d0.append("cause: ");
                d0.append(source.as_str());
                let r = r.detail(d0.as_str());
                proof {
                    assert(r@.details =~= seq!["cause: "@ + source@]);
                }
                r
            },
            PmError::ParseMetadata { package, source } => {
                let mut s = String::new();
                s.append("failed to decode package metadata for `");
                s.append(package.as_str());
                s.append("`");
                let r = Report::new(s.as_str());
                let mut d0 = String::new();
                d0.append("cause: ");
                d0.append(source.as_str());
                let r = r.detail(d0.as_str());
                proof {
                    assert(r@.details =~= seq!["cause: "@ + source@]);
                }
                r
            },
            PmError::InvalidRange { package, range, source } => {
                let mut s = String::new();
                s.append("invalid semver range for `");
                s.append(package.as_str());
                s.append("`");
                let r = Report::new(s.as_str());
                let mut d0 = String::new();
                d0.append("range: ");
                d0.append(range.as_str());
                let r = r.detail(d0.as_str());
                let mut d1 = String::new();
                d1.append("cause: ");
                d1.append(source.as_str());
                let r = r.detail(d1.as_str());
                proof {
                    assert(r@.details =~= seq!["range: "@ + range@, "cause: "@ + source@]);
                }
                r
            },
            PmError::VersionNotFound { package, range } => {
                let mut s = String::new();
                s.append("no version of `");
                s.append(package.as_str());
                s.append("` satisfies the requested range");
                let r = Report::new(s.as_str());
                let mut d0 = String::new();
                d0.append("range: ");
                d0.append(range.as_str());
                let r = r.detail(d0.as_str());
                proof {
                    assert(r@.details =~= seq!["range: "@ + range@]);
                }
                r
            },
            PmError::MissingResolvedVersion { package, version } => {
                let mut s = String::new();
                s.append("registry metadata is incomplete for `");
                s.append(package.as_str());
                s.append("`");
                let r = Report::new(s.as_str());
                let mut d0 = String::new();
                d0.append("version: ");
                d0.append(version.as_str());
                let r = r.detail(d0.as_str());
                proof {
                    assert(r@.details =~= seq!["version: "@ + version@]);
                }
                r
            },
            PmError::DownloadTarball { package, source } => {
                let mut s = String::new();
                s.append("failed to download tarball for `");
                s.append(package.as_str());
                s.append("`");
                let r = Report::new(s.as_str());
                let mut d0 = String::new();
                d0.append("cause: ");
                d0.append(source.as_str());
                let r = r.detail(d0.as_str());
                proof {
                    assert(r@.details =~= seq!["cause: "@ + source@]);
                }
                r
            },
            PmError::TarballStatus { package, source } => {
                let mut s = String::new();
                s.append("tarball request failed for `");
                s.append(package.as_str());
                s.append("`");
                let r = Report::new(s.as_str());
                let mut d0 = String::new();
                d0.append("cause: ");
                d0.append(source.as_str());
                let r = r.detail(d0.as_str());
                proof {
                    assert(r@.details =~= seq!["cause: "@ + source@]);
                }
                r
            },
            PmError::ReadTarballBody { package, source } => {
                let mut s = String::new();
                s.append("failed to read tarball body for `");
                s.append(package.as_str());
                s.append("`");
                let r = Report::new(s.as_str());
                let mut d0 = String::new();
                d0.append("cause: ");
                d0.append(source.as_str());
                let r = r.detail(d0.as_str());
                proof {
                    assert(r@.details =~= seq!["cause: "@ + source@]);
                }
                r
            },
            PmError::InvalidIntegrity { package, version, source } => {
                let mut s = String::new();
                s.append("registry integrity is invalid for `");
                s.append(package.as_str());
                s.append("`");
                let r = Report::new(s.as_str());
                let mut d0 = String::new();
                d0.append("version: ");
                d0.append(version.as_str());
                let r = r.detail(d0.as_str());
                let mut d1 = String::new();
                d1.append("cause: ");
                d1.append(source.as_str());
                let r = r.detail(d1.as_str());
                proof {
                    assert(r@.details =~= seq!["version: "@ + version@, "cause: "@ + source@]);
                }
                r
            },
            PmError::IntegrityMismatch { package, version, source } => {
                let mut s = String::new();
                s.append("integrity check failed for `");
                s.append(package.as_str());
                s.append("`");
                let r = Report::new(s.as_str());
                let mut d0 = String::new();
                d0.append("version: ");
                d0.append(version.as_str());
                let r = r.detail(d0.as_str());
                let mut d1 = String::new();
                d1.append("cause: ");
                d1.append(source.as_str());
                let r = r.detail(d1.as_str());
                proof {
                    assert(r@.details =~= seq!["version: "@ + version@, "cause: "@ + source@]);
                }
                r
            },
            PmError::ExtractTarball { package, source } => {
                let mut s = String::new();
                s.append("failed to extract tarball for `");
                s.append(package.as_str());
                s.append("`");
                let r = Report::new(s.as_str());
                let mut d0 = String::new();
                d0.append("cause: ");
                d0.append(source.as_str());
                let r = r.detail(d0.as_str());
                proof {
                    assert(r@.details =~= seq!["cause: "@ + source@]);
                }
                r
            },
            PmError::MissingPackageDir { package, path } => {
                let mut s = String::new();
                s.append("downloaded tarball for `");
                s.append(package.as_str());
                s.append("` is malformed");
                let r = Report::new(s.as_str());
                let mut d0 = String::new();
                d0.append("missing: ");
                d0.append(path.as_str());
                let r = r.detail(d0.as_str());
                proof {
                    assert(r@.details =~= seq!["missing: "@ + path@]);
                }
                r
            },
            PmError::RemoveExistingInstall { path, source } => {
                let r = Report::new("failed to remove existing package installation");
                let mut d0 = String::new();
                d0.append("path: ");
                d0.append(path.as_str());
                let r = r.detail(d0.as_str());
                let mut d1 = String::new();
                d1.append("cause: ");
                d1.append(source.as_str());
                let r = r.detail(d1.as_str());
                proof {
                    assert(r@.details =~= seq!["path: "@ + path@, "cause: "@ + source@]);
                }
                r
            },
            PmError::CopyInstall { from, to, source } => {
                let r = Report::new("failed to copy package files");
                let mut d0 = String::new();
                d0.append("from: ");
                d0.append(from.as_str());
                let r = r.detail(d0.as_str());
                let mut d1 = String::new();
                d1.append("to: ");
                d1.append(to.as_str());
                let r = r.detail(d1.as_str());
                let mut d2 = String::new();
                d2.append("cause: ");
                d2.append(source.as_str());
                let r = r.detail(d2.as_str());
                proof {
                    assert(r@.details =~= seq!["from: "@ + from@, "to: "@ + to@, "cause: "@ + source@]);
                }
                r
            },
            PmError::ReadInstalledManifest { path, source } => {
                let r = Report::new("failed to read installed package manifest");
                let mut d0 = String::new();
                d0.append("path: ");
                d0.append(path.as_str());
                let r = r.detail(d0.as_str());
                let mut d1 = String::new();
                d1.append("cause: ");
                d1.append(source.as_str());
                let r = r.detail(d1.as_str());
                proof {
                    assert(r@.details =~= seq!["path: "@ + path@, "cause: "@ + source@]);
                }
                r
            },
            PmError::MissingInstalledName { path } => {
                let r = Report::new("installed package manifest is missing `name`");
                let mut d0 = String::new();
                d0.append("path: ");
                d0.append(path.as_str());
                let r = r.detail(d0.as_str());
                proof {
                    assert(r@.details =~= seq!["path: "@ + path@]);
                }
                r
            },
            PmError::InvalidBinField { path } => {
                let r = Report::new("installed package has an invalid `bin` field");
                let mut d0 = String::new();
                d0.append("path: ");
                d0.append(path.as_str());
                let r = r.detail(d0.as_str());
                proof {
                    assert(r@.details =~= seq!["path: "@ + path@]);
                }
                r
            },
            PmError::InvalidBinEntry { path, entry } => {
                let r = Report::new("installed package has an invalid `bin` entry");
                let mut d0 = String::new();
                d0.append("path: ");
                d0.append(path.as_str());
                let r = r.detail(d0.as_str());
                let mut d1 = String::new();
                d1.append("entry: ");
                d1.append(entry.as_str());
                let r = r.detail(d1.as_str());
                proof {
                    assert(r@.details =~= seq!["path: "@ + path@, "entry: "@ + entry@]);
                }
                r
            },
            PmError::MissingBinTarget { package_dir, target } => {
                let r = Report::new("installed package bin target does not exist");
                let mut d0 = String::new();
                d0.append("package: ");
                d0.append(package_dir.as_str());
                let r = r.detail(d0.as_str());
                let mut d1 = String::new();
                d1.append("target: ");
                d1.append(target.as_str());
                let r = r.detail(d1.as_str());
                proof {
                    assert(r@.details =~= seq!["package: "@ + package_dir@, "target: "@ + target@]);
                }
                r
            },
            PmError::CreateBinLink { command, path, source } => {
                let mut s = String::new();
                s.append("failed to create bin link `");
                s.append(command.as_str());
                s.append("`");
                let r = Report::new(s.as_str());
                let mut d0 = String::new();
                d0.append("path: ");
                d0.append(path.as_str());
                let r = r.detail(d0.as_str());
                let mut d1 = String::new();
                d1.append("cause: ");
                d1.append(source.as_str());
                let r = r.detail(d1.as_str());
                proof {
                    assert(r@.details =~= seq!["path: "@ + path@, "cause: "@ + source@]);
                }
                r
            },
            PmError::WriteLockfile { path, source } => {
                let r = Report::new("failed to write package-lock.json");
                let mut d0 = String::new();
                d0.append("path: ");
                d0.append(path.as_str());
                let r = r.detail(d0.as_str());
                let mut d1 = String::new();
                d1.append("cause: ");
                d1.append(source.as_str());
                let r = r.detail(d1.as_str());
                proof {
                    assert(r@.details =~= seq!["path: "@ + path@, "cause: "@ + source@]);
                }
                r
            },
            PmError::InvalidPackageSpec { spec } => {
                let mut s = String::new();
                s.append("invalid package spec `");
                s.append(spec.as_str());
                s.append("`");
                let r = Report::new(s.as_str());
                let r = r.detail("expected `<name>` or `<name>@<version>`");
                proof {
                    assert(r@.details =~= seq!["expected `<name>` or `<name>@<version>`"@]);
                }
                r
            },
            PmError::CreateTempDir { source } => {
                let r = Report::new("failed to create temporary directory");
                let mut d0 = String::new();
                d0.append("cause: ");
                d0.append(source.as_str());
                let r = r.detail(d0.as_str());
                proof {
                    assert(r@.details =~= seq!["cause: "@ + source@]);
                }
                r
            },
            PmError::WriteGeneratedManifest { path, source } => {
                let r = Report::new("failed to write generated package.json");
                let mut d0 = String::new();
                d0.append("path: ");
                d0.append(path.as_str());
                let r = r.detail(d0.as_str());
                let mut d1 = String::new();
                d1.append("cause: ");
                d1.append(source.as_str());
                let r = r.detail(d1.as_str());
                proof {
                    assert(r@.details =~= seq!["path: "@ + path@, "cause: "@ + source@]);
                }
                r
            },
            PmError::InvalidTempPath { path } => {
                let r = Report::new("temporary directory path is not valid UTF-8");
                let mut d0 = String::new();
                d0.append("path: ");
                d0.append(path.as_str());
                let r = r.detail(d0.as_str());
                proof {
                    assert(r@.details =~= seq!["path: "@ + path@]);
                }
                r
            },
            PmError::MissingPackageBinary { package, command, path } => {
                let mut s = String::new();
                s.append("package `");
                s.append(package.as_str());
                s.append("` does not provide `");
                s.append(command.as_str());
                s.append("`");
                let r = Report::new(s.as_str());
                let mut d0 = String::new();
                d0.append("path: ");
                d0.append(path.as_str());
                let r = r.detail(d0.as_str());
                proof {
                    assert(r@.details =~= seq!["path: "@ + path@]);
                }
                r
            },
            PmError::SpawnPackageBinary { package, command, source } => {
                let mut s = String::new();
                s.append("failed to start binary of `");
                s.append(package.as_str());
                s.append("`");
                let r = Report::new(s.as_str());
                let mut d0 = String::new();
                d0.append("command: ");
                d0.append(command.as_str());
                let r = r.detail(d0.as_str());
                let mut d1 = String::new();
                d1.append("cause: ");
                d1.append(source.as_str());
                let r = r.detail(d1.as_str());
                proof {
                    assert(r@.details =~= seq!["command: "@ + command@, "cause: "@ + source@]);
                }
                r
            },
            PmError::WriteProcessOutput { source } => {
                let r = Report::new("failed to write process output");
                let mut d0 = String::new();
                d0.append("cause: ");
                d0.append(source.as_str());
                let r = r.detail(d0.as_str());
                proof {
                    assert(r@.details =~= seq!["cause: "@ + source@]);
                }
                r
            },
            PmError::PackageBinaryFailed { package, command, status, stderr } => {
                let s = cat3("binary of `", package.as_str(), "` failed");
                let r = Report::new(s.as_str());
                let r = r.detail(cat2("command: ", command.as_str()).as_str());
                let r = r.detail(cat2("status: ", status.as_str()).as_str());
                match stderr {
                    Some(err) => {
                        let r = r.detail(cat2("stderr: ", err.as_str()).as_str());
                        proof {
                            assert(r@.details =~= seq!["command: "@ + command@, "status: "@ + status@].push("stderr: "@ + err@));
                        }
                        r
                    },
                    None => {
                        proof {
                            assert(r@.details =~= seq!["command: "@ + command@, "status: "@ + status@]);
                        }
                        r
                    },
                }
            },
            PmError::AmbiguousBinEntry { package, path, available } => {
                let s = cat3("package `", package.as_str(), "` exposes several binaries");
                let r = Report::new(s.as_str());
                let r = r.detail(cat2("path: ", path.as_str()).as_str());
                let joined = join_strings(available.as_slice(), ", ");
                let r = r.detail(cat2("available: ", joined.as_str()).as_str());
                proof {
                    assert(r@.details =~= seq!["path: "@ + path@, "available: "@ + join_with(views_of(available@), ", "@)]);
                }
                r
            },
        }
    }
}

} // verus!

verus! {

/// One version of a package as the registry describes it.
pub struct RegistryVersion {
    pub version: String,
    pub dependencies: Vec<(String, String)>,
    pub tarball: String,
    pub integrity: Option<String>,
}

/// A package's registry document: its versions, in the order they are read.
pub struct Packument {
    pub versions: Vec<RegistryVersion>,
}

/// The version chosen for a dependency and what installing it needs.
#[derive(Debug)]
pub struct ResolvedPackage {
    pub name: String,
    pub version: String,
    pub dependencies: Vec<(String, String)>,
    pub tarball_url: String,
    pub integrity: Option<String>,
}

/// The versions that parse and satisfy the range, in packument order.
pub open spec fn candidates(vs: Seq<RegistryVersion>, range: Seq<char>) -> Seq<Seq<char>>
    decreases vs.len(),
{
    if vs.len() == 0 {
        seq![]
    } else {
        let rest = candidates(vs.drop_last(), range);
        let v = vs.last().version@;
        if semver_version_parses(v) && semver_satisfies(v, range) {
            rest.push(v)
        } else {
            rest
        }
    }
}

/// The greatest of the candidates: going left to right, a later one
/// replaces the one kept unless the kept one is greater (so among equal
/// versions the last wins, as `Iterator::max`).
pub open spec fn latest(cs: Seq<Seq<char>>) -> Seq<char>
    decreases cs.len(),
{
    if cs.len() <= 1 {
        cs[0]
    } else {
        let acc = latest(cs.drop_last());
        if semver_greater(acc, cs.last()) {
            acc
        } else {
            cs.last()
        }
    }
}

/// Every candidate parses as a version and satisfies the range.
pub proof fn lemma_candidates_satisfy(vs: Seq<RegistryVersion>, range: Seq<char>, j: int)
    requires
        0 <= j < candidates(vs, range).len(),
    ensures
        semver_version_parses(candidates(vs, range)[j]),
        semver_satisfies(candidates(vs, range)[j], range),
        exists|i: int| 0 <= i < vs.len() && #[trigger] vs[i].version@ == candidates(vs, range)[j],
    decreases vs.len(),
{
    if vs.len() > 0 {
        let rest = candidates(vs.drop_last(), range);
        if j < rest.len() {
            lemma_candidates_satisfy(vs.drop_last(), range, j);
            let i = choose|i: int| 0 <= i < vs.drop_last().len() && #[trigger] vs.drop_last()[i].version@
                == rest[j];
            assert(vs[i] == vs.drop_last()[i]);
        } else {
            assert(vs[vs.len() - 1].version@ == candidates(vs, range)[j]);
        }
    }
}

/// The greatest candidate is one of the candidates.
pub proof fn lemma_latest_is_candidate(cs: Seq<Seq<char>>)
    requires
        cs.len() > 0,
    ensures
        exists|j: int| 0 <= j < cs.len() && cs[j] == latest(cs),
    decreases cs.len(),
{
    if cs.len() > 1 {
        lemma_latest_is_candidate(cs.drop_last());
        let j = choose|j: int| 0 <= j < cs.drop_last().len() && cs.drop_last()[j] == latest(cs.drop_last());
        assert(cs[j] == cs.drop_last()[j]);
        assert(cs[cs.len() - 1] == cs.last());
    } else {
        assert(cs[0] == latest(cs));
    }
}

/// The version chosen for a range comes from a published version that
/// parses and satisfies the range: resolving pins the range to one exact
/// version the registry offers for it, printed as that version prints.
pub proof fn law_resolved_version_satisfies(vs: Seq<RegistryVersion>, range: Seq<char>)
    requires
        candidates(vs, range).len() > 0,
    ensures
        exists|i: int|
            0 <= i < vs.len() && semver_version_parses(#[trigger] vs[i].version@) && semver_satisfies(
                vs[i].version@,
                range,
            ) && semver_version_text(vs[i].version@) == semver_version_text(
                latest(candidates(vs, range)),
            ),
{
    let cs = candidates(vs, range);
    lemma_latest_is_candidate(cs);
    let j = choose|j: int| 0 <= j < cs.len() && cs[j] == latest(cs);
    lemma_candidates_satisfy(vs, range, j);
    let i = choose|i: int| 0 <= i < vs.len() && #[trigger] vs[i].version@ == cs[j];
    assert(semver_version_parses(vs[i].version@));
}

/// The first index whose version text is `text`, or -1.
pub open spec fn entry_index(vs: Seq<RegistryVersion>, text: Seq<char>, i: int) -> int
    decreases vs.len() - i,
{
    if i < 0 || i >= vs.len() {
        -1
    } else if vs[i].version@ == text {
        i
    } else {
        entry_index(vs, text, i + 1)
    }
}

/// The resolved package `name` at `version`, taken from entry `e` of the packument.
pub open spec fn resolved_as(r: ResolvedPackage, name: Seq<char>, version: Seq<char>, e: RegistryVersion) -> bool {
    &&& r.name@ == name
    &&& r.version@ == version
    &&& r.dependencies@ == e.dependencies@
    &&& r.tarball_url@ == e.tarball@
    &&& r.integrity == e.integrity
}

/// The packument entry whose version text is `version`, as the package
/// `name` to install; `MissingResolvedVersion` when there is none.
pub fn resolved_from_entry(name: &str, version: &str, packument: &Packument) -> (r: Result<
    ResolvedPackage,
    PmError,
>)
    ensures
        ({
            let k = entry_index(packument.versions@, version@, 0);
            match r {
                Ok(p) => k >= 0 && resolved_as(p, name@, version@, packument.versions@[k]),
                Err(e) => k == -1 && (e matches PmError::MissingResolvedVersion { package, version: v }
                    && package@ == name@ && v@ == version@),
            }
        }),
{
    let vs = &packument.versions;
    let want = crate::text::chars_of(version);
    let mut i: usize = 0;
    while i < vs.len()
        invariant
            i <= vs@.len(),
            want@ == version@,
            vs@ == packument.versions@,
            entry_index(vs@, version@, 0) == entry_index(vs@, version@, i as int),
        decreases vs@.len() - i,
    {
        let have = crate::text::chars_of(vs[i].version.as_str());
        if crate::text::chars_eq(have.as_slice(), want.as_slice()) {
            assert(entry_index(vs@, version@, i as int) == i);
            let e = &vs[i];
            return Ok(
                ResolvedPackage {
                    name: name.to_owned(),
                    version: version.to_owned(),
                    dependencies: clone_pairs(&e.dependencies),
                    tarball_url: e.tarball.clone(),
                    integrity: match &e.integrity {
                        Some(s) => Some(s.clone()),
                        None => None,
                    },
                },
            );
        }
        i = i + 1;
    }
    Err(PmError::MissingResolvedVersion { package: name.to_owned(), version: version.to_owned() })
}

/// A copy of a list of string pairs.
pub fn clone_pairs(v: &Vec<(String, String)>) -> (out: Vec<(String, String)>)
    ensures
        out@ == v@,
{
    let mut out: Vec<(String, String)> = Vec::new();
    let mut i: usize = 0;
    while i < v.len()
        invariant
            i <= v@.len(),
            out@ == v@.take(i as int),
        decreases v@.len() - i,
    {
        let a = v[i].0.clone();
        let b = v[i].1.clone();
        out.push((a, b));
        i = i + 1;
        proof {
            assert(out@ =~= v@.take(i as int));
        }
    }
    proof {
        assert(v@.take(v@.len() as int) == v@);
    }
    out
}

/// Chooses the version of `name` for `range` from its packument: the
/// greatest version that parses and satisfies the range (see `latest`),
/// printed as the version prints, and the packument entry under that text.
/// No candidate is greater than the chosen one.
/// Errors: `InvalidRange` when the range does not parse (with the parser's
/// message), `VersionNotFound` when no version qualifies (with the range as
/// it prints), `MissingResolvedVersion` when no entry has the printed text.
pub fn resolve_from_packument(name: &str, range: &str, packument: &Packument) -> (r: Result<
    ResolvedPackage,
    PmError,
>)
    ensures
        !semver_range_parses(range@) ==> (r matches Err(PmError::InvalidRange { package, range: rg, source })
            && package@ == name@ && rg@ == range@ && source@ == semver_error_text()),
        semver_range_parses(range@) ==> ({
            let cs = candidates(packument.versions@, range@);
            if cs.len() == 0 {
                r matches Err(PmError::VersionNotFound { package, range: rg }) && package@ == name@
                    && rg@ == semver_range_text(range@)
            } else {
                let text = semver_version_text(latest(cs));
                let k = entry_index(packument.versions@, text, 0);
                (forall|j: int| 0 <= j < cs.len() ==> !semver_greater(#[trigger] cs[j], latest(cs)))
                && match r {
                    Ok(p) => k >= 0 && resolved_as(p, name@, text, packument.versions@[k]),
                    Err(e) => k == -1 && (e matches PmError::MissingResolvedVersion {
                        package,
                        version,
                    } && package@ == name@ && version@ == text),
                }
            }
        }),
{
    let parsed_range = match parse_range(range) {
        Ok(p) => p,
        Err(e) => {
            return Err(
                PmError::InvalidRange {
                    package: name.to_owned(),
                    range: range.to_owned(),
                    source: semver_error_message(&e),
                },
            );
        },
    };
    let vs = &packument.versions;
    let mut best: Option<SemverVersion> = None;
    let mut i: usize = 0;
    while i < vs.len()
        invariant
            i <= vs@.len(),
            parsed_range@ == range@,
            vs@ == packument.versions@,
            best is None ==> candidates(vs@.take(i as int), range@).len() == 0,
            best is Some ==> candidates(vs@.take(i as int), range@).len() > 0
                && best.unwrap()@ == latest(candidates(vs@.take(i as int), range@)),
            best is Some ==> forall|j: int|
                0 <= j < candidates(vs@.take(i as int), range@).len() ==> !semver_greater(
                    #[trigger] candidates(vs@.take(i as int), range@)[j],
                    best.unwrap()@,
                ),
        decreases vs@.len() - i,
    {
        proof {
            assert(vs@.take(i + 1).drop_last() == vs@.take(i as int));
            assert(vs@.take(i + 1).last() == vs@[i as int]);
        }
        let ghost vi = vs@[i as int].version@;
        match parse_version(vs[i].version.as_str()) {
            Some(v) => {
                if satisfies(&v, &parsed_range) {
                    proof {
                        let c = candidates(vs@.take(i as int), range@);
                        assert(candidates(vs@.take(i + 1), range@) == c.push(vi));
                        assert(c.push(vi).drop_last() == c);
                        assert(c.push(vi).last() == vi);
                    }
                    let ghost c = candidates(vs@.take(i as int), range@);
                    proof {
                        assert forall|j: int| 0 <= j < c.len() implies semver_version_parses(
                            #[trigger] c[j],
                        ) by {
                            lemma_candidates_satisfy(vs@.take(i as int), range@, j);
                        }
                        assert(c.push(vi)[c.len() as int] == vi);
                    }
                    best = match best {
                        None => Some(v),
                        Some(b) => if greater(&b, &v) {
                            Some(b)
                        } else {
                            proof {
                                assert forall|j: int| 0 <= j < c.len() implies !semver_greater(
                                    #[trigger] c[j],
                                    vi,
                                ) by {
                                    assert(semver_version_parses(c[j]));
                                    assert(!semver_greater(c[j], b@));
                                }
                            }
                            Some(v)
                        },
                    };
                    proof {
                        assert forall|j: int| 0 <= j < c.push(vi).len() implies !semver_greater(
                            #[trigger] c.push(vi)[j],
                            best.unwrap()@,
                        ) by {
                            if j < c.len() {
                                assert(c.push(vi)[j] == c[j]);
                            }
                        }
                    }
                } else {
                    assert(!semver_satisfies(vi, range@));
                    assert(candidates(vs@.take(i + 1), range@) == candidates(vs@.take(i as int), range@));
                }
            },
            None => {
                assert(!semver_version_parses(vi));
                assert(candidates(vs@.take(i + 1), range@) == candidates(vs@.take(i as int), range@));
            },
        }
        i = i + 1;
    }
    proof {
        assert(vs@.take(vs@.len() as int) == vs@);
    }
    match best {
        None => Err(
            PmError::VersionNotFound { package: name.to_owned(), range: range_text(&parsed_range) },
        ),
        Some(b) => {
            let text = version_text(&b);
            resolved_from_entry(name, text.as_str(), packument)
        },
    }
}

/// Whether the data matches the package's integrity string: `Ok` when the
/// package has none or the data matches; `InvalidIntegrity` when the string
/// does not parse and `IntegrityMismatch` when the data does not match (each
/// naming the package and version, with `ssri`'s message as the cause).
/// A blank integrity string holds no hash, which `ssri`'s check cannot
/// take, so it is left out.
pub fn verify_integrity(package: &ResolvedPackage, bytes: &[u8]) -> (r: Result<(), PmError>)
    requires
        package.integrity matches Some(s) ==> trim_ws(s@).len() > 0,
    ensures
        match package.integrity {
            None => r is Ok,
            Some(s) => if !sri_parses(s@) {
                r matches Err(PmError::InvalidIntegrity { package: p, version, source })
                    && p@ == package.name@ && version@ == package.version@ && source@
                    == sri_parse_error(s@)
            } else if !sri_matches(s@, bytes@) {
                r matches Err(PmError::IntegrityMismatch { package: p, version, source })
                    && p@ == package.name@ && version@ == package.version@ && source@
                    == sri_mismatch_error(s@, bytes@)
            } else {
                r is Ok
            },
        },
{
    let integrity = match &package.integrity {
        Some(s) => s,
        None => {
            return Ok(());
        },
    };
    let parsed = match parse_integrity(integrity.as_str()) {
        Ok(p) => p,
        Err(e) => {
            return Err(
                PmError::InvalidIntegrity {
                    package: package.name.clone(),
                    version: package.version.clone(),
                    source: e,
                },
            );
        },
    };
    match check_integrity(&parsed, bytes) {
        Ok(()) => Ok(()),
        Err(e) => Err(
            PmError::IntegrityMismatch {
                package: package.name.clone(),
                version: package.version.clone(),
                source: e,
            },
        ),
    }
}

/// What removing a package installed for the user touches: its directory
/// under `node_modules` and its lockfile key.
pub struct UninstallPlan {
    pub node_modules: String,
    pub package_dir: String,
    pub lock_key: String,
}

/// The directory and lockfile key of `name` among the user's packages,
/// kept in `packages_root`.
pub fn uninstall(packages_root: &str, name: &str) -> (plan: UninstallPlan)
    ensures
        plan.node_modules@ == crate::path::push_path(packages_root@, "node_modules"@),
        plan.package_dir@ == crate::install::install_dir_spec(crate::path::push_path(packages_root@, "node_modules"@), name@),
        plan.lock_key@ == "node_modules/"@ + name@,
{
    let node_modules = crate::path::push(packages_root, "node_modules");
    let package_dir = crate::install::install_dir(node_modules.as_str(), name);
    let lock_key = crate::report::cat2("node_modules/", name);
    UninstallPlan { node_modules, package_dir, lock_key }
}

/// What removing a package reports.
pub open spec fn uninstall_report_spec(name: Seq<char>, path: Seq<char>) -> ReportView {
    rv("uninstalled package `"@ + name + "`"@, seq!["path: "@ + path])
}

pub fn uninstall_report(name: &str, path: &str) -> (r: Report)
    ensures
        r@ == uninstall_report_spec(name@, path@),
{
    let summary = crate::report::cat3("uninstalled package `", name, "`");
    let detail = crate::report::cat2("path: ", path);
    let r = Report::new(summary.as_str()).detail(detail.as_str());
    proof {
        assert(seq![].push("path: "@ + path@) =~= seq!["path: "@ + path@]);
    }
    r
}

} // verus!
