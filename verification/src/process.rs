//! What the runtime tells scripts about the process it runs in.
use vstd::prelude::*;

verus! {

/// The parent process id the runtime reports: always 0.
pub fn ppid() -> (id: u32)
    ensures
        id == 0,
{
    0
}

/// The platform name for an operating system name (as Rust names it):
/// `darwin`, `linux`, `win32`, or `unknown`.
pub open spec fn platform_name(os: Seq<char>) -> Seq<char> {
    if os == "macos"@ {
        "darwin"@
    } else if os == "linux"@ {
        "linux"@
    } else if os == "windows"@ {
        "win32"@
    } else {
        "unknown"@
    }
}

fn str_eq(a: &str, b: &str) -> (r: bool)
    ensures
        r == (a@ == b@),
{
    let x = crate::text::chars_of(a);
    let y = crate::text::chars_of(b);
    crate::text::chars_eq(x.as_slice(), y.as_slice())
}

pub fn platform(target_os: &str) -> (name: &'static str)
    ensures
        name@ == platform_name(target_os@),
{
    if str_eq(target_os, "macos") {
        "darwin"
    } else if str_eq(target_os, "linux") {
        "linux"
    } else if str_eq(target_os, "windows") {
        "win32"
    } else {
        "unknown"
    }
}

/// The architecture name for a CPU architecture (as Rust names it): `x64`,
/// `arm64`, `ia32`, or `unknown`.
pub open spec fn arch_name(arch: Seq<char>) -> Seq<char> {
    if arch == "x86_64"@ {
        "x64"@
    } else if arch == "aarch64"@ {
        "arm64"@
    } else if arch == "x86"@ {
        "ia32"@
    } else {
        "unknown"@
    }
}

pub fn arch(target_arch: &str) -> (name: &'static str)
    ensures
        name@ == arch_name(target_arch@),
{
    if str_eq(target_arch, "x86_64") {
        "x64"
    } else if str_eq(target_arch, "aarch64") {
        "arm64"
    } else if str_eq(target_arch, "x86") {
        "ia32"
    } else {
        "unknown"
    }
}

/// A description of the running process.
pub struct ProcessInfo {
    pub pid: u32,
    pub platform: &'static str,
    pub arch: &'static str,
    pub version: &'static str,
    pub cwd: String,
    pub exec_path: String,
    pub argv: Vec<String>,
}

/// The process description from what the host reports: the platform and
/// architecture named as `platform` and `arch` name them.
pub fn get_process_info(
    pid: u32,
    target_os: &str,
    target_arch: &str,
    version: &'static str,
    cwd: String,
    exec_path: String,
    argv: Vec<String>,
) -> (info: ProcessInfo)
    ensures
        info.pid == pid,
        info.platform@ == platform_name(target_os@),
        info.arch@ == arch_name(target_arch@),
        info.version@ == version@,
        info.cwd == cwd,
        info.exec_path == exec_path,
        info.argv == argv,
{
    ProcessInfo {
        pid,
        platform: platform(target_os),
        arch: arch(target_arch),
        version,
        cwd,
        exec_path,
        argv,
    }
}

} // verus!
