//! Where a toolchain release is downloaded from.
use vstd::prelude::*;
use crate::text::{chars_eq, chars_of, ends_with, has_suffix};

verus! {

/// The operating system as release archives name it.
pub open spec fn release_os_spec(os: Seq<char>) -> Seq<char> {
    if os == "macos"@ {
        "darwin"@
    } else {
        os
    }
}

/// The architecture as release archives name it.
pub open spec fn release_arch_spec(arch: Seq<char>) -> Seq<char> {
    if arch == "x86_64"@ {
        "amd64"@
    } else if arch == "aarch64"@ {
        "arm64"@
    } else {
        arch
    }
}

fn same(a: &str, b: &str) -> (r: bool)
    ensures
        r == (a@ == b@),
{
    chars_eq(chars_of(a).as_slice(), chars_of(b).as_slice())
}

/// What to download for a toolchain and how to unpack it.
pub struct ReleaseTarget {
    pub os: String,
    pub arch: String,
    pub zip: bool,
    pub file_name: String,
    pub url: String,
}

/// The release of `user/repo` on `provider` for a system: the archive
/// `repo-os-arch.ext` (a zip on Windows, else a gzipped tar) of the latest
/// release.
pub open spec fn release_file_spec(repo: Seq<char>, os: Seq<char>, arch: Seq<char>) -> Seq<char> {
    repo + "-"@ + release_os_spec(os) + "-"@ + release_arch_spec(arch) + "."@ + (if os
        == "windows"@ {
        "zip"@
    } else {
        "tar.gz"@
    })
}

pub open spec fn release_url_spec(
    provider: Seq<char>,
    user: Seq<char>,
    repo: Seq<char>,
    os: Seq<char>,
    arch: Seq<char>,
) -> Seq<char> {
    "https://"@ + provider + "/"@ + user + "/"@ + repo + "/releases/latest/download/"@
        + release_file_spec(repo, os, arch)
}

pub fn release_target(provider: &str, user: &str, repo: &str, os: &str, arch: &str) -> (t:
    ReleaseTarget)
    ensures
        t.os@ == release_os_spec(os@),
        t.arch@ == release_arch_spec(arch@),
        t.zip == (os@ == "windows"@),
        t.file_name@ == release_file_spec(repo@, os@, arch@),
        t.url@ == release_url_spec(provider@, user@, repo@, os@, arch@),
{
    let cos = if same(os, "macos") {
        "darwin".to_owned()
    } else {
        os.to_owned()
    };
    let carch = if same(arch, "x86_64") {
        "amd64".to_owned()
    } else if same(arch, "aarch64") {
        "arm64".to_owned()
    } else {
        arch.to_owned()
    };
    let zip = same(os, "windows");
    let ext = if zip {
        "zip"
    } else {
        "tar.gz"
    };
    let mut file_name = String::new();
    file_name.append(repo);
    file_name.append("-");
    file_name.append(cos.as_str());
    file_name.append("-");
    file_name.append(carch.as_str());
    file_name.append(".");
    file_name.append(ext);
    let mut url = String::new();
    url.append("https://");
    url.append(provider);
    url.append("/");
    url.append(user);
    url.append("/");
    url.append(repo);
    url.append("/releases/latest/download/");
    url.append(file_name.as_str());
    ReleaseTarget { os: cos, arch: carch, zip, file_name, url }
}

/// A zip entry whose name ends with `/` is a directory.
pub fn zip_entry_is_dir(name: &str) -> (r: bool)
    ensures
        r == ends_with(name@, seq!['/']),
{
    let mut slash: Vec<char> = Vec::new();
    slash.push('/');
    proof {
        assert(slash@ =~= seq!['/']);
    }
    has_suffix(chars_of(name).as_slice(), slash.as_slice())
}

} // verus!
