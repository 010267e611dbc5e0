//! Running a package's executable without installing it into a project:
//! the package spec, the throwaway manifest, and what a failed run reports.
use vstd::prelude::*;
use crate::buffer::from_utf8_lossy;
use crate::buffer::utf8_lossy;
use crate::job::{status_text, status_text_spec};
use crate::pm::PmError;
use crate::text::{
    is_ws, chars_of, extend_chars, find_char, find_from, rfind_before, rfind_char, string_of, sub_chars,
    trim, trim_ws,
};

verus! {

/// The package to run and the arguments handed to its executable.
pub struct Args {
    pub package: String,
    pub args: Vec<String>,
}

/// A package spec split into name and version: `name`, `name@version`,
/// `@scope/name` or `@scope/name@version`, around surrounding whitespace;
/// the version is `latest` when none is given. `None` for an empty spec, a
/// scoped spec without `/`, or an empty name or version.
pub open spec fn parse_package_spec(p: Seq<char>) -> Option<(Seq<char>, Seq<char>)> {
    let t = trim_ws(p);
    let a = rfind_before(t, '@', t.len() as int);
    if t.len() == 0 {
        None
    } else if t[0] == '@' {
        let slash = find_from(t, '/', 0);
        if slash < 0 {
            None
        } else if a > slash {
            if a + 1 == t.len() {
                None
            } else {
                Some((t.take(a), t.subrange(a + 1, t.len() as int)))
            }
        } else {
            Some((t, "latest"@))
        }
    } else if a >= 0 {
        if a == 0 || a + 1 == t.len() {
            None
        } else {
            Some((t.take(a), t.subrange(a + 1, t.len() as int)))
        }
    } else {
        Some((t, "latest"@))
    }
}

/// Splits a package spec (see `parse_package_spec`); a spec that does not
/// split is `InvalidPackageSpec`, carrying the trimmed spec.
pub fn parse_package(package: &str) -> (r: Result<(String, String), PmError>)
    ensures
        match parse_package_spec(package@) {
            Some((n, v)) => r matches Ok((name, version)) && name@ == n && version@ == v,
            None => r matches Err(PmError::InvalidPackageSpec { spec }) && spec@ == trim_ws(
                package@,
            ),
        },
{
    let trimmed = trim(package);
    let t = chars_of(trimmed.as_str());
    let len = t.len();
    if len == 0 {
        return Err(PmError::InvalidPackageSpec { spec: trimmed });
    }
    let last_at = rfind_char(t.as_slice(), '@');
    if t[0] == '@' {
        let slash = match find_char(t.as_slice(), '/') {
            Some(s) => s,
            None => {
                return Err(PmError::InvalidPackageSpec { spec: trimmed });
            },
        };
        match last_at {
            Some(a) => {
                if a > slash {
                    if a + 1 == len {
                        return Err(PmError::InvalidPackageSpec { spec: trimmed });
                    }
                    let name = string_of(sub_chars(t.as_slice(), 0, a).as_slice());
                    let version = string_of(sub_chars(t.as_slice(), a + 1, len).as_slice());
                    proof {
                        assert(name@ =~= t@.take(a as int));
                    }
                    return Ok((name, version));
                }
            },
            None => {},
        }
        let latest = "latest".to_owned();
        return Ok((trimmed, latest));
    }
    match last_at {
        Some(a) => {
            if a == 0 || a + 1 == len {
                return Err(PmError::InvalidPackageSpec { spec: trimmed });
            }
            let name = string_of(sub_chars(t.as_slice(), 0, a).as_slice());
            let version = string_of(sub_chars(t.as_slice(), a + 1, len).as_slice());
            proof {
                assert(name@ =~= t@.take(a as int));
            }
            Ok((name, version))
        },
        None => {
            let latest = "latest".to_owned();
            Ok((trimmed, latest))
        },
    }
}

/// The manifest written to the throwaway project: a private package that
/// depends on `package` at `version`.
pub open spec fn generated_manifest_spec(package: Seq<char>, version: Seq<char>) -> Seq<char> {
    "{\n  \"name\": \"____o-x-generated____\",\n  \"version\": \"1.0.0\",\n  \"private\": true,\n  \"dependencies\": {\n    \""@
        + package + "\": \""@ + version + "\"\n  }\n}"@
}

pub fn generated_manifest(package: &str, version: &str) -> (out: String)
    ensures
        out@ == generated_manifest_spec(package@, version@),
{
    let mut s = String::new();
    s.append(
        "{\n  \"name\": \"____o-x-generated____\",\n  \"version\": \"1.0.0\",\n  \"private\": true,\n  \"dependencies\": {\n    \"",
    );
    s.append(package);
    s.append("\": \"");
    s.append(version);
    s.append("\"\n  }\n}");
    s
}

/// What a failed executable wrote to its error stream, trimmed; `None`
/// when it wrote nothing.
pub fn stderr_string(stderr: &[u8]) -> (r: Option<String>)
    ensures
        stderr@.len() == 0 ==> r is None,
        stderr@.len() > 0 ==> (r matches Some(s) && s@ == trim_ws(utf8_lossy(stderr@))),
{
    if stderr.len() == 0 {
        None
    } else {
        let s = from_utf8_lossy(stderr);
        Some(trim(s.as_str()))
    }
}

/// Whether the package's executable can be run: `Ok` when the file the
/// command's link points at is there, `MissingPackageBinary` with the
/// package, the command and that path when it is not.
pub fn binary_present(package: &str, command: &str, path: &str, exists: bool) -> (r: Result<
    (),
    PmError,
>)
    ensures
        exists ==> r is Ok,
        !exists ==> (r matches Err(PmError::MissingPackageBinary { package: p, command: c, path: q })
            && p@ == package@ && c@ == command@ && q@ == path@),
{
    if exists {
        Ok(())
    } else {
        Err(
            PmError::MissingPackageBinary {
                package: package.to_owned(),
                command: command.to_owned(),
                path: path.to_owned(),
            },
        )
    }
}

/// The outcome of a finished run of the package's executable: what it
/// printed, decoded leniently, when it succeeded; else `PackageBinaryFailed`
/// with the package, the command, the exit status (its code, or the
/// status's text without one) and what it wrote to its error stream
/// (see `stderr_string`).
pub fn run_outcome(
    package: &str,
    command: &str,
    success: bool,
    code: Option<i32>,
    display: &str,
    stdout: &[u8],
    stderr: &[u8],
) -> (r: Result<String, PmError>)
    ensures
        success ==> (r matches Ok(out) && out@ == utf8_lossy(stdout@)),
        !success ==> (r matches Err(
            PmError::PackageBinaryFailed { package: p, command: c, status, stderr: e },
        ) && p@ == package@ && c@ == command@ && status@ == status_text_spec(code, display@) && (
        match e {
            None => stderr@.len() == 0,
            Some(t) => stderr@.len() > 0 && t@ == trim_ws(utf8_lossy(stderr@)),
        })),
{
    if success {
        Ok(from_utf8_lossy(stdout))
    } else {
        Err(
            PmError::PackageBinaryFailed {
                package: package.to_owned(),
                command: command.to_owned(),
                status: status_text(code, display),
                stderr: stderr_string(stderr),
            },
        )
    }
}

/// A package name as a spec writes it: not empty, no whitespace, no `@`
/// but a leading one, and a scoped name (leading `@`) holds a `/`.
pub open spec fn is_package_name(name: Seq<char>) -> bool {
    &&& name.len() > 0
    &&& forall|i: int| 0 <= i < name.len() ==> !is_ws(#[trigger] name[i])
    &&& forall|i: int| 0 < i < name.len() ==> #[trigger] name[i] != '@'
    &&& name[0] == '@' ==> exists|j: int| 0 < j < name.len() && #[trigger] name[j] == '/'
}

/// A version or range as a spec writes it: not empty, no whitespace, no `@`.
pub open spec fn is_package_version(v: Seq<char>) -> bool {
    &&& v.len() > 0
    &&& forall|i: int| 0 <= i < v.len() ==> !is_ws(#[trigger] v[i]) && v[i] != '@'
}

/// A spec written as `name@version` splits back into the name and the
/// version, and a bare name gets the version `latest`.
pub proof fn law_parse_package_roundtrip(name: Seq<char>, version: Seq<char>)
    requires
        is_package_name(name),
        is_package_version(version),
    ensures
        parse_package_spec(name + seq!['@'] + version) == Some((name, version)),
        parse_package_spec(name) == Some((name, "latest"@)),
{
    let p = name + seq!['@'] + version;
    let a = name.len() as int;
    assert forall|i: int| 0 <= i < p.len() implies !is_ws(#[trigger] p[i]) by {
        if i < a {
            assert(p[i] == name[i]);
        } else if i > a {
            assert(p[i] == version[i - a - 1]);
        } else {
            assert(p[i] == '@');
        }
    }
    crate::text::lemma_trim_no_ws(p);
    crate::text::lemma_trim_no_ws(name);
    assert(p[a] == '@');
    assert forall|j: int| a < j < p.len() implies p[j] != '@' by {
        assert(p[j] == version[j - a - 1]);
    }
    crate::text::lemma_rfind_at(p, '@', a, p.len() as int);
    assert(p.take(a) =~= name);
    assert(p.subrange(a + 1, p.len() as int) =~= version);
    assert(p[0] == name[0]);
    if name[0] == '@' {
        let j = choose|j: int| 0 < j < name.len() && #[trigger] name[j] == '/';
        assert(p[j] == '/');
        crate::text::lemma_find_before(p, '/', 0, j);
        crate::text::lemma_find_before(name, '/', 0, j);
        assert forall|k: int| 0 < k < name.len() implies name[k] != '@' by {}
        crate::text::lemma_rfind_at(name, '@', 0, name.len() as int);
    } else {
        crate::text::lemma_rfind_none(name, '@', name.len() as int);
    }
}

} // verus!
