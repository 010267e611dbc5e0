//! The executables a package declares in the `bin` field of its manifest,
//! and where their links go.
use vstd::prelude::*;
use crate::path::{push, push_path};
use crate::pm::PmError;
use crate::text::{
    chars_eq, chars_of, extend_chars, has_prefix, rfind_before, rfind_char, starts_with, string_of,
    sub_chars,
};

verus! {

/// The `bin` field of a manifest as read from its JSON: absent, `null`, a
/// single path, an object of command names to values (`None` where a value
/// is not a string, in the object's order), or any other JSON value.
pub enum BinField {
    Missing,
    Null,
    Text(String),
    Entries(Vec<(String, Option<String>)>),
    Other,
}

/// The command a package gets by default: its name after the last `/`.
pub open spec fn default_bin_spec(name: Seq<char>) -> Seq<char> {
    let k = rfind_before(name, '/', name.len() as int);
    if k >= 0 {
        name.subrange(k + 1, name.len() as int)
    } else {
        name
    }
}

pub fn default_bin_name(package_name: &str) -> (out: String)
    ensures
        out@ == default_bin_spec(package_name@),
{
    let n = chars_of(package_name);
    let len = n.len();
    match rfind_char(n.as_slice(), '/') {
        Some(k) => string_of(sub_chars(n.as_slice(), k + 1, len).as_slice()),
        None => package_name.to_owned(),
    }
}

/// A `bin` target relative to the package directory, without a leading `./`.
pub open spec fn package_relative_spec(p: Seq<char>) -> Seq<char> {
    if starts_with(p, seq!['.', '/']) {
        p.subrange(2, p.len() as int)
    } else {
        p
    }
}

pub fn normalize_package_relative_path(path: &str) -> (out: String)
    ensures
        out@ == package_relative_spec(path@),
{
    let p = chars_of(path);
    let mut dot_slash: Vec<char> = Vec::new();
    dot_slash.push('.');
    dot_slash.push('/');
    proof {
        assert(dot_slash@ =~= seq!['.', '/']);
    }
    if has_prefix(p.as_slice(), dot_slash.as_slice()) {
        let len = p.len();
        string_of(sub_chars(p.as_slice(), 2, len).as_slice())
    } else {
        path.to_owned()
    }
}

pub open spec fn pair_views(s: Seq<(String, String)>) -> Seq<(Seq<char>, Seq<char>)> {
    s.map_values(|p: (String, String)| (p.0@, p.1@))
}

/// The index of the first object entry whose value is not a string, or -1.
pub open spec fn first_bad_entry(es: Seq<(String, Option<String>)>, i: int) -> int
    decreases es.len() - i,
{
    if i < 0 || i >= es.len() {
        -1
    } else if es[i].1 is None {
        i
    } else {
        first_bad_entry(es, i + 1)
    }
}

/// The object entries as (command, target) pairs.
pub open spec fn entry_views(es: Seq<(String, Option<String>)>) -> Seq<(Seq<char>, Seq<char>)> {
    es.map_values(|e: (String, Option<String>)| (e.0@, e.1->0@))
}

/// The executables of an installed package, as (command, target) pairs.
/// The manifest must have a `name` (`MissingInstalledName`); no `bin` or a
/// `null` one gives none; a string gives one under the default command; an
/// object gives its entries, each of which must be a string
/// (`InvalidBinEntry` names the first that is not); anything else is
/// `InvalidBinField`.
#[verifier::loop_isolation(false)]
pub fn read_bin_entries(manifest_path: &str, name: Option<&str>, bin: &BinField) -> (r: Result<
    Vec<(String, String)>,
    PmError,
>)
    ensures
        name is None ==> (r matches Err(PmError::MissingInstalledName { path }) && path@
            == manifest_path@),
        name matches Some(n) ==> match bin {
            BinField::Missing | BinField::Null => r matches Ok(v) && v@.len() == 0,
            BinField::Text(t) => r matches Ok(v) && pair_views(v@) == seq![
                (default_bin_spec(n@), t@),
            ],
            BinField::Entries(es) => {
                let k = first_bad_entry(es@, 0);
                if k >= 0 {
                    r matches Err(PmError::InvalidBinEntry { path, entry }) && path@
                        == manifest_path@ && entry@ == es@[k].0@
                } else {
                    r matches Ok(v) && pair_views(v@) == entry_views(es@)
                }
            },
            BinField::Other => r matches Err(PmError::InvalidBinField { path }) && path@
                == manifest_path@,
        },
{
    let package_name = match name {
        Some(n) => default_bin_name(n),
        None => {
            return Err(PmError::MissingInstalledName { path: manifest_path.to_owned() });
        },
    };
    match bin {
        BinField::Missing | BinField::Null => Ok(Vec::new()),
        BinField::Text(t) => {
            let mut v: Vec<(String, String)> = Vec::new();
            v.push((package_name, t.clone()));
            proof {
                assert(pair_views(v@) =~= seq![(default_bin_spec(name->0@), t@)]);
            }
            Ok(v)
        },
        BinField::Entries(es) => {
            let mut v: Vec<(String, String)> = Vec::new();
            let mut i: usize = 0;
            while i < es.len()
                invariant
                    i <= es@.len(),
                    first_bad_entry(es@, 0) == first_bad_entry(es@, i as int),
                    pair_views(v@) == entry_views(es@.take(i as int)),
                decreases es@.len() - i,
            {
                match &es[i].1 {
                    Some(t) => {
                        let ghost before = v@;
                        v.push((es[i].0.clone(), t.clone()));
                        proof {
                            assert(entry_views(es@.take(i + 1)) =~= entry_views(es@.take(i as int)).push(
                                (es@[i as int].0@, t@),
                            ));
                            assert(pair_views(v@) =~= pair_views(before).push((es@[i as int].0@, t@)));
                        }
                    },
                    None => {
                        return Err(
                            PmError::InvalidBinEntry {
                                path: manifest_path.to_owned(),
                                entry: es[i].0.clone(),
                            },
                        );
                    },
                }
                i = i + 1;
            }
            proof {
                assert(es@.take(es@.len() as int) == es@);
            }
            Ok(v)
        },
        BinField::Other => Err(PmError::InvalidBinField { path: manifest_path.to_owned() }),
    }
}

/// Whether some object entry is named `c`.
pub open spec fn has_entry(es: Seq<(String, Option<String>)>, c: Seq<char>) -> bool {
    exists|i: int| 0 <= i < es.len() && es[i].0@ == c
}

/// The command to run for a package: the default command unless `bin` is
/// an object that lacks it, in which case its only entry, and
/// `AmbiguousBinEntry` (listing the entries) when it has several; a `bin`
/// that is neither a string, an object nor `null` is `InvalidBinField`.
#[verifier::loop_isolation(false)]
pub fn resolve_bin_command(package: &str, manifest_path: &str, bin: &BinField) -> (r: Result<
    String,
    PmError,
>)
    ensures
        match bin {
            BinField::Missing | BinField::Null | BinField::Text(_) => r matches Ok(c) && c@
                == default_bin_spec(package@),
            BinField::Entries(es) => if has_entry(es@, default_bin_spec(package@)) {
                r matches Ok(c) && c@ == default_bin_spec(package@)
            } else if es@.len() == 1 {
                r matches Ok(c) && c@ == es@[0].0@
            } else {
                r matches Err(PmError::AmbiguousBinEntry { package: p, path, available }) && p@
                    == package@ && path@ == manifest_path@ && crate::text::views_of(available@)
                    == es@.map_values(|e: (String, Option<String>)| e.0@)
            },
            BinField::Other => r matches Err(PmError::InvalidBinField { path }) && path@
                == manifest_path@,
        },
{
    let default_name = default_bin_name(package);
    match bin {
        BinField::Missing | BinField::Null | BinField::Text(_) => Ok(default_name),
        BinField::Entries(es) => {
            let d = chars_of(default_name.as_str());
            let mut i: usize = 0;
            while i < es.len()
                invariant
                    i <= es@.len(),
                    d@ == default_bin_spec(package@),
                    forall|j: int| 0 <= j < i ==> es@[j].0@ != d@,
                decreases es@.len() - i,
            {
                let have = chars_of(es[i].0.as_str());
                if chars_eq(have.as_slice(), d.as_slice()) {
                    return Ok(default_name);
                }
                i = i + 1;
            }
            if es.len() == 1 {
                return Ok(es[0].0.clone());
            }
            let mut available: Vec<String> = Vec::new();
            let mut j: usize = 0;
            while j < es.len()
                invariant
                    j <= es@.len(),
                    crate::text::views_of(available@) == es@.take(j as int).map_values(
                        |e: (String, Option<String>)| e.0@,
                    ),
                decreases es@.len() - j,
            {
                let ghost before = available@;
                available.push(es[j].0.clone());
                proof {
                    assert(es@.take(j + 1).map_values(|e: (String, Option<String>)| e.0@) =~= es@.take(
                        j as int,
                    ).map_values(|e: (String, Option<String>)| e.0@).push(es@[j as int].0@));
                    assert(crate::text::views_of(available@) =~= crate::text::views_of(before).push(
                        es@[j as int].0@,
                    ));
                }
                j = j + 1;
            }
            proof {
                assert(es@.take(es@.len() as int) == es@);
            }
            Err(
                PmError::AmbiguousBinEntry {
                    package: package.to_owned(),
                    path: manifest_path.to_owned(),
                    available,
                },
            )
        },
        BinField::Other => Err(PmError::InvalidBinField { path: manifest_path.to_owned() }),
    }
}

/// Where a package's bin entries point: each target under the package
/// directory, its leading `./` dropped.
pub fn bin_link_targets(package_dir: &str, entries: &Vec<(String, String)>) -> (out: Vec<
    (String, String),
>)
    ensures
        out@.len() == entries@.len(),
        forall|i: int|
            0 <= i < entries@.len() ==> #[trigger] out@[i].0@ == entries@[i].0@ && out@[i].1@
                == push_path(package_dir@, package_relative_spec(entries@[i].1@)),
{
    let mut out: Vec<(String, String)> = Vec::new();
    let mut i: usize = 0;
    while i < entries.len()
        invariant
            i <= entries@.len(),
            out@.len() == i,
            forall|j: int|
                0 <= j < i ==> #[trigger] out@[j].0@ == entries@[j].0@ && out@[j].1@ == push_path(
                    package_dir@,
                    package_relative_spec(entries@[j].1@),
                ),
        decreases entries@.len() - i,
    {
        let rel = normalize_package_relative_path(entries[i].1.as_str());
        let target = push(package_dir, rel.as_str());
        let ghost before = out@;
        out.push((entries[i].0.clone(), target));
        proof {
            assert forall|j: int| 0 <= j < i + 1 implies #[trigger] out@[j].0@ == entries@[j].0@
                && out@[j].1@ == push_path(package_dir@, package_relative_spec(entries@[j].1@)) by {
                if j < i {
                    assert(out@[j] == before[j]);
                }
            }
        }
        i = i + 1;
    }
    out
}

/// The path of the link for a command in a `.bin` directory; on Windows the
/// link is a `.cmd` script.
pub open spec fn bin_link_path_spec(bin_dir: Seq<char>, command: Seq<char>, windows: bool) -> Seq<
    char,
> {
    if windows {
        push_path(bin_dir, command + ".cmd"@)
    } else {
        push_path(bin_dir, command)
    }
}

pub fn bin_link_path(bin_dir: &str, command: &str, windows: bool) -> (out: String)
    ensures
        out@ == bin_link_path_spec(bin_dir@, command@, windows),
{
    if windows {
        let name = crate::report::cat2(command, ".cmd");
        push(bin_dir, name.as_str())
    } else {
        push(bin_dir, command)
    }
}

/// The `.bin` directory of a `node_modules` directory.
pub fn bin_dir(node_modules_dir: &str) -> (out: String)
    ensures
        out@ == push_path(node_modules_dir@, ".bin"@),
{
    push(node_modules_dir, ".bin")
}

/// The script a Windows link holds: it runs the target with `node`.
pub open spec fn windows_shim_spec(target: Seq<char>) -> Seq<char> {
    "@ECHO off\r\nnode \""@ + target + "\" %*\r\n"@
}

pub fn windows_shim(target: &str) -> (out: String)
    ensures
        out@ == windows_shim_spec(target@),
{
    crate::report::cat3("@ECHO off\r\nnode \"", target, "\" %*\r\n")
}

} // verus!
