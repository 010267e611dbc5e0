//! The decisions of installing a project: where a package goes, how the
//! registry is addressed, which installs were already made, where the
//! manifest is searched, and what the finished install reports.
use vstd::prelude::*;
use crate::path::{parent, parent_spec, push, push_path};
use crate::pm::{dep_list_view, Manifest, PmError, ResolvedPackage};
use crate::bins::pair_views;
use crate::report::{cat2, rv, Report, ReportView};
use crate::text::{
    chars_of, decimal, decimal_string, extend_chars, find_char, find_from, string_of, sub_chars,
};

verus! {

/// A package name as the registry's URL path holds it: `@` becomes `%40`
/// and `/` becomes `%2F`.
pub open spec fn registry_escape(s: Seq<char>) -> Seq<char>
    decreases s.len(),
{
    if s.len() == 0 {
        seq![]
    } else {
        let r = registry_escape(s.drop_last());
        let c = s.last();
        if c == '@' {
            r + seq!['%', '4', '0']
        } else if c == '/' {
            r + seq!['%', '2', 'F']
        } else {
            r.push(c)
        }
    }
}

pub open spec fn registry_prefix() -> Seq<char> {
    "https://registry.npmjs.org/"@
}

/// The registry document URL of a package.
pub fn resolve_npm_url(package: &str) -> (url: String)
    ensures
        url@ == registry_prefix() + registry_escape(package@),
{
    let prefix = "https://registry.npmjs.org/";
    let mut out = chars_of(prefix);
    let p = chars_of(package);
    let mut i: usize = 0;
    while i < p.len()
        invariant
            i <= p@.len(),
            p@ == package@,
            out@ == prefix@ + registry_escape(p@.take(i as int)),
        decreases p@.len() - i,
    {
        proof {
            assert(p@.take(i + 1).drop_last() == p@.take(i as int));
        }
        let c = p[i];
        if c == '@' {
            out.push('%');
            out.push('4');
            out.push('0');
        } else if c == '/' {
            out.push('%');
            out.push('2');
            out.push('F');
        } else {
            out.push(c);
        }
        i = i + 1;
        proof {
            assert(out@ =~= prefix@ + registry_escape(p@.take(i as int)));
        }
    }
    proof {
        assert(p@.take(p@.len() as int) == p@);
    }
    string_of(out.as_slice())
}

/// Where a package is installed under a `node_modules` directory: a scoped
/// name `scope/name` goes to `scope` then `name`.
pub open spec fn install_dir_spec(node_modules: Seq<char>, name: Seq<char>) -> Seq<char> {
    let k = find_from(name, '/', 0);
    if k >= 0 {
        push_path(push_path(node_modules, name.take(k)), name.subrange(k + 1, name.len() as int))
    } else {
        push_path(node_modules, name)
    }
}

/// The directory a package is installed to (see `install_dir_spec`).
pub fn install_dir(node_modules: &str, package_name: &str) -> (dir: String)
    ensures
        dir@ == install_dir_spec(node_modules@, package_name@),
{
    let n = chars_of(package_name);
    match find_char(n.as_slice(), '/') {
        Some(k) => {
            let len = n.len();
            assert(k < len);
            let scope = string_of(sub_chars(n.as_slice(), 0, k).as_slice());
            let rest = string_of(sub_chars(n.as_slice(), k + 1, len).as_slice());
            proof {
                assert(scope@ =~= package_name@.take(k as int));
            }
            let d = push(node_modules, scope.as_str());
            push(d.as_str(), rest.as_str())
        },
        None => push(node_modules, package_name),
    }
}

/// The key under which an install of `name@version` into a directory is
/// remembered: `name@version::dir`.
pub open spec fn install_key_spec(name: Seq<char>, version: Seq<char>, dir: Seq<char>) -> Seq<
    char,
> {
    name + seq!['@'] + version + seq![':', ':'] + dir
}

pub fn install_key(name: &str, version: &str, node_modules_dir: &str) -> (key: String)
    ensures
        key@ == install_key_spec(name@, version@, node_modules_dir@),
{
    let mut out = chars_of(name);
    out.push('@');
    let v = chars_of(version);
    extend_chars(&mut out, v.as_slice());
    out.push(':');
    out.push(':');
    let d = chars_of(node_modules_dir);
    extend_chars(&mut out, d.as_slice());
    proof {
        assert(out@ =~= install_key_spec(name@, version@, node_modules_dir@));
    }
    string_of(out.as_slice())
}

/// The install keys seen so far, each once.
pub struct InstallSet {
    keys: Vec<String>,
}

impl View for InstallSet {
    type V = Set<Seq<char>>;

    closed spec fn view(&self) -> Set<Seq<char>> {
        Set::new(|k: Seq<char>| exists|i: int| 0 <= i < self.keys@.len() && self.keys@[i]@ == k)
    }
}

impl InstallSet {
    pub fn new() -> (s: InstallSet)
        ensures
            s@ == Set::<Seq<char>>::empty(),
    {
        let s = InstallSet { keys: Vec::new() };
        proof {
            assert(s@ =~= Set::<Seq<char>>::empty());
        }
        s
    }

    /// Whether the key was seen.
    pub fn contains(&self, key: &str) -> (r: bool)
        ensures
            r == self@.contains(key@),
    {
        let k = chars_of(key);
        let mut i: usize = 0;
        while i < self.keys.len()
            invariant
                i <= self.keys@.len(),
                k@ == key@,
                forall|j: int| 0 <= j < i ==> self.keys@[j]@ != key@,
            decreases self.keys@.len() - i,
        {
            let have = chars_of(self.keys[i].as_str());
            if crate::text::chars_eq(have.as_slice(), k.as_slice()) {
                return true;
            }
            i = i + 1;
        }
        false
    }

    /// Records a key; `true` when it was not seen before (as `HashSet::insert`).
    pub fn insert(&mut self, key: String) -> (r: bool)
        ensures
            r == !old(self)@.contains(key@),
            final(self)@ == old(self)@.insert(key@),
    {
        if self.contains(key.as_str()) {
            proof {
                assert(self@.insert(key@) =~= self@);
            }
            false
        } else {
            let ghost before = self.keys@;
            self.keys.push(key);
            proof {
                assert forall|k: Seq<char>| #[trigger] self@.contains(k) == old(self)@.insert(
                    key@,
                ).contains(k) by {
                    if old(self)@.contains(k) {
                        let i = choose|i: int| 0 <= i < before.len() && before[i]@ == k;
                        assert(self.keys@[i] == before[i]);
                    }
                    if k == key@ {
                        assert(self.keys@[before.len() as int]@ == k);
                    }
                    if self@.contains(k) && k != key@ {
                        let i = choose|i: int| 0 <= i < self.keys@.len() && self.keys@[i]@ == k;
                        assert(i < before.len());
                        assert(before[i]@ == k);
                    }
                }
                assert(self@ =~= old(self)@.insert(key@));
            }
            true
        }
    }
}

/// The manifest next to the current search directory.
pub open spec fn manifest_candidate_spec(dir: Seq<char>) -> Seq<char> {
    push_path(dir, "package.json"@)
}

pub fn manifest_candidate(dir: &str) -> (path: String)
    ensures
        path@ == manifest_candidate_spec(dir@),
{
    push(dir, "package.json")
}

/// Where the search for the manifest starts: the start itself when it is a
/// directory, else its parent, else `.`.
pub open spec fn search_start_spec(start: Seq<char>, start_is_dir: bool) -> Seq<char> {
    if start_is_dir {
        start
    } else {
        match parent_spec(start) {
            Some(d) => d,
            None => "."@,
        }
    }
}

pub fn search_start(start: &str, start_is_dir: bool) -> (dir: String)
    ensures
        dir@ == search_start_spec(start@, start_is_dir),
{
    if start_is_dir {
        return start.to_owned();
    }
    match parent(start) {
        Some(d) => d,
        None => ".".to_owned(),
    }
}

/// The next directory of the search (its parent, as `PathBuf::pop`), or the
/// error that ends the search when there is none.
pub fn search_next(start: &str, dir: &str) -> (r: Result<String, PmError>)
    ensures
        match r {
            Ok(d) => parent_spec(dir@) == Some(d@),
            Err(e) => parent_spec(dir@) is None && (e matches PmError::FindManifest { start: s, source }
                && s@ == start@ && source@ == "failed to find package.json from "@ + start@),
        },
{
    match parent(dir) {
        Some(d) => Ok(d),
        None => Err(
            PmError::FindManifest {
                start: start.to_owned(),
                source: cat2("failed to find package.json from ", start),
            },
        ),
    }
}

/// The project root: the directory holding the manifest.
pub fn project_root(manifest_path: &str) -> (r: Result<String, PmError>)
    ensures
        match r {
            Ok(d) => parent_spec(manifest_path@) == Some(d@),
            Err(e) => parent_spec(manifest_path@) is None && (e matches PmError::ProjectRootMissing {
                path,
            } && path@ == manifest_path@),
        },
{
    match parent(manifest_path) {
        Some(d) => Ok(d),
        None => Err(PmError::ProjectRootMissing { path: manifest_path.to_owned() }),
    }
}

/// The error for a manifest that could not be read: `ParseManifest` when
/// the text was there but is not a manifest, else `ReadManifest`.
pub fn map_manifest_error(path: &str, invalid_data: bool, cause: &str) -> (e: PmError)
    ensures
        invalid_data ==> (e matches PmError::ParseManifest { path: p, source } && p@ == path@
            && source@ == cause@),
        !invalid_data ==> (e matches PmError::ReadManifest { path: p, source } && p@ == path@
            && source@ == cause@),
{
    if invalid_data {
        PmError::ParseManifest { path: path.to_owned(), source: cause.to_owned() }
    } else {
        PmError::ReadManifest { path: path.to_owned(), source: cause.to_owned() }
    }
}

/// Whether an installed manifest is the version wanted (no manifest: no).
pub fn is_matching_install(installed: Option<&Manifest>, version: &str) -> (r: bool)
    ensures
        r == (match installed {
            Some(m) => m.version@ == version@,
            None => false,
        }),
{
    match installed {
        Some(m) => {
            let a = chars_of(m.version.as_str());
            let b = chars_of(version);
            crate::text::chars_eq(a.as_slice(), b.as_slice())
        },
        None => false,
    }
}

/// Appends the pairs of a dependency list, if there is one, to `out`.
fn append_dep_list(out: &mut Vec<(String, String)>, list: &Option<Vec<(String, String)>>)
    ensures
        final(out)@ == old(out)@ + dep_list_view(*list),
{
    if let Some(v) = list {
        let ghost start = out@;
        let mut i: usize = 0;
        while i < v.len()
            invariant
                i <= v@.len(),
                out@ == start + v@.take(i as int),
            decreases v@.len() - i,
        {
            let a = v[i].0.clone();
            let b = v[i].1.clone();
            out.push((a, b));
            i = i + 1;
            proof {
                assert(out@ =~= start + v@.take(i as int));
            }
        }
        proof {
            assert(v@.take(v@.len() as int) =~= v@);
        }
    }
}

/// The dependencies a project install resolves, in order: `dependencies`,
/// then `devDependencies`, `optionalDependencies` and `peerDependencies`;
/// an absent list adds nothing.
pub fn root_dependency_set(manifest: &Manifest) -> (out: Vec<(String, String)>)
    ensures
        out@ == dep_list_view(manifest.dependencies) + dep_list_view(manifest.dev_dependencies)
            + dep_list_view(manifest.optional_dependencies) + dep_list_view(
            manifest.peer_dependencies,
        ),
{
    let mut out: Vec<(String, String)> = Vec::new();
    append_dep_list(&mut out, &manifest.dependencies);
    append_dep_list(&mut out, &manifest.dev_dependencies);
    append_dep_list(&mut out, &manifest.optional_dependencies);
    append_dep_list(&mut out, &manifest.peer_dependencies);
    proof {
        assert(out@ =~= dep_list_view(manifest.dependencies) + dep_list_view(
            manifest.dev_dependencies,
        ) + dep_list_view(manifest.optional_dependencies) + dep_list_view(
            manifest.peer_dependencies,
        ));
    }
    out
}

/// What a finished project install reports.
pub open spec fn install_report_spec(root: Seq<char>, count: nat, lockfile: Seq<char>) -> ReportView {
    rv(
        "installed project dependencies"@,
        seq!["root: "@ + root, "dependencies: "@ + decimal(count), "lockfile: "@ + lockfile],
    )
}

pub fn install_report(root: &str, dependency_count: u64, lockfile_path: &str) -> (r: Report)
    ensures
        r@ == install_report_spec(root@, dependency_count as nat, lockfile_path@),
{
    let count = decimal_string(dependency_count);
    let r = Report::new("installed project dependencies").detail(cat2("root: ", root).as_str()).detail(
        cat2("dependencies: ", count.as_str()).as_str(),
    ).detail(cat2("lockfile: ", lockfile_path).as_str());
    proof {
        let ds = seq![
            "root: "@ + root@,
            "dependencies: "@ + decimal(dependency_count as nat),
            "lockfile: "@ + lockfile_path@,
        ];
        assert(seq![].push(ds[0]).push(ds[1]).push(ds[2]) =~= ds);
    }
    r
}

/// An install is made once per key: after `insert(key)` has recorded a key
/// (whatever it returned), a later `insert` of the same key returns `false`,
/// and keys inserted before stay recorded.
pub proof fn law_install_key_once(seen: Set<Seq<char>>, key: Seq<char>, other: Seq<char>)
    ensures
        seen.insert(key).contains(key),
        seen.contains(other) ==> seen.insert(key).contains(other),
        seen.insert(key).insert(key) == seen.insert(key),
{
    assert(seen.insert(key).insert(key) =~= seen.insert(key));
}

/// The first index at or after `i` of the dependency `name`, or -1.
pub open spec fn dep_index(deps: Seq<(String, String)>, name: Seq<char>, i: int) -> int
    decreases deps.len() - i,
{
    if i < 0 || i >= deps.len() {
        -1
    } else if deps[i].0@ == name {
        i
    } else {
        dep_index(deps, name, i + 1)
    }
}

proof fn lemma_dep_index_bounds(deps: Seq<(String, String)>, name: Seq<char>, i: int)
    ensures
        dep_index(deps, name, i) == -1 || (i <= dep_index(deps, name, i) < deps.len()),
    decreases deps.len() - i,
{
    if 0 <= i < deps.len() && deps[i].0@ != name {
        lemma_dep_index_bounds(deps, name, i + 1);
    }
}

/// The dependency list with `name` asking for `range`: the entry replaced
/// where the name is, else added last.
#[verifier::loop_isolation(false)]
pub fn add_dependency(deps: &Vec<(String, String)>, name: &str, range: &str) -> (out: Vec<
    (String, String),
>)
    ensures
        ({
            let k = dep_index(deps@, name@, 0);
            if k >= 0 {
                pair_views(out@) == pair_views(deps@).update(k, (name@, range@))
            } else {
                pair_views(out@) == pair_views(deps@).push((name@, range@))
            }
        }),
{
    let want = chars_of(name);
    let mut out: Vec<(String, String)> = Vec::new();
    let mut found = false;
    let mut i: usize = 0;
    while i < deps.len()
        invariant
            i <= deps@.len(),
            want@ == name@,
            out@.len() == i,
            found == (dep_index(deps@, name@, 0) >= 0 && dep_index(deps@, name@, 0) < i),
            !found ==> dep_index(deps@, name@, 0) == dep_index(deps@, name@, i as int),
            forall|j: int|
                0 <= j < i ==> #[trigger] pair_views(out@)[j] == if found && j == dep_index(
                    deps@,
                    name@,
                    0,
                ) {
                    (name@, range@)
                } else {
                    pair_views(deps@)[j]
                },
        decreases deps@.len() - i,
    {
        let have = chars_of(deps[i].0.as_str());
        let ghost before = out@;
        let ghost was_found = found;
        proof {
            lemma_dep_index_bounds(deps@, name@, i + 1);
            assert(dep_index(deps@, name@, i as int) == if deps@[i as int].0@ == name@ {
                i as int
            } else {
                dep_index(deps@, name@, i + 1)
            });
        }
        if !found && crate::text::chars_eq(have.as_slice(), want.as_slice()) {
            out.push((name.to_owned(), range.to_owned()));
            found = true;
            proof {
                assert(dep_index(deps@, name@, 0) == i);
            }
        } else {
            out.push((deps[i].0.clone(), deps[i].1.clone()));
        }
        proof {
            let k = dep_index(deps@, name@, 0);
            assert forall|j: int| 0 <= j < i + 1 implies #[trigger] pair_views(out@)[j] == if found
                && j == k {
                (name@, range@)
            } else {
                pair_views(deps@)[j]
            } by {
                if j < i {
                    assert(out@[j] == before[j]);
                    assert(pair_views(before)[j] == if was_found && j == k {
                        (name@, range@)
                    } else {
                        pair_views(deps@)[j]
                    });
                } else {
                    assert(out@[j] == out@[i as int]);
                }
            }
        }
        i = i + 1;
    }
    let ghost k = dep_index(deps@, name@, 0);
    if !found {
        let ghost before = out@;
        out.push((name.to_owned(), range.to_owned()));
        proof {
            assert forall|j: int| 0 <= j < deps@.len() implies #[trigger] pair_views(out@)[j]
                == pair_views(deps@)[j] by {
                assert(out@[j] == before[j]);
                assert(pair_views(before)[j] == pair_views(deps@)[j]);
            }
            assert(pair_views(out@) =~= pair_views(deps@).push((name@, range@)));
        }
    } else {
        proof {
            assert(pair_views(out@) =~= pair_views(deps@).update(k, (name@, range@)));
        }
    }
    out
}

/// The first decision about a resolved dependency under a `node_modules`
/// directory: skip it when the same name, version and directory were
/// installed already in this run; else look for an install at its
/// directory.
pub enum DependencyStep {
    Skip,
    Check { target_dir: String, manifest_path: String },
}

pub fn begin_dependency(installed: &mut InstallSet, resolved: &ResolvedPackage, node_modules_dir: &str) -> (step: DependencyStep)
    ensures
        ({
            let key = install_key_spec(resolved.name@, resolved.version@, node_modules_dir@);
            &&& final(installed)@ == old(installed)@.insert(key)
            &&& old(installed)@.contains(key) ==> step is Skip
            &&& !old(installed)@.contains(key) ==> (step matches DependencyStep::Check {
                target_dir,
                manifest_path,
            } && target_dir@ == install_dir_spec(node_modules_dir@, resolved.name@)
                && manifest_path@ == push_path(target_dir@, "package.json"@))
        }),
{
    let key = install_key(resolved.name.as_str(), resolved.version.as_str(), node_modules_dir);
    if !installed.insert(key) {
        return DependencyStep::Skip;
    }
    let target_dir = install_dir(node_modules_dir, resolved.name.as_str());
    let manifest_path = push(target_dir.as_str(), "package.json");
    DependencyStep::Check { target_dir, manifest_path }
}

/// The second decision: an install of the same version is kept (only its
/// lockfile entry and dependencies are seen to), else the package is
/// installed afresh (its parent directory made first); either way its
/// dependencies go to its own `node_modules`.
pub enum DependencyPlan {
    Keep { nested: String },
    Fresh { parent: Option<String>, nested: String },
}

pub fn plan_dependency(resolved: &ResolvedPackage, target_dir: &str, installed_manifest: Option<&Manifest>) -> (plan: DependencyPlan)
    ensures
        ({
            let keep = match installed_manifest {
                Some(m) => m.version@ == resolved.version@,
                None => false,
            };
            let nested = push_path(target_dir@, "node_modules"@);
            &&& keep ==> (plan matches DependencyPlan::Keep { nested: n } && n@ == nested)
            &&& !keep ==> (plan matches DependencyPlan::Fresh { parent: p, nested: n } && n@ == nested
                && match p {
                Some(d) => parent_spec(target_dir@) == Some(d@),
                None => parent_spec(target_dir@) is None,
            })
        }),
{
    let nested = push(target_dir, "node_modules");
    if is_matching_install(installed_manifest, resolved.version.as_str()) {
        DependencyPlan::Keep { nested }
    } else {
        DependencyPlan::Fresh { parent: parent(target_dir), nested }
    }
}

} // verus!
