//! The lockfile: what an install resolved, keyed by install path.
use vstd::prelude::*;
use crate::path::strip_prefix_spec;
use crate::pm::{dep_list_view, Manifest};
use crate::sorted::{as_map, keys_sorted, SortedMap};

verus! {

/// A dependency list (name, range) as a map of views, later entries winning.
pub open spec fn deps_map(s: Seq<(String, String)>) -> Map<Seq<char>, Seq<char>>
    decreases s.len(),
{
    if s.len() == 0 {
        Map::empty()
    } else {
        deps_map(s.drop_last()).insert(s.last().0@, s.last().1@)
    }
}

/// Sorted entries seen as a map of views.
pub open spec fn sorted_deps_view(s: Seq<(String, String)>) -> Map<Seq<char>, Seq<char>> {
    as_map(s).map_values(|v: String| v@)
}

/// One package of the lockfile.
#[derive(Debug)]
pub struct LockedPackage {
    pub name: Option<String>,
    pub version: Option<String>,
    pub resolved: Option<String>,
    pub integrity: Option<String>,
    pub dependencies: Option<Vec<(String, String)>>,
    pub dev_dependencies: Option<Vec<(String, String)>>,
    pub optional_dependencies: Option<Vec<(String, String)>>,
    pub peer_dependencies: Option<Vec<(String, String)>>,
}

/// The content of a locked package; dependency lists as maps.
pub struct LockedPackageView {
    pub name: Option<Seq<char>>,
    pub version: Option<Seq<char>>,
    pub resolved: Option<Seq<char>>,
    pub integrity: Option<Seq<char>>,
    pub dependencies: Option<Map<Seq<char>, Seq<char>>>,
    pub dev_dependencies: Option<Map<Seq<char>, Seq<char>>>,
    pub optional_dependencies: Option<Map<Seq<char>, Seq<char>>>,
    pub peer_dependencies: Option<Map<Seq<char>, Seq<char>>>,
}

pub open spec fn ostr(o: Option<String>) -> Option<Seq<char>> {
    match o {
        Some(s) => Some(s@),
        None => None,
    }
}

pub open spec fn odeps(o: Option<Vec<(String, String)>>) -> Option<Map<Seq<char>, Seq<char>>> {
    match o {
        Some(v) => Some(sorted_deps_view(v@)),
        None => None,
    }
}

pub open spec fn odeps_sorted(o: Option<Vec<(String, String)>>) -> bool {
    match o {
        Some(v) => keys_sorted(v@),
        None => true,
    }
}

impl View for LockedPackage {
    type V = LockedPackageView;

    open spec fn view(&self) -> LockedPackageView {
        LockedPackageView {
            name: ostr(self.name),
            version: ostr(self.version),
            resolved: ostr(self.resolved),
            integrity: ostr(self.integrity),
            dependencies: odeps(self.dependencies),
            dev_dependencies: odeps(self.dev_dependencies),
            optional_dependencies: odeps(self.optional_dependencies),
            peer_dependencies: odeps(self.peer_dependencies),
        }
    }
}

impl LockedPackage {
    /// Every dependency list is in key order.
    pub open spec fn wf(&self) -> bool {
        &&& odeps_sorted(self.dependencies)
        &&& odeps_sorted(self.dev_dependencies)
        &&& odeps_sorted(self.optional_dependencies)
        &&& odeps_sorted(self.peer_dependencies)
    }
}

impl Default for LockedPackage {
    fn default() -> (p: LockedPackage)
        ensures
            p.name is None && p.version is None && p.resolved is None && p.integrity is None,
            p.dependencies is None && p.dev_dependencies is None,
            p.optional_dependencies is None && p.peer_dependencies is None,
    {
        LockedPackage {
            name: None,
            version: None,
            resolved: None,
            integrity: None,
            dependencies: None,
            dev_dependencies: None,
            optional_dependencies: None,
            peer_dependencies: None,
        }
    }
}

/// The whole lockfile; `packages` is in key order.
#[derive(Debug)]
pub struct LockFile {
    pub name: Option<String>,
    pub version: Option<String>,
    pub lockfile_version: u8,
    pub packages: Vec<(String, LockedPackage)>,
}

impl LockFile {
    /// Drops the entry under `key`, if there is one.
    pub fn remove_package(&mut self, key: &str)
        requires
            keys_sorted(old(self).packages@),
        ensures
            keys_sorted(final(self).packages@),
            as_map(final(self).packages@) == as_map(old(self).packages@).remove(key@),
            final(self).name == old(self).name,
            final(self).version == old(self).version,
            final(self).lockfile_version == old(self).lockfile_version,
    {
        let mut packages: Vec<(String, LockedPackage)> = Vec::new();
        std::mem::swap(&mut packages, &mut self.packages);
        let mut m = SortedMap::from_sorted(packages);
        m.remove(key);
        self.packages = m.into_entries();
    }
}

/// A dependency list in key order, a later entry for the same name winning
/// (as collecting into a `BTreeMap`).
pub fn to_btree(map: &Vec<(String, String)>) -> (out: Vec<(String, String)>)
    ensures
        keys_sorted(out@),
        sorted_deps_view(out@) == deps_map(map@),
{
    let mut m: SortedMap<String> = SortedMap::new();
    let mut i: usize = 0;
    while i < map.len()
        invariant
            i <= map@.len(),
            m.wf(),
            m.map_view().map_values(|v: String| v@) == deps_map(map@.take(i as int)),
        decreases map@.len() - i,
    {
        let ghost before = m.map_view();
        let k = map[i].0.clone();
        let v = map[i].1.clone();
        m.insert(k, v);
        proof {
            assert(map@.take(i + 1).drop_last() == map@.take(i as int));
            assert(map@.take(i + 1).last() == map@[i as int]);
            assert(m.map_view().map_values(|v: String| v@) =~= before.map_values(|v: String| v@).insert(
                map@[i as int].0@,
                map@[i as int].1@,
            ));
        }
        i = i + 1;
    }
    proof {
        assert(map@.take(map@.len() as int) == map@);
    }
    m.into_entries()
}

/// Where a package directory sits below the project root, with `/` as the
/// separator; `None` when it is not below the root.
pub open spec fn lockfile_key_spec(project_root: Seq<char>, package_dir: Seq<char>) -> Option<
    Seq<char>,
> {
    match strip_prefix_spec(project_root, package_dir) {
        Some(rel) => Some(rel.map_values(|c: char| if c == '\\' { '/' } else { c })),
        None => None,
    }
}

/// The message of the error for a package path outside the project root.
pub open spec fn outside_root_message(project_root: Seq<char>, package_dir: Seq<char>) -> Seq<char> {
    "package path `"@ + package_dir + "` is outside project root `"@ + project_root + "`"@
}

/// How a lockfile error is classified, in the terms of `std::io::ErrorKind`.
#[derive(Debug, Clone, Copy, PartialEq, Eq)]
pub enum LockErrorKind {
    /// An argument the lockfile cannot take, such as a package directory
    /// outside the project root.
    InvalidInput,
}

/// A lockfile error: its kind and its message.
#[derive(Debug)]
pub struct LockError {
    pub kind: LockErrorKind,
    pub message: String,
}

impl LockError {
    /// The error's kind.
    pub fn kind(&self) -> (k: LockErrorKind)
        ensures
            k == self.kind,
    {
        self.kind
    }

    /// The error's message.
    pub fn to_string(&self) -> (m: String)
        ensures
            m@ == self.message@,
    {
        self.message.clone()
    }
}

/// The key of a package directory in the lockfile (see `lockfile_key_spec`);
/// an `InvalidInput` error, whose message says that the directory is
/// outside the root, when it is.
pub fn lockfile_key(project_root: &str, package_dir: &str) -> (r: Result<String, LockError>)
    ensures
        match r {
            Ok(k) => lockfile_key_spec(project_root@, package_dir@) == Some(k@),
            Err(e) => lockfile_key_spec(project_root@, package_dir@) is None && e.kind
                == LockErrorKind::InvalidInput && e.message@ == outside_root_message(
                project_root@,
                package_dir@,
            ),
        },
{
    match crate::path::strip_prefix(project_root, package_dir) {
        Some(rel) => {
            let cs = crate::text::chars_of(rel.as_str());
            let mut out: Vec<char> = Vec::new();
            let mut i: usize = 0;
            while i < cs.len()
                invariant
                    i <= cs@.len(),
                    out@ == cs@.take(i as int).map_values(
                        |c: char| if c == '\\' { '/' } else { c },
                    ),
                decreases cs@.len() - i,
            {
                if cs[i] == '\\' {
                    out.push('/');
                } else {
                    out.push(cs[i]);
                }
                i = i + 1;
                proof {
                    assert(out@ =~= cs@.take(i as int).map_values(
                        |c: char| if c == '\\' { '/' } else { c },
                    ));
                }
            }
            proof {
                assert(cs@.take(cs@.len() as int) == cs@);
            }
            Ok(crate::text::string_of(out.as_slice()))
        },
        None => {
            let mut m = String::new();
            m.append("package path `");
            m.append(package_dir);
            m.append("` is outside project root `");
            m.append(project_root);
            m.append("`");
            Err(LockError { kind: LockErrorKind::InvalidInput, message: m })
        },
    }
}

/// Collects locked packages during an install.
pub struct LockCollector {
    packages: SortedMap<LockedPackage>,
}

/// The root entry: the project's name, version and declared ranges.
pub open spec fn root_entry(
    name: Seq<char>,
    version: Seq<char>,
    dependencies: Seq<(String, String)>,
    dev_dependencies: Seq<(String, String)>,
    optional_dependencies: Seq<(String, String)>,
    peer_dependencies: Seq<(String, String)>,
) -> LockedPackageView {
    LockedPackageView {
        name: Some(name),
        version: Some(version),
        resolved: None,
        integrity: None,
        dependencies: Some(deps_map(dependencies)),
        dev_dependencies: Some(deps_map(dev_dependencies)),
        optional_dependencies: Some(deps_map(optional_dependencies)),
        peer_dependencies: Some(deps_map(peer_dependencies)),
    }
}

/// An installed package's entry: exact version, tarball, integrity and the
/// ranges it declares.
pub open spec fn package_entry(
    name: Seq<char>,
    version: Seq<char>,
    resolved: Seq<char>,
    integrity: Option<Seq<char>>,
    dependencies: Seq<(String, String)>,
    optional_dependencies: Seq<(String, String)>,
    peer_dependencies: Seq<(String, String)>,
) -> LockedPackageView {
    LockedPackageView {
        name: Some(name),
        version: Some(version),
        resolved: Some(resolved),
        integrity: integrity,
        dependencies: Some(deps_map(dependencies)),
        dev_dependencies: None,
        optional_dependencies: Some(deps_map(optional_dependencies)),
        peer_dependencies: Some(deps_map(peer_dependencies)),
    }
}

impl View for LockCollector {
    type V = Map<Seq<char>, LockedPackageView>;

    closed spec fn view(&self) -> Map<Seq<char>, LockedPackageView> {
        self.packages.map_view().map_values(|p: LockedPackage| p@)
    }
}

impl LockCollector {
    /// The packages are kept in key order, each with sorted dependency lists.
    pub closed spec fn wf(&self) -> bool {
        &&& self.packages.wf()
        &&& forall|k: Seq<char>|
            #[trigger] self.packages.map_view().dom().contains(k) ==> self.packages.map_view()[k].wf()
    }

    /// An empty collector.
    pub fn new() -> (c: LockCollector)
        ensures
            c.wf(),
            c@ == Map::<Seq<char>, LockedPackageView>::empty(),
    {
        let c = LockCollector { packages: SortedMap::new() };
        proof {
            assert(c@ =~= Map::<Seq<char>, LockedPackageView>::empty());
        }
        c
    }

    fn insert_entry(&mut self, key: String, entry: LockedPackage)
        requires
            old(self).wf(),
            entry.wf(),
        ensures
            final(self).wf(),
            final(self)@ == old(self)@.insert(key@, entry@),
    {
        let ghost k = key@;
        let ghost e = entry;
        self.packages.insert(key, entry);
        proof {
            assert(self@ =~= old(self)@.insert(k, e@));
        }
    }

    /// Records the project itself under the empty key.
    pub fn insert_root_fields(
        &mut self,
        name: &str,
        version: &str,
        dependencies: &Vec<(String, String)>,
        dev_dependencies: &Vec<(String, String)>,
        optional_dependencies: &Vec<(String, String)>,
        peer_dependencies: &Vec<(String, String)>,
    )
        requires
            old(self).wf(),
        ensures
            final(self).wf(),
            final(self)@ == old(self)@.insert(
                seq![],
                root_entry(
                    name@,
                    version@,
                    dependencies@,
                    dev_dependencies@,
                    optional_dependencies@,
                    peer_dependencies@,
                ),
            ),
    {
        let entry = LockedPackage {
            name: Some(name.to_owned()),
            version: Some(version.to_owned()),
            resolved: None,
            integrity: None,
            dependencies: Some(to_btree(dependencies)),
            dev_dependencies: Some(to_btree(dev_dependencies)),
            optional_dependencies: Some(to_btree(optional_dependencies)),
            peer_dependencies: Some(to_btree(peer_dependencies)),
        };
        let key = String::new();
        self.insert_entry(key, entry);
    }

    /// Records the project from its manifest (absent lists count as empty).
    pub fn insert_root(&mut self, manifest: &Manifest)
        requires
            old(self).wf(),
        ensures
            final(self).wf(),
            final(self)@ == old(self)@.insert(
                seq![],
                root_entry(
                    manifest.name@,
                    manifest.version@,
                    dep_list_view(manifest.dependencies),
                    dep_list_view(manifest.dev_dependencies),
                    dep_list_view(manifest.optional_dependencies),
                    dep_list_view(manifest.peer_dependencies),
                ),
            ),
    {
        let empty: Vec<(String, String)> = Vec::new();
        let d = match &manifest.dependencies {
            Some(v) => v,
            None => &empty,
        };
        let dd = match &manifest.dev_dependencies {
            Some(v) => v,
            None => &empty,
        };
        let od = match &manifest.optional_dependencies {
            Some(v) => v,
            None => &empty,
        };
        let pd = match &manifest.peer_dependencies {
            Some(v) => v,
            None => &empty,
        };
        self.insert_root_fields(
            manifest.name.as_str(),
            manifest.version.as_str(),
            d,
            dd,
            od,
            pd,
        );
    }

    /// Records an installed package under its path relative to the project
    /// root; fails with an `InvalidInput` error, changing nothing, when the
    /// package is outside the root.
    pub fn insert_package(
        &mut self,
        project_root: &str,
        package_dir: &str,
        name: &str,
        version: &str,
        resolved: &str,
        integrity: Option<&str>,
        dependencies: &Vec<(String, String)>,
        optional_dependencies: &Vec<(String, String)>,
        peer_dependencies: &Vec<(String, String)>,
    ) -> (r: Result<(), LockError>)
        requires
            old(self).wf(),
        ensures
            final(self).wf(),
            match lockfile_key_spec(project_root@, package_dir@) {
                Some(k) => r is Ok && final(self)@ == old(self)@.insert(
                    k,
                    package_entry(
                        name@,
                        version@,
                        resolved@,
                        match integrity {
                            Some(s) => Some(s@),
                            None => None,
                        },
                        dependencies@,
                        optional_dependencies@,
                        peer_dependencies@,
                    ),
                ),
                None => r matches Err(e) && e.kind == LockErrorKind::InvalidInput && e.message@
                    == outside_root_message(project_root@, package_dir@) && final(self)@ == old(
                    self,
                )@,
            },
    {
        let key = match lockfile_key(project_root, package_dir) {
            Ok(k) => k,
            Err(e) => {
                return Err(e);
            },
        };
        let entry = LockedPackage {
            name: Some(name.to_owned()),
            version: Some(version.to_owned()),
            resolved: Some(resolved.to_owned()),
            integrity: match integrity {
                Some(s) => Some(s.to_owned()),
                None => None,
            },
            dependencies: Some(to_btree(dependencies)),
            dev_dependencies: None,
            optional_dependencies: Some(to_btree(optional_dependencies)),
            peer_dependencies: Some(to_btree(peer_dependencies)),
        };
        self.insert_entry(key, entry);
        Ok(())
    }

    /// The lockfile with the given root name and version, format version 3,
    /// and the collected packages in key order.
    pub fn into_lockfile_fields(self, name: &str, version: &str) -> (l: LockFile)
        requires
            self.wf(),
        ensures
            ostr(l.name) == Some(name@),
            ostr(l.version) == Some(version@),
            l.lockfile_version == 3,
            keys_sorted(l.packages@),
            as_map(l.packages@).map_values(|p: LockedPackage| p@) == self@,
    {
        let packages = self.packages.into_entries();
        LockFile {
            name: Some(name.to_owned()),
            version: Some(version.to_owned()),
            lockfile_version: 3,
            packages,
        }
    }

    /// The lockfile named after the manifest's project.
    pub fn into_lockfile(self, manifest: &Manifest) -> (l: LockFile)
        requires
            self.wf(),
        ensures
            ostr(l.name) == Some(manifest.name@),
            ostr(l.version) == Some(manifest.version@),
            l.lockfile_version == 3,
            keys_sorted(l.packages@),
            as_map(l.packages@).map_values(|p: LockedPackage| p@) == self@,
    {
        self.into_lockfile_fields(manifest.name.as_str(), manifest.version.as_str())
    }
}


proof fn lemma_deps_map_keys(s: Seq<(String, String)>)
    ensures
        forall|k: Seq<char>|
            #[trigger] deps_map(s).dom().contains(k) <==> exists|i: int|
                0 <= i < s.len() && s[i].0@ == k,
    decreases s.len(),
{
    if s.len() > 0 {
        let pre = s.drop_last();
        lemma_deps_map_keys(pre);
        assert forall|k: Seq<char>| #[trigger] deps_map(s).dom().contains(k) <==> exists|i: int|
            0 <= i < s.len() && s[i].0@ == k by {
            assert(deps_map(s) == deps_map(pre).insert(s.last().0@, s.last().1@));
            if deps_map(s).dom().contains(k) {
                if k == s.last().0@ {
                    assert(s[s.len() - 1].0@ == k);
                } else {
                    assert(deps_map(pre).dom().contains(k));
                    let i = choose|i: int| 0 <= i < pre.len() && pre[i].0@ == k;
                    assert(s[i] == pre[i]);
                }
            }
            if exists|i: int| 0 <= i < s.len() && s[i].0@ == k {
                let i = choose|i: int| 0 <= i < s.len() && s[i].0@ == k;
                if i < pre.len() {
                    assert(pre[i] == s[i]);
                    assert(deps_map(pre).dom().contains(k));
                } else {
                    assert(s[i] == s.last());
                }
            }
        }
    }
}

/// An installed package's locked entry is made of what was passed for it:
/// its name, version, tarball and integrity; no dev dependencies; and each
/// dependency kind only from its own list, so that a key of the
/// optional (or peer, or regular) dependencies is the name of a pair of
/// that list and of no other, and an empty list gives an empty map whatever
/// the other lists hold.
pub proof fn law_locked_entry_from_its_lists(
    name: Seq<char>,
    version: Seq<char>,
    resolved: Seq<char>,
    integrity: Option<Seq<char>>,
    dependencies: Seq<(String, String)>,
    optional_dependencies: Seq<(String, String)>,
    peer_dependencies: Seq<(String, String)>,
    other: Seq<(String, String)>,
)
    ensures
        ({
            let e = package_entry(
                name,
                version,
                resolved,
                integrity,
                dependencies,
                optional_dependencies,
                peer_dependencies,
            );
            &&& e.name == Some(name) && e.version == Some(version)
            &&& e.resolved == Some(resolved) && e.integrity == integrity
            &&& e.dev_dependencies is None
            &&& e.dependencies is Some && e.optional_dependencies is Some
                && e.peer_dependencies is Some
            &&& forall|k: Seq<char>|
                #[trigger] e.dependencies.unwrap().dom().contains(k) <==> exists|i: int|
                    0 <= i < dependencies.len() && dependencies[i].0@ == k
            &&& forall|k: Seq<char>|
                #[trigger] e.optional_dependencies.unwrap().dom().contains(k) <==> exists|i: int|
                    0 <= i < optional_dependencies.len() && optional_dependencies[i].0@ == k
            &&& forall|k: Seq<char>|
                #[trigger] e.peer_dependencies.unwrap().dom().contains(k) <==> exists|i: int|
                    0 <= i < peer_dependencies.len() && peer_dependencies[i].0@ == k
            &&& optional_dependencies.len() == 0 ==> e.optional_dependencies == Some(
                Map::<Seq<char>, Seq<char>>::empty(),
            )
            &&& e.optional_dependencies == package_entry(
                name,
                version,
                resolved,
                integrity,
                other,
                optional_dependencies,
                other,
            ).optional_dependencies
        }),
{
    lemma_deps_map_keys(dependencies);
    lemma_deps_map_keys(optional_dependencies);
    lemma_deps_map_keys(peer_dependencies);
    if optional_dependencies.len() == 0 {
        assert(deps_map(optional_dependencies) =~= Map::<Seq<char>, Seq<char>>::empty());
    }
}

} // verus!
