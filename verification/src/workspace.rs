//! The description of a project as a set of packages: what was found out
//! about a workspace by the build system or from a project file, and the
//! folders that belong to it.

use rustc_hash::FxHashSet;
use vstd::prelude::*;

verus! {

/// An absolute path, held as the names that lead from the root to it.
#[derive(Debug, PartialEq, Eq, Hash)]
pub struct AbsPathBuf {
    pub segments: Vec<String>,
}

impl View for AbsPathBuf {
    type V = Seq<Seq<char>>;

    open spec fn view(&self) -> Seq<Seq<char>> {
        Seq::new(self.segments@.len(), |i: int| self.segments@[i]@)
    }
}

impl Clone for AbsPathBuf {
    fn clone(&self) -> (res: AbsPathBuf)
        ensures
            res@ == self@,
    {
        let mut segments: Vec<String> = Vec::new();
        let mut i: usize = 0;
        while i < self.segments.len()
            invariant
                0 <= i <= self.segments@.len(),
                segments@.len() == i,
                forall|k: int| 0 <= k < i ==> segments@[k]@ == self.segments@[k]@,
            decreases self.segments@.len() - i,
        {
            segments.push(self.segments[i].clone());
            i += 1;
        }
        let res = AbsPathBuf { segments };
        assert(res@ =~= self@);
        res
    }
}

impl AbsPathBuf {
    /// The path of the entry `name` in this folder.
    pub fn join(&self, name: &str) -> (res: AbsPathBuf)
        ensures
            res@ == self@.push(name@),
    {
        let mut res = self.clone();
        let ghost before = res@;
        res.segments.push(name.to_owned());
        assert(res@ =~= before.push(name@));
        res
    }
}

/// A folder of a package, which may be a member of the workspace or a
/// dependency from outside of it.
#[derive(Debug, Clone, PartialEq, Eq, Hash)]
pub struct PackageRoot {
    /// Is a member of the current workspace.
    pub is_member: bool,
    pub included: Vec<AbsPathBuf>,
    pub excluded: Vec<AbsPathBuf>,
}

/// The paths of `paths` as values.
pub open spec fn path_views(paths: Seq<AbsPathBuf>) -> Seq<Seq<Seq<char>>> {
    Seq::new(paths.len(), |i: int| paths[i]@)
}

/// A package root as a value.
pub struct PackageRootView {
    pub is_member: bool,
    pub included: Seq<Seq<Seq<char>>>,
    pub excluded: Seq<Seq<Seq<char>>>,
}

impl View for PackageRoot {
    type V = PackageRootView;

    open spec fn view(&self) -> PackageRootView {
        PackageRootView {
            is_member: self.is_member,
            included: path_views(self.included@),
            excluded: path_views(self.excluded@),
        }
    }
}

/// The roots of `roots` as values.
pub open spec fn root_views(roots: Seq<PackageRoot>) -> Seq<PackageRootView> {
    Seq::new(roots.len(), |i: int| roots[i]@)
}

/// The edition of the language that a crate is written in.
#[derive(Debug, Clone, Copy, PartialEq, Eq, Hash, Structural)]
pub enum Edition {
    Edition2015,
    Edition2018,
}

/// What a target of a package is built into.
#[derive(Debug, Clone, Copy, PartialEq, Eq, Hash, Structural)]
pub enum TargetKind {
    Bin,
    /// Any kind of library.
    Lib,
    Example,
    Test,
    Bench,
    Other,
}

/// A file that has been loaded.
pub type FileId = u32;

/// A target of a package: a library, a binary, a test and the like.
#[derive(Debug, Clone, PartialEq, Eq)]
pub struct TargetData {
    /// The package that the target belongs to, by its place in the
    /// workspace.
    pub package: usize,
    pub name: String,
    /// The file of the target's root module.
    pub root: AbsPathBuf,
    pub kind: TargetKind,
    pub is_proc_macro: bool,
    /// The root module as a loaded file, if it could be loaded.
    pub file_id: Option<FileId>,
}

/// A dependency of a package on another one.
#[derive(Debug, Clone, PartialEq, Eq)]
pub struct PackageDependency {
    /// The package that is depended on, by its place in the workspace.
    pub pkg: usize,
    /// The name under which the dependency is used.
    pub name: String,
}

/// A package of a workspace that the build system reported.
#[derive(Debug, Clone, PartialEq, Eq)]
pub struct PackageData {
    pub name: String,
    /// The folder that holds the package's manifest.
    pub root: AbsPathBuf,
    /// Is a member of the workspace, and no dependency from outside.
    pub is_member: bool,
    /// The folder of what the package's build script wrote, if it has run.
    pub out_dir: Option<AbsPathBuf>,
    /// The targets of the package, by their places in the workspace.
    pub targets: Vec<usize>,
    pub dependencies: Vec<PackageDependency>,
    pub edition: Edition,
    /// The features that are switched on.
    pub features: Vec<String>,
    /// The configuration flags that the build script set.
    pub cfgs: Vec<crate::rustc_cfg::CfgFlag>,
    /// The variables that the build script set, each with its value.
    pub envs: Vec<(String, String)>,
    /// The compiled procedural macros of the package, if it has any.
    pub proc_macro_dylib_path: Option<AbsPathBuf>,
}

/// A workspace as the build system reported it.
#[derive(Debug, Clone, PartialEq, Eq)]
pub struct CargoWorkspace {
    pub packages: Vec<PackageData>,
    pub targets: Vec<TargetData>,
}

/// A crate of the standard library.
#[derive(Debug, Clone, PartialEq, Eq)]
pub struct SysrootCrateData {
    pub name: String,
    /// The folder that holds the crate's root module.
    pub root_dir: AbsPathBuf,
    /// The crates that this one depends on, by their places in the
    /// sysroot.
    pub deps: Vec<usize>,
    /// The root module as a loaded file, if it could be loaded.
    pub file_id: Option<FileId>,
}

/// The crates of the standard library.
#[derive(Debug, Clone, PartialEq, Eq)]
pub struct Sysroot {
    pub crates: Vec<SysrootCrateData>,
}

/// A dependency of a crate of a project that is described by hand.
#[derive(Debug, Clone, PartialEq, Eq)]
pub struct CrateDependency {
    /// The crate that is depended on, by its place in the project.
    pub crate_id: usize,
    pub name: String,
}

/// A crate of a project that is described by hand.
#[derive(Debug, Clone, PartialEq, Eq)]
pub struct Crate {
    pub display_name: Option<String>,
    /// The file of the crate's root module.
    pub root_module: AbsPathBuf,
    /// The target that the crate is built for, if it is not that of the
    /// project.
    pub target: Option<String>,
    pub edition: Edition,
    pub deps: Vec<CrateDependency>,
    pub cfg: Vec<crate::rustc_cfg::CfgFlag>,
    pub env: Vec<(String, String)>,
    pub proc_macro_dylib_path: Option<AbsPathBuf>,
    pub is_workspace_member: bool,
    pub included: Vec<AbsPathBuf>,
    pub excluded: Vec<AbsPathBuf>,
    /// The root module as a loaded file, if it could be loaded.
    pub file_id: Option<FileId>,
    /// The flags that the compiler printed for the crate's target, or for
    /// the target of the project if the crate names none; nothing if the
    /// compiler could not be asked.
    pub rustc_cfgs: Option<Vec<crate::rustc_cfg::CfgFlag>>,
}

/// A project that is described by hand, in a project file.
#[derive(Debug, Clone, PartialEq, Eq)]
pub struct ProjectJson {
    /// Where the sources of the standard library lie, if the project says.
    pub sysroot_src: Option<AbsPathBuf>,
    pub crates: Vec<Crate>,
}

impl ProjectJson {
    pub fn n_crates(&self) -> (n: usize)
        ensures
            n == self.crates@.len(),
    {
        self.crates.len()
    }
}

/// Why a workspace could not be loaded.
#[derive(Debug, Clone, PartialEq, Eq)]
pub struct LoadError {
    pub message: String,
}

#[derive(Debug, Clone, PartialEq, Eq)]
pub enum ProjectWorkspace {
    /// The workspace was found by asking the build system for its packages
    /// and the compiler for the standard library.
    Cargo { cargo: CargoWorkspace, sysroot: Sysroot, rustc: Option<CargoWorkspace> },
    /// The workspace was described by hand, in a project file.
    Json { project: ProjectJson, sysroot: Option<Sysroot> },
}

/// How many packages and crates the parts of a workspace hold.
#[derive(Debug, Clone, Copy, PartialEq, Eq)]
pub enum WorkspaceCounts {
    Cargo { n_packages: usize, n_sysroot_crates: usize, n_rustc_compiler_crates: usize },
    Json { n_crates: usize, n_sysroot_crates: Option<usize> },
}

/// The root of a package that the build system reported: its folder and the
/// output of its build script are included; excluded are its `.git`, and
/// `target` for a member of the workspace, but `tests`, `examples` and
/// `benches` for a dependency.
pub open spec fn cargo_root(pkg: PackageData) -> PackageRootView {
    PackageRootView {
        is_member: pkg.is_member,
        included: match pkg.out_dir {
            Some(out_dir) => seq![pkg.root@, out_dir@],
            None => seq![pkg.root@],
        },
        excluded: if pkg.is_member {
            seq![pkg.root@.push(".git"@), pkg.root@.push("target"@)]
        } else {
            seq![
                pkg.root@.push(".git"@),
                pkg.root@.push("tests"@),
                pkg.root@.push("examples"@),
                pkg.root@.push("benches"@),
            ]
        },
    }
}

/// The root of a folder that belongs to no member of the workspace, with
/// nothing excluded.
pub open spec fn library_root(dir: AbsPathBuf) -> PackageRootView {
    PackageRootView { is_member: false, included: seq![dir@], excluded: Seq::empty() }
}

/// The root of a crate of a project that is described by hand.
pub open spec fn json_root(krate: Crate) -> PackageRootView {
    PackageRootView {
        is_member: krate.is_workspace_member,
        included: path_views(krate.included@),
        excluded: path_views(krate.excluded@),
    }
}

/// The roots of the packages of a workspace, in the order of the packages.
pub open spec fn cargo_roots(cargo: CargoWorkspace) -> Seq<PackageRootView> {
    Seq::new(cargo.packages@.len(), |i: int| cargo_root(cargo.packages@[i]))
}

/// The roots of the crates of the standard library, in their order.
pub open spec fn sysroot_roots(sysroot: Sysroot) -> Seq<PackageRootView> {
    Seq::new(sysroot.crates@.len(), |i: int| library_root(sysroot.crates@[i].root_dir))
}

/// The roots of the packages of the compiler's own workspace, in their
/// order.
pub open spec fn rustc_roots(rustc: CargoWorkspace) -> Seq<PackageRootView> {
    Seq::new(rustc.packages@.len(), |i: int| library_root(rustc.packages@[i].root))
}

/// The roots of the crates of a project that is described by hand, in the
/// order of the crates.
pub open spec fn json_roots(project: ProjectJson) -> Seq<PackageRootView> {
    Seq::new(project.crates@.len(), |i: int| json_root(project.crates@[i]))
}

/// What a `rustc_hash::FxHashSet` of roots holds. Two roots are the same to
/// the set where all their fields are: that is the equality and the hash
/// that are derived for `PackageRoot` and `AbsPathBuf`.
pub uninterp spec fn roots_of(set: FxHashSet<PackageRoot>) -> Set<PackageRootView>;

/// The set of no roots.
pub open spec fn no_roots() -> Set<PackageRootView> {
    Set::empty()
}

/// `FxHashSet::default`, which is `HashSet::default` with the hasher of
/// `rustc_hash`: the new set holds nothing.
#[verifier::external_body]
fn roots_new() -> (set: FxHashSet<PackageRoot>)
    ensures
        roots_of(set) == no_roots(),
{
    FxHashSet::default()
}

/// `HashSet::insert` on a `FxHashSet`: the set holds `root` afterwards, and
/// what it held before.
#[verifier::external_body]
fn roots_insert(set: &mut FxHashSet<PackageRoot>, root: PackageRoot)
    ensures
        roots_of(*final(set)) == roots_of(*old(set)).insert(root@),
{
    set.insert(root);
}

/// `HashSet::into_iter` on a `FxHashSet`, collected into a vector: each root
/// that the set holds comes once, and nothing else comes. The order is that
/// of the table of the set, of which nothing is stated.
#[verifier::external_body]
fn roots_into_vec(set: FxHashSet<PackageRoot>) -> (roots: Vec<PackageRoot>)
    ensures
        root_views(roots@).no_duplicates(),
        root_views(roots@).to_set() == roots_of(set),
{
    set.into_iter().collect()
}

fn clone_paths(paths: &Vec<AbsPathBuf>) -> (res: Vec<AbsPathBuf>)
    ensures
        path_views(res@) == path_views(paths@),
{
    let mut res: Vec<AbsPathBuf> = Vec::new();
    let mut i: usize = 0;
    while i < paths.len()
        invariant
            0 <= i <= paths@.len(),
            res@.len() == i,
            forall|k: int| 0 <= k < i ==> res@[k]@ == paths@[k]@,
        decreases paths@.len() - i,
    {
        res.push(paths[i].clone());
        i += 1;
    }
    assert(path_views(res@) =~= path_views(paths@));
    res
}

fn library_package_root(dir: &AbsPathBuf) -> (root: PackageRoot)
    ensures
        root@ == library_root(*dir),
{
    let mut included: Vec<AbsPathBuf> = Vec::new();
    included.push(dir.clone());
    let root = PackageRoot { is_member: false, included, excluded: Vec::new() };
    assert(root@.included =~= seq![dir@]);
    assert(root@.excluded =~= Seq::empty());
    root
}

fn json_package_root(krate: &Crate) -> (root: PackageRoot)
    ensures
        root@ == json_root(*krate),
{
    let mut root = PackageRoot {
        is_member: krate.is_workspace_member,
        included: Vec::new(),
        excluded: Vec::new(),
    };
    root.included = clone_paths(&krate.included);
    root.excluded = clone_paths(&krate.excluded);
    root
}

fn cargo_package_root(pkg: &PackageData) -> (root: PackageRoot)
    ensures
        root@ == cargo_root(*pkg),
{
    let is_member = pkg.is_member;
    let mut included: Vec<AbsPathBuf> = Vec::new();
    included.push(pkg.root.clone());
    if let Some(out_dir) = &pkg.out_dir {
        included.push(out_dir.clone());
    }
    let mut excluded: Vec<AbsPathBuf> = Vec::new();
    excluded.push(pkg.root.join(".git"));
    if is_member {
        excluded.push(pkg.root.join("target"));
    } else {
        excluded.push(pkg.root.join("tests"));
        excluded.push(pkg.root.join("examples"));
        excluded.push(pkg.root.join("benches"));
    }
    let root = PackageRoot { is_member, included, excluded };
    let ghost wanted = cargo_root(*pkg);
    assert(root@.included =~= wanted.included && root@.excluded =~= wanted.excluded);
    root
}

fn push_sysroot_roots(roots: &mut Vec<PackageRoot>, sysroot: &Sysroot)
    ensures
        root_views(final(roots)@) == root_views(old(roots)@) + sysroot_roots(*sysroot),
{
    let ghost before = root_views(roots@);
    let mut i: usize = 0;
    assert(root_views(roots@) =~= before + sysroot_roots(*sysroot).take(0));
    while i < sysroot.crates.len()
        invariant
            0 <= i <= sysroot.crates@.len(),
            root_views(roots@) == before + sysroot_roots(*sysroot).take(i as int),
        decreases sysroot.crates@.len() - i,
    {
        let ghost views = root_views(roots@);
        roots.push(library_package_root(&sysroot.crates[i].root_dir));
        i += 1;
        assert(root_views(roots@) =~= views.push(sysroot_roots(*sysroot)[i - 1]));
        assert(root_views(roots@) =~= before + sysroot_roots(*sysroot).take(i as int));
    }
    assert(sysroot_roots(*sysroot).take(i as int) =~= sysroot_roots(*sysroot));
}

impl ProjectWorkspace {
    /// The workspace of a project that is described by hand. `sysroot` is
    /// what came of loading the standard library from the place that the
    /// project names: it is asked for only where the project names one, and
    /// the workspace is there only if the load went well.
    pub fn load_inline(project_json: ProjectJson, sysroot: Option<Result<Sysroot, LoadError>>) -> (res:
        Result<ProjectWorkspace, LoadError>)
        requires
            project_json.sysroot_src is Some ==> sysroot is Some,
        ensures
            res == match project_json.sysroot_src {
                Some(_) => match sysroot.unwrap() {
                    Ok(loaded) => Ok(
                        ProjectWorkspace::Json { project: project_json, sysroot: Some(loaded) },
                    ),
                    Err(error) => Err(error),
                },
                None => Ok(ProjectWorkspace::Json { project: project_json, sysroot: None }),
            },
    {
        let sysroot = match &project_json.sysroot_src {
            Some(_) => match sysroot {
                Some(Ok(loaded)) => Some(loaded),
                Some(Err(error)) => return Err(error),
                None => None,
            },
            None => None,
        };
        Ok(ProjectWorkspace::Json { project: project_json, sysroot })
    }

    /// The number of packages: for a project that is described by hand, its
    /// crates; else the packages of the workspace, the crates of the
    /// standard library, and the packages of the compiler's workspace.
    pub open spec fn package_count(&self) -> nat {
        match *self {
            ProjectWorkspace::Json { project, .. } => project.crates@.len(),
            ProjectWorkspace::Cargo { cargo, sysroot, rustc } => cargo.packages@.len()
                + sysroot.crates@.len() + match rustc {
                Some(rustc) => rustc.packages@.len(),
                None => 0,
            },
        }
    }

    pub fn n_packages(&self) -> (n: usize)
        requires
            self.package_count() <= usize::MAX,
        ensures
            n == self.package_count(),
    {
        match self {
            ProjectWorkspace::Json { project, .. } => project.n_crates(),
            ProjectWorkspace::Cargo { cargo, sysroot, rustc } => {
                let rustc_package_len = match rustc {
                    Some(rustc) => rustc.packages.len(),
                    None => 0,
                };
                cargo.packages.len() + sysroot.crates.len() + rustc_package_len
            },
        }
    }

    /// What a short description of the workspace tells: how many packages
    /// and crates its parts hold.
    pub open spec fn part_counts(&self) -> WorkspaceCounts {
        match *self {
            ProjectWorkspace::Cargo { cargo, sysroot, rustc } => WorkspaceCounts::Cargo {
                n_packages: cargo.packages@.len() as usize,
                n_sysroot_crates: sysroot.crates@.len() as usize,
                n_rustc_compiler_crates: match rustc {
                    Some(rustc) => rustc.packages@.len() as usize,
                    None => 0,
                },
            },
            ProjectWorkspace::Json { project, sysroot } => WorkspaceCounts::Json {
                n_crates: project.crates@.len() as usize,
                n_sysroot_crates: match sysroot {
                    Some(sysroot) => Some(sysroot.crates@.len() as usize),
                    None => None,
                },
            },
        }
    }

    /// How many packages and crates the parts of the workspace hold.
    pub fn counts(&self) -> (counts: WorkspaceCounts)
        ensures
            counts == self.part_counts(),
    {
        match self {
            ProjectWorkspace::Cargo { cargo, sysroot, rustc } => WorkspaceCounts::Cargo {
                n_packages: cargo.packages.len(),
                n_sysroot_crates: sysroot.crates.len(),
                n_rustc_compiler_crates: match rustc {
                    Some(rustc) => rustc.packages.len(),
                    None => 0,
                },
            },
            ProjectWorkspace::Json { project, sysroot } => WorkspaceCounts::Json {
                n_crates: project.n_crates(),
                n_sysroot_crates: match sysroot {
                    Some(sysroot) => Some(sysroot.crates.len()),
                    None => None,
                },
            },
        }
    }

    /// The roots of a workspace that the build system reported: those of
    /// its packages, of the crates of the standard library and of the
    /// packages of the compiler's workspace, in this order.
    pub open spec fn listed_roots(&self) -> Seq<PackageRootView> {
        match *self {
            ProjectWorkspace::Cargo { cargo, sysroot, rustc } => cargo_roots(cargo) + sysroot_roots(
                sysroot,
            ) + match rustc {
                Some(rustc) => rustc_roots(rustc),
                None => Seq::empty(),
            },
            ProjectWorkspace::Json { project, sysroot } => Seq::empty(),
        }
    }

    /// Whether `roots` are the roots of a project that is described by
    /// hand: first the roots of its crates, each distinct one once and in
    /// any order, then those of the crates of the standard library.
    pub open spec fn is_json_roots(
        roots: Seq<PackageRootView>,
        project: ProjectJson,
        sysroot: Option<Sysroot>,
    ) -> bool {
        let tail = match sysroot {
            Some(sysroot) => sysroot_roots(sysroot),
            None => Seq::empty(),
        };
        let n = roots.len() - tail.len();
        &&& n >= 0
        &&& roots.skip(n) == tail
        &&& roots.take(n).no_duplicates()
        &&& roots.take(n).to_set() == json_roots(project).to_set()
    }

    /// The folders of the workspace, each with whether it belongs to a
    /// member of the workspace.
    pub fn to_roots(&self) -> (roots: Vec<PackageRoot>)
        ensures
            match *self {
                ProjectWorkspace::Cargo { .. } => root_views(roots@) == self.listed_roots(),
                ProjectWorkspace::Json { project, sysroot } => Self::is_json_roots(
                    root_views(roots@),
                    project,
                    sysroot,
                ),
            },
    {
        match self {
            ProjectWorkspace::Json { project, sysroot } => {
                let mut set = roots_new();
                let mut i: usize = 0;
                assert(json_roots(*project).take(0).to_set() =~= no_roots());
                while i < project.crates.len()
                    invariant
                        0 <= i <= project.crates@.len(),
                        roots_of(set) == json_roots(*project).take(i as int).to_set(),
                    decreases project.crates@.len() - i,
                {
                    let krate = &project.crates[i];
                    let root = json_package_root(krate);
                    roots_insert(&mut set, root);
                    i += 1;
                    proof {
                        let grown = json_roots(*project).take(i as int);
                        assert(grown =~= json_roots(*project).take(i - 1).push(json_root(*krate)));
                        json_roots(*project).take(i - 1).lemma_push_to_set_commute(
                            json_root(*krate),
                        );
                    }
                }
                assert(json_roots(*project).take(i as int) =~= json_roots(*project));
                let mut roots = roots_into_vec(set);
                let ghost distinct = root_views(roots@);
                if let Some(sysroot) = sysroot {
                    push_sysroot_roots(&mut roots, sysroot);
                }
                proof {
                    let all = root_views(roots@);
                    let tail = all.skip(distinct.len() as int);
                    assert(all.take(distinct.len() as int) =~= distinct);
                    match sysroot {
                        Some(sysroot) => {
                            assert(tail =~= sysroot_roots(*sysroot));
                        },
                        None => {
                            assert(tail =~= Seq::<PackageRootView>::empty());
                        },
                    }
                }
                roots
            },
            ProjectWorkspace::Cargo { cargo, sysroot, rustc } => {
                let mut roots: Vec<PackageRoot> = Vec::new();
                let mut i: usize = 0;
                assert(root_views(roots@) =~= cargo_roots(*cargo).take(0));
                while i < cargo.packages.len()
                    invariant
                        0 <= i <= cargo.packages@.len(),
                        root_views(roots@) == cargo_roots(*cargo).take(i as int),
                    decreases cargo.packages@.len() - i,
                {
                    let ghost views = root_views(roots@);
                    roots.push(cargo_package_root(&cargo.packages[i]));
                    i += 1;
                    assert(root_views(roots@) =~= views.push(cargo_roots(*cargo)[i - 1]));
                    assert(root_views(roots@) =~= cargo_roots(*cargo).take(i as int));
                }
                assert(cargo_roots(*cargo).take(i as int) =~= cargo_roots(*cargo));
                push_sysroot_roots(&mut roots, sysroot);
                if let Some(rustc) = rustc {
                    let ghost before = root_views(roots@);
                    let mut k: usize = 0;
                    assert(root_views(roots@) =~= before + rustc_roots(*rustc).take(0));
                    while k < rustc.packages.len()
                        invariant
                            0 <= k <= rustc.packages@.len(),
                            root_views(roots@) == before + rustc_roots(*rustc).take(k as int),
                        decreases rustc.packages@.len() - k,
                    {
                        let ghost views = root_views(roots@);
                        roots.push(library_package_root(&rustc.packages[k].root));
                        k += 1;
                        assert(root_views(roots@) =~= views.push(rustc_roots(*rustc)[k - 1]));
                        assert(root_views(roots@) =~= before + rustc_roots(*rustc).take(k as int));
                    }
                    assert(rustc_roots(*rustc).take(k as int) =~= rustc_roots(*rustc));
                } else {
                    assert(root_views(roots@) =~= root_views(roots@) + Seq::<
                        PackageRootView,
                    >::empty());
                }
                roots
            },
        }
    }
}

} // verus!
