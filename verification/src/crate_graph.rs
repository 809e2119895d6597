//! The crates of a workspace and the dependencies between them, as they are
//! to be entered into the database of crates.

use crate::rustc_cfg::{flag_views, get_rustc_cfg_options, CfgFlag, CfgFlagView};
use crate::workspace::{
    AbsPathBuf, CargoWorkspace, Crate, Edition, FileId, PackageData, PackageDependency,
    ProjectJson, ProjectWorkspace, Sysroot, SysrootCrateData, TargetKind,
};
use rustc_hash::FxHashMap;
use vstd::prelude::*;

verus! {

/// The place of a crate in the graph.
pub type CrateId = usize;

/// A crate that is to be entered into the graph.
#[derive(Debug, Clone, PartialEq, Eq)]
pub struct CrateRoot {
    /// The file of the crate's root module.
    pub file_id: FileId,
    pub edition: Edition,
    pub display_name: Option<String>,
    /// The configuration flags that are set for the crate, in the order in
    /// which they were set.
    pub cfg_options: Vec<CfgFlag>,
    /// The environment variables that are set for the crate.
    pub env: Vec<(String, String)>,
    /// The folder that `OUT_DIR` names for the crate, if it is set.
    pub out_dir: Option<AbsPathBuf>,
    /// Where the compiled procedural macros of the crate lie, if it has
    /// any.
    pub proc_macro_dylib_path: Option<AbsPathBuf>,
}

/// A dependency that is to be entered into the graph.
#[derive(Debug, Clone, PartialEq, Eq)]
pub struct Dependency {
    pub from: CrateId,
    /// The name under which `from` uses `to`.
    pub name: String,
    pub to: CrateId,
}

/// The crates and dependencies that are to be entered into the graph, in
/// the order in which they are to be entered. A dependency that would close
/// a cycle is refused by the graph when it is entered.
#[derive(Debug, Clone, PartialEq, Eq)]
pub struct CrateGraph {
    pub roots: Vec<CrateRoot>,
    pub deps: Vec<Dependency>,
}

/// The pairs of `pairs` as values.
pub open spec fn pair_views(pairs: Seq<(String, String)>) -> Seq<(Seq<char>, Seq<char>)> {
    Seq::new(pairs.len(), |i: int| (pairs[i].0@, pairs[i].1@))
}

/// The path as a value, if there is one.
pub open spec fn opt_path(path: Option<AbsPathBuf>) -> Option<Seq<Seq<char>>> {
    match path {
        Some(path) => Some(path@),
        None => None,
    }
}

/// The text as a value, if there is one.
pub open spec fn opt_text(text: Option<String>) -> Option<Seq<char>> {
    match text {
        Some(text) => Some(text@),
        None => None,
    }
}

/// A crate of the graph as a value.
pub struct CrateRootView {
    pub file_id: FileId,
    pub edition: Edition,
    pub display_name: Option<Seq<char>>,
    pub cfg_options: Seq<CfgFlagView>,
    pub env: Seq<(Seq<char>, Seq<char>)>,
    pub out_dir: Option<Seq<Seq<char>>>,
    pub proc_macro_dylib_path: Option<Seq<Seq<char>>>,
}

impl View for CrateRoot {
    type V = CrateRootView;

    open spec fn view(&self) -> CrateRootView {
        CrateRootView {
            file_id: self.file_id,
            edition: self.edition,
            display_name: opt_text(self.display_name),
            cfg_options: flag_views(self.cfg_options@),
            env: pair_views(self.env@),
            out_dir: opt_path(self.out_dir),
            proc_macro_dylib_path: opt_path(self.proc_macro_dylib_path),
        }
    }
}

/// A dependency of the graph as a value.
pub struct DependencyView {
    pub from: CrateId,
    pub name: Seq<char>,
    pub to: CrateId,
}

impl View for Dependency {
    type V = DependencyView;

    open spec fn view(&self) -> DependencyView {
        DependencyView { from: self.from, name: self.name@, to: self.to }
    }
}

/// A graph as a value.
pub struct CrateGraphView {
    pub roots: Seq<CrateRootView>,
    pub deps: Seq<DependencyView>,
}

impl CrateGraphView {
    /// The graph without crates.
    pub open spec fn empty() -> CrateGraphView {
        CrateGraphView { roots: Seq::empty(), deps: Seq::empty() }
    }

    /// The graph with one more crate.
    pub open spec fn with_root(self, root: CrateRootView) -> CrateGraphView {
        CrateGraphView { roots: self.roots.push(root), deps: self.deps }
    }

    /// The graph with one more dependency.
    pub open spec fn with_dep(self, from: CrateId, name: Seq<char>, to: CrateId) -> CrateGraphView {
        CrateGraphView { roots: self.roots, deps: self.deps.push(DependencyView { from, name, to }) }
    }

    /// The graph with a dependency of `from` on each of the first `n` of
    /// `targets`, under the name that goes with the target.
    pub open spec fn with_deps_on(
        self,
        from: CrateId,
        targets: Seq<(Seq<char>, CrateId)>,
        n: int,
    ) -> CrateGraphView
        decreases n,
    {
        if n <= 0 {
            self
        } else {
            self.with_deps_on(from, targets, n - 1).with_dep(from, targets[n - 1].0, targets[n - 1].1)
        }
    }

    /// The graph with a dependency of each of the first `n` of `froms` on
    /// `to`, under the name `name`.
    pub open spec fn with_deps_from(
        self,
        froms: Seq<CrateId>,
        name: Seq<char>,
        to: CrateId,
        n: int,
    ) -> CrateGraphView
        decreases n,
    {
        if n <= 0 {
            self
        } else {
            self.with_deps_from(froms, name, to, n - 1).with_dep(froms[n - 1], name, to)
        }
    }
}

impl View for CrateGraph {
    type V = CrateGraphView;

    open spec fn view(&self) -> CrateGraphView {
        CrateGraphView {
            roots: Seq::new(self.roots@.len(), |i: int| self.roots@[i]@),
            deps: Seq::new(self.deps@.len(), |i: int| self.deps@[i]@),
        }
    }
}

/// The crates with their names, as values.
pub open spec fn named_views(named: Seq<(String, CrateId)>) -> Seq<(Seq<char>, CrateId)> {
    Seq::new(named.len(), |i: int| (named[i].0@, named[i].1))
}

impl CrateGraph {
    /// The graph without crates.
    pub fn new() -> (graph: CrateGraph)
        ensures
            graph@ == CrateGraphView::empty(),
    {
        let graph = CrateGraph { roots: Vec::new(), deps: Vec::new() };
        assert(graph@.roots =~= Seq::empty() && graph@.deps =~= Seq::empty());
        graph
    }

    /// Enters a crate, and returns its place.
    pub fn add_crate_root(&mut self, root: CrateRoot) -> (id: CrateId)
        ensures
            id == old(self)@.roots.len(),
            final(self)@ == old(self)@.with_root(root@),
    {
        let id = self.roots.len();
        self.roots.push(root);
        assert(self@.roots =~= old(self)@.roots.push(root@));
        assert(self@.deps =~= old(self)@.deps);
        id
    }
}

/// Enters the dependency of `from` on `to` under the name `name`.
pub fn add_dep(graph: &mut CrateGraph, from: CrateId, name: String, to: CrateId)
    ensures
        final(graph)@ == old(graph)@.with_dep(from, name@, to),
{
    graph.deps.push(Dependency { from, name, to });
    assert(graph@.roots =~= old(graph)@.roots);
    assert(graph@.deps =~= old(graph)@.deps.push(DependencyView { from, name: name@, to }));
}

/// Enters a dependency of `from` on each of `targets`.
pub fn add_deps_on(graph: &mut CrateGraph, from: CrateId, targets: &Vec<(String, CrateId)>)
    ensures
        final(graph)@ == old(graph)@.with_deps_on(
            from,
            named_views(targets@),
            targets@.len() as int,
        ),
{
    let mut i: usize = 0;
    while i < targets.len()
        invariant
            0 <= i <= targets@.len(),
            graph@ == old(graph)@.with_deps_on(from, named_views(targets@), i as int),
        decreases targets@.len() - i,
    {
        add_dep(graph, from, targets[i].0.clone(), targets[i].1);
        i += 1;
    }
}

/// Enters a dependency of each of `froms` on `to`.
pub fn add_deps_from(graph: &mut CrateGraph, froms: &Vec<CrateId>, name: &String, to: CrateId)
    ensures
        final(graph)@ == old(graph)@.with_deps_from(froms@, name@, to, froms@.len() as int),
{
    let mut i: usize = 0;
    while i < froms.len()
        invariant
            0 <= i <= froms@.len(),
            graph@ == old(graph)@.with_deps_from(froms@, name@, to, i as int),
        decreases froms@.len() - i,
    {
        add_dep(graph, froms[i], name.clone(), to);
        i += 1;
    }
}

/// Whether `name` can be the name of a crate: it holds no dash.
pub open spec fn is_crate_name(name: Seq<char>) -> bool {
    !name.contains('-')
}

/// `text` with `to` in the place of each `from`.
pub open spec fn with_replaced(text: Seq<char>, from: char, to: char) -> Seq<char> {
    Seq::new(
        text.len(),
        |i: int|
            if text[i] == from {
                to
            } else {
                text[i]
            },
    )
}

/// `name` with an underscore in the place of each dash.
pub open spec fn normalized(name: Seq<char>) -> Seq<char> {
    with_replaced(name, '-', '_')
}

/// `str::contains` with a character as the pattern: whether a character of
/// `text` is `c`.
#[verifier::external_body]
fn contains_char(text: &str, c: char) -> (b: bool)
    ensures
        b == text@.contains(c),
{
    text.contains(c)
}

/// `str::replace` with a character as the pattern and a text of one
/// character to put in its place: the characters of `text` in their order,
/// with that character for each `from`.
#[verifier::external_body]
fn replace_char(text: &str, from: char, to: &str) -> (res: String)
    requires
        to@.len() == 1,
    ensures
        res@ == with_replaced(text@, from, to@[0]),
{
    text.replace(from, to)
}

/// Whether `name` can be the name of a crate.
pub fn check_crate_name(name: &str) -> (b: bool)
    ensures
        b == is_crate_name(name@),
{
    !contains_char(name, '-')
}

/// The name of a crate that is made from `name` by putting an underscore in
/// the place of each dash.
pub fn normalize_dashes(name: &str) -> (res: String)
    ensures
        res@ == normalized(name@),
        is_crate_name(res@),
{
    proof {
        reveal_strlit("_");
    }
    let res = replace_char(name, '-', "_");
    assert(!res@.contains('-')) by {
        if res@.contains('-') {
            let i = choose|i: int| 0 <= i < res@.len() && res@[i] == '-';
            assert(normalized(name@)[i] != '-');
        }
    }
    res
}

/// What a `rustc_hash::FxHashMap` from places to places holds.
pub uninterp spec fn ids_of(map: FxHashMap<usize, usize>) -> Map<usize, usize>;

/// The map that holds nothing.
pub open spec fn no_ids() -> Map<usize, usize> {
    Map::empty()
}

/// `FxHashMap::default`, which is `HashMap::default` with the hasher of
/// `rustc_hash`: the new map holds nothing.
#[verifier::external_body]
fn ids_new() -> (map: FxHashMap<usize, usize>)
    ensures
        ids_of(map) == no_ids(),
{
    FxHashMap::default()
}

/// `HashMap::get` on a `FxHashMap`: what the map holds for `key`, and
/// nothing if `key` is no key of it.
#[verifier::external_body]
fn ids_get(map: &FxHashMap<usize, usize>, key: usize) -> (id: Option<usize>)
    ensures
        id == if ids_of(*map).contains_key(key) {
            Some(ids_of(*map)[key])
        } else {
            None
        },
{
    map.get(&key).copied()
}

/// `HashMap::insert` on a `FxHashMap`: the map holds `id` for `key`
/// afterwards, whether `key` was a key or not, and for every other key what
/// it held.
#[verifier::external_body]
fn ids_insert(map: &mut FxHashMap<usize, usize>, key: usize, id: usize)
    ensures
        ids_of(*final(map)) == ids_of(*old(map)).insert(key, id),
{
    map.insert(key, id);
}

/// A map from the places of packages or crates in their workspace to the
/// places of crates in the graph.
pub struct IdMap {
    map: FxHashMap<usize, usize>,
}

impl View for IdMap {
    type V = Map<usize, usize>;

    closed spec fn view(&self) -> Map<usize, usize> {
        ids_of(self.map)
    }
}

impl IdMap {
    pub fn new() -> (map: IdMap)
        ensures
            map@ == Map::<usize, usize>::empty(),
    {
        IdMap { map: ids_new() }
    }

    pub fn get(&self, key: usize) -> (id: Option<usize>)
        ensures
            id == if self@.contains_key(key) {
                Some(self@[key])
            } else {
                None
            },
    {
        ids_get(&self.map, key)
    }

    pub fn insert(&mut self, key: usize, id: usize)
        ensures
            final(self)@ == old(self)@.insert(key, id),
    {
        ids_insert(&mut self.map, key, id)
    }
}

/// Copies of the flags.
pub fn clone_flags(flags: &Vec<CfgFlag>) -> (res: Vec<CfgFlag>)
    ensures
        flag_views(res@) == flag_views(flags@),
{
    let mut res: Vec<CfgFlag> = Vec::new();
    let mut i: usize = 0;
    while i < flags.len()
        invariant
            0 <= i <= flags@.len(),
            res@.len() == i,
            forall|k: int| 0 <= k < i ==> res@[k]@ == flags@[k]@,
        decreases flags@.len() - i,
    {
        res.push(flags[i].duplicate());
        i += 1;
    }
    assert(flag_views(res@) =~= flag_views(flags@));
    res
}

/// Copies of the pairs.
pub fn clone_pairs(pairs: &Vec<(String, String)>) -> (res: Vec<(String, String)>)
    ensures
        pair_views(res@) == pair_views(pairs@),
{
    let mut res: Vec<(String, String)> = Vec::new();
    let mut i: usize = 0;
    while i < pairs.len()
        invariant
            0 <= i <= pairs@.len(),
            res@.len() == i,
            forall|k: int|
                0 <= k < i ==> res@[k].0@ == pairs@[k].0@ && res@[k].1@ == pairs@[k].1@,
        decreases pairs@.len() - i,
    {
        res.push((pairs[i].0.clone(), pairs[i].1.clone()));
        i += 1;
    }
    assert(pair_views(res@) =~= pair_views(pairs@));
    res
}

fn clone_opt_path(path: &Option<AbsPathBuf>) -> (res: Option<AbsPathBuf>)
    ensures
        opt_path(res) == opt_path(*path),
{
    match path {
        Some(path) => Some(path.clone()),
        None => None,
    }
}

/// The flag that says that the feature `feature` is switched on.
pub open spec fn feature_flag(feature: Seq<char>) -> CfgFlagView {
    CfgFlagView::KeyValue { key: "feature"@, value: feature }
}

/// The flags of the features, in their order.
pub open spec fn feature_flags(features: Seq<String>) -> Seq<CfgFlagView> {
    Seq::new(features.len(), |i: int| feature_flag(features[i]@))
}

/// The crate of a target of `pkg` whose root module is the file `file_id`:
/// it has the edition and the name of the package; its flags are
/// `cfg_options`, one for each feature of the package, and those that the
/// package's build script set; its variables are those that the build
/// script set; and the package's output folder and procedural macros are
/// its own.
pub open spec fn target_root(
    pkg: PackageData,
    cfg_options: Seq<CfgFlagView>,
    file_id: FileId,
) -> CrateRootView {
    CrateRootView {
        file_id,
        edition: pkg.edition,
        display_name: Some(pkg.name@),
        cfg_options: cfg_options + feature_flags(pkg.features@) + flag_views(pkg.cfgs@),
        env: pair_views(pkg.envs@),
        out_dir: opt_path(pkg.out_dir),
        proc_macro_dylib_path: opt_path(pkg.proc_macro_dylib_path),
    }
}

/// Enters the crate of a target of `pkg` whose root module is the file
/// `file_id`, and returns its place.
pub fn add_target_crate_root(
    crate_graph: &mut CrateGraph,
    pkg: &PackageData,
    cfg_options: &Vec<CfgFlag>,
    file_id: FileId,
) -> (crate_id: CrateId)
    ensures
        crate_id == old(crate_graph)@.roots.len(),
        final(crate_graph)@ == old(crate_graph)@.with_root(
            target_root(*pkg, flag_views(cfg_options@), file_id),
        ),
{
    let edition = pkg.edition;
    let mut opts = clone_flags(cfg_options);
    let ghost given = flag_views(opts@);
    let mut i: usize = 0;
    assert(flag_views(opts@) =~= given + feature_flags(pkg.features@).take(0));
    while i < pkg.features.len()
        invariant
            0 <= i <= pkg.features@.len(),
            flag_views(opts@) == given + feature_flags(pkg.features@).take(i as int),
        decreases pkg.features@.len() - i,
    {
        let ghost before = flag_views(opts@);
        opts.push(CfgFlag::KeyValue { key: "feature".to_owned(), value: pkg.features[i].clone() });
        i += 1;
        assert(flag_views(opts@) =~= before.push(feature_flag(pkg.features@[i - 1]@)));
        assert(flag_views(opts@) =~= given + feature_flags(pkg.features@).take(i as int));
    }
    assert(feature_flags(pkg.features@).take(i as int) =~= feature_flags(pkg.features@));
    let ghost with_features = flag_views(opts@);
    let mut k: usize = 0;
    assert(flag_views(opts@) =~= with_features + flag_views(pkg.cfgs@).take(0));
    while k < pkg.cfgs.len()
        invariant
            0 <= k <= pkg.cfgs@.len(),
            flag_views(opts@) == with_features + flag_views(pkg.cfgs@).take(k as int),
        decreases pkg.cfgs@.len() - k,
    {
        let ghost before = flag_views(opts@);
        opts.push(pkg.cfgs[k].duplicate());
        k += 1;
        assert(flag_views(opts@) =~= before.push(pkg.cfgs@[k - 1]@));
        assert(flag_views(opts@) =~= with_features + flag_views(pkg.cfgs@).take(k as int));
    }
    assert(flag_views(pkg.cfgs@).take(k as int) =~= flag_views(pkg.cfgs@));
    let root = CrateRoot {
        file_id,
        edition,
        display_name: Some(pkg.name.clone()),
        cfg_options: opts,
        env: clone_pairs(&pkg.envs),
        out_dir: clone_opt_path(&pkg.out_dir),
        proc_macro_dylib_path: clone_opt_path(&pkg.proc_macro_dylib_path),
    };
    crate_graph.add_crate_root(root)
}

/// The place of the first crate of the sysroot from `start` on that is
/// called `name`, if there is one.
pub open spec fn by_name_from(sysroot: Sysroot, name: Seq<char>, start: int) -> Option<usize>
    decreases sysroot.crates@.len() - start,
{
    if start < 0 || start >= sysroot.crates@.len() {
        None
    } else if sysroot.crates@[start].name@ == name {
        Some(start as usize)
    } else {
        by_name_from(sysroot, name, start + 1)
    }
}

/// The place of the first crate of the sysroot that is called `name`.
pub open spec fn by_name(sysroot: Sysroot, name: Seq<char>) -> Option<usize> {
    by_name_from(sysroot, name, 0)
}

/// The place of the first crate of the sysroot that is called `name`.
pub fn find_by_name(sysroot: &Sysroot, name: &str) -> (found: Option<usize>)
    ensures
        found == by_name(*sysroot, name@),
        found matches Some(idx) ==> idx < sysroot.crates@.len(),
{
    let wanted = name.to_owned();
    let mut i: usize = 0;
    while i < sysroot.crates.len()
        invariant
            0 <= i <= sysroot.crates@.len(),
            wanted@ == name@,
            by_name(*sysroot, name@) == by_name_from(*sysroot, name@, i as int),
        decreases sysroot.crates@.len() - i,
    {
        if sysroot.crates[i].name == wanted {
            return Some(i);
        }
        i += 1;
    }
    None
}

/// The crate of a crate of the standard library whose root module is the
/// file `file_id`: it has the name of that crate and the flags
/// `cfg_options`, and nothing else.
pub open spec fn sysroot_root(
    krate: SysrootCrateData,
    cfg_options: Seq<CfgFlagView>,
    file_id: FileId,
) -> CrateRootView {
    CrateRootView {
        file_id,
        edition: Edition::Edition2018,
        display_name: Some(krate.name@),
        cfg_options,
        env: Seq::empty(),
        out_dir: None,
        proc_macro_dylib_path: None,
    }
}

/// The graph after the first `n` crates of the sysroot are entered, each
/// whose root module is loaded, and the places in the graph of those that
/// were entered.
pub open spec fn sysroot_loaded(
    sysroot: Sysroot,
    cfg_options: Seq<CfgFlagView>,
    graph: CrateGraphView,
    n: int,
) -> (CrateGraphView, Map<usize, usize>)
    decreases n,
{
    if n <= 0 {
        (graph, Map::empty())
    } else {
        let (before, ids) = sysroot_loaded(sysroot, cfg_options, graph, n - 1);
        match sysroot.crates@[n - 1].file_id {
            Some(file_id) => (
                before.with_root(sysroot_root(sysroot.crates@[n - 1], cfg_options, file_id)),
                ids.insert((n - 1) as usize, before.roots.len() as usize),
            ),
            None => (before, ids),
        }
    }
}

/// The graph after the first `n` dependencies of the crate at `from` are
/// entered, each of which both ends are in the graph.
pub open spec fn sysroot_crate_edges(
    sysroot: Sysroot,
    ids: Map<usize, usize>,
    graph: CrateGraphView,
    from: int,
    n: int,
) -> CrateGraphView
    decreases n,
{
    if n <= 0 {
        graph
    } else {
        let before = sysroot_crate_edges(sysroot, ids, graph, from, n - 1);
        let to = sysroot.crates@[from].deps@[n - 1];
        if ids.contains_key(from as usize) && ids.contains_key(to) {
            before.with_dep(ids[from as usize], sysroot.crates@[to as int].name@, ids[to])
        } else {
            before
        }
    }
}

/// The graph after the dependencies of the first `n` crates of the sysroot
/// are entered.
pub open spec fn sysroot_edges(
    sysroot: Sysroot,
    ids: Map<usize, usize>,
    graph: CrateGraphView,
    n: int,
) -> CrateGraphView
    decreases n,
{
    if n <= 0 {
        graph
    } else {
        sysroot_crate_edges(
            sysroot,
            ids,
            sysroot_edges(sysroot, ids, graph, n - 1),
            n - 1,
            sysroot.crates@[n - 1].deps@.len() as int,
        )
    }
}

/// The crate called `name` with its place in the graph, if the sysroot
/// holds such a crate.
pub open spec fn public_dep(sysroot: Sysroot, ids: Map<usize, usize>, name: Seq<char>) -> Seq<
    (Seq<char>, CrateId),
> {
    match by_name(sysroot, name) {
        Some(idx) => seq![(name, ids[idx])],
        None => Seq::empty(),
    }
}

/// The crates of the standard library that every crate depends on: `core`,
/// `alloc` and `std`, in this order, as far as the sysroot holds them.
pub open spec fn public_deps(sysroot: Sysroot, ids: Map<usize, usize>) -> Seq<(Seq<char>, CrateId)> {
    public_dep(sysroot, ids, "core"@) + public_dep(sysroot, ids, "alloc"@) + public_dep(
        sysroot,
        ids,
        "std"@,
    )
}

/// The place in the graph of the crate `proc_macro`, if the sysroot holds
/// it and its root module is loaded.
pub open spec fn libproc_macro(sysroot: Sysroot, ids: Map<usize, usize>) -> Option<CrateId> {
    match by_name(sysroot, "proc_macro"@) {
        Some(idx) => if ids.contains_key(idx) {
            Some(ids[idx])
        } else {
            None
        },
        None => None,
    }
}

/// Whether the name `name` stands for a crate whose root module is loaded,
/// if the sysroot holds a crate of that name.
pub open spec fn is_loaded_if_there(sysroot: Sysroot, name: Seq<char>) -> bool {
    by_name(sysroot, name) matches Some(idx) ==> sysroot.crates@[idx as int].file_id is Some
}

/// Whether the sysroot can be entered into a graph: each dependency is a
/// crate of the sysroot with a name that a crate can have, and the root
/// modules of `core`, `alloc` and `std` are loaded as far as the sysroot
/// holds these crates.
pub open spec fn sysroot_fits(sysroot: Sysroot) -> bool {
    &&& forall|i: int, j: int|
        0 <= i < sysroot.crates@.len() && 0 <= j < sysroot.crates@[i].deps@.len() ==> {
            &&& (#[trigger] sysroot.crates@[i].deps@[j]) < sysroot.crates@.len()
            &&& is_crate_name(sysroot.crates@[sysroot.crates@[i].deps@[j] as int].name@)
        }
    &&& is_loaded_if_there(sysroot, "core"@)
    &&& is_loaded_if_there(sysroot, "alloc"@)
    &&& is_loaded_if_there(sysroot, "std"@)
}

/// The graph with the crates of the sysroot and the dependencies between
/// them, and the places of the crates in the graph.
pub open spec fn sysroot_graph(
    sysroot: Sysroot,
    cfg_options: Seq<CfgFlagView>,
    graph: CrateGraphView,
) -> (CrateGraphView, Map<usize, usize>) {
    let (loaded, ids) = sysroot_loaded(
        sysroot,
        cfg_options,
        graph,
        sysroot.crates@.len() as int,
    );
    (sysroot_edges(sysroot, ids, loaded, sysroot.crates@.len() as int), ids)
}

/// The flags of a target, given what the compiler printed for it.
pub open spec fn target_flags(rustc_cfgs: Option<&Vec<CfgFlag>>) -> Seq<CfgFlagView> {
    crate::rustc_cfg::builtin_flags() + match rustc_cfgs {
        Some(printed) => flag_views(printed@),
        None => Seq::empty(),
    }
}

fn push_public_dep(res: &mut Vec<(String, CrateId)>, sysroot: &Sysroot, ids: &IdMap, name: &str)
    requires
        is_loaded_if_there(*sysroot, name@),
        forall|k: usize| ids@.contains_key(k) <==> k < sysroot.crates@.len() && sysroot.crates@[k as int].file_id is Some,
    ensures
        named_views(final(res)@) == named_views(old(res)@) + public_dep(*sysroot, ids@, name@),
{
    let ghost before = named_views(res@);
    if let Some(idx) = find_by_name(sysroot, name) {
        assert(ids@.contains_key(idx));
        match ids.get(idx) {
            Some(id) => {
                res.push((name.to_owned(), id));
                assert(named_views(res@) =~= before + seq![(name@, id)]);
            },
            None => {},
        }
    } else {
        assert(named_views(res@) =~= before + Seq::<(Seq<char>, CrateId)>::empty());
    }
}

/// Enters the crates of the standard library whose root modules are loaded,
/// and the dependencies between them. Returns the crates that every crate
/// depends on, and the crate `proc_macro`.
pub fn sysroot_to_crate_graph(
    crate_graph: &mut CrateGraph,
    sysroot: &Sysroot,
    rustc_cfgs: Option<&Vec<CfgFlag>>,
) -> (res: (Vec<(String, CrateId)>, Option<CrateId>))
    requires
        sysroot_fits(*sysroot),
    ensures
        ({
            let (graph, ids) = sysroot_graph(*sysroot, target_flags(rustc_cfgs), old(crate_graph)@);
            &&& final(crate_graph)@ == graph
            &&& named_views(res.0@) == public_deps(*sysroot, ids)
            &&& res.1 == libproc_macro(*sysroot, ids)
        }),
{
    let cfg_options = get_rustc_cfg_options(rustc_cfgs);
    let ghost cfg = flag_views(cfg_options@);
    let ghost graph0 = crate_graph@;
    let mut sysroot_crates = IdMap::new();
    let mut i: usize = 0;
    while i < sysroot.crates.len()
        invariant
            0 <= i <= sysroot.crates@.len(),
            cfg == flag_views(cfg_options@),
            (crate_graph@, sysroot_crates@) == sysroot_loaded(*sysroot, cfg, graph0, i as int),
            forall|k: usize|
                sysroot_crates@.contains_key(k) <==> k < i && sysroot.crates@[k as int].file_id is Some,
        decreases sysroot.crates@.len() - i,
    {
        let krate = &sysroot.crates[i];
        if let Some(file_id) = krate.file_id {
            let root = CrateRoot {
                file_id,
                edition: Edition::Edition2018,
                display_name: Some(krate.name.clone()),
                cfg_options: clone_flags(&cfg_options),
                env: Vec::new(),
                out_dir: None,
                proc_macro_dylib_path: None,
            };
            assert(root@.env =~= Seq::empty());
            let crate_id = crate_graph.add_crate_root(root);
            sysroot_crates.insert(i, crate_id);
        }
        i += 1;
    }
    let ghost loaded = crate_graph@;
    let ghost ids = sysroot_crates@;
    let mut from: usize = 0;
    while from < sysroot.crates.len()
        invariant
            0 <= from <= sysroot.crates@.len(),
            sysroot_fits(*sysroot),
            ids == sysroot_crates@,
            crate_graph@ == sysroot_edges(*sysroot, ids, loaded, from as int),
        decreases sysroot.crates@.len() - from,
    {
        let deps = &sysroot.crates[from].deps;
        let ghost outer = crate_graph@;
        let mut j: usize = 0;
        while j < deps.len()
            invariant
                0 <= j <= deps@.len(),
                from < sysroot.crates@.len(),
                deps == &sysroot.crates@[from as int].deps,
                sysroot_fits(*sysroot),
                ids == sysroot_crates@,
                crate_graph@ == sysroot_crate_edges(*sysroot, ids, outer, from as int, j as int),
            decreases deps@.len() - j,
        {
            let to = deps[j];
            assert(to == sysroot.crates@[from as int].deps@[j as int]);
            let name = sysroot.crates[to].name.clone();
            if let Some(from_id) = sysroot_crates.get(from) {
                if let Some(to_id) = sysroot_crates.get(to) {
                    add_dep(crate_graph, from_id, name, to_id);
                }
            }
            j += 1;
        }
        from += 1;
    }
    let mut public: Vec<(String, CrateId)> = Vec::new();
    assert(named_views(public@) =~= Seq::empty());
    push_public_dep(&mut public, sysroot, &sysroot_crates, "core");
    push_public_dep(&mut public, sysroot, &sysroot_crates, "alloc");
    push_public_dep(&mut public, sysroot, &sysroot_crates, "std");
    let libproc_macro = match find_by_name(sysroot, "proc_macro") {
        Some(idx) => sysroot_crates.get(idx),
        None => None,
    };
    (public, libproc_macro)
}

/// The flags of the target of a crate of a project that is described by
/// hand, given what the compiler printed for that target.
pub open spec fn printed_flags(rustc_cfgs: Option<Vec<CfgFlag>>) -> Seq<CfgFlagView> {
    match rustc_cfgs {
        Some(printed) => target_flags(Some(&printed)),
        None => target_flags(None),
    }
}

/// The crate of a crate of a project that is described by hand, whose root
/// module is the file `file_id`: its flags are those of its target and then
/// its own.
pub open spec fn json_crate_root(krate: Crate, file_id: FileId) -> CrateRootView {
    CrateRootView {
        file_id,
        edition: krate.edition,
        display_name: opt_text(krate.display_name),
        cfg_options: printed_flags(krate.rustc_cfgs) + flag_views(krate.cfg@),
        env: pair_views(krate.env@),
        out_dir: None,
        proc_macro_dylib_path: opt_path(krate.proc_macro_dylib_path),
    }
}

/// The graph after the first `n` crates of the project are entered, each
/// whose root module is loaded, and the places in the graph of those that
/// were entered.
pub open spec fn json_loaded(project: ProjectJson, graph: CrateGraphView, n: int) -> (
    CrateGraphView,
    Map<usize, usize>,
)
    decreases n,
{
    if n <= 0 {
        (graph, Map::empty())
    } else {
        let (before, ids) = json_loaded(project, graph, n - 1);
        match project.crates@[n - 1].file_id {
            Some(file_id) => (
                before.with_root(json_crate_root(project.crates@[n - 1], file_id)),
                ids.insert((n - 1) as usize, before.roots.len() as usize),
            ),
            None => (before, ids),
        }
    }
}

/// The graph after the first `n` dependencies of the crate at `from`, which
/// is in the graph at `from_id`, are entered, each on a crate that is in
/// the graph.
pub open spec fn json_crate_edges(
    project: ProjectJson,
    ids: Map<usize, usize>,
    graph: CrateGraphView,
    from: int,
    from_id: CrateId,
    n: int,
) -> CrateGraphView
    decreases n,
{
    if n <= 0 {
        graph
    } else {
        let before = json_crate_edges(project, ids, graph, from, from_id, n - 1);
        let dep = project.crates@[from].deps@[n - 1];
        if ids.contains_key(dep.crate_id) {
            before.with_dep(from_id, dep.name@, ids[dep.crate_id])
        } else {
            before
        }
    }
}

/// The graph after the dependencies of the first `n` crates of the project
/// are entered: for each crate that is in the graph, first those on the
/// crates of the standard library that every crate depends on, then its
/// own.
pub open spec fn json_edges(
    project: ProjectJson,
    ids: Map<usize, usize>,
    public: Option<Seq<(Seq<char>, CrateId)>>,
    graph: CrateGraphView,
    n: int,
) -> CrateGraphView
    decreases n,
{
    if n <= 0 {
        graph
    } else {
        let before = json_edges(project, ids, public, graph, n - 1);
        if ids.contains_key((n - 1) as usize) {
            let from_id = ids[(n - 1) as usize];
            let with_public = match public {
                Some(public) => before.with_deps_on(from_id, public, public.len() as int),
                None => before,
            };
            json_crate_edges(
                project,
                ids,
                with_public,
                n - 1,
                from_id,
                project.crates@[n - 1].deps@.len() as int,
            )
        } else {
            before
        }
    }
}

/// The graph of a project that is described by hand: the crates of the
/// standard library, if there is a sysroot, then the crates of the project
/// whose root modules are loaded, and the dependencies of these.
pub open spec fn json_graph(
    project: ProjectJson,
    sysroot: Option<Sysroot>,
    rustc_cfgs: Option<&Vec<CfgFlag>>,
) -> CrateGraphView {
    let (start, public) = match sysroot {
        Some(sysroot) => {
            let (graph, ids) = sysroot_graph(
                sysroot,
                target_flags(rustc_cfgs),
                CrateGraphView::empty(),
            );
            (graph, Some(public_deps(sysroot, ids)))
        },
        None => (CrateGraphView::empty(), None),
    };
    let (loaded, ids) = json_loaded(project, start, project.crates@.len() as int);
    json_edges(project, ids, public, loaded, project.crates@.len() as int)
}

fn clone_opt_text(text: &Option<String>) -> (res: Option<String>)
    ensures
        opt_text(res) == opt_text(*text),
{
    match text {
        Some(text) => Some(text.clone()),
        None => None,
    }
}

fn json_crate_flags(krate: &Crate) -> (flags: Vec<CfgFlag>)
    ensures
        flag_views(flags@) == printed_flags(krate.rustc_cfgs) + flag_views(krate.cfg@),
{
    let mut flags = match &krate.rustc_cfgs {
        Some(printed) => get_rustc_cfg_options(Some(printed)),
        None => get_rustc_cfg_options(None),
    };
    let ghost given = flag_views(flags@);
    let mut k: usize = 0;
    assert(flag_views(flags@) =~= given + flag_views(krate.cfg@).take(0));
    while k < krate.cfg.len()
        invariant
            0 <= k <= krate.cfg@.len(),
            flag_views(flags@) == given + flag_views(krate.cfg@).take(k as int),
        decreases krate.cfg@.len() - k,
    {
        let ghost before = flag_views(flags@);
        flags.push(krate.cfg[k].duplicate());
        k += 1;
        assert(flag_views(flags@) =~= before.push(krate.cfg@[k - 1]@));
        assert(flag_views(flags@) =~= given + flag_views(krate.cfg@).take(k as int));
    }
    assert(flag_views(krate.cfg@).take(k as int) =~= flag_views(krate.cfg@));
    flags
}

/// What came of entering the sysroot, if there is one: the crates that
/// every crate depends on, as values.
pub open spec fn named_public(
    sysroot_deps: Option<(Vec<(String, CrateId)>, Option<CrateId>)>,
) -> Option<Seq<(Seq<char>, CrateId)>> {
    match sysroot_deps {
        Some(deps) => Some(named_views(deps.0@)),
        None => None,
    }
}

/// The graph of a project that is described by hand.
pub fn project_json_to_crate_graph(
    rustc_cfgs: Option<&Vec<CfgFlag>>,
    project: &ProjectJson,
    sysroot: &Option<Sysroot>,
) -> (crate_graph: CrateGraph)
    requires
        *sysroot matches Some(sysroot) ==> sysroot_fits(sysroot),
    ensures
        crate_graph@ == json_graph(*project, *sysroot, rustc_cfgs),
{
    let mut crate_graph = CrateGraph::new();
    let sysroot_deps = match sysroot {
        Some(sysroot) => Some(sysroot_to_crate_graph(&mut crate_graph, sysroot, rustc_cfgs)),
        None => None,
    };
    let ghost start = crate_graph@;
    let ghost public = named_public(sysroot_deps);
    let mut crates = IdMap::new();
    let mut i: usize = 0;
    while i < project.crates.len()
        invariant
            0 <= i <= project.crates@.len(),
            (crate_graph@, crates@) == json_loaded(*project, start, i as int),
        decreases project.crates@.len() - i,
    {
        let krate = &project.crates[i];
        if let Some(file_id) = krate.file_id {
            let root = CrateRoot {
                file_id,
                edition: krate.edition,
                display_name: clone_opt_text(&krate.display_name),
                cfg_options: json_crate_flags(krate),
                env: clone_pairs(&krate.env),
                out_dir: None,
                proc_macro_dylib_path: clone_opt_path(&krate.proc_macro_dylib_path),
            };
            let crate_id = crate_graph.add_crate_root(root);
            crates.insert(i, crate_id);
        }
        i += 1;
    }
    let ghost loaded = crate_graph@;
    let ghost ids = crates@;
    let mut from: usize = 0;
    while from < project.crates.len()
        invariant
            0 <= from <= project.crates@.len(),
            ids == crates@,
            public == named_public(sysroot_deps),
            crate_graph@ == json_edges(*project, ids, public, loaded, from as int),
        decreases project.crates@.len() - from,
    {
        if let Some(from_id) = crates.get(from) {
            if let Some(deps) = &sysroot_deps {
                add_deps_on(&mut crate_graph, from_id, &deps.0);
            }
            let krate = &project.crates[from];
            let ghost outer = crate_graph@;
            let mut j: usize = 0;
            while j < krate.deps.len()
                invariant
                    0 <= j <= krate.deps@.len(),
                    from < project.crates@.len(),
                    krate == &project.crates@[from as int],
                    ids == crates@,
                    crate_graph@ == json_crate_edges(
                        *project,
                        ids,
                        outer,
                        from as int,
                        from_id,
                        j as int,
                    ),
                decreases krate.deps@.len() - j,
            {
                let dep = &krate.deps[j];
                if let Some(to) = crates.get(dep.crate_id) {
                    add_dep(&mut crate_graph, from_id, dep.name.clone(), to);
                }
                j += 1;
            }
        }
        from += 1;
    }
    crate_graph
}

/// What a `rustc_hash::FxHashMap` from places to lists of places holds.
pub uninterp spec fn lists_of(map: FxHashMap<usize, Vec<usize>>) -> Map<usize, Seq<usize>>;

/// The map that holds no list.
pub open spec fn no_lists() -> Map<usize, Seq<usize>> {
    Map::empty()
}

/// The list that `lists` holds for `key`: the empty one for a key that it
/// does not know.
pub open spec fn list_at(lists: Map<usize, Seq<usize>>, key: usize) -> Seq<usize> {
    if lists.contains_key(key) {
        lists[key]
    } else {
        Seq::empty()
    }
}

/// `FxHashMap::default`, which is `HashMap::default` with the hasher of
/// `rustc_hash`: the new map holds nothing.
#[verifier::external_body]
fn lists_new() -> (map: FxHashMap<usize, Vec<usize>>)
    ensures
        lists_of(map) == no_lists(),
{
    FxHashMap::default()
}

/// `HashMap::get` on a `FxHashMap`: the list that the map holds for `key`,
/// and nothing if `key` is no key of it.
#[verifier::external_body]
fn lists_get(map: &FxHashMap<usize, Vec<usize>>, key: usize) -> (list: Option<&Vec<usize>>)
    ensures
        match list {
            Some(list) => lists_of(*map).contains_key(key) && list@ == lists_of(*map)[key],
            None => !lists_of(*map).contains_key(key),
        },
{
    map.get(&key)
}

/// `HashMap::remove` on a `FxHashMap`: the list that the map held for
/// `key` is handed out, if it held one; afterwards `key` is no key of the
/// map, and every other key holds what it held.
#[verifier::external_body]
fn lists_remove(map: &mut FxHashMap<usize, Vec<usize>>, key: usize) -> (list: Option<Vec<usize>>)
    ensures
        lists_of(*final(map)) == lists_of(*old(map)).remove(key),
        match list {
            Some(list) => lists_of(*old(map)).contains_key(key) && list@ == lists_of(
                *old(map),
            )[key],
            None => !lists_of(*old(map)).contains_key(key),
        },
{
    map.remove(&key)
}

/// `HashMap::insert` on a `FxHashMap`: the map holds `list` for `key`
/// afterwards, whether `key` was a key or not, and for every other key what
/// it held.
#[verifier::external_body]
fn lists_insert(map: &mut FxHashMap<usize, Vec<usize>>, key: usize, list: Vec<usize>)
    ensures
        lists_of(*final(map)) == lists_of(*old(map)).insert(key, list@),
{
    map.insert(key, list);
}

/// A map from the places of packages in their workspace to the places in
/// the graph of the crates of their targets.
pub struct IdListMap {
    map: FxHashMap<usize, Vec<usize>>,
}

impl View for IdListMap {
    type V = Map<usize, Seq<usize>>;

    closed spec fn view(&self) -> Map<usize, Seq<usize>> {
        lists_of(self.map)
    }
}

impl IdListMap {
    pub fn new() -> (map: IdListMap)
        ensures
            map@ == Map::<usize, Seq<usize>>::empty(),
    {
        IdListMap { map: lists_new() }
    }

    /// The list that is held for `key`, if one is.
    pub fn get(&self, key: usize) -> (list: Option<&Vec<usize>>)
        ensures
            match list {
                Some(list) => self@.contains_key(key) && list@ == self@[key],
                None => !self@.contains_key(key),
            },
            list_at(self@, key) == match list {
                Some(list) => list@,
                None => Seq::empty(),
            },
    {
        lists_get(&self.map, key)
    }

    /// Appends `id` to the list of `key`, which is empty if none is held.
    pub fn push(&mut self, key: usize, id: usize)
        ensures
            final(self)@ == old(self)@.insert(key, list_at(old(self)@, key).push(id)),
    {
        let mut list = match lists_remove(&mut self.map, key) {
            Some(list) => list,
            None => Vec::new(),
        };
        list.push(id);
        lists_insert(&mut self.map, key, list);
        assert(self@ =~= old(self)@.insert(key, list_at(old(self)@, key).push(id)));
    }
}

/// Whether the workspace can be entered into a graph: the targets of each
/// package are targets of the workspace, and each dependency has a name
/// that a crate can have.
pub open spec fn cargo_fits(cargo: CargoWorkspace) -> bool {
    &&& forall|p: int, t: int|
        0 <= p < cargo.packages@.len() && 0 <= t < cargo.packages@[p].targets@.len() ==> (
        #[trigger] cargo.packages@[p].targets@[t]) < cargo.targets@.len()
    &&& forall|p: int, d: int|
        0 <= p < cargo.packages@.len() && 0 <= d < cargo.packages@[p].dependencies@.len()
            ==> is_crate_name((#[trigger] cargo.packages@[p].dependencies@[d]).name@)
}

/// What is known while the packages of a workspace are entered.
pub struct CargoPlan {
    pub graph: CrateGraphView,
    /// For each package that has one, the crate of its library target: of
    /// the last one that was entered.
    pub lib_crate: Map<usize, usize>,
    /// For each package, the crates of its targets, in the order in which
    /// they were entered.
    pub crates_of: Map<usize, Seq<usize>>,
}

/// The flags of the crates of a workspace: those of the target, and `test`
/// and `debug_assertions`.
pub open spec fn workspace_flags(rustc_cfgs: Option<&Vec<CfgFlag>>) -> Seq<CfgFlagView> {
    target_flags(rustc_cfgs) + seq![
        CfgFlagView::Atom("test"@),
        CfgFlagView::Atom("debug_assertions"@),
    ]
}

/// The target at `t` among the targets of the package at `p`.
pub open spec fn target_at(cargo: CargoWorkspace, p: int, t: int) -> crate::workspace::TargetData {
    cargo.targets@[cargo.packages@[p].targets@[t] as int]
}

/// The plan after the target at `t` of the package at `p` is entered, and
/// the library target of the package so far, with its crate.
///
/// A target whose root module is loaded becomes a crate. A library target
/// is noted as the library of its package. A target that is a procedural
/// macro depends on the crate `proc_macro`, if that is in the graph.
pub open spec fn target_entered(
    cargo: CargoWorkspace,
    p: int,
    t: int,
    plan: CargoPlan,
    lib_tgt: Option<(CrateId, Seq<char>)>,
    cfg: Seq<CfgFlagView>,
    proc_macro: Option<CrateId>,
) -> (CargoPlan, Option<(CrateId, Seq<char>)>) {
    let tgt = target_at(cargo, p, t);
    match tgt.file_id {
        Some(file_id) => {
            let crate_id = plan.graph.roots.len() as usize;
            let entered = plan.graph.with_root(target_root(cargo.packages@[p], cfg, file_id));
            let is_lib = tgt.kind == TargetKind::Lib;
            (
                CargoPlan {
                    graph: match proc_macro {
                        Some(proc_macro) => if tgt.is_proc_macro {
                            entered.with_dep(crate_id, "proc_macro"@, proc_macro)
                        } else {
                            entered
                        },
                        None => entered,
                    },
                    lib_crate: if is_lib {
                        plan.lib_crate.insert(p as usize, crate_id)
                    } else {
                        plan.lib_crate
                    },
                    crates_of: plan.crates_of.insert(
                        p as usize,
                        list_at(plan.crates_of, p as usize).push(crate_id),
                    ),
                },
                if is_lib {
                    Some((crate_id, tgt.name@))
                } else {
                    lib_tgt
                },
            )
        },
        None => (plan, lib_tgt),
    }
}

/// The plan after the first `n` targets of the package at `p` are entered.
pub open spec fn targets_entered(
    cargo: CargoWorkspace,
    p: int,
    plan: CargoPlan,
    cfg: Seq<CfgFlagView>,
    proc_macro: Option<CrateId>,
    n: int,
) -> (CargoPlan, Option<(CrateId, Seq<char>)>)
    decreases n,
{
    if n <= 0 {
        (plan, None)
    } else {
        let (before, lib_tgt) = targets_entered(cargo, p, plan, cfg, proc_macro, n - 1);
        target_entered(cargo, p, n - 1, before, lib_tgt, cfg, proc_macro)
    }
}

/// The graph after the first `n` of the crates `froms` of a package have
/// got their dependencies on the library of the package, under its name
/// with underscores for dashes, unless they are that library, and on the
/// crates that every crate depends on.
pub open spec fn lib_edges(
    graph: CrateGraphView,
    froms: Seq<CrateId>,
    lib_tgt: Option<(CrateId, Seq<char>)>,
    public: Seq<(Seq<char>, CrateId)>,
    n: int,
) -> CrateGraphView
    decreases n,
{
    if n <= 0 {
        graph
    } else {
        let before = lib_edges(graph, froms, lib_tgt, public, n - 1);
        let from = froms[n - 1];
        let with_lib = match lib_tgt {
            Some((to, name)) => if to != from {
                before.with_dep(from, normalized(name), to)
            } else {
                before
            },
            None => before,
        };
        with_lib.with_deps_on(from, public, public.len() as int)
    }
}

/// The plan after the first `n` packages are entered, each with its
/// targets and then with the dependencies of these on the library of the
/// package and on the standard library.
pub open spec fn packages_entered(
    cargo: CargoWorkspace,
    plan: CargoPlan,
    cfg: Seq<CfgFlagView>,
    proc_macro: Option<CrateId>,
    public: Seq<(Seq<char>, CrateId)>,
    n: int,
) -> CargoPlan
    decreases n,
{
    if n <= 0 {
        plan
    } else {
        let before = packages_entered(cargo, plan, cfg, proc_macro, public, n - 1);
        let (entered, lib_tgt) = targets_entered(
            cargo,
            n - 1,
            before,
            cfg,
            proc_macro,
            cargo.packages@[n - 1].targets@.len() as int,
        );
        let froms = list_at(entered.crates_of, (n - 1) as usize);
        CargoPlan {
            graph: lib_edges(entered.graph, froms, lib_tgt, public, froms.len() as int),
            ..entered
        }
    }
}

/// The graph after the first `n` of the dependencies `deps` of a package
/// are entered: each crate of `froms` depends on the library of the package
/// that is depended on, if that has one.
pub open spec fn package_dependency_edges(
    deps: Seq<PackageDependency>,
    froms: Seq<CrateId>,
    lib_crate: Map<usize, usize>,
    graph: CrateGraphView,
    n: int,
) -> CrateGraphView
    decreases n,
{
    if n <= 0 {
        graph
    } else {
        let before = package_dependency_edges(deps, froms, lib_crate, graph, n - 1);
        let dep = deps[n - 1];
        if lib_crate.contains_key(dep.pkg) {
            before.with_deps_from(froms, dep.name@, lib_crate[dep.pkg], froms.len() as int)
        } else {
            before
        }
    }
}

/// The graph after the dependencies of the first `n` packages are entered.
pub open spec fn dependency_edges(
    packages: Seq<PackageData>,
    lib_crate: Map<usize, usize>,
    crates_of: Map<usize, Seq<usize>>,
    graph: CrateGraphView,
    n: int,
) -> CrateGraphView
    decreases n,
{
    if n <= 0 {
        graph
    } else {
        package_dependency_edges(
            packages[n - 1].dependencies@,
            list_at(crates_of, (n - 1) as usize),
            lib_crate,
            dependency_edges(packages, lib_crate, crates_of, graph, n - 1),
            packages[n - 1].dependencies@.len() as int,
        )
    }
}

/// Whether a target of the compiler's workspace becomes a crate: it is a
/// library that does not lie in the folder `library`, where the standard
/// library is, and its root module is loaded.
pub open spec fn is_rustc_private(tgt: crate::workspace::TargetData) -> bool {
    tgt.kind == TargetKind::Lib && !tgt.root@.contains("library"@) && tgt.file_id is Some
}

/// The plan after the target at `t` of the package at `q` of the compiler's
/// workspace is entered: if it becomes a crate, that crate is the library
/// of its package and depends on the crates that every crate depends on.
pub open spec fn rustc_target_entered(
    rustc: CargoWorkspace,
    q: int,
    t: int,
    plan: CargoPlan,
    cfg: Seq<CfgFlagView>,
    public: Seq<(Seq<char>, CrateId)>,
) -> CargoPlan {
    let tgt = target_at(rustc, q, t);
    if is_rustc_private(tgt) {
        let crate_id = plan.graph.roots.len() as usize;
        CargoPlan {
            graph: plan.graph.with_root(
                target_root(rustc.packages@[q], cfg, tgt.file_id.unwrap()),
            ).with_deps_on(crate_id, public, public.len() as int),
            lib_crate: plan.lib_crate.insert(q as usize, crate_id),
            crates_of: plan.crates_of.insert(
                q as usize,
                list_at(plan.crates_of, q as usize).push(crate_id),
            ),
        }
    } else {
        plan
    }
}

/// The plan after the first `n` targets of the package at `q` of the
/// compiler's workspace are entered.
pub open spec fn rustc_targets_entered(
    rustc: CargoWorkspace,
    q: int,
    plan: CargoPlan,
    cfg: Seq<CfgFlagView>,
    public: Seq<(Seq<char>, CrateId)>,
    n: int,
) -> CargoPlan
    decreases n,
{
    if n <= 0 {
        plan
    } else {
        rustc_target_entered(
            rustc,
            q,
            n - 1,
            rustc_targets_entered(rustc, q, plan, cfg, public, n - 1),
            cfg,
            public,
        )
    }
}

/// The plan after the first `n` packages of the compiler's workspace are
/// entered.
pub open spec fn rustc_packages_entered(
    rustc: CargoWorkspace,
    plan: CargoPlan,
    cfg: Seq<CfgFlagView>,
    public: Seq<(Seq<char>, CrateId)>,
    n: int,
) -> CargoPlan
    decreases n,
{
    if n <= 0 {
        plan
    } else {
        rustc_targets_entered(
            rustc,
            n - 1,
            rustc_packages_entered(rustc, plan, cfg, public, n - 1),
            cfg,
            public,
            rustc.packages@[n - 1].targets@.len() as int,
        )
    }
}

/// The graph after the crates of the members among the first `n` packages
/// of the workspace depend on the crate `to` under the name `name`.
pub open spec fn member_edges(
    cargo: CargoWorkspace,
    crates_of: Map<usize, Seq<usize>>,
    graph: CrateGraphView,
    name: Seq<char>,
    to: CrateId,
    n: int,
) -> CrateGraphView
    decreases n,
{
    if n <= 0 {
        graph
    } else {
        let before = member_edges(cargo, crates_of, graph, name, to, n - 1);
        if cargo.packages@[n - 1].is_member {
            let froms = list_at(crates_of, (n - 1) as usize);
            before.with_deps_from(froms, name, to, froms.len() as int)
        } else {
            before
        }
    }
}

/// The graph after the crates of the members of the workspace depend on
/// the libraries of the first `n` packages of the compiler's workspace, as
/// far as these have one, each under the name of its package with
/// underscores for dashes.
pub open spec fn rustc_private_edges(
    rustc: CargoWorkspace,
    cargo: CargoWorkspace,
    lib_crate: Map<usize, usize>,
    crates_of: Map<usize, Seq<usize>>,
    graph: CrateGraphView,
    n: int,
) -> CrateGraphView
    decreases n,
{
    if n <= 0 {
        graph
    } else {
        let before = rustc_private_edges(rustc, cargo, lib_crate, crates_of, graph, n - 1);
        if lib_crate.contains_key((n - 1) as usize) {
            member_edges(
                cargo,
                crates_of,
                before,
                normalized(rustc.packages@[n - 1].name@),
                lib_crate[(n - 1) as usize],
                cargo.packages@.len() as int,
            )
        } else {
            before
        }
    }
}

/// The graph of a workspace that the build system reported.
///
/// First come the crates of the standard library. Then each package is
/// entered with its targets; every crate of a package depends on the
/// library of the package and on the standard library. Then the crates of
/// each package get their dependencies on the libraries of the packages
/// that the package depends on. If the compiler's own workspace is given,
/// its libraries are entered in the same way, and the crates of the members
/// of the workspace depend on them.
///
/// The libraries of the packages of both workspaces are looked up by the
/// place of the package in its workspace, in one table: a package of the
/// compiler's workspace takes the entry of the package at the same place
/// in the workspace.
pub open spec fn cargo_graph(
    cargo: CargoWorkspace,
    sysroot: Sysroot,
    rustc: Option<CargoWorkspace>,
    rustc_cfgs: Option<&Vec<CfgFlag>>,
) -> CrateGraphView {
    let (start, ids) = sysroot_graph(sysroot, target_flags(rustc_cfgs), CrateGraphView::empty());
    let public = public_deps(sysroot, ids);
    let cfg = workspace_flags(rustc_cfgs);
    let entered = packages_entered(
        cargo,
        CargoPlan { graph: start, lib_crate: Map::empty(), crates_of: Map::empty() },
        cfg,
        libproc_macro(sysroot, ids),
        public,
        cargo.packages@.len() as int,
    );
    let linked = dependency_edges(
        cargo.packages@,
        entered.lib_crate,
        entered.crates_of,
        entered.graph,
        cargo.packages@.len() as int,
    );
    match rustc {
        None => linked,
        Some(rustc) => {
            let private = rustc_packages_entered(
                rustc,
                CargoPlan { graph: linked, lib_crate: entered.lib_crate, crates_of: Map::empty() },
                cfg,
                public,
                rustc.packages@.len() as int,
            );
            rustc_private_edges(
                rustc,
                cargo,
                private.lib_crate,
                entered.crates_of,
                dependency_edges(
                    rustc.packages@,
                    private.lib_crate,
                    private.crates_of,
                    private.graph,
                    rustc.packages@.len() as int,
                ),
                rustc.packages@.len() as int,
            )
        },
    }
}

/// The list, or the empty one where there is none.
pub open spec fn list_or_empty(list: Option<&Vec<usize>>) -> Seq<usize> {
    match list {
        Some(list) => list@,
        None => Seq::empty(),
    }
}

fn add_deps_from_list(
    graph: &mut CrateGraph,
    froms: Option<&Vec<CrateId>>,
    name: &String,
    to: CrateId,
)
    ensures
        final(graph)@ == old(graph)@.with_deps_from(
            list_or_empty(froms),
            name@,
            to,
            list_or_empty(froms).len() as int,
        ),
{
    match froms {
        Some(froms) => add_deps_from(graph, froms, name, to),
        None => {},
    }
}

fn add_lib_edges(
    graph: &mut CrateGraph,
    froms: Option<&Vec<CrateId>>,
    lib_tgt: &Option<(CrateId, String)>,
    public: &Vec<(String, CrateId)>,
)
    ensures
        final(graph)@ == lib_edges(
            old(graph)@,
            list_or_empty(froms),
            named_lib(*lib_tgt),
            named_views(public@),
            list_or_empty(froms).len() as int,
        ),
{
    if let Some(froms) = froms {
        let mut i: usize = 0;
        while i < froms.len()
            invariant
                0 <= i <= froms@.len(),
                graph@ == lib_edges(
                    old(graph)@,
                    froms@,
                    named_lib(*lib_tgt),
                    named_views(public@),
                    i as int,
                ),
            decreases froms@.len() - i,
        {
            let from = froms[i];
            if let Some((to, name)) = lib_tgt {
                if *to != from {
                    // The build system does not turn the dashes in the name
                    // of a library into underscores.
                    let name = normalize_dashes(name.as_str());
                    add_dep(graph, from, name, *to);
                }
            }
            add_deps_on(graph, from, public);
            i += 1;
        }
    }
}

/// The library target of a package with its crate, as a value.
pub open spec fn named_lib(lib_tgt: Option<(CrateId, String)>) -> Option<(CrateId, Seq<char>)> {
    match lib_tgt {
        Some((crate_id, name)) => Some((crate_id, name@)),
        None => None,
    }
}

fn add_dependency_edges(
    graph: &mut CrateGraph,
    packages: &Vec<PackageData>,
    lib_crate: &IdMap,
    crates_of: &IdListMap,
)
    ensures
        final(graph)@ == dependency_edges(
            packages@,
            lib_crate@,
            crates_of@,
            old(graph)@,
            packages@.len() as int,
        ),
{
    let mut p: usize = 0;
    while p < packages.len()
        invariant
            0 <= p <= packages@.len(),
            graph@ == dependency_edges(packages@, lib_crate@, crates_of@, old(graph)@, p as int),
        decreases packages@.len() - p,
    {
        let deps = &packages[p].dependencies;
        let froms = crates_of.get(p);
        let ghost outer = graph@;
        let mut d: usize = 0;
        while d < deps.len()
            invariant
                0 <= d <= deps@.len(),
                list_or_empty(froms) == list_at(crates_of@, p),
                graph@ == package_dependency_edges(
                    deps@,
                    list_at(crates_of@, p),
                    lib_crate@,
                    outer,
                    d as int,
                ),
            decreases deps@.len() - d,
        {
            let dep = &deps[d];
            if let Some(to) = lib_crate.get(dep.pkg) {
                add_deps_from_list(graph, froms, &dep.name, to);
            }
            d += 1;
        }
        p += 1;
    }
}

fn lies_in_library(root: &AbsPathBuf) -> (b: bool)
    ensures
        b == root@.contains("library"@),
{
    let library = "library".to_owned();
    let mut i: usize = 0;
    while i < root.segments.len()
        invariant
            0 <= i <= root.segments@.len(),
            library@ == "library"@,
            forall|k: int| 0 <= k < i ==> root@[k] != "library"@,
        decreases root.segments@.len() - i,
    {
        if root.segments[i] == library {
            assert(root@[i as int] == "library"@);
            return true;
        }
        i += 1;
    }
    false
}

fn add_member_edges(
    graph: &mut CrateGraph,
    cargo: &CargoWorkspace,
    crates_of: &IdListMap,
    name: &String,
    to: CrateId,
)
    ensures
        final(graph)@ == member_edges(
            *cargo,
            crates_of@,
            old(graph)@,
            name@,
            to,
            cargo.packages@.len() as int,
        ),
{
    let mut p: usize = 0;
    while p < cargo.packages.len()
        invariant
            0 <= p <= cargo.packages@.len(),
            graph@ == member_edges(*cargo, crates_of@, old(graph)@, name@, to, p as int),
        decreases cargo.packages@.len() - p,
    {
        if cargo.packages[p].is_member {
            add_deps_from_list(graph, crates_of.get(p), name, to);
        }
        p += 1;
    }
}

/// The graph of a workspace that the build system reported.
pub fn cargo_to_crate_graph(
    rustc_cfgs: Option<&Vec<CfgFlag>>,
    cargo: &CargoWorkspace,
    sysroot: &Sysroot,
    rustc: &Option<CargoWorkspace>,
) -> (crate_graph: CrateGraph)
    requires
        sysroot_fits(*sysroot),
        cargo_fits(*cargo),
        *rustc matches Some(rustc) ==> cargo_fits(rustc),
    ensures
        crate_graph@ == cargo_graph(*cargo, *sysroot, *rustc, rustc_cfgs),
{
    let mut crate_graph = CrateGraph::new();
    let (public_deps, libproc_macro) = sysroot_to_crate_graph(&mut crate_graph, sysroot, rustc_cfgs);
    let mut cfg_options = get_rustc_cfg_options(rustc_cfgs);
    let ghost target = flag_views(cfg_options@);
    // The crates of the workspace can be built as tests.
    cfg_options.push(CfgFlag::Atom("test".to_owned()));
    cfg_options.push(CfgFlag::Atom("debug_assertions".to_owned()));
    assert(flag_views(cfg_options@) =~= workspace_flags(rustc_cfgs));
    let ghost cfg = flag_views(cfg_options@);
    let ghost public = named_views(public_deps@);
    let ghost plan0 = CargoPlan {
        graph: crate_graph@,
        lib_crate: Map::empty(),
        crates_of: Map::empty(),
    };
    let mut pkg_to_lib_crate = IdMap::new();
    let mut pkg_crates = IdListMap::new();
    // The crates of the targets of each package.
    let mut p: usize = 0;
    while p < cargo.packages.len()
        invariant
            0 <= p <= cargo.packages@.len(),
            cargo_fits(*cargo),
            cfg == flag_views(cfg_options@),
            public == named_views(public_deps@),
            (CargoPlan {
                graph: crate_graph@,
                lib_crate: pkg_to_lib_crate@,
                crates_of: pkg_crates@,
            }) == packages_entered(*cargo, plan0, cfg, libproc_macro, public, p as int),
        decreases cargo.packages@.len() - p,
    {
        let pkg = &cargo.packages[p];
        let ghost before = CargoPlan {
            graph: crate_graph@,
            lib_crate: pkg_to_lib_crate@,
            crates_of: pkg_crates@,
        };
        let mut lib_tgt: Option<(CrateId, String)> = None;
        let mut t: usize = 0;
        while t < pkg.targets.len()
            invariant
                0 <= t <= pkg.targets@.len(),
                p < cargo.packages@.len(),
                pkg == &cargo.packages@[p as int],
                cargo_fits(*cargo),
                cfg == flag_views(cfg_options@),
                (
                    CargoPlan {
                        graph: crate_graph@,
                        lib_crate: pkg_to_lib_crate@,
                        crates_of: pkg_crates@,
                    },
                    named_lib(lib_tgt),
                ) == targets_entered(*cargo, p as int, before, cfg, libproc_macro, t as int),
            decreases pkg.targets@.len() - t,
        {
            assert(cargo.packages@[p as int].targets@[t as int] < cargo.targets@.len());
            let tgt = &cargo.targets[pkg.targets[t]];
            if let Some(file_id) = tgt.file_id {
                let crate_id = add_target_crate_root(&mut crate_graph, pkg, &cfg_options, file_id);
                if tgt.kind == TargetKind::Lib {
                    lib_tgt = Some((crate_id, tgt.name.clone()));
                    pkg_to_lib_crate.insert(p, crate_id);
                }
                if tgt.is_proc_macro {
                    if let Some(proc_macro) = libproc_macro {
                        add_dep(&mut crate_graph, crate_id, "proc_macro".to_owned(), proc_macro);
                    }
                }
                pkg_crates.push(p, crate_id);
            }
            t += 1;
        }
        // Every crate of the package depends on the standard library and on
        // the library of the package.
        add_lib_edges(&mut crate_graph, pkg_crates.get(p), &lib_tgt, &public_deps);
        p += 1;
    }
    // Every crate of a package depends on the libraries of the packages
    // that the package depends on.
    add_dependency_edges(&mut crate_graph, &cargo.packages, &pkg_to_lib_crate, &pkg_crates);
    if let Some(rustc_workspace) = rustc {
        let ghost plan2 = CargoPlan {
            graph: crate_graph@,
            lib_crate: pkg_to_lib_crate@,
            crates_of: Map::empty(),
        };
        let mut rustc_pkg_crates = IdListMap::new();
        let mut q: usize = 0;
        while q < rustc_workspace.packages.len()
            invariant
                0 <= q <= rustc_workspace.packages@.len(),
                cargo_fits(*rustc_workspace),
                cfg == flag_views(cfg_options@),
                public == named_views(public_deps@),
                (CargoPlan {
                    graph: crate_graph@,
                    lib_crate: pkg_to_lib_crate@,
                    crates_of: rustc_pkg_crates@,
                }) == rustc_packages_entered(*rustc_workspace, plan2, cfg, public, q as int),
            decreases rustc_workspace.packages@.len() - q,
        {
            let pkg = &rustc_workspace.packages[q];
            let ghost before = CargoPlan {
                graph: crate_graph@,
                lib_crate: pkg_to_lib_crate@,
                crates_of: rustc_pkg_crates@,
            };
            let mut t: usize = 0;
            while t < pkg.targets.len()
                invariant
                    0 <= t <= pkg.targets@.len(),
                    q < rustc_workspace.packages@.len(),
                    pkg == &rustc_workspace.packages@[q as int],
                    cargo_fits(*rustc_workspace),
                    cfg == flag_views(cfg_options@),
                    public == named_views(public_deps@),
                    (CargoPlan {
                        graph: crate_graph@,
                        lib_crate: pkg_to_lib_crate@,
                        crates_of: rustc_pkg_crates@,
                    }) == rustc_targets_entered(
                        *rustc_workspace,
                        q as int,
                        before,
                        cfg,
                        public,
                        t as int,
                    ),
                decreases pkg.targets@.len() - t,
            {
                assert(rustc_workspace.packages@[q as int].targets@[t as int]
                    < rustc_workspace.targets@.len());
                let tgt = &rustc_workspace.targets[pkg.targets[t]];
                // The standard library is left out: it comes from the
                // sysroot.
                if tgt.kind == TargetKind::Lib && !lies_in_library(&tgt.root) {
                    if let Some(file_id) = tgt.file_id {
                        let crate_id = add_target_crate_root(
                            &mut crate_graph,
                            pkg,
                            &cfg_options,
                            file_id,
                        );
                        pkg_to_lib_crate.insert(q, crate_id);
                        add_deps_on(&mut crate_graph, crate_id, &public_deps);
                        rustc_pkg_crates.push(q, crate_id);
                    }
                }
                t += 1;
            }
            q += 1;
        }
        add_dependency_edges(
            &mut crate_graph,
            &rustc_workspace.packages,
            &pkg_to_lib_crate,
            &rustc_pkg_crates,
        );
        // The crates of the members of the workspace depend on the
        // libraries of the compiler.
        let ghost linked = crate_graph@;
        let mut dep: usize = 0;
        while dep < rustc_workspace.packages.len()
            invariant
                0 <= dep <= rustc_workspace.packages@.len(),
                crate_graph@ == rustc_private_edges(
                    *rustc_workspace,
                    *cargo,
                    pkg_to_lib_crate@,
                    pkg_crates@,
                    linked,
                    dep as int,
                ),
            decreases rustc_workspace.packages@.len() - dep,
        {
            let name = normalize_dashes(rustc_workspace.packages[dep].name.as_str());
            if let Some(to) = pkg_to_lib_crate.get(dep) {
                add_member_edges(&mut crate_graph, cargo, &pkg_crates, &name, to);
            }
            dep += 1;
        }
    }
    crate_graph
}

/// The graph of a workspace, given the flags that the compiler printed for
/// the target, if it could be asked.
pub open spec fn workspace_graph(workspace: ProjectWorkspace, rustc_cfgs: Option<&Vec<CfgFlag>>) -> CrateGraphView {
    match workspace {
        ProjectWorkspace::Json { project, sysroot } => json_graph(project, sysroot, rustc_cfgs),
        ProjectWorkspace::Cargo { cargo, sysroot, rustc } => cargo_graph(
            cargo,
            sysroot,
            rustc,
            rustc_cfgs,
        ),
    }
}

/// Whether the workspace can be entered into a graph.
pub open spec fn workspace_fits(workspace: ProjectWorkspace) -> bool {
    match workspace {
        ProjectWorkspace::Json { project, sysroot } => sysroot matches Some(sysroot)
            ==> sysroot_fits(sysroot),
        ProjectWorkspace::Cargo { cargo, sysroot, rustc } => {
            &&& sysroot_fits(sysroot)
            &&& cargo_fits(cargo)
            &&& rustc matches Some(rustc) ==> cargo_fits(rustc)
        },
    }
}

impl ProjectWorkspace {
    /// The crates of the workspace and the dependencies between them, given
    /// the flags that the compiler printed for the target, if it could be
    /// asked.
    pub fn to_crate_graph(&self, rustc_cfgs: Option<&Vec<CfgFlag>>) -> (crate_graph: CrateGraph)
        requires
            workspace_fits(*self),
        ensures
            crate_graph@ == workspace_graph(*self, rustc_cfgs),
    {
        match self {
            ProjectWorkspace::Json { project, sysroot } => project_json_to_crate_graph(
                rustc_cfgs,
                project,
                sysroot,
            ),
            ProjectWorkspace::Cargo { cargo, sysroot, rustc } => cargo_to_crate_graph(
                rustc_cfgs,
                cargo,
                sysroot,
                rustc,
            ),
        }
    }

    /// The crates of the workspace and the dependencies between them, if
    /// the workspace can be entered into a graph.
    pub fn try_to_crate_graph(&self, rustc_cfgs: Option<&Vec<CfgFlag>>) -> (res: Option<CrateGraph>)
        ensures
            res is Some == workspace_fits(*self),
            res matches Some(crate_graph) ==> crate_graph@ == workspace_graph(*self, rustc_cfgs),
    {
        if check_workspace(self) {
            Some(self.to_crate_graph(rustc_cfgs))
        } else {
            None
        }
    }
}

fn check_loaded_if_there(sysroot: &Sysroot, name: &str) -> (b: bool)
    ensures
        b == is_loaded_if_there(*sysroot, name@),
{
    match find_by_name(sysroot, name) {
        Some(idx) => sysroot.crates[idx].file_id.is_some(),
        None => true,
    }
}

/// Whether the sysroot can be entered into a graph.
pub fn check_sysroot(sysroot: &Sysroot) -> (b: bool)
    ensures
        b == sysroot_fits(*sysroot),
{
    let mut i: usize = 0;
    while i < sysroot.crates.len()
        invariant
            0 <= i <= sysroot.crates@.len(),
            forall|k: int, j: int|
                0 <= k < i && 0 <= j < sysroot.crates@[k].deps@.len() ==> {
                    &&& (#[trigger] sysroot.crates@[k].deps@[j]) < sysroot.crates@.len()
                    &&& is_crate_name(sysroot.crates@[sysroot.crates@[k].deps@[j] as int].name@)
                },
        decreases sysroot.crates@.len() - i,
    {
        let deps = &sysroot.crates[i].deps;
        let mut j: usize = 0;
        while j < deps.len()
            invariant
                0 <= j <= deps@.len(),
                i < sysroot.crates@.len(),
                deps == &sysroot.crates@[i as int].deps,
                forall|l: int|
                    0 <= l < j ==> {
                        &&& (#[trigger] sysroot.crates@[i as int].deps@[l]) < sysroot.crates@.len()
                        &&& is_crate_name(
                            sysroot.crates@[sysroot.crates@[i as int].deps@[l] as int].name@,
                        )
                    },
            decreases deps@.len() - j,
        {
            let to = deps[j];
            if to >= sysroot.crates.len() || !check_crate_name(sysroot.crates[to].name.as_str()) {
                assert(!({
                    &&& sysroot.crates@[i as int].deps@[j as int] < sysroot.crates@.len()
                    &&& is_crate_name(
                        sysroot.crates@[sysroot.crates@[i as int].deps@[j as int] as int].name@,
                    )
                }));
                return false;
            }
            j += 1;
        }
        i += 1;
    }
    check_loaded_if_there(sysroot, "core") && check_loaded_if_there(sysroot, "alloc")
        && check_loaded_if_there(sysroot, "std")
}

/// Whether the workspace can be entered into a graph.
pub fn check_cargo(cargo: &CargoWorkspace) -> (b: bool)
    ensures
        b == cargo_fits(*cargo),
{
    let mut p: usize = 0;
    while p < cargo.packages.len()
        invariant
            0 <= p <= cargo.packages@.len(),
            forall|k: int, t: int|
                0 <= k < p && 0 <= t < cargo.packages@[k].targets@.len() ==> (
                #[trigger] cargo.packages@[k].targets@[t]) < cargo.targets@.len(),
            forall|k: int, d: int|
                0 <= k < p && 0 <= d < cargo.packages@[k].dependencies@.len() ==> is_crate_name(
                    (#[trigger] cargo.packages@[k].dependencies@[d]).name@,
                ),
        decreases cargo.packages@.len() - p,
    {
        let pkg = &cargo.packages[p];
        let mut t: usize = 0;
        while t < pkg.targets.len()
            invariant
                0 <= t <= pkg.targets@.len(),
                p < cargo.packages@.len(),
                pkg == &cargo.packages@[p as int],
                forall|l: int|
                    0 <= l < t ==> (#[trigger] cargo.packages@[p as int].targets@[l])
                        < cargo.targets@.len(),
            decreases pkg.targets@.len() - t,
        {
            if pkg.targets[t] >= cargo.targets.len() {
                assert(!(cargo.packages@[p as int].targets@[t as int] < cargo.targets@.len()));
                return false;
            }
            t += 1;
        }
        let mut d: usize = 0;
        while d < pkg.dependencies.len()
            invariant
                0 <= d <= pkg.dependencies@.len(),
                p < cargo.packages@.len(),
                pkg == &cargo.packages@[p as int],
                forall|l: int|
                    0 <= l < d ==> is_crate_name(
                        (#[trigger] cargo.packages@[p as int].dependencies@[l]).name@,
                    ),
            decreases pkg.dependencies@.len() - d,
        {
            if !check_crate_name(pkg.dependencies[d].name.as_str()) {
                assert(!is_crate_name(cargo.packages@[p as int].dependencies@[d as int].name@));
                return false;
            }
            d += 1;
        }
        p += 1;
    }
    true
}

/// Whether the workspace can be entered into a graph.
pub fn check_workspace(workspace: &ProjectWorkspace) -> (b: bool)
    ensures
        b == workspace_fits(*workspace),
{
    match workspace {
        ProjectWorkspace::Json { project, sysroot } => match sysroot {
            Some(sysroot) => check_sysroot(sysroot),
            None => true,
        },
        ProjectWorkspace::Cargo { cargo, sysroot, rustc } => check_sysroot(sysroot) && check_cargo(
            cargo,
        ) && match rustc {
            Some(rustc) => check_cargo(rustc),
            None => true,
        },
    }
}

} // verus!
