use ide_core::crate_graph::{
    add_dep, add_target_crate_root, cargo_to_crate_graph, check_cargo, check_crate_name,
    check_sysroot, find_by_name, normalize_dashes, project_json_to_crate_graph,
    sysroot_to_crate_graph, CrateGraph, CrateRoot, Dependency, IdListMap, IdMap,
};
use ide_core::rustc_cfg::{get_rustc_cfg_options, CfgFlag};
use ide_core::workspace::{
    AbsPathBuf, CargoWorkspace, Crate, CrateDependency, Edition, PackageData, PackageDependency,
    ProjectJson, ProjectWorkspace, Sysroot, SysrootCrateData, TargetData, TargetKind,
};

fn path(segments: &[&str]) -> AbsPathBuf {
    AbsPathBuf { segments: segments.iter().map(|s| s.to_string()).collect() }
}

fn atom(name: &str) -> CfgFlag {
    CfgFlag::Atom(name.to_string())
}

fn kv(key: &str, value: &str) -> CfgFlag {
    CfgFlag::KeyValue { key: key.to_string(), value: value.to_string() }
}

fn dep(from: usize, name: &str, to: usize) -> Dependency {
    Dependency { from, name: name.to_string(), to }
}

fn sys_crate(name: &str, deps: Vec<usize>, file_id: Option<u32>) -> SysrootCrateData {
    SysrootCrateData {
        name: name.to_string(),
        root_dir: path(&["sys", name, "src"]),
        deps,
        file_id,
    }
}

fn sysroot() -> Sysroot {
    Sysroot {
        crates: vec![
            sys_crate("core", vec![], Some(100)),
            sys_crate("alloc", vec![0], Some(101)),
            sys_crate("std", vec![1, 0, 4], Some(102)),
            sys_crate("proc_macro", vec![2], Some(103)),
            sys_crate("test", vec![2], None),
        ],
    }
}

fn sysroot_edges() -> Vec<Dependency> {
    vec![dep(1, "core", 0), dep(2, "alloc", 1), dep(2, "core", 0), dep(3, "std", 2)]
}

fn sys_root(name: &str, file_id: u32, printed: Option<&Vec<CfgFlag>>) -> CrateRoot {
    CrateRoot {
        file_id,
        edition: Edition::Edition2018,
        display_name: Some(name.to_string()),
        cfg_options: get_rustc_cfg_options(printed),
        env: vec![],
        out_dir: None,
        proc_macro_dylib_path: None,
    }
}

fn sysroot_roots(printed: Option<&Vec<CfgFlag>>) -> Vec<CrateRoot> {
    vec![
        sys_root("core", 100, printed),
        sys_root("alloc", 101, printed),
        sys_root("std", 102, printed),
        sys_root("proc_macro", 103, printed),
    ]
}

fn target(package: usize, name: &str, kind: TargetKind, file_id: Option<u32>) -> TargetData {
    TargetData {
        package,
        name: name.to_string(),
        root: path(&["ws", name, "src", "lib.rs"]),
        kind,
        is_proc_macro: false,
        file_id,
    }
}

fn package(name: &str, is_member: bool, targets: Vec<usize>) -> PackageData {
    PackageData {
        name: name.to_string(),
        root: path(&["ws", name]),
        is_member,
        out_dir: None,
        targets,
        dependencies: vec![],
        edition: Edition::Edition2018,
        features: vec![],
        cfgs: vec![],
        envs: vec![],
        proc_macro_dylib_path: None,
    }
}

fn workspace_flags(printed: Option<&Vec<CfgFlag>>) -> Vec<CfgFlag> {
    let mut flags = get_rustc_cfg_options(printed);
    flags.push(atom("test"));
    flags.push(atom("debug_assertions"));
    flags
}

#[test]
fn rustc_cfg_options() {
    let builtin = vec![
        atom("target_thread_local"),
        kv("target_has_atomic", "8"),
        kv("target_has_atomic_load_store", "8"),
        kv("target_has_atomic", "16"),
        kv("target_has_atomic_load_store", "16"),
        kv("target_has_atomic", "32"),
        kv("target_has_atomic_load_store", "32"),
        kv("target_has_atomic", "64"),
        kv("target_has_atomic_load_store", "64"),
        kv("target_has_atomic", "cas"),
        kv("target_has_atomic_load_store", "cas"),
        kv("target_has_atomic", "ptr"),
        kv("target_has_atomic_load_store", "ptr"),
    ];
    assert_eq!(get_rustc_cfg_options(None), builtin);
    let printed = vec![atom("unix"), kv("target_os", "linux")];
    let mut expected = builtin.clone();
    expected.extend(printed.clone());
    assert_eq!(get_rustc_cfg_options(Some(&printed)), expected);
}

#[test]
fn crate_names() {
    assert!(check_crate_name("serde_json"));
    assert!(check_crate_name(""));
    assert!(!check_crate_name("serde-json"));
    assert_eq!(normalize_dashes("my-own-crate"), "my_own_crate");
    assert_eq!(normalize_dashes("plain"), "plain");
    assert_eq!(normalize_dashes("-"), "_");
}

#[test]
fn id_maps() {
    let mut ids = IdMap::new();
    assert_eq!(ids.get(3), None);
    ids.insert(3, 7);
    ids.insert(4, 8);
    ids.insert(3, 9);
    assert_eq!(ids.get(3), Some(9));
    assert_eq!(ids.get(4), Some(8));
    assert_eq!(ids.get(7), None);
    let mut lists = IdListMap::new();
    assert_eq!(lists.get(1), None);
    lists.push(1, 5);
    lists.push(2, 6);
    lists.push(1, 7);
    assert_eq!(lists.get(1), Some(&vec![5, 7]));
    assert_eq!(lists.get(2), Some(&vec![6]));
    assert_eq!(lists.get(5), None);
}

#[test]
fn graph_operations() {
    let mut graph = CrateGraph::new();
    assert_eq!(graph.add_crate_root(sys_root("a", 1, None)), 0);
    assert_eq!(graph.add_crate_root(sys_root("b", 2, None)), 1);
    add_dep(&mut graph, 1, "a".to_string(), 0);
    assert_eq!(graph.roots, vec![sys_root("a", 1, None), sys_root("b", 2, None)]);
    assert_eq!(graph.deps, vec![dep(1, "a", 0)]);
}

#[test]
fn target_crate_root() {
    let mut pkg = package("my-app", true, vec![]);
    pkg.edition = Edition::Edition2015;
    pkg.features = vec!["std".to_string(), "derive".to_string()];
    pkg.cfgs = vec![atom("has_foo"), kv("bar", "1")];
    pkg.envs = vec![("KEY".to_string(), "value".to_string())];
    pkg.out_dir = Some(path(&["ws", "target", "out"]));
    pkg.proc_macro_dylib_path = Some(path(&["ws", "target", "libmacros.so"]));
    let mut graph = CrateGraph::new();
    graph.add_crate_root(sys_root("core", 1, None));
    let id = add_target_crate_root(&mut graph, &pkg, &vec![atom("test")], 42);
    assert_eq!(id, 1);
    assert_eq!(
        graph.roots[1],
        CrateRoot {
            file_id: 42,
            edition: Edition::Edition2015,
            display_name: Some("my-app".to_string()),
            cfg_options: vec![
                atom("test"),
                kv("feature", "std"),
                kv("feature", "derive"),
                atom("has_foo"),
                kv("bar", "1"),
            ],
            env: vec![("KEY".to_string(), "value".to_string())],
            out_dir: Some(path(&["ws", "target", "out"])),
            proc_macro_dylib_path: Some(path(&["ws", "target", "libmacros.so"])),
        }
    );
}

#[test]
fn sysroot_by_name() {
    let s = sysroot();
    assert_eq!(find_by_name(&s, "core"), Some(0));
    assert_eq!(find_by_name(&s, "proc_macro"), Some(3));
    assert_eq!(find_by_name(&s, "rustc"), None);
}

#[test]
fn sysroot_graph() {
    let printed = vec![atom("unix")];
    let mut graph = CrateGraph::new();
    let (public, proc_macro) = sysroot_to_crate_graph(&mut graph, &sysroot(), Some(&printed));
    assert_eq!(graph.roots, sysroot_roots(Some(&printed)));
    // The dependency of `std` on `test` is left out: `test` is not loaded.
    assert_eq!(graph.deps, sysroot_edges());
    assert_eq!(
        public,
        vec![("core".to_string(), 0), ("alloc".to_string(), 1), ("std".to_string(), 2)]
    );
    assert_eq!(proc_macro, Some(3));
}

#[test]
fn sysroot_graph_of_a_partial_sysroot() {
    let s = Sysroot {
        crates: vec![sys_crate("test", vec![1], None), sys_crate("std", vec![], Some(7))],
    };
    let mut graph = CrateGraph::new();
    graph.add_crate_root(sys_root("other", 1, None));
    let (public, proc_macro) = sysroot_to_crate_graph(&mut graph, &s, None);
    assert_eq!(graph.roots, vec![sys_root("other", 1, None), sys_root("std", 7, None)]);
    assert_eq!(graph.deps, vec![]);
    assert_eq!(public, vec![("std".to_string(), 1)]);
    assert_eq!(proc_macro, None);
}

#[test]
fn sysroot_checks() {
    assert!(check_sysroot(&sysroot()));
    assert!(check_sysroot(&Sysroot { crates: vec![] }));
    // A dependency that is no crate of the sysroot.
    assert!(!check_sysroot(&Sysroot { crates: vec![sys_crate("core", vec![3], Some(1))] }));
    // A dependency whose name no crate can have.
    assert!(!check_sysroot(&Sysroot {
        crates: vec![sys_crate("core", vec![1], Some(1)), sys_crate("my-crate", vec![], Some(2))],
    }));
    // `std` is there and is not loaded.
    assert!(!check_sysroot(&Sysroot { crates: vec![sys_crate("std", vec![], None)] }));
    assert!(!check_sysroot(&Sysroot { crates: vec![sys_crate("core", vec![], None)] }));
    assert!(!check_sysroot(&Sysroot { crates: vec![sys_crate("alloc", vec![], None)] }));
    assert!(check_sysroot(&Sysroot { crates: vec![sys_crate("proc_macro", vec![], None)] }));
}

fn cargo() -> CargoWorkspace {
    let mut app = package("my-app", true, vec![0, 1, 2]);
    app.dependencies = vec![
        PackageDependency { pkg: 1, name: "dep".to_string() },
        PackageDependency { pkg: 2, name: "nolib".to_string() },
    ];
    app.features = vec!["a".to_string()];
    let dep = package("dep", false, vec![3]);
    let nolib = package("nolib", false, vec![4]);
    let mut macros = target(1, "dep", TargetKind::Lib, Some(3));
    macros.is_proc_macro = true;
    CargoWorkspace {
        packages: vec![app, dep, nolib],
        targets: vec![
            target(0, "my-app", TargetKind::Lib, Some(1)),
            target(0, "main", TargetKind::Bin, Some(2)),
            target(0, "it", TargetKind::Test, None),
            macros,
            target(2, "tool", TargetKind::Bin, Some(4)),
        ],
    }
}

fn cargo_roots(cargo: &CargoWorkspace, printed: Option<&Vec<CfgFlag>>) -> Vec<CrateRoot> {
    let root = |pkg: usize, file_id: u32| {
        let mut cfg_options = workspace_flags(printed);
        for feature in &cargo.packages[pkg].features {
            cfg_options.push(kv("feature", feature));
        }
        CrateRoot {
            file_id,
            edition: Edition::Edition2018,
            display_name: Some(cargo.packages[pkg].name.clone()),
            cfg_options,
            env: vec![],
            out_dir: None,
            proc_macro_dylib_path: None,
        }
    };
    let mut roots = sysroot_roots(printed);
    roots.extend(vec![root(0, 1), root(0, 2), root(1, 3), root(2, 4)]);
    roots
}

fn public(from: usize) -> Vec<Dependency> {
    vec![dep(from, "core", 0), dep(from, "alloc", 1), dep(from, "std", 2)]
}

fn cargo_edges() -> Vec<Dependency> {
    let mut deps = sysroot_edges();
    // The library of `my-app` at 4 and its binary at 5.
    deps.extend(public(4));
    deps.push(dep(5, "my_app", 4));
    deps.extend(public(5));
    // The library of `dep` at 6 is a procedural macro.
    deps.push(dep(6, "proc_macro", 3));
    deps.extend(public(6));
    // The binary of `nolib` at 7.
    deps.extend(public(7));
    // `my-app` depends on `dep`; `nolib` has no library to depend on.
    deps.push(dep(4, "dep", 6));
    deps.push(dep(5, "dep", 6));
    deps
}

#[test]
fn cargo_graph() {
    let printed = vec![atom("unix")];
    let cargo = cargo();
    assert!(check_cargo(&cargo));
    let graph = cargo_to_crate_graph(Some(&printed), &cargo, &sysroot(), &None);
    assert_eq!(graph.roots, cargo_roots(&cargo, Some(&printed)));
    assert_eq!(graph.deps, cargo_edges());
}

#[test]
fn cargo_graph_with_rustc_workspace() {
    let cargo = cargo();
    let mut in_library = target(1, "std", TargetKind::Lib, Some(51));
    in_library.root = path(&["rust", "library", "std", "src", "lib.rs"]);
    let mut ast = package("rustc-ast", false, vec![0, 1]);
    ast.dependencies = vec![PackageDependency { pkg: 2, name: "rustc_span".to_string() }];
    let rustc = CargoWorkspace {
        packages: vec![
            ast,
            package("std", false, vec![2]),
            package("rustc-span", false, vec![3]),
        ],
        targets: vec![
            target(0, "rustc_ast", TargetKind::Lib, Some(50)),
            target(0, "bin", TargetKind::Bin, Some(53)),
            in_library,
            target(2, "rustc_span", TargetKind::Lib, Some(52)),
        ],
    };
    let graph = cargo_to_crate_graph(None, &cargo, &sysroot(), &Some(rustc.clone()));
    let mut roots = cargo_roots(&cargo, None);
    for (name, file_id) in [("rustc-ast", 50), ("rustc-span", 52)] {
        roots.push(CrateRoot {
            file_id,
            edition: Edition::Edition2018,
            display_name: Some(name.to_string()),
            cfg_options: workspace_flags(None),
            env: vec![],
            out_dir: None,
            proc_macro_dylib_path: None,
        });
    }
    assert_eq!(graph.roots, roots);
    let mut deps = cargo_edges();
    // The libraries of the compiler at 8 and 9.
    deps.extend(public(8));
    deps.extend(public(9));
    deps.push(dep(8, "rustc_span", 9));
    // The crates of the member `my-app` depend on the libraries of the
    // compiler. The package at 1 of the compiler's workspace has no library
    // of its own; the table holds the library of the package at 1 of the
    // workspace in its place.
    deps.push(dep(4, "rustc_ast", 8));
    deps.push(dep(5, "rustc_ast", 8));
    deps.push(dep(4, "std", 6));
    deps.push(dep(5, "std", 6));
    deps.push(dep(4, "rustc_span", 9));
    deps.push(dep(5, "rustc_span", 9));
    assert_eq!(graph.deps, deps);

    let ws = ProjectWorkspace::Cargo { cargo, sysroot: sysroot(), rustc: Some(rustc) };
    assert_eq!(ws.to_crate_graph(None), graph);
    assert_eq!(ws.try_to_crate_graph(None), Some(graph));
}

#[test]
fn cargo_checks() {
    let mut broken = cargo();
    broken.packages[0].targets.push(9);
    assert!(!check_cargo(&broken));
    let mut broken = cargo();
    broken.packages[1].dependencies.push(PackageDependency { pkg: 0, name: "my-app".to_string() });
    assert!(!check_cargo(&broken));
    let ws = ProjectWorkspace::Cargo { cargo: broken, sysroot: sysroot(), rustc: None };
    assert_eq!(ws.try_to_crate_graph(None), None);
}

fn json_crate(name: &str, file_id: Option<u32>, deps: Vec<CrateDependency>) -> Crate {
    Crate {
        display_name: Some(name.to_string()),
        root_module: path(&["p", name, "lib.rs"]),
        target: None,
        edition: Edition::Edition2015,
        deps,
        cfg: vec![atom("own")],
        env: vec![("K".to_string(), "v".to_string())],
        proc_macro_dylib_path: None,
        is_workspace_member: true,
        included: vec![],
        excluded: vec![],
        file_id,
        rustc_cfgs: Some(vec![atom("windows")]),
    }
}

#[test]
fn json_graph() {
    let to = |crate_id: usize, name: &str| CrateDependency { crate_id, name: name.to_string() };
    let project = ProjectJson {
        sysroot_src: None,
        crates: vec![
            json_crate("a", Some(1), vec![to(2, "c"), to(1, "b"), to(7, "nowhere")]),
            json_crate("b", None, vec![to(0, "a")]),
            json_crate("c", Some(3), vec![to(0, "a")]),
        ],
    };
    let root = |name: &str, file_id: u32| {
        let mut cfg_options = get_rustc_cfg_options(Some(&vec![atom("windows")]));
        cfg_options.push(atom("own"));
        CrateRoot {
            file_id,
            edition: Edition::Edition2015,
            display_name: Some(name.to_string()),
            cfg_options,
            env: vec![("K".to_string(), "v".to_string())],
            out_dir: None,
            proc_macro_dylib_path: None,
        }
    };
    let graph = project_json_to_crate_graph(None, &project, &None);
    assert_eq!(graph.roots, vec![root("a", 1), root("c", 3)]);
    assert_eq!(graph.deps, vec![dep(0, "c", 1), dep(1, "a", 0)]);

    // With a sysroot its crates come first, and every crate depends on them.
    let printed = vec![atom("unix")];
    let graph = project_json_to_crate_graph(Some(&printed), &project, &Some(sysroot()));
    let mut roots = sysroot_roots(Some(&printed));
    roots.extend(vec![root("a", 1), root("c", 3)]);
    assert_eq!(graph.roots, roots);
    let mut deps = sysroot_edges();
    deps.extend(public(4));
    deps.push(dep(4, "c", 5));
    deps.extend(public(5));
    deps.push(dep(5, "a", 4));
    assert_eq!(graph.deps, deps);

    let ws = ProjectWorkspace::Json { project, sysroot: Some(sysroot()) };
    assert_eq!(ws.to_crate_graph(Some(&printed)), graph);
}
