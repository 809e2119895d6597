use ide_core::workspace::{
    AbsPathBuf, CargoWorkspace, Crate, Edition, LoadError, PackageData, PackageRoot, ProjectJson,
    ProjectWorkspace, Sysroot, SysrootCrateData, WorkspaceCounts,
};

fn path(segments: &[&str]) -> AbsPathBuf {
    AbsPathBuf { segments: segments.iter().map(|s| s.to_string()).collect() }
}

fn package(name: &str, is_member: bool, out_dir: Option<AbsPathBuf>) -> PackageData {
    PackageData {
        name: name.to_string(),
        root: path(&["ws", name]),
        is_member,
        out_dir,
        targets: vec![],
        dependencies: vec![],
        edition: Edition::Edition2018,
        features: vec![],
        cfgs: vec![],
        envs: vec![],
        proc_macro_dylib_path: None,
    }
}

fn sysroot() -> Sysroot {
    Sysroot {
        crates: vec![
            SysrootCrateData {
                name: "core".to_string(),
                root_dir: path(&["sys", "core", "src"]),
                deps: vec![],
                file_id: None,
            },
            SysrootCrateData {
                name: "std".to_string(),
                root_dir: path(&["sys", "std", "src"]),
                deps: vec![0],
                file_id: None,
            },
        ],
    }
}

fn json_crate(is_workspace_member: bool, dir: &str) -> Crate {
    Crate {
        display_name: None,
        root_module: path(&["p", dir, "lib.rs"]),
        target: None,
        edition: Edition::Edition2018,
        deps: vec![],
        cfg: vec![],
        env: vec![],
        proc_macro_dylib_path: None,
        is_workspace_member,
        included: vec![path(&["p", dir])],
        excluded: vec![path(&["p", dir, "gen"])],
        file_id: None,
        rustc_cfgs: None,
    }
}

#[test]
fn join_appends_a_segment() {
    assert_eq!(path(&["a", "b"]).join("c"), path(&["a", "b", "c"]));
    assert_eq!(path(&[]).join("c"), path(&["c"]));
}

#[test]
fn load_inline_without_sysroot() {
    let project = ProjectJson { sysroot_src: None, crates: vec![json_crate(true, "a")] };
    assert_eq!(
        ProjectWorkspace::load_inline(project.clone(), None),
        Ok(ProjectWorkspace::Json { project: project.clone(), sysroot: None })
    );
    // What was loaded is not asked for where the project names no place.
    assert_eq!(
        ProjectWorkspace::load_inline(project.clone(), Some(Ok(sysroot()))),
        Ok(ProjectWorkspace::Json { project, sysroot: None })
    );
}

#[test]
fn load_inline_with_sysroot() {
    let project = ProjectJson { sysroot_src: Some(path(&["sys"])), crates: vec![] };
    assert_eq!(
        ProjectWorkspace::load_inline(project.clone(), Some(Ok(sysroot()))),
        Ok(ProjectWorkspace::Json { project, sysroot: Some(sysroot()) })
    );
}

#[test]
fn load_inline_hands_on_the_error() {
    let project = ProjectJson { sysroot_src: Some(path(&["sys"])), crates: vec![] };
    let error = LoadError { message: "could not find libcore".to_string() };
    assert_eq!(ProjectWorkspace::load_inline(project, Some(Err(error.clone()))), Err(error));
}

#[test]
fn n_packages_counts_all_parts() {
    let cargo = CargoWorkspace {
        packages: vec![package("a", true, None), package("b", false, None), package("c", false, None)],
        targets: vec![],
    };
    let rustc = CargoWorkspace { packages: vec![package("rustc_a", false, None)], targets: vec![] };
    let ws = ProjectWorkspace::Cargo { cargo: cargo.clone(), sysroot: sysroot(), rustc: None };
    assert_eq!(ws.n_packages(), 5);
    let ws = ProjectWorkspace::Cargo { cargo, sysroot: sysroot(), rustc: Some(rustc) };
    assert_eq!(ws.n_packages(), 6);
    let ws = ProjectWorkspace::Json {
        project: ProjectJson {
            sysroot_src: None,
            crates: vec![json_crate(true, "a"), json_crate(false, "b")],
        },
        sysroot: Some(sysroot()),
    };
    assert_eq!(ws.n_packages(), 2);
}

#[test]
fn cargo_roots() {
    let cargo = CargoWorkspace {
        packages: vec![
            package("a", true, Some(path(&["ws", "target", "out"]))),
            package("dep", false, None),
        ],
        targets: vec![],
    };
    let rustc = CargoWorkspace { packages: vec![package("rustc_a", false, None)], targets: vec![] };
    let ws = ProjectWorkspace::Cargo { cargo, sysroot: sysroot(), rustc: Some(rustc) };
    assert_eq!(
        ws.to_roots(),
        vec![
            PackageRoot {
                is_member: true,
                included: vec![path(&["ws", "a"]), path(&["ws", "target", "out"])],
                excluded: vec![path(&["ws", "a", ".git"]), path(&["ws", "a", "target"])],
            },
            PackageRoot {
                is_member: false,
                included: vec![path(&["ws", "dep"])],
                excluded: vec![
                    path(&["ws", "dep", ".git"]),
                    path(&["ws", "dep", "tests"]),
                    path(&["ws", "dep", "examples"]),
                    path(&["ws", "dep", "benches"]),
                ],
            },
            PackageRoot {
                is_member: false,
                included: vec![path(&["sys", "core", "src"])],
                excluded: vec![],
            },
            PackageRoot {
                is_member: false,
                included: vec![path(&["sys", "std", "src"])],
                excluded: vec![],
            },
            PackageRoot {
                is_member: false,
                included: vec![path(&["ws", "rustc_a"])],
                excluded: vec![],
            },
        ]
    );
}

#[test]
fn cargo_roots_without_rustc() {
    let cargo = CargoWorkspace { packages: vec![], targets: vec![] };
    let ws = ProjectWorkspace::Cargo { cargo, sysroot: Sysroot { crates: vec![] }, rustc: None };
    assert_eq!(ws.to_roots(), vec![]);
}

#[test]
fn json_roots_are_distinct() {
    let project = ProjectJson {
        sysroot_src: None,
        crates: vec![
            json_crate(true, "a"),
            json_crate(false, "b"),
            json_crate(true, "a"),
            json_crate(false, "a"),
        ],
    };
    let ws = ProjectWorkspace::Json { project, sysroot: Some(sysroot()) };
    let roots = ws.to_roots();
    assert_eq!(roots.len(), 5);
    let root = |is_member: bool, dir: &str| PackageRoot {
        is_member,
        included: vec![path(&["p", dir])],
        excluded: vec![path(&["p", dir, "gen"])],
    };
    // The roots of the crates come first, each once, in any order.
    for expected in [root(true, "a"), root(false, "b"), root(false, "a")] {
        assert_eq!(roots[..3].iter().filter(|r| **r == expected).count(), 1);
    }
    // The roots of the standard library follow in their order.
    assert_eq!(
        roots[3..].to_vec(),
        vec![
            PackageRoot {
                is_member: false,
                included: vec![path(&["sys", "core", "src"])],
                excluded: vec![],
            },
            PackageRoot {
                is_member: false,
                included: vec![path(&["sys", "std", "src"])],
                excluded: vec![],
            },
        ]
    );
}

#[test]
fn json_roots_without_sysroot() {
    let project = ProjectJson { sysroot_src: None, crates: vec![json_crate(true, "a")] };
    let ws = ProjectWorkspace::Json { project, sysroot: None };
    assert_eq!(
        ws.to_roots(),
        vec![PackageRoot {
            is_member: true,
            included: vec![path(&["p", "a"])],
            excluded: vec![path(&["p", "a", "gen"])],
        }]
    );
}

#[test]
fn counts_of_the_parts() {
    let cargo = CargoWorkspace {
        packages: vec![package("a", true, None), package("b", false, None)],
        targets: vec![],
    };
    let ws = ProjectWorkspace::Cargo { cargo, sysroot: sysroot(), rustc: None };
    assert_eq!(
        ws.counts(),
        WorkspaceCounts::Cargo { n_packages: 2, n_sysroot_crates: 2, n_rustc_compiler_crates: 0 }
    );
    assert_eq!(
        format!("{:?}", ws.counts()),
        "Cargo { n_packages: 2, n_sysroot_crates: 2, n_rustc_compiler_crates: 0 }"
    );
    let project = ProjectJson { sysroot_src: None, crates: vec![json_crate(true, "a")] };
    let ws = ProjectWorkspace::Json { project: project.clone(), sysroot: None };
    assert_eq!(ws.counts(), WorkspaceCounts::Json { n_crates: 1, n_sysroot_crates: None });
    let ws = ProjectWorkspace::Json { project, sysroot: Some(sysroot()) };
    assert_eq!(ws.counts(), WorkspaceCounts::Json { n_crates: 1, n_sysroot_crates: Some(2) });
}
