//! Tests of the dependency resolver, root selection, and the check run.

use cargo_lichking::Compat;
use cargo_lichking::check;
use cargo_lichking::license::License;
use cargo_lichking::load::DepKindInfo;
use cargo_lichking::load::DependencyKind;
use cargo_lichking::load::GraphError;
use cargo_lichking::load::ManifestInfo;
use cargo_lichking::load::Metadata;
use cargo_lichking::load::Node;
use cargo_lichking::load::NodeDep;
use cargo_lichking::load::Package;
use cargo_lichking::load::Resolve;
use cargo_lichking::load::resolve_packages;
use cargo_lichking::load::resolve_roots;
use cargo_lichking::options::SelectedPackage;
use cargo_lichking::query::PackagesExt;
use cargo_lichking::query::ResolveExt;

fn package(id: &str, name: &str, license: Option<&str>) -> Package {
    Package {
        id: String::from(id),
        name: String::from(name),
        version: String::from("1.0.0"),
        license: license.map(String::from),
        license_file: None,
    }
}

fn dep(target: &str, kinds: &[DependencyKind]) -> NodeDep {
    NodeDep {
        pkg: String::from(target),
        dep_kinds: kinds.iter().map(|k| DepKindInfo { kind: *k }).collect(),
    }
}

fn node(id: &str, deps: Vec<NodeDep>) -> Node {
    Node {
        id: String::from(id),
        deps,
    }
}

fn metadata(packages: Vec<Package>, nodes: Vec<Node>, root: Option<&str>) -> Metadata {
    let members = packages.iter().map(|p| p.id.clone()).collect();
    Metadata {
        packages,
        workspace_members: members,
        resolve: Some(Resolve {
            root: root.map(String::from),
            nodes,
        }),
    }
}

fn ids(packages: &[Package]) -> Vec<String> {
    let mut v: Vec<String> = packages.iter().map(|p| p.id.clone()).collect();
    v.sort();
    v
}

#[test]
fn resolve_follows_normal_edges_only() {
    // `dev` is reachable only over a development edge and is excluded;
    // `both` has a development edge from the root and a normal edge from
    // `lib`, and is included.
    let m = metadata(
        vec![
            package("root", "root", Some("MIT")),
            package("lib", "lib", Some("MIT")),
            package("dev", "dev", Some("MIT")),
            package("both", "both", Some("MIT")),
        ],
        vec![
            node(
                "root",
                vec![
                    dep("lib", &[DependencyKind::Normal]),
                    dep("dev", &[DependencyKind::Development]),
                    dep("both", &[DependencyKind::Development]),
                ],
            ),
            node("lib", vec![dep("both", &[DependencyKind::Normal])]),
            node("dev", vec![]),
            node("both", vec![]),
        ],
        Some("root"),
    );
    let roots = vec![package("root", "root", Some("MIT"))];
    let resolved = resolve_packages(&m, &roots).unwrap();
    assert_eq!(ids(&resolved), vec!["both", "lib", "root"]);
}

#[test]
fn resolve_tolerates_diamonds_and_cycles() {
    let m = metadata(
        vec![
            package("a", "a", None),
            package("b", "b", None),
            package("c", "c", None),
            package("d", "d", None),
        ],
        vec![
            node(
                "a",
                vec![
                    dep("b", &[DependencyKind::Normal]),
                    dep("c", &[DependencyKind::Normal]),
                ],
            ),
            node("b", vec![dep("d", &[DependencyKind::Normal])]),
            node("c", vec![dep("d", &[DependencyKind::Normal])]),
            // A back edge: the visited set guards against looping.
            node("d", vec![dep("a", &[DependencyKind::Normal])]),
        ],
        Some("a"),
    );
    let roots = vec![package("a", "a", None)];
    let resolved = resolve_packages(&m, &roots).unwrap();
    assert_eq!(ids(&resolved), vec!["a", "b", "c", "d"]);
    assert_eq!(resolved.len(), 4);
}

#[test]
fn resolve_fails_without_graph() {
    let m = Metadata {
        packages: vec![package("a", "a", None)],
        workspace_members: vec![String::from("a")],
        resolve: None,
    };
    let roots = vec![package("a", "a", None)];
    assert_eq!(
        resolve_packages(&m, &roots),
        Err(GraphError::MissingGraph)
    );
}

#[test]
fn resolve_fails_on_missing_package_record() {
    let m = metadata(
        vec![package("a", "a", None)],
        vec![
            node("a", vec![dep("ghost", &[DependencyKind::Normal])]),
            node("ghost", vec![]),
        ],
        Some("a"),
    );
    let roots = vec![package("a", "a", None)];
    assert_eq!(
        resolve_packages(&m, &roots),
        Err(GraphError::PackageNotFound(String::from("ghost")))
    );
}

#[test]
fn resolve_fails_on_missing_node() {
    let m = metadata(
        vec![package("a", "a", None), package("b", "b", None)],
        vec![node("a", vec![dep("b", &[DependencyKind::Normal])])],
        Some("a"),
    );
    let roots = vec![package("a", "a", None)];
    assert_eq!(
        resolve_packages(&m, &roots),
        Err(GraphError::NodeNotFound(String::from("b")))
    );
}

#[test]
fn by_id_finds_first_match() {
    let packages = vec![package("a", "a", None), package("b", "b", None)];
    let found = packages.by_id(&String::from("b")).unwrap();
    assert_eq!(found.name, "b");
    assert_eq!(
        packages.by_id(&String::from("zzz")),
        Err(GraphError::PackageNotFound(String::from("zzz")))
    );
}

#[test]
fn resolve_by_id_finds_deps() {
    let resolve = Resolve {
        root: None,
        nodes: vec![node("a", vec![dep("b", &[DependencyKind::Normal])])],
    };
    let deps = ResolveExt::by_id(&resolve, &String::from("a")).unwrap();
    assert_eq!(deps.len(), 1);
    assert_eq!(deps[0].pkg, "b");
    assert_eq!(
        ResolveExt::by_id(&resolve, &String::from("x")),
        Err(GraphError::NodeNotFound(String::from("x")))
    );
}

#[test]
fn roots_all_takes_workspace_members() {
    let m = metadata(
        vec![package("a", "a", None), package("b", "b", None)],
        vec![],
        None,
    );
    let roots = resolve_roots(&m, SelectedPackage::All, ManifestInfo::Unavailable).unwrap();
    assert_eq!(ids(&roots), vec!["a", "b"]);
}

#[test]
fn roots_default_takes_resolve_root() {
    let m = metadata(
        vec![package("a", "a", None), package("b", "b", None)],
        vec![],
        Some("b"),
    );
    let roots = resolve_roots(&m, SelectedPackage::Default, ManifestInfo::Unavailable).unwrap();
    assert_eq!(ids(&roots), vec!["b"]);
}

#[test]
fn roots_default_virtual_uses_default_members() {
    let m = metadata(
        vec![package("a", "alpha", None), package("b", "beta", None)],
        vec![],
        None,
    );
    let roots = resolve_roots(
        &m,
        SelectedPackage::Default,
        ManifestInfo::Available(Some(vec![String::from("beta")])),
    )
    .unwrap();
    assert_eq!(ids(&roots), vec!["b"]);
    let err = resolve_roots(
        &m,
        SelectedPackage::Default,
        ManifestInfo::Available(Some(vec![String::from("gamma")])),
    );
    assert_eq!(err, Err(GraphError::MemberNotFound(String::from("gamma"))));
}

#[test]
fn roots_default_virtual_without_members_takes_all() {
    let m = metadata(
        vec![package("a", "alpha", None), package("b", "beta", None)],
        vec![],
        None,
    );
    let roots =
        resolve_roots(&m, SelectedPackage::Default, ManifestInfo::Available(None)).unwrap();
    assert_eq!(ids(&roots), vec!["a", "b"]);
    assert_eq!(
        resolve_roots(&m, SelectedPackage::Default, ManifestInfo::Unavailable),
        Err(GraphError::ManifestUnreadable)
    );
}

#[test]
fn roots_specific_finds_by_name() {
    let m = metadata(
        vec![package("a", "alpha", None), package("b", "beta", None)],
        vec![],
        None,
    );
    let roots = resolve_roots(
        &m,
        SelectedPackage::Specific(String::from("beta")),
        ManifestInfo::Unavailable,
    )
    .unwrap();
    assert_eq!(ids(&roots), vec!["b"]);
    assert_eq!(
        resolve_roots(
            &m,
            SelectedPackage::Specific(String::from("gamma")),
            ManifestInfo::Unavailable,
        ),
        Err(GraphError::PackageNotFound(String::from("gamma")))
    );
}

#[test]
fn package_license_parses_declaration() {
    assert_eq!(package("a", "a", Some("MIT")).license(), License::MIT);
    assert_eq!(package("a", "a", None).license(), License::Unspecified);
    let with_file = Package {
        id: String::from("a"),
        name: String::from("a"),
        version: String::from("1"),
        license: None,
        license_file: Some(String::from("COPYING")),
    };
    assert_eq!(
        with_file.license(),
        License::File(String::from("COPYING"))
    );
}

#[test]
fn check_run_counts_refusals() {
    let root = package("root", "root", Some("MIT"));
    let packages = vec![
        package("root", "root", Some("MIT")),
        package("ok", "ok", Some("MIT")),
        package("bad", "bad", Some("GPL-3.0")),
        package("odd", "odd", Some("SomethingElse")),
    ];
    let report = check::run(&root, &packages);
    // The root itself is skipped.
    assert_eq!(report.verdicts.len(), 3);
    assert_eq!(report.verdicts[0].1, Compat::Yes);
    assert_eq!(report.verdicts[1].1, Compat::No);
    assert_eq!(report.verdicts[2].1, Compat::Unknown);
    assert_eq!(report.failures, 1);
}

#[test]
fn check_run_passes_when_compatible() {
    let root = package("root", "root", Some("GPL-3.0-or-later"));
    let packages = vec![
        package("a", "a", Some("MIT")),
        package("b", "b", Some("Apache-2.0")),
    ];
    let report = check::run(&root, &packages);
    assert_eq!(report.failures, 0);
}
