//! The metadata model and the dependency resolver: the packages reachable
//! from the chosen roots over runtime-only edges, and the selection of the
//! root packages themselves.

use vstd::prelude::*;
use vstd::set_lib::lemma_len_subset;

use crate::options::SelectedPackage;
use crate::query::PackagesExt;
use crate::query::ResolveExt;
use crate::query::first_node;
use crate::query::first_pkg;
use crate::query::has_node;
use crate::query::has_pkg;
use crate::query::lemma_first_node;
use crate::query::lemma_first_pkg;

verus! {

/// One package record of the build metadata.
#[derive(Debug, PartialEq, Eq)]
pub struct Package {
    pub id: String,
    pub name: String,
    pub version: String,
    pub license: Option<String>,
    pub license_file: Option<String>,
}

impl Clone for Package {
    fn clone(&self) -> (r: Self)
        ensures
            r == *self,
    {
        Package {
            id: self.id.clone(),
            name: self.name.clone(),
            version: self.version.clone(),
            license: match &self.license {
                Option::Some(s) => Option::Some(s.clone()),
                Option::None => Option::None,
            },
            license_file: match &self.license_file {
                Option::Some(s) => Option::Some(s.clone()),
                Option::None => Option::None,
            },
        }
    }
}

/// The license a package declares: its license expression parsed, else a
/// reference to its license file, else nothing.
pub open spec fn declared_license_spec(p: Package) -> crate::license::LicenseView {
    match p.license {
        Option::Some(s) => crate::license::parse_spec(s@),
        Option::None => match p.license_file {
            Option::Some(f) => crate::license::LicenseView::File(f@),
            Option::None => crate::license::LicenseView::Unspecified,
        },
    }
}

impl Package {
    /// The license this package declares.
    pub fn license(&self) -> (r: crate::license::License)
        ensures
            r@ == declared_license_spec(*self),
            crate::license::wf_view(r@),
            crate::license::no_nested_multiple(r@),
    {
        match &self.license {
            Option::Some(s) => {
                proof {
                    crate::license::lemma_parse_wf(s@);
                }
                crate::license::License::parse(s.as_str())
            },
            Option::None => match &self.license_file {
                Option::Some(f) => crate::license::License::File(f.clone()),
                Option::None => crate::license::License::Unspecified,
            },
        }
    }
}

/// The kind of one dependency edge.
#[derive(Debug, Clone, Copy, PartialEq, Eq, Structural)]
pub enum DependencyKind {
    Normal,
    Development,
    Build,
    Unknown,
}

/// The kind record attached to a dependency edge.
#[derive(Debug, Clone, Copy, PartialEq, Eq, Structural)]
pub struct DepKindInfo {
    pub kind: DependencyKind,
}

/// One resolved dependency of a package: the target id and the kinds of
/// the edges leading to it.
#[derive(Debug, PartialEq, Eq)]
pub struct NodeDep {
    pub pkg: String,
    pub dep_kinds: Vec<DepKindInfo>,
}

/// One node of the resolve graph: a package id and its dependencies.
#[derive(Debug, PartialEq, Eq)]
pub struct Node {
    pub id: String,
    pub deps: Vec<NodeDep>,
}

/// The resolve graph: the optional root package and the dependency nodes.
#[derive(Debug, PartialEq, Eq)]
pub struct Resolve {
    pub root: Option<String>,
    pub nodes: Vec<Node>,
}

/// The build metadata the resolver works on.
#[derive(Debug, PartialEq, Eq)]
pub struct Metadata {
    pub packages: Vec<Package>,
    pub workspace_members: Vec<String>,
    pub resolve: Option<Resolve>,
}

/// Why a resolution failed.
#[derive(Debug, PartialEq, Eq)]
pub enum GraphError {
    /// The metadata carries no resolve graph.
    MissingGraph,
    /// A referenced package id has no package record.
    PackageNotFound(String),
    /// A referenced package id has no resolve node.
    NodeNotFound(String),
    /// A named workspace member does not exist.
    MemberNotFound(String),
    /// The workspace manifest could not be read.
    ManifestUnreadable,
}

/// The ids of the given packages, in order.
pub open spec fn pkg_ids(s: Seq<Package>) -> Seq<Seq<char>> {
    s.map_values(|p: Package| p.id@)
}

/// Whether the dependency is reached over at least one runtime edge.
pub open spec fn dep_is_normal(d: NodeDep) -> bool {
    exists|k: int| 0 <= k < d.dep_kinds@.len() && (#[trigger] d.dep_kinds@[k]).kind
        == DependencyKind::Normal
}

/// Whether the graph has a runtime edge from `a` to `b`: the node of `a`
/// records a dependency on `b` with a `Normal` kind.
pub open spec fn normal_edge(nodes: Seq<Node>, a: Seq<char>, b: Seq<char>) -> bool {
    &&& has_node(nodes, a)
    &&& exists|i: int|
        0 <= i < first_node(nodes, a).deps@.len() && (#[trigger] first_node(nodes, a).deps@[i]).pkg@
            == b && dep_is_normal(first_node(nodes, a).deps@[i])
}

/// Whether `path` walks from some root to `id` over runtime edges.
pub open spec fn is_path(
    nodes: Seq<Node>,
    roots: Seq<Seq<char>>,
    path: Seq<Seq<char>>,
    id: Seq<char>,
) -> bool {
    &&& path.len() > 0
    &&& roots.contains(path[0])
    &&& path.last() == id
    &&& forall|i: int| 0 <= i < path.len() - 1 ==> normal_edge(nodes, #[trigger] path[i], path[i + 1])
}

/// Whether `id` is reachable from the roots over runtime edges; a root is
/// reachable by the one-step path.
pub open spec fn reachable(nodes: Seq<Node>, roots: Seq<Seq<char>>, id: Seq<char>) -> bool {
    exists|path: Seq<Seq<char>>| is_path(nodes, roots, path, id)
}

/// Every root is reachable.
pub proof fn lemma_reach_root(nodes: Seq<Node>, roots: Seq<Seq<char>>, id: Seq<char>)
    requires
        roots.contains(id),
    ensures
        reachable(nodes, roots, id),
{
    let path = seq![id];
    assert(is_path(nodes, roots, path, id));
}

/// Reachability is closed under runtime edges.
pub proof fn lemma_reach_step(nodes: Seq<Node>, roots: Seq<Seq<char>>, a: Seq<char>, b: Seq<char>)
    requires
        reachable(nodes, roots, a),
        normal_edge(nodes, a, b),
    ensures
        reachable(nodes, roots, b),
{
    let path = choose|path: Seq<Seq<char>>| is_path(nodes, roots, path, a);
    let longer = path.push(b);
    assert(longer[0] == path[0]);
    assert(longer.last() == b);
    assert forall|i: int| 0 <= i < longer.len() - 1 implies normal_edge(
        nodes,
        #[trigger] longer[i],
        longer[i + 1],
    ) by {
        if i < path.len() - 1 {
            assert(longer[i] == path[i]);
            assert(longer[i + 1] == path[i + 1]);
        } else {
            assert(longer[i] == path.last());
            assert(longer[i + 1] == b);
        }
    }
    assert(is_path(nodes, roots, longer, b));
}

/// A set holding the roots and closed under runtime edges holds every
/// end of a path.
proof fn lemma_path_closed(
    nodes: Seq<Node>,
    roots: Seq<Seq<char>>,
    s: Set<Seq<char>>,
    path: Seq<Seq<char>>,
)
    requires
        forall|i: int| 0 <= i < roots.len() ==> s.contains(#[trigger] roots[i]),
        forall|a: Seq<char>, b: Seq<char>|
            s.contains(a) && #[trigger] normal_edge(nodes, a, b) ==> s.contains(b),
        path.len() > 0,
        roots.contains(path[0]),
        forall|i: int| 0 <= i < path.len() - 1 ==> normal_edge(nodes, #[trigger] path[i], path[i + 1]),
    ensures
        s.contains(path.last()),
    decreases path.len(),
{
    if path.len() == 1 {
        let j = choose|j: int| 0 <= j < roots.len() && roots[j] == path[0];
        assert(s.contains(path[0]));
    } else {
        let prefix = path.drop_last();
        assert(prefix[0] == path[0]);
        assert forall|i: int| 0 <= i < prefix.len() - 1 implies normal_edge(
            nodes,
            #[trigger] prefix[i],
            prefix[i + 1],
        ) by {
            assert(prefix[i] == path[i]);
            assert(prefix[i + 1] == path[i + 1]);
        }
        lemma_path_closed(nodes, roots, s, prefix);
        assert(prefix.last() == path[path.len() - 2]);
        assert(normal_edge(nodes, path[path.len() - 2], path[path.len() - 1]));
    }
}

/// A set holding the roots and closed under runtime edges holds every
/// reachable id.
proof fn lemma_reachable_closed(
    nodes: Seq<Node>,
    roots: Seq<Seq<char>>,
    s: Set<Seq<char>>,
    id: Seq<char>,
)
    requires
        forall|i: int| 0 <= i < roots.len() ==> s.contains(#[trigger] roots[i]),
        forall|a: Seq<char>, b: Seq<char>|
            s.contains(a) && #[trigger] normal_edge(nodes, a, b) ==> s.contains(b),
        reachable(nodes, roots, id),
    ensures
        s.contains(id),
{
    let path = choose|path: Seq<Seq<char>>| is_path(nodes, roots, path, id);
    lemma_path_closed(nodes, roots, s, path);
}

/// The dependency targets of one node.
pub open spec fn node_targets(n: Node) -> Seq<Seq<char>> {
    n.deps@.map_values(|d: NodeDep| d.pkg@)
}

/// All dependency targets recorded anywhere in the graph.
pub open spec fn all_targets(nodes: Seq<Node>) -> Seq<Seq<char>>
    decreases nodes.len(),
{
    if nodes.len() == 0 {
        Seq::empty()
    } else {
        node_targets(nodes[0]) + all_targets(nodes.drop_first())
    }
}

/// Each recorded target is among all targets.
proof fn lemma_target_in_all(nodes: Seq<Node>, i: int, j: int)
    requires
        0 <= i < nodes.len(),
        0 <= j < nodes[i].deps@.len(),
    ensures
        all_targets(nodes).contains(nodes[i].deps@[j].pkg@),
    decreases nodes.len(),
{
    if i == 0 {
        assert(node_targets(nodes[0])[j] == nodes[0].deps@[j].pkg@);
        assert(all_targets(nodes)[j] == node_targets(nodes[0])[j]);
    } else {
        lemma_target_in_all(nodes.drop_first(), i - 1, j);
        assert(nodes.drop_first()[i - 1] == nodes[i]);
        let k = choose|k: int|
            0 <= k < all_targets(nodes.drop_first()).len() && all_targets(nodes.drop_first())[k]
                == nodes[i].deps@[j].pkg@;
        assert(all_targets(nodes)[node_targets(nodes[0]).len() + k] == nodes[i].deps@[j].pkg@);
    }
}

/// Whether `id` occurs in the list.
pub open spec fn in_ids(s: Seq<String>, id: Seq<char>) -> bool {
    exists|i: int| 0 <= i < s.len() && (#[trigger] s[i])@ == id
}

/// Whether the id occurs in the list.
fn id_in_list(v: &Vec<String>, id: &String) -> (r: bool)
    ensures
        r == in_ids(v@, id@),
{
    let n = v.len();
    let mut i: usize = 0;
    while i < n
        invariant
            0 <= i <= n,
            n == v@.len(),
            forall|q: int| 0 <= q < i ==> (#[trigger] v@[q])@ != id@,
        decreases n - i,
    {
        if v[i].eq(id) {
            proof {
                assert(v@[i as int]@ == id@);
            }
            return true;
        }
        i = i + 1;
    }
    false
}

/// Whether at least one of the recorded kinds is `Normal`.
fn has_normal_kind(d: &NodeDep) -> (r: bool)
    ensures
        r == dep_is_normal(*d),
{
    let n = d.dep_kinds.len();
    let mut i: usize = 0;
    while i < n
        invariant
            0 <= i <= n,
            n == d.dep_kinds@.len(),
            forall|q: int| 0 <= q < i ==> (#[trigger] d.dep_kinds@[q]).kind != DependencyKind::Normal,
        decreases n - i,
    {
        if d.dep_kinds[i].kind == DependencyKind::Normal {
            proof {
                assert(d.dep_kinds@[i as int].kind == DependencyKind::Normal);
            }
            return true;
        }
        i = i + 1;
    }
    false
}

/// Computes the set of packages reachable from the roots over runtime
/// (`Normal`) edges, the roots themselves included, each package once.
/// Fails when the resolve graph is absent, or when a reachable id has no
/// package record or no resolve node — never with a partial result.
#[verifier::rlimit(100)]
pub fn resolve_packages(metadata: &Metadata, roots: &Vec<Package>) -> (r: Result<
    Vec<Package>,
    GraphError,
>)
    ensures
        (match r {
            Result::Ok(v) => {
                &&& metadata.resolve matches Option::Some(rs)
                &&& {
                    let nodes = rs.nodes@;
                    let rootids = pkg_ids(roots@);
                    let pkgs = metadata.packages@;
                    &&& forall|id: Seq<char>|
                        #[trigger] reachable(nodes, rootids, id) ==> has_pkg(pkgs, id) && has_node(
                            nodes,
                            id,
                        )
                    &&& forall|i: int|
                        0 <= i < v@.len() ==> reachable(nodes, rootids, (#[trigger] v@[i]).id@)
                            && v@[i] == first_pkg(pkgs, v@[i].id@)
                    &&& forall|id: Seq<char>| #[trigger]
                        reachable(nodes, rootids, id) ==> exists|i: int|
                            0 <= i < v@.len() && (#[trigger] v@[i]).id@ == id
                    &&& forall|i: int, j: int|
                        0 <= i < j < v@.len() ==> (#[trigger] v@[i]).id@ != (#[trigger] v@[j]).id@
                }
            },
            Result::Err(e) => match e {
                GraphError::MissingGraph => metadata.resolve is None,
                GraphError::PackageNotFound(s) => {
                    &&& metadata.resolve matches Option::Some(rs)
                    &&& reachable(rs.nodes@, pkg_ids(roots@), s@)
                    &&& !has_pkg(metadata.packages@, s@)
                },
                GraphError::NodeNotFound(s) => {
                    &&& metadata.resolve matches Option::Some(rs)
                    &&& reachable(rs.nodes@, pkg_ids(roots@), s@)
                    &&& !has_node(rs.nodes@, s@)
                },
                _ => false,
            },
        }),
{
    let resolve = match &metadata.resolve {
        Option::Some(r) => r,
        Option::None => {
            return Result::Err(GraphError::MissingGraph);
        },
    };
    let ghost nodes = resolve.nodes@;
    let ghost rootids = pkg_ids(roots@);
    let ghost pkgs = metadata.packages@;
    let ghost universe = (rootids + all_targets(nodes)).to_set();
    let mut result: Vec<Package> = Vec::new();
    let mut added: Vec<String> = Vec::new();
    let mut to_check: Vec<String> = Vec::new();
    let ghost mut added_set = Set::<Seq<char>>::empty();
    let nroots = roots.len();
    let mut i: usize = 0;
    while i < nroots
        invariant
            0 <= i <= nroots,
            nroots == roots@.len(),
            rootids == pkg_ids(roots@),
            to_check@.len() == i,
            forall|q: int| 0 <= q < i ==> (#[trigger] to_check@[q])@ == rootids[q],
        decreases nroots - i,
    {
        to_check.push(roots[i].id.clone());
        i = i + 1;
    }
    proof {
        broadcast use vstd::seq_lib::seq_to_set_is_finite;

        assert(universe.finite());
        assert forall|q: int| 0 <= q < to_check@.len() implies universe.contains(
            (#[trigger] to_check@[q])@,
        ) by {
            assert((rootids + all_targets(nodes))[q] == rootids[q]);
            assert((rootids + all_targets(nodes)).contains(rootids[q]));
        }
        assert forall|q: int| 0 <= q < to_check@.len() implies reachable(
            nodes,
            rootids,
            (#[trigger] to_check@[q])@,
        ) by {
            assert(rootids.contains(rootids[q]));
            lemma_reach_root(nodes, rootids, rootids[q]);
        }
        assert(rootids.len() == roots@.len());
        assert forall|q: int| 0 <= q < rootids.len() implies in_ids(
            to_check@,
            #[trigger] rootids[q],
        ) by {
            assert(to_check@[q]@ == rootids[q]);
        }
    }
    while to_check.len() > 0
        invariant
            metadata.resolve matches Option::Some(rs) && rs == resolve,
            nodes == resolve.nodes@,
            rootids == pkg_ids(roots@),
            pkgs == metadata.packages@,
            universe == (rootids + all_targets(nodes)).to_set(),
            universe.finite(),
            added_set.finite(),
            added_set.len() == added@.len(),
            added_set.subset_of(universe),
            forall|x: Seq<char>| #[trigger] added_set.contains(x) <==> in_ids(added@, x),
            forall|p: int, q: int|
                0 <= p < q < added@.len() ==> (#[trigger] added@[p])@ != (#[trigger] added@[q])@,
            forall|q: int|
                0 <= q < to_check@.len() ==> universe.contains((#[trigger] to_check@[q])@),
            forall|q: int|
                0 <= q < to_check@.len() ==> reachable(nodes, rootids, (#[trigger] to_check@[q])@),
            forall|q: int|
                0 <= q < added@.len() ==> reachable(nodes, rootids, (#[trigger] added@[q])@),
            forall|q: int|
                0 <= q < added@.len() ==> has_pkg(pkgs, (#[trigger] added@[q])@) && has_node(
                    nodes,
                    (#[trigger] added@[q])@,
                ),
            forall|q: int, b: Seq<char>|
                0 <= q < added@.len() && #[trigger] normal_edge(nodes, (#[trigger] added@[q])@, b)
                    ==> in_ids(added@, b) || in_ids(to_check@, b),
            forall|q: int|
                0 <= q < rootids.len() ==> in_ids(added@, #[trigger] rootids[q]) || in_ids(
                    to_check@,
                    rootids[q],
                ),
            result@.len() == added@.len(),
            forall|q: int|
                0 <= q < result@.len() ==> (#[trigger] result@[q]) == first_pkg(
                    pkgs,
                    added@[q]@,
                ) && result@[q].id@ == added@[q]@,
        decreases universe.len() - added_set.len(), to_check@.len(),
    {
        let ghost prev_check = to_check@;
        let id = to_check.pop().unwrap();
        proof {
            assert(id@ == prev_check[prev_check.len() - 1]@);
            assert(reachable(nodes, rootids, id@));
            assert(universe.contains(id@));
            assert forall|q: int| 0 <= q < to_check@.len() implies (#[trigger] to_check@[q])
                == prev_check[q] by {}
        }
        if id_in_list(&added, &id) {
            proof {
                assert forall|q: int|
                    0 <= q < rootids.len() implies in_ids(added@, #[trigger] rootids[q]) || in_ids(
                    to_check@,
                    rootids[q],
                ) by {
                    if in_ids(prev_check, rootids[q]) && !in_ids(added@, rootids[q]) {
                        let k = choose|k: int|
                            0 <= k < prev_check.len() && (#[trigger] prev_check[k])@ == rootids[q];
                        if k < prev_check.len() - 1 {
                            assert(to_check@[k]@ == rootids[q]);
                        } else {
                            assert(id@ == rootids[q]);
                        }
                    }
                }
                assert forall|q: int, b: Seq<char>|
                    0 <= q < added@.len() && #[trigger] normal_edge(
                        nodes,
                        (#[trigger] added@[q])@,
                        b,
                    ) implies in_ids(added@, b) || in_ids(to_check@, b) by {
                    if in_ids(prev_check, b) && !in_ids(added@, b) {
                        let k = choose|k: int|
                            0 <= k < prev_check.len() && (#[trigger] prev_check[k])@ == b;
                        if k < prev_check.len() - 1 {
                            assert(to_check@[k]@ == b);
                        } else {
                            assert(id@ == b);
                        }
                    }
                }
            }
            continue ;
        }
        let package = match metadata.packages.by_id(&id) {
            Result::Ok(p) => p,
            Result::Err(e) => {
                proof {
                    if has_pkg(pkgs, id@) {
                        assert(false);
                    }
                }
                return Result::Err(e);
            },
        };
        let deps = match resolve.by_id(&id) {
            Result::Ok(d) => d,
            Result::Err(e) => {
                proof {
                    if has_node(nodes, id@) {
                        assert(false);
                    }
                }
                return Result::Err(e);
            },
        };
        let ghost prev_added = added@;
        let ghost prev_result = result@;
        let ghost prev_set = added_set;
        let cloned = package.clone();
        result.push(cloned);
        added.push(id.clone());
        proof {
            added_set = added_set.insert(id@);
            assert(added@ =~= prev_added.push(id));
            assert(!in_ids(prev_added, id@));
            assert(!prev_set.contains(id@));
            assert(added_set.len() == prev_set.len() + 1);
            assert forall|x: Seq<char>| #[trigger] added_set.contains(x) <==> in_ids(
                added@,
                x,
            ) by {
                if added_set.contains(x) {
                    if x == id@ {
                        assert(added@[added@.len() - 1]@ == x);
                    } else {
                        let k = choose|k: int|
                            0 <= k < prev_added.len() && (#[trigger] prev_added[k])@ == x;
                        assert(added@[k]@ == x);
                    }
                }
                if in_ids(added@, x) {
                    let k = choose|k: int| 0 <= k < added@.len() && (#[trigger] added@[k])@ == x;
                    if k < added@.len() - 1 {
                        assert(prev_added[k]@ == x);
                        assert(in_ids(prev_added, x));
                    }
                }
            }
            assert forall|p: int, q: int| 0 <= p < q < added@.len() implies (#[trigger] added@[p])@
                != (#[trigger] added@[q])@ by {
                if q == added@.len() - 1 {
                    assert(added@[p] == prev_added[p]);
                    if added@[p]@ == id@ {
                        assert(in_ids(prev_added, id@));
                    }
                } else {
                    assert(added@[p] == prev_added[p]);
                    assert(added@[q] == prev_added[q]);
                }
            }
            assert forall|x: Seq<char>| in_ids(prev_check, x) && x != id@ implies in_ids(
                to_check@,
                x,
            ) by {
                let k = choose|k: int| 0 <= k < prev_check.len() && (#[trigger] prev_check[k])@ == x;
                assert(k < prev_check.len() - 1);
                assert(to_check@[k]@ == x);
            }
        }
        let ndeps = deps.len();
        let mut j: usize = 0;
        while j < ndeps
            invariant
                0 <= j <= ndeps,
                ndeps == deps@.len(),
                nodes == resolve.nodes@,
                rootids == pkg_ids(roots@),
                universe == (rootids + all_targets(nodes)).to_set(),
                has_node(nodes, id@),
                *deps == first_node(nodes, id@).deps,
                added@ == prev_added.push(id),
                added@.len() > 0,
                added@[added@.len() - 1]@ == id@,
                reachable(nodes, rootids, id@),
                forall|q: int|
                    0 <= q < to_check@.len() ==> universe.contains((#[trigger] to_check@[q])@),
                forall|q: int|
                    0 <= q < to_check@.len() ==> reachable(
                        nodes,
                        rootids,
                        (#[trigger] to_check@[q])@,
                    ),
                forall|k: int|
                    0 <= k < j && dep_is_normal(#[trigger] deps@[k]) ==> in_ids(
                        to_check@,
                        deps@[k].pkg@,
                    ),
                forall|x: Seq<char>| in_ids(prev_check, x) && x != id@ ==> in_ids(to_check@, x),
            decreases ndeps - j,
        {
            if has_normal_kind(&deps[j]) {
                proof {
                    assert(normal_edge(nodes, id@, deps@[j as int].pkg@));
                    lemma_reach_step(nodes, rootids, id@, deps@[j as int].pkg@);
                    lemma_first_node(nodes, id@);
                    let ni = choose|ni: int|
                        0 <= ni < nodes.len() && (#[trigger] nodes[ni]).id@ == id@ && nodes[ni]
                            == first_node(nodes, id@);
                    lemma_target_in_all(nodes, ni, j as int);
                    assert((rootids + all_targets(nodes)).contains(deps@[j as int].pkg@)) by {
                        let k = choose|k: int|
                            0 <= k < all_targets(nodes).len() && all_targets(nodes)[k] == deps@[
                                j as int
                            ].pkg@;
                        assert((rootids + all_targets(nodes))[rootids.len() + k] == deps@[
                            j as int
                        ].pkg@);
                    }
                }
                let ghost oldck = to_check@;
                to_check.push(deps[j].pkg.clone());
                proof {
                    assert forall|y: Seq<char>| in_ids(oldck, y) implies in_ids(to_check@, y) by {
                        let k = choose|k: int| 0 <= k < oldck.len() && (#[trigger] oldck[k])@ == y;
                        assert(to_check@[k]@ == y);
                    }
                    assert(to_check@[to_check@.len() - 1]@ == deps@[j as int].pkg@);
                    assert(in_ids(to_check@, deps@[j as int].pkg@));
                }
            }
            j = j + 1;
        }
        proof {
            assert forall|q: int, b: Seq<char>|
                0 <= q < added@.len() && #[trigger] normal_edge(nodes, (#[trigger] added@[q])@, b)
                    implies in_ids(added@, b) || in_ids(to_check@, b) by {
                if q == added@.len() - 1 {
                    assert(added@[q]@ == id@);
                    let di = choose|di: int|
                        0 <= di < first_node(nodes, id@).deps@.len() && (#[trigger] first_node(
                            nodes,
                            id@,
                        ).deps@[di]).pkg@ == b && dep_is_normal(first_node(nodes, id@).deps@[di]);
                    assert(dep_is_normal(deps@[di]));
                    assert(in_ids(to_check@, b));
                } else {
                    assert(added@[q] == prev_added[q]);
                    assert(normal_edge(nodes, prev_added[q]@, b));
                    assert(in_ids(prev_added, b) || in_ids(prev_check, b));
                    if in_ids(prev_added, b) {
                        let k = choose|k: int|
                            0 <= k < prev_added.len() && (#[trigger] prev_added[k])@ == b;
                        assert(added@[k]@ == b);
                    } else {
                        if b == id@ {
                            assert(added@[added@.len() - 1]@ == b);
                        } else {
                            assert(in_ids(to_check@, b));
                        }
                    }
                }
            }
            assert forall|q: int|
                0 <= q < rootids.len() implies in_ids(added@, #[trigger] rootids[q]) || in_ids(
                to_check@,
                rootids[q],
            ) by {
                if in_ids(prev_added, rootids[q]) {
                    let k = choose|k: int|
                        0 <= k < prev_added.len() && (#[trigger] prev_added[k])@ == rootids[q];
                    assert(added@[k]@ == rootids[q]);
                } else if in_ids(prev_check, rootids[q]) {
                    if rootids[q] == id@ {
                        assert(added@[added@.len() - 1]@ == rootids[q]);
                    } else {
                        assert(in_ids(to_check@, rootids[q]));
                    }
                }
            }
            assert forall|q: int|
                0 <= q < result@.len() implies (#[trigger] result@[q]) == first_pkg(
                pkgs,
                added@[q]@,
            ) && result@[q].id@ == added@[q]@ by {
                if q < result@.len() - 1 {
                    assert(result@[q] == prev_result[q]);
                    assert(added@[q] == prev_added[q]);
                } else {
                    assert(added@[q]@ == id@);
                    lemma_first_pkg(pkgs, id@);
                }
            }
            lemma_len_subset(added_set, universe);
        }
    }
    proof {
        let s = added_set;
        assert forall|q: int| 0 <= q < rootids.len() implies s.contains(#[trigger] rootids[q]) by {
            assert(in_ids(added@, rootids[q]));
        }
        assert forall|a: Seq<char>, b: Seq<char>|
            s.contains(a) && #[trigger] normal_edge(nodes, a, b) implies s.contains(b) by {
            let k = choose|k: int| 0 <= k < added@.len() && (#[trigger] added@[k])@ == a;
            assert(normal_edge(nodes, added@[k]@, b));
            assert(in_ids(added@, b) || in_ids(to_check@, b));
            assert(in_ids(added@, b));
        }
        assert forall|id: Seq<char>| #[trigger]
            reachable(nodes, rootids, id) implies has_pkg(pkgs, id) && has_node(nodes, id) by {
            lemma_reachable_closed(nodes, rootids, s, id);
            let k = choose|k: int| 0 <= k < added@.len() && (#[trigger] added@[k])@ == id;
        }
        assert forall|id: Seq<char>| #[trigger] reachable(nodes, rootids, id) implies exists|i: int|
            0 <= i < result@.len() && (#[trigger] result@[i]).id@ == id by {
            lemma_reachable_closed(nodes, rootids, s, id);
            let k = choose|k: int| 0 <= k < added@.len() && (#[trigger] added@[k])@ == id;
            assert(result@[k].id@ == id);
        }
    }
    Result::Ok(result)
}

/// An id that is not a root and has no incoming runtime edge — one only
/// development or build edges lead to — is never reachable, and so never
/// part of a resolution.
pub proof fn lemma_dev_only_excluded(nodes: Seq<Node>, roots: Seq<Seq<char>>, id: Seq<char>)
    requires
        !roots.contains(id),
        forall|a: Seq<char>| !(#[trigger] normal_edge(nodes, a, id)),
    ensures
        !reachable(nodes, roots, id),
{
    if reachable(nodes, roots, id) {
        let path = choose|path: Seq<Seq<char>>| is_path(nodes, roots, path, id);
        if path.len() == 1 {
            assert(path[0] == id);
        } else {
            assert(normal_edge(nodes, path[path.len() - 2], path[path.len() - 2 + 1]));
            assert(path[path.len() - 1] == id);
        }
    }
}

/// What the workspace manifest said about its default members: the
/// optional member list, or that the manifest could not be read.
#[derive(Debug, Clone, PartialEq, Eq)]
pub enum ManifestInfo {
    Available(Option<Vec<String>>),
    Unavailable,
}

/// Whether every listed id has a package record.
pub open spec fn all_members_found(pkgs: Seq<Package>, members: Seq<String>) -> bool {
    forall|i: int| 0 <= i < members.len() ==> has_pkg(pkgs, (#[trigger] members[i])@)
}

/// The first workspace member, in member order, that has a package record
/// carrying the given name; members without a record are passed over.
pub open spec fn find_member_by_name(
    pkgs: Seq<Package>,
    members: Seq<String>,
    name: Seq<char>,
) -> Option<Package>
    decreases members.len(),
{
    if members.len() == 0 {
        Option::None
    } else if has_pkg(pkgs, members[0]@) && first_pkg(pkgs, members[0]@).name@ == name {
        Option::Some(first_pkg(pkgs, members[0]@))
    } else {
        find_member_by_name(pkgs, members.drop_first(), name)
    }
}

/// The first package carrying the given name.
pub open spec fn first_pkg_by_name(pkgs: Seq<Package>, name: Seq<char>) -> Option<Package>
    decreases pkgs.len(),
{
    if pkgs.len() == 0 {
        Option::None
    } else if pkgs[0].name@ == name {
        Option::Some(pkgs[0])
    } else {
        first_pkg_by_name(pkgs.drop_first(), name)
    }
}

/// What collecting the packages of an id list yields: the first-match
/// package of each id in order, or the first id without a record.
pub open spec fn members_post(
    pkgs: Seq<Package>,
    members: Seq<String>,
    r: Result<Vec<Package>, GraphError>,
) -> bool {
    match r {
        Result::Ok(v) => {
            &&& all_members_found(pkgs, members)
            &&& v@.len() == members.len()
            &&& forall|i: int|
                0 <= i < members.len() ==> (#[trigger] v@[i]) == first_pkg(pkgs, members[i]@)
        },
        Result::Err(e) => match e {
            GraphError::PackageNotFound(s) => exists|i: int|
                0 <= i < members.len() && !has_pkg(pkgs, (#[trigger] members[i])@) && s@
                    == members[i]@ && (forall|q: int| 0 <= q < i ==> has_pkg(pkgs, (#[trigger] members[q])@)),
            _ => false,
        },
    }
}

/// Collects the package record of every listed id, in order.
fn collect_members(packages: &Vec<Package>, members: &Vec<String>) -> (r: Result<
    Vec<Package>,
    GraphError,
>)
    ensures
        members_post(packages@, members@, r),
{
    let mut out: Vec<Package> = Vec::new();
    let n = members.len();
    let mut i: usize = 0;
    while i < n
        invariant
            0 <= i <= n,
            n == members@.len(),
            out@.len() == i,
            forall|q: int| 0 <= q < i ==> has_pkg(packages@, (#[trigger] members@[q])@),
            forall|q: int|
                0 <= q < i ==> (#[trigger] out@[q]) == first_pkg(packages@, members@[q]@),
        decreases n - i,
    {
        match packages.by_id(&members[i]) {
            Result::Ok(p) => {
                out.push(p.clone());
            },
            Result::Err(e) => {
                proof {
                    if has_pkg(packages@, members@[i as int]@) {
                        assert(false);
                    }
                }
                return Result::Err(e);
            },
        }
        i = i + 1;
    }
    Result::Ok(out)
}

/// Finds the first workspace member package with the given name.
fn find_member(packages: &Vec<Package>, members: &Vec<String>, name: &String) -> (r: Option<
    Package,
>)
    ensures
        (match (r, find_member_by_name(packages@, members@, name@)) {
            (Option::Some(p), Option::Some(pv)) => p == pv,
            (Option::None, Option::None) => true,
            _ => false,
        }),
{
    let n = members.len();
    let mut i: usize = 0;
    proof {
        assert(members@.skip(0) =~= members@);
    }
    while i < n
        invariant
            0 <= i <= n,
            n == members@.len(),
            find_member_by_name(packages@, members@, name@) == find_member_by_name(
                packages@,
                members@.skip(i as int),
                name@,
            ),
        decreases n - i,
    {
        proof {
            assert(members@.skip(i as int)[0] == members@[i as int]);
            assert(members@.skip(i as int).drop_first() =~= members@.skip(i as int + 1));
        }
        match packages.by_id(&members[i]) {
            Result::Ok(p) => {
                if p.name.eq(name) {
                    return Option::Some(p.clone());
                }
            },
            Result::Err(_) => {
                proof {
                    if has_pkg(packages@, members@[i as int]@) {
                        assert(false);
                    }
                }
            },
        }
        i = i + 1;
    }
    proof {
        assert(members@.skip(n as int).len() == 0);
    }
    Option::None
}

/// Finds the first package of the whole set with the given name.
fn find_by_name(packages: &Vec<Package>, name: &String) -> (r: Option<Package>)
    ensures
        (match (r, first_pkg_by_name(packages@, name@)) {
            (Option::Some(p), Option::Some(pv)) => p == pv,
            (Option::None, Option::None) => true,
            _ => false,
        }),
{
    let n = packages.len();
    let mut i: usize = 0;
    proof {
        assert(packages@.skip(0) =~= packages@);
    }
    while i < n
        invariant
            0 <= i <= n,
            n == packages@.len(),
            first_pkg_by_name(packages@, name@) == first_pkg_by_name(
                packages@.skip(i as int),
                name@,
            ),
        decreases n - i,
    {
        proof {
            assert(packages@.skip(i as int)[0] == packages@[i as int]);
            assert(packages@.skip(i as int).drop_first() =~= packages@.skip(i as int + 1));
        }
        if packages[i].name.eq(name) {
            return Option::Some(packages[i].clone());
        }
        i = i + 1;
    }
    proof {
        assert(packages@.skip(n as int).len() == 0);
    }
    Option::None
}

/// Picks the root packages a run starts from.  `All` takes every
/// workspace member; `Default` takes the resolve graph's root package
/// where one is set, else the workspace manifest's default members, else
/// every member; `Specific` takes the one named package.  The manifest's
/// default-member list is consulted, and its unavailability an error,
/// only on the path that needs it.
pub fn resolve_roots(metadata: &Metadata, package: SelectedPackage, manifest: ManifestInfo) -> (r:
    Result<Vec<Package>, GraphError>)
    ensures
        (match package {
            SelectedPackage::All => members_post(metadata.packages@, metadata.workspace_members@, r),
            SelectedPackage::Default => match metadata.resolve {
                Option::None => r == Result::<Vec<Package>, GraphError>::Err(
                    GraphError::MissingGraph,
                ),
                Option::Some(rs) => match rs.root {
                    Option::Some(root) => match r {
                        Result::Ok(v) => has_pkg(metadata.packages@, root@) && v@.len() == 1 && v@[0]
                            == first_pkg(metadata.packages@, root@),
                        Result::Err(GraphError::PackageNotFound(s)) => s@ == root@ && !has_pkg(
                            metadata.packages@,
                            root@,
                        ),
                        _ => false,
                    },
                    Option::None => match manifest {
                        ManifestInfo::Unavailable => r == Result::<Vec<Package>, GraphError>::Err(
                            GraphError::ManifestUnreadable,
                        ),
                        ManifestInfo::Available(Option::None) => members_post(
                            metadata.packages@,
                            metadata.workspace_members@,
                            r,
                        ),
                        ManifestInfo::Available(Option::Some(list)) => match r {
                            Result::Ok(v) => {
                                &&& v@.len() == list@.len()
                                &&& forall|i: int|
                                    0 <= i < list@.len() ==> find_member_by_name(
                                        metadata.packages@,
                                        metadata.workspace_members@,
                                        (#[trigger] list@[i])@,
                                    ) == Option::Some(v@[i])
                            },
                            Result::Err(GraphError::MemberNotFound(s)) => exists|i: int|
                                0 <= i < list@.len() && find_member_by_name(
                                    metadata.packages@,
                                    metadata.workspace_members@,
                                    (#[trigger] list@[i])@,
                                ) is None && s@ == list@[i]@,
                            _ => false,
                        },
                    },
                },
            },
            SelectedPackage::Specific(name) => match r {
                Result::Ok(v) => v@.len() == 1 && first_pkg_by_name(metadata.packages@, name@)
                    == Option::Some(v@[0]),
                Result::Err(GraphError::PackageNotFound(s)) => s@ == name@ && first_pkg_by_name(
                    metadata.packages@,
                    name@,
                ) is None,
                _ => false,
            },
        }),
{
    match package {
        SelectedPackage::All => collect_members(&metadata.packages, &metadata.workspace_members),
        SelectedPackage::Default => {
            let resolve = match &metadata.resolve {
                Option::Some(r) => r,
                Option::None => {
                    return Result::Err(GraphError::MissingGraph);
                },
            };
            match &resolve.root {
                Option::Some(root) => {
                    match metadata.packages.by_id(root) {
                        Result::Ok(p) => {
                            let mut v: Vec<Package> = Vec::new();
                            v.push(p.clone());
                            Result::Ok(v)
                        },
                        Result::Err(e) => {
                            proof {
                                if has_pkg(metadata.packages@, root@) {
                                    assert(false);
                                }
                            }
                            Result::Err(e)
                        },
                    }
                },
                Option::None => {
                    match manifest {
                        ManifestInfo::Unavailable => Result::Err(GraphError::ManifestUnreadable),
                        ManifestInfo::Available(Option::None) => collect_members(
                            &metadata.packages,
                            &metadata.workspace_members,
                        ),
                        ManifestInfo::Available(Option::Some(list)) => {
                            let mut out: Vec<Package> = Vec::new();
                            let n = list.len();
                            let mut i: usize = 0;
                            while i < n
                                invariant
                                    0 <= i <= n,
                                    n == list@.len(),
                                    out@.len() == i,
                                    package == SelectedPackage::Default,
                                    manifest == ManifestInfo::Available(Option::Some(list)),
                                    metadata.resolve matches Option::Some(rs) && rs.root is None,
                                    forall|q: int|
                                        0 <= q < i ==> find_member_by_name(
                                            metadata.packages@,
                                            metadata.workspace_members@,
                                            (#[trigger] list@[q])@,
                                        ) == Option::Some(out@[q]),
                                decreases n - i,
                            {
                                match find_member(
                                    &metadata.packages,
                                    &metadata.workspace_members,
                                    &list[i],
                                ) {
                                    Option::Some(p) => {
                                        out.push(p);
                                    },
                                    Option::None => {
                                        proof {
                                            assert(find_member_by_name(
                                                metadata.packages@,
                                                metadata.workspace_members@,
                                                (#[trigger] list@[i as int])@,
                                            ) is None);
                                        }
                                        return Result::Err(
                                            GraphError::MemberNotFound(list[i].clone()),
                                        );
                                    },
                                }
                                i = i + 1;
                            }
                            Result::Ok(out)
                        },
                    }
                },
            }
        },
        SelectedPackage::Specific(name) => {
            match find_by_name(&metadata.packages, &name) {
                Option::Some(p) => {
                    let mut v: Vec<Package> = Vec::new();
                    v.push(p);
                    Result::Ok(v)
                },
                Option::None => Result::Err(GraphError::PackageNotFound(name)),
            }
        },
    }
}

} // verus!
