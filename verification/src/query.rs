//! First-match lookups over the metadata model: packages by id and
//! resolve nodes by id.

use vstd::prelude::*;

use crate::load::GraphError;
use crate::load::Node;
use crate::load::NodeDep;
use crate::load::Package;
use crate::load::Resolve;

verus! {

/// Whether some package carries the given id.
pub open spec fn has_pkg(pkgs: Seq<Package>, id: Seq<char>) -> bool {
    exists|i: int| 0 <= i < pkgs.len() && (#[trigger] pkgs[i]).id@ == id
}

/// The first package carrying the given id; unspecified where none does.
pub open spec fn first_pkg(pkgs: Seq<Package>, id: Seq<char>) -> Package
    decreases pkgs.len(),
{
    if pkgs.len() == 0 {
        pkgs[0]
    } else if pkgs[0].id@ == id {
        pkgs[0]
    } else {
        first_pkg(pkgs.drop_first(), id)
    }
}

/// Whether some resolve node carries the given id.
pub open spec fn has_node(nodes: Seq<Node>, id: Seq<char>) -> bool {
    exists|i: int| 0 <= i < nodes.len() && (#[trigger] nodes[i]).id@ == id
}

/// The first resolve node carrying the given id; unspecified where none
/// does.
pub open spec fn first_node(nodes: Seq<Node>, id: Seq<char>) -> Node
    decreases nodes.len(),
{
    if nodes.len() == 0 {
        nodes[0]
    } else if nodes[0].id@ == id {
        nodes[0]
    } else {
        first_node(nodes.drop_first(), id)
    }
}

/// A present id is resolved to its first node, which carries that id.
pub proof fn lemma_first_node(nodes: Seq<Node>, id: Seq<char>)
    requires
        has_node(nodes, id),
    ensures
        exists|i: int|
            0 <= i < nodes.len() && (#[trigger] nodes[i]).id@ == id && nodes[i] == first_node(
                nodes,
                id,
            ),
        first_node(nodes, id).id@ == id,
    decreases nodes.len(),
{
    if nodes.len() > 0 {
        if nodes[0].id@ == id {
            assert(nodes[0] == first_node(nodes, id));
        } else {
            assert(has_node(nodes.drop_first(), id)) by {
                let i = choose|i: int| 0 <= i < nodes.len() && (#[trigger] nodes[i]).id@ == id;
                assert(nodes.drop_first()[i - 1].id@ == id);
            }
            lemma_first_node(nodes.drop_first(), id);
            let j = choose|j: int|
                0 <= j < nodes.drop_first().len() && (#[trigger] nodes.drop_first()[j]).id@ == id
                    && nodes.drop_first()[j] == first_node(nodes.drop_first(), id);
            assert(nodes[j + 1].id@ == id && nodes[j + 1] == first_node(nodes, id));
        }
    }
}

/// A present id is resolved to its first package, which carries that id.
pub proof fn lemma_first_pkg(pkgs: Seq<Package>, id: Seq<char>)
    requires
        has_pkg(pkgs, id),
    ensures
        exists|i: int|
            0 <= i < pkgs.len() && (#[trigger] pkgs[i]).id@ == id && pkgs[i] == first_pkg(
                pkgs,
                id,
            ),
        first_pkg(pkgs, id).id@ == id,
    decreases pkgs.len(),
{
    if pkgs.len() > 0 {
        if pkgs[0].id@ == id {
            assert(pkgs[0] == first_pkg(pkgs, id));
        } else {
            assert(has_pkg(pkgs.drop_first(), id)) by {
                let i = choose|i: int| 0 <= i < pkgs.len() && (#[trigger] pkgs[i]).id@ == id;
                assert(pkgs.drop_first()[i - 1].id@ == id);
            }
            lemma_first_pkg(pkgs.drop_first(), id);
            let j = choose|j: int|
                0 <= j < pkgs.drop_first().len() && (#[trigger] pkgs.drop_first()[j]).id@ == id
                    && pkgs.drop_first()[j] == first_pkg(pkgs.drop_first(), id);
            assert(pkgs[j + 1].id@ == id && pkgs[j + 1] == first_pkg(pkgs, id));
        }
    }
}

/// Finding a package of the full package list by its id.
pub trait PackagesExt {
    /// The packages searched, in order.
    spec fn pkg_seq(&self) -> Seq<Package>;

    /// The first package with the given id, or an error naming the id.
    fn by_id(&self, id: &String) -> (r: Result<&Package, GraphError>)
        ensures
            has_pkg(self.pkg_seq(), id@) ==> (r matches Ok(p) && *p == first_pkg(
                self.pkg_seq(),
                id@,
            )),
            !has_pkg(self.pkg_seq(), id@) ==> (r matches Err(GraphError::PackageNotFound(s))
                && s@ == id@),
    ;
}

impl PackagesExt for Vec<Package> {
    open spec fn pkg_seq(&self) -> Seq<Package> {
        self@
    }

    fn by_id(&self, id: &String) -> (r: Result<&Package, GraphError>) {
        let n = self.len();
        let mut i: usize = 0;
        while i < n
            invariant
                0 <= i <= n,
                n == self@.len(),
                forall|q: int| 0 <= q < i ==> (#[trigger] self@[q]).id@ != id@,
            decreases n - i,
        {
            if self[i].id.eq(id) {
                proof {
                    assert(self@[i as int].id@ == id@);
                    lemma_first_pkg_at(self@, id@, i as int);
                }
                return Ok(&self[i]);
            }
            i = i + 1;
        }
        Err(GraphError::PackageNotFound(id.clone()))
    }
}

/// A key present first at position `i` resolves to that entry.
proof fn lemma_first_pkg_at(pkgs: Seq<Package>, id: Seq<char>, i: int)
    requires
        0 <= i < pkgs.len(),
        pkgs[i].id@ == id,
        forall|q: int| 0 <= q < i ==> (#[trigger] pkgs[q]).id@ != id,
    ensures
        first_pkg(pkgs, id) == pkgs[i],
        has_pkg(pkgs, id),
    decreases pkgs.len(),
{
    if i > 0 {
        assert(pkgs.drop_first()[i - 1] == pkgs[i]);
        assert forall|q: int| 0 <= q < i - 1 implies (#[trigger] pkgs.drop_first()[q]).id@ != id by {
            assert(pkgs.drop_first()[q] == pkgs[q + 1]);
        }
        lemma_first_pkg_at(pkgs.drop_first(), id, i - 1);
    }
}

/// A key present first at position `i` resolves to that node.
proof fn lemma_first_node_at(nodes: Seq<Node>, id: Seq<char>, i: int)
    requires
        0 <= i < nodes.len(),
        nodes[i].id@ == id,
        forall|q: int| 0 <= q < i ==> (#[trigger] nodes[q]).id@ != id,
    ensures
        first_node(nodes, id) == nodes[i],
        has_node(nodes, id),
    decreases nodes.len(),
{
    if i > 0 {
        assert(nodes.drop_first()[i - 1] == nodes[i]);
        assert forall|q: int| 0 <= q < i - 1 implies (#[trigger] nodes.drop_first()[q]).id@
            != id by {
            assert(nodes.drop_first()[q] == nodes[q + 1]);
        }
        lemma_first_node_at(nodes.drop_first(), id, i - 1);
    }
}

/// Finding the dependencies recorded for a package id in the resolve
/// graph.
pub trait ResolveExt {
    /// The resolve nodes searched, in order.
    spec fn node_seq(&self) -> Seq<Node>;

    /// The dependencies of the first node with the given id, or an error
    /// naming the id.
    fn by_id(&self, id: &String) -> (r: Result<&Vec<NodeDep>, GraphError>)
        ensures
            has_node(self.node_seq(), id@) ==> (r matches Ok(d) && *d == first_node(
                self.node_seq(),
                id@,
            ).deps),
            !has_node(self.node_seq(), id@) ==> (r matches Err(GraphError::NodeNotFound(s))
                && s@ == id@),
    ;
}

impl ResolveExt for Resolve {
    open spec fn node_seq(&self) -> Seq<Node> {
        self.nodes@
    }

    fn by_id(&self, id: &String) -> (r: Result<&Vec<NodeDep>, GraphError>) {
        let n = self.nodes.len();
        let mut i: usize = 0;
        while i < n
            invariant
                0 <= i <= n,
                n == self.nodes@.len(),
                forall|q: int| 0 <= q < i ==> (#[trigger] self.nodes@[q]).id@ != id@,
            decreases n - i,
        {
            if self.nodes[i].id.eq(id) {
                proof {
                    assert(self.nodes@[i as int].id@ == id@);
                    lemma_first_node_at(self.nodes@, id@, i as int);
                }
                return Ok(&self.nodes[i].deps);
            }
            i = i + 1;
        }
        Err(GraphError::NodeNotFound(id.clone()))
    }
}

} // verus!
