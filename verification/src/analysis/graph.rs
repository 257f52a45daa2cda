//! The dependency graph of one SBOM and the walks over it.
use petgraph::graph::Graph;
use vstd::prelude::*;

use super::graph_spec::{
    ancestor_walk, ancestors_of, count_false, edges_within, in_nbrs, is_cyclic,
    lemma_count_false_set, lemma_in_nbrs_contains, lemma_out_nbrs_contains,
    lemma_reachers_shrink, lemma_walk_inv_done, lemma_walk_inv_skip, lemma_walk_inv_start,
    lemma_walk_inv_visit, reachers, reaches_plus, unvisited_targets, walk_inv, Edge,
};
use super::model::{
    anc_matches, anc_node_of, dep_matches, AncNode, DepNode, PackageNode, PackageNodeView,
    RelationshipRow, CONTAINED_BY,
};
use super::petgraph_specs::{
    bitset_bits, bitset_is_visited, bitset_visit, graph_add_edge, graph_add_node, graph_edges,
    graph_is_cyclic_directed, graph_neighbors_directed, graph_new, graph_node_count,
    graph_node_weight, graph_node_weights, graph_visit_map, Direction,
};

verus! {

/// The mathematical value of an [`AnalysisGraph`]: its packages in node-index
/// order and its edges in the order of their addition.
#[verifier::ext_equal]
pub struct GraphView {
    pub nodes: Seq<PackageNodeView>,
    pub edges: Seq<Edge>,
}

/// The dependency graph of one SBOM: a petgraph graph whose node `i` carries
/// the weight `i`, which indexes the package list.
pub struct AnalysisGraph {
    graph: Graph<usize, i32>,
    nodes: Vec<PackageNode>,
}

impl View for AnalysisGraph {
    type V = GraphView;

    closed spec fn view(&self) -> GraphView {
        GraphView { nodes: self.nodes@.map_values(|p: PackageNode| p@), edges: graph_edges(self.graph) }
    }
}

impl AnalysisGraph {
    /// Node `i` of the petgraph graph carries weight `i`, there is one package
    /// per node, and every edge joins two nodes.
    pub closed spec fn wf(&self) -> bool {
        &&& self.nodes@.len() <= u32::MAX
        &&& graph_node_weights(self.graph) == Seq::new(self.nodes@.len(), |i: int| i as usize)
        &&& edges_within(graph_edges(self.graph), self.nodes@.len())
    }

    /// A well-formed graph's edges join its nodes, and its node indices fit
    /// petgraph's `u32` indices.
    pub proof fn lemma_wf(&self)
        requires
            self.wf(),
        ensures
            edges_within(self@.edges, self@.nodes.len()),
            self@.nodes.len() <= u32::MAX,
    {
    }

    /// The number of packages (nodes).
    pub fn node_count(&self) -> (n: usize)
        requires
            self.wf(),
        ensures
            n == self@.nodes.len(),
    {
        graph_node_count(&self.graph)
    }

    /// The package of node `i`.
    pub fn package(&self, i: usize) -> (p: &PackageNode)
        requires
            self.wf(),
            i < self@.nodes.len(),
        ensures
            p@ == self@.nodes[i as int],
    {
        &self.nodes[i]
    }

    /// Whether the graph has a directed cycle.
    pub fn is_cyclic(&self) -> (b: bool)
        ensures
            b == is_cyclic(self@.edges),
    {
        graph_is_cyclic_directed(&self.graph)
    }
}

/// The packages reached from `node` by following edges forward (towards the
/// roots), depth first, in the order in which the walk reports them.
/// Exactly the nodes other than `node` that can be reached by one or more
/// edges are reported; a node reached along two paths may be reported twice.
pub fn ancestor_nodes(graph: &AnalysisGraph, node: usize) -> (r: Vec<AncNode>)
    requires
        graph.wf(),
        node < graph@.nodes.len(),
    ensures
        r@.len() == ancestors_of(graph@.edges, graph@.nodes.len(), node).len(),
        forall|j: int|
            0 <= j < r@.len() ==> anc_matches(
                #[trigger] r@[j],
                graph@.nodes[ancestors_of(graph@.edges, graph@.nodes.len(), node)[j] as int],
            ),
        forall|j: int|
            0 <= j < r@.len() ==> {
                let p = graph@.nodes[ancestors_of(graph@.edges, graph@.nodes.len(), node)[j] as int];
                &&& (#[trigger] r@[j]).sbom_id@ == p.sbom_id
                &&& r@[j].node_id@ == p.node_id
                &&& r@[j].purl@ == p.purl
                &&& r@[j].name@ == p.name
            },
        forall|v: usize|
            ancestors_of(graph@.edges, graph@.nodes.len(), node).contains(v) <==> (v != node
                && reaches_plus(graph@.edges, node, v)),
{
    let ghost edges = graph@.edges;
    let ghost n = graph@.nodes.len();
    let ghost total = ancestors_of(edges, n, node);
    let mut discovered = graph_visit_map(&graph.graph);
    let mut ancestors: Vec<AncNode> = Vec::new();
    let mut stack: Vec<usize> = Vec::new();
    let ghost mut out: Seq<usize> = Seq::empty();
    stack.push(node);
    assert(stack@ =~= seq![node]);
    proof {
        lemma_walk_inv_start(edges, n, node);
    }
    while stack.len() > 0
        invariant
            graph.wf(),
            edges == graph@.edges,
            n == graph@.nodes.len(),
            edges_within(edges, n),
            total == ancestors_of(edges, n, node),
            walk_inv(edges, n, node, stack@, bitset_bits(discovered), out),
            out + ancestor_walk(edges, stack@, bitset_bits(discovered)) == total,
            ancestors@.len() == out.len(),
            forall|j: int| 0 <= j < out.len() ==> anc_matches(#[trigger] ancestors@[j], graph@.nodes[out[j] as int]),
            forall|j: int| 0 <= j < out.len() ==> {
                let p = graph@.nodes[out[j] as int];
                &&& (#[trigger] ancestors@[j]).sbom_id@ == p.sbom_id
                &&& ancestors@[j].node_id@ == p.node_id
                &&& ancestors@[j].purl@ == p.purl
                &&& ancestors@[j].name@ == p.name
            },
        decreases count_false(bitset_bits(discovered)), stack.len(),
    {
        let ghost stack0 = stack@;
        let ghost bits0 = bitset_bits(discovered);
        let ghost out0 = out;
        let cur = stack.pop().unwrap();
        let ghost rest = stack@;
        assert(stack0 == rest.push(cur));
        assert(rest =~= stack0.drop_last());
        assert(cur == stack0.last());
        assert(stack0[stack0.len() - 1] == cur);
        assert(cur < n);
        if bitset_visit(&mut discovered, cur) {
            let ghost bits2 = bitset_bits(discovered);
            proof {
                lemma_count_false_set(bits0, cur as int);
                lemma_walk_inv_visit(edges, n, node, stack0, bits0, out0);
            }
            let nbrs = graph_neighbors_directed(&graph.graph, cur, Direction::Outgoing);
            let ghost fresh = unvisited_targets(nbrs@, bits2);
            proof {
                assert forall|j: int| 0 <= j < nbrs@.len() implies #[trigger] nbrs@[j] < n by {
                    let u = nbrs@[j];
                    assert(nbrs@.contains(u));
                    lemma_out_nbrs_contains(edges, cur, u);
                    let e = choose|e: int| 0 <= e < edges.len() && (#[trigger] edges[e]).0 == cur && edges[e].1 == u;
                }
            }
            let mut k: usize = 0;
            while k < nbrs.len()
                invariant
                    graph.wf(),
                    n <= u32::MAX,
                    forall|j: int| 0 <= j < nbrs@.len() ==> #[trigger] nbrs@[j] < n,
                    n == graph@.nodes.len(),
                    edges == graph@.edges,
                    edges_within(edges, n),
                    k <= nbrs@.len(),
                    bits2.len() == n,
                    bitset_bits(discovered) == bits2,
                    stack@ == rest + unvisited_targets(nbrs@.take(k as int), bits2),
                    out == out0 + unvisited_targets(nbrs@.take(k as int), bits2),
                    ancestors@.len() == out.len(),
                    forall|j: int| 0 <= j < out0.len() ==> out0[j] < n,
                    forall|j: int| 0 <= j < out.len() ==> out[j] < n,
                    forall|j: int| 0 <= j < out.len() ==> anc_matches(#[trigger] ancestors@[j], graph@.nodes[out[j] as int]),
                    forall|j: int| 0 <= j < out.len() ==> {
                        let p = graph@.nodes[out[j] as int];
                        &&& (#[trigger] ancestors@[j]).sbom_id@ == p.sbom_id
                        &&& ancestors@[j].node_id@ == p.node_id
                        &&& ancestors@[j].purl@ == p.purl
                        &&& ancestors@[j].name@ == p.name
                    },
                decreases nbrs@.len() - k,
            {
                let succ = nbrs[k];
                let ghost pre = nbrs@.take(k as int);
                assert(nbrs@.take(k + 1).drop_last() =~= pre);
                assert(nbrs@.take(k + 1).last() == succ);
                if !bitset_is_visited(&discovered, succ) {
                    match graph_node_weight(&graph.graph, succ) {
                        Some(w) => {
                            ancestors.push(anc_node_of(&graph.nodes[w]));
                            stack.push(succ);
                            proof {
                                out = out.push(succ);
                            }
                            assert(stack@ =~= rest + unvisited_targets(nbrs@.take(k + 1), bits2));
                            assert(out =~= out0 + unvisited_targets(nbrs@.take(k + 1), bits2));
                        },
                        None => {},
                    }
                }
                k = k + 1;
            }
            assert(nbrs@.take(nbrs@.len() as int) =~= nbrs@);
            assert(stack@ == rest + fresh);
            assert(out == out0 + fresh);
            assert(ancestor_walk(edges, stack0, bits0) == fresh + ancestor_walk(edges, rest + fresh, bits2));
            assert(out + ancestor_walk(edges, stack@, bits2) =~= out0 + (fresh + ancestor_walk(edges, rest + fresh, bits2)));
        } else {
            assert(bitset_bits(discovered) =~= bits0);
            assert(ancestor_walk(edges, stack0, bits0) == ancestor_walk(edges, rest, bits0));
            proof {
                lemma_walk_inv_skip(edges, n, node, stack0, bits0, out0);
            }
        }
    }
    proof {
        assert(stack@ =~= Seq::<usize>::empty());
        assert(out =~= total);
        lemma_walk_inv_done(edges, n, node, bitset_bits(discovered), out);
    }
    ancestors
}

/// `r` is the dependency forest of node `v`: one tree per in-neighbor of `v`
/// (most recently added edge first), each naming that package and holding
/// the dependency forest of that package.
pub open spec fn is_dep_forest(g: GraphView, v: usize, r: Seq<DepNode>) -> bool
    decreases r,
{
    let nb = in_nbrs(g.edges, v);
    &&& r.len() == nb.len()
    &&& forall|i: int|
        0 <= i < r.len() ==> {
            &&& nb[i] < g.nodes.len()
            &&& dep_matches(#[trigger] r[i], g.nodes[nb[i] as int])
            &&& is_dep_forest(g, nb[i], r[i].deps@)
        }
}

/// Every entry of a dependency forest names, field by field, the package of
/// the in-neighbor it stands for, and lists as many dependencies as that
/// package has incoming edges.
pub proof fn lemma_dep_forest_names(g: GraphView, v: usize, r: Seq<DepNode>)
    requires
        is_dep_forest(g, v, r),
    ensures
        r.len() == in_nbrs(g.edges, v).len(),
        forall|i: int|
            0 <= i < r.len() ==> {
                let u = in_nbrs(g.edges, v)[i];
                let p = g.nodes[u as int];
                &&& (#[trigger] r[i]).sbom_id@ == p.sbom_id
                &&& r[i].node_id@ == p.node_id
                &&& r[i].purl@ == p.purl
                &&& r[i].name@ == p.name
                &&& r[i].deps@.len() == in_nbrs(g.edges, u).len()
            },
{
    assert forall|i: int| 0 <= i < r.len() implies {
        let u = in_nbrs(g.edges, v)[i];
        let p = g.nodes[u as int];
        &&& (#[trigger] r[i]).sbom_id@ == p.sbom_id
        &&& r[i].node_id@ == p.node_id
        &&& r[i].purl@ == p.purl
        &&& r[i].name@ == p.name
        &&& r[i].deps@.len() == in_nbrs(g.edges, u).len()
    } by {
        let u = in_nbrs(g.edges, v)[i];
        let d = r[i];
        assert(u < g.nodes.len() && dep_matches(d, g.nodes[u as int]));
        assert(is_dep_forest(g, u, r[i].deps@));
        assert(r[i].deps@.len() == in_nbrs(g.edges, u).len());
    }
}

/// The packages that lead to `node` by following edges backwards (towards
/// the leaves), as a tree: one entry per incoming edge, most recently added
/// edge first, each with its own dependencies. The graph must be acyclic:
/// on a cycle the recursion would not end.
pub fn dep_nodes(graph: &AnalysisGraph, node: usize) -> (r: Vec<DepNode>)
    requires
        graph.wf(),
        node < graph@.nodes.len(),
        !is_cyclic(graph@.edges),
    ensures
        is_dep_forest(graph@, node, r@),
        r@.len() == in_nbrs(graph@.edges, node).len(),
        forall|i: int|
            0 <= i < r@.len() ==> {
                let p = graph@.nodes[in_nbrs(graph@.edges, node)[i] as int];
                &&& (#[trigger] r@[i]).sbom_id@ == p.sbom_id
                &&& r@[i].node_id@ == p.node_id
                &&& r@[i].purl@ == p.purl
                &&& r@[i].name@ == p.name
            },
    decreases reachers(graph@.edges, graph@.nodes.len(), node).len(),
{
    let ghost n = graph@.nodes.len();
    let ghost edges = graph@.edges;
    let mut depnodes: Vec<DepNode> = Vec::new();
    let nbrs = graph_neighbors_directed(&graph.graph, node, Direction::Incoming);
    proof {
        assert forall|i: int| 0 <= i < nbrs@.len() implies #[trigger] nbrs@[i] < n by {
            let u = nbrs@[i];
            assert(nbrs@.contains(u));
            lemma_in_nbrs_contains(edges, node, u);
            let e = choose|e: int| 0 <= e < edges.len() && (#[trigger] edges[e]).0 == u && edges[e].1 == node;
        }
    }
    let mut k: usize = 0;
    while k < nbrs.len()
        invariant
            graph.wf(),
            n == graph@.nodes.len(),
            forall|i: int| 0 <= i < nbrs@.len() ==> #[trigger] nbrs@[i] < n,
            edges == graph@.edges,
            node < n,
            !is_cyclic(edges),
            nbrs@ == in_nbrs(edges, node),
            k <= nbrs@.len(),
            depnodes@.len() == k,
            forall|i: int|
                0 <= i < k ==> {
                    &&& nbrs@[i] < n
                    &&& dep_matches(#[trigger] depnodes@[i], graph@.nodes[nbrs@[i] as int])
                    &&& is_dep_forest(graph@, nbrs@[i], depnodes@[i].deps@)
                },
            forall|i: int|
                0 <= i < k ==> {
                    let p = graph@.nodes[nbrs@[i] as int];
                    &&& (#[trigger] depnodes@[i]).sbom_id@ == p.sbom_id
                    &&& depnodes@[i].node_id@ == p.node_id
                    &&& depnodes@[i].purl@ == p.purl
                    &&& depnodes@[i].name@ == p.name
                },
        decreases nbrs@.len() - k,
    {
        let neighbor = nbrs[k];
        let ghost before = depnodes@;
        proof {
            assert(nbrs@.contains(neighbor));
            lemma_in_nbrs_contains(edges, node, neighbor);
            let e = choose|e: int| 0 <= e < edges.len() && (#[trigger] edges[e]).0 == neighbor && edges[e].1 == node;
            lemma_reachers_shrink(edges, n, neighbor, node);
            assert(neighbor < n);
        }
        match graph_node_weight(&graph.graph, neighbor) {
            Some(w) => {
                assert(w == neighbor);
                let p = &graph.nodes[w];
                let dep_node = DepNode {
                    sbom_id: p.sbom_id.clone(),
                    node_id: p.node_id.clone(),
                    purl: p.purl.clone(),
                    name: p.name.clone(),
                    deps: dep_nodes(graph, neighbor),
                };
                assert(graph@.nodes[neighbor as int] == p@);
                assert(dep_matches(dep_node, graph@.nodes[neighbor as int]));
                assert(is_dep_forest(graph@, neighbor, dep_node.deps@));
                let ghost dn = dep_node;
                depnodes.push(dep_node);
                assert(depnodes@[k as int] == dn);
            },
            None => {},
        }
        assert forall|i: int| 0 <= i < k + 1 implies {
            &&& nbrs@[i] < n
            &&& dep_matches(#[trigger] depnodes@[i], graph@.nodes[nbrs@[i] as int])
            &&& is_dep_forest(graph@, nbrs@[i], depnodes@[i].deps@)
        } by {
            if i < k {
                assert(depnodes@[i] == before[i]);
            }
        }
        assert forall|i: int| 0 <= i < k + 1 implies {
            let p = graph@.nodes[nbrs@[i] as int];
            &&& (#[trigger] depnodes@[i]).sbom_id@ == p.sbom_id
            &&& depnodes@[i].node_id@ == p.node_id
            &&& depnodes@[i].purl@ == p.purl
            &&& depnodes@[i].name@ == p.name
        } by {
            if i < k {
                assert(depnodes@[i] == before[i]);
            }
        }
        k = k + 1;
    }
    assert(is_dep_forest(graph@, node, depnodes@));
    depnodes
}

/// The text that stands for a column value that could not be read.
pub open spec fn novalue() -> Seq<char> {
    "NOVALUE"@
}

/// A column's text, or [`novalue`] when it could not be read.
pub open spec fn or_novalue(o: Option<String>) -> Seq<char> {
    match o {
        Some(s) => s@,
        None => novalue(),
    }
}

/// A row's relationship code, "contained by" when it could not be read.
pub open spec fn relationship_of(row: RelationshipRow) -> i32 {
    match row.relationship {
        Some(r) => r,
        None => CONTAINED_BY,
    }
}

/// The first package with the given purl.
pub open spec fn index_of_purl(nodes: Seq<PackageNodeView>, purl: Seq<char>) -> Option<int>
    decreases nodes.len(),
{
    if nodes.len() == 0 {
        None
    } else {
        match index_of_purl(nodes.drop_last(), purl) {
            Some(i) => Some(i),
            None => if nodes.last().purl == purl {
                Some(nodes.len() - 1)
            } else {
                None
            },
        }
    }
}

/// `index_of_purl` finds the first package with the purl, or none.
pub proof fn lemma_index_of_purl(nodes: Seq<PackageNodeView>, purl: Seq<char>)
    ensures
        match index_of_purl(nodes, purl) {
            Some(i) => 0 <= i < nodes.len() && nodes[i].purl == purl && forall|k: int|
                0 <= k < i ==> (#[trigger] nodes[k]).purl != purl,
            None => forall|k: int| 0 <= k < nodes.len() ==> (#[trigger] nodes[k]).purl != purl,
        },
    decreases nodes.len(),
{
    if nodes.len() > 0 {
        let pre = nodes.drop_last();
        lemma_index_of_purl(pre, purl);
        match index_of_purl(pre, purl) {
            Some(i) => {
                assert forall|k: int| 0 <= k < i implies (#[trigger] nodes[k]).purl != purl by {
                    assert(nodes[k] == pre[k]);
                }
                assert(nodes[i] == pre[i]);
            },
            None => {
                assert forall|k: int| 0 <= k < nodes.len() - 1 implies (#[trigger] nodes[k]).purl != purl by {
                    assert(nodes[k] == pre[k]);
                }
            },
        }
    }
}

/// The package that a row creates for a purl that is not in the graph yet.
pub open spec fn new_package(
    sbom_id: Seq<char>,
    row: RelationshipRow,
    node_id: Seq<char>,
    purl: Seq<char>,
    name: Seq<char>,
) -> PackageNodeView {
    PackageNodeView {
        sbom_id,
        node_id,
        purl,
        name,
        published: or_novalue(row.published),
        document_id: or_novalue(row.document_id),
        product_name: or_novalue(row.product_name),
        product_version: or_novalue(row.product_version),
    }
}

/// The node of a purl: the existing one, or a new node appended to the
/// graph, or `None` when the purl is new and does not parse.
pub open spec fn resolve_purl(
    g: GraphView,
    sbom_id: Seq<char>,
    row: RelationshipRow,
    node_id: Seq<char>,
    purl: Seq<char>,
    name: Option<String>,
) -> Option<(GraphView, int)> {
    match index_of_purl(g.nodes, purl) {
        Some(i) => Some((g, i)),
        None => match name {
            None => None,
            Some(nm) => Some(
                (
                    GraphView {
                        nodes: g.nodes.push(new_package(sbom_id, row, node_id, purl, nm@)),
                        edges: g.edges,
                    },
                    g.nodes.len() as int,
                ),
            ),
        },
    }
}

/// The graph after one row: a row whose left purl is missing changes
/// nothing; otherwise the left node is resolved; a row whose right purl is
/// missing adds nothing more; otherwise the right node is resolved and an
/// edge from left to right is added. `None` when a new purl does not parse.
pub open spec fn load_row(g: GraphView, sbom_id: Seq<char>, row: RelationshipRow) -> Option<GraphView> {
    let left = or_novalue(row.left_qualified_purl);
    if left == novalue() {
        Some(g)
    } else {
        match resolve_purl(g, sbom_id, row, or_novalue(row.left_node_id), left, row.left_purl_name) {
            None => None,
            Some((g1, p1)) => {
                let right = or_novalue(row.right_qualified_purl);
                if right == novalue() {
                    Some(g1)
                } else {
                    match resolve_purl(
                        g1,
                        sbom_id,
                        row,
                        or_novalue(row.right_node_id),
                        right,
                        row.right_purl_name,
                    ) {
                        None => None,
                        Some((g2, p2)) => Some(
                            GraphView {
                                nodes: g2.nodes,
                                edges: g2.edges.push((p1 as usize, p2 as usize, relationship_of(row))),
                            },
                        ),
                    }
                }
            },
        }
    }
}

/// The graph that the rows of an SBOM build, row by row from an empty
/// graph; `None` as soon as a new purl does not parse.
pub open spec fn load_rows(sbom_id: Seq<char>, rows: Seq<RelationshipRow>) -> Option<GraphView>
    decreases rows.len(),
{
    if rows.len() == 0 {
        Some(GraphView { nodes: Seq::empty(), edges: Seq::empty() })
    } else {
        match load_rows(sbom_id, rows.drop_last()) {
            None => None,
            Some(g) => load_row(g, sbom_id, rows.last()),
        }
    }
}

/// The packages of a graph have distinct purls, none of them the missing
/// value, all belong to the SBOM `sbom_id`, and every edge joins two of them.
pub open spec fn loaded_graph_ok(sbom_id: Seq<char>, g: GraphView) -> bool {
    &&& forall|i: int, j: int| 0 <= i < j < g.nodes.len() ==> g.nodes[i].purl != g.nodes[j].purl
    &&& forall|i: int| 0 <= i < g.nodes.len() ==> (#[trigger] g.nodes[i]).purl != novalue() && g.nodes[i].sbom_id == sbom_id
    &&& edges_within(g.edges, g.nodes.len())
}

proof fn lemma_resolve_purl_ok(
    g: GraphView,
    sbom_id: Seq<char>,
    row: RelationshipRow,
    node_id: Seq<char>,
    purl: Seq<char>,
    name: Option<String>,
)
    requires
        loaded_graph_ok(sbom_id, g),
        purl != novalue(),
    ensures
        resolve_purl(g, sbom_id, row, node_id, purl, name) matches Some((g2, i)) ==> loaded_graph_ok(sbom_id, g2)
            && 0 <= i < g2.nodes.len() && g2.edges == g.edges && g.nodes.len() <= g2.nodes.len(),
{
    lemma_index_of_purl(g.nodes, purl);
    if let Some((g2, i)) = resolve_purl(g, sbom_id, row, node_id, purl, name) {
        if index_of_purl(g.nodes, purl) is None {
            assert forall|a: int, b: int| 0 <= a < b < g2.nodes.len() implies g2.nodes[a].purl != g2.nodes[b].purl by {
                if b == g.nodes.len() {
                    assert(g2.nodes[a] == g.nodes[a]);
                } else {
                    assert(g2.nodes[a] == g.nodes[a] && g2.nodes[b] == g.nodes[b]);
                }
            }
            assert forall|a: int| 0 <= a < g2.nodes.len() implies (#[trigger] g2.nodes[a]).purl != novalue() && g2.nodes[a].sbom_id == sbom_id by {
                if a < g.nodes.len() {
                    assert(g2.nodes[a] == g.nodes[a]);
                }
            }
        }
    }
}

/// A graph built from the rows of an SBOM holds one package per distinct
/// purl, never one for a missing purl, only packages of that SBOM, and edges
/// between its own packages.
pub proof fn lemma_load_rows_ok(sbom_id: Seq<char>, rows: Seq<RelationshipRow>)
    ensures
        load_rows(sbom_id, rows) matches Some(g) ==> loaded_graph_ok(sbom_id, g),
    decreases rows.len(),
{
    if rows.len() > 0 {
        lemma_load_rows_ok(sbom_id, rows.drop_last());
        if let Some(g) = load_rows(sbom_id, rows.drop_last()) {
            let row = rows.last();
            let left = or_novalue(row.left_qualified_purl);
            if left != novalue() {
                lemma_resolve_purl_ok(g, sbom_id, row, or_novalue(row.left_node_id), left, row.left_purl_name);
                if let Some((g1, p1)) = resolve_purl(g, sbom_id, row, or_novalue(row.left_node_id), left, row.left_purl_name) {
                    let right = or_novalue(row.right_qualified_purl);
                    if right != novalue() {
                        lemma_resolve_purl_ok(g1, sbom_id, row, or_novalue(row.right_node_id), right, row.right_purl_name);
                        if let Some((g2, p2)) = resolve_purl(g1, sbom_id, row, or_novalue(row.right_node_id), right, row.right_purl_name) {
                            let g3 = GraphView { nodes: g2.nodes, edges: g2.edges.push((p1 as usize, p2 as usize, relationship_of(row))) };
                            assert forall|k: int| 0 <= k < g3.edges.len() implies (#[trigger] g3.edges[k]).0 < g3.nodes.len() && g3.edges[k].1 < g3.nodes.len() by {
                                if k < g2.edges.len() {
                                    assert(g3.edges[k] == g2.edges[k]);
                                }
                            }
                        }
                    }
                }
            }
        }
    }
}

/// `p` is the package of one side of row `r` of the SBOM `sbom_id`: it
/// carries the SBOM id, the row's publication date, document id, product name
/// and product version (each the missing value when the column was not read),
/// and the node id, purl and parsed name of the row's left or right side.
pub open spec fn package_of_row(p: PackageNodeView, sbom_id: Seq<char>, r: RelationshipRow) -> bool {
    &&& p.sbom_id == sbom_id
    &&& p.published == or_novalue(r.published)
    &&& p.document_id == or_novalue(r.document_id)
    &&& p.product_name == or_novalue(r.product_name)
    &&& p.product_version == or_novalue(r.product_version)
    &&& ({
        ||| (p.purl == or_novalue(r.left_qualified_purl) && p.node_id == or_novalue(r.left_node_id)
            && (r.left_purl_name matches Some(nm) && p.name == nm@))
        ||| (p.purl == or_novalue(r.right_qualified_purl) && p.node_id == or_novalue(r.right_node_id)
            && (r.right_purl_name matches Some(nm) && p.name == nm@))
    })
}

/// Row `r` names the purl `purl` as one of the packages it relates: its left
/// purl is present and is `purl`, or both of its purls are present and the
/// right one is `purl`.
pub open spec fn row_names_purl(r: RelationshipRow, purl: Seq<char>) -> bool {
    let left = or_novalue(r.left_qualified_purl);
    let right = or_novalue(r.right_qualified_purl);
    left != novalue() && (purl == left || (right != novalue() && purl == right))
}

spec fn has_purl(nodes: Seq<PackageNodeView>, purl: Seq<char>) -> bool {
    exists|i: int| 0 <= i < nodes.len() && #[trigger] nodes[i].purl == purl
}

proof fn lemma_resolve_purl_extends(
    g: GraphView,
    sbom_id: Seq<char>,
    row: RelationshipRow,
    node_id: Seq<char>,
    purl: Seq<char>,
    name: Option<String>,
)
    ensures
        resolve_purl(g, sbom_id, row, node_id, purl, name) matches Some((g1, p)) ==> {
            &&& g.nodes.len() <= g1.nodes.len() <= g.nodes.len() + 1
            &&& forall|i: int| 0 <= i < g.nodes.len() ==> g1.nodes[i] == g.nodes[i]
            &&& 0 <= p < g1.nodes.len()
            &&& g1.nodes[p].purl == purl
            &&& g1.nodes.len() > g.nodes.len() ==> {
                &&& !has_purl(g.nodes, purl)
                &&& name matches Some(nm)
                &&& g1.nodes[g.nodes.len() as int] == new_package(sbom_id, row, node_id, purl, nm@)
            }
        },
{
    lemma_index_of_purl(g.nodes, purl);
}

proof fn lemma_load_row_extends(g: GraphView, sbom_id: Seq<char>, row: RelationshipRow)
    ensures
        load_row(g, sbom_id, row) matches Some(g2) ==> {
            &&& g.nodes.len() <= g2.nodes.len()
            &&& forall|i: int| 0 <= i < g.nodes.len() ==> g2.nodes[i] == g.nodes[i]
            &&& forall|purl: Seq<char>| #[trigger] row_names_purl(row, purl) ==> has_purl(g2.nodes, purl)
            &&& forall|i: int|
                #![trigger g2.nodes[i]]
                g.nodes.len() <= i < g2.nodes.len() ==> package_of_row(g2.nodes[i], sbom_id, row)
                    && !has_purl(g.nodes, g2.nodes[i].purl)
        },
{
    if let Some(g2) = load_row(g, sbom_id, row) {
        let left = or_novalue(row.left_qualified_purl);
        if left != novalue() {
            lemma_resolve_purl_extends(g, sbom_id, row, or_novalue(row.left_node_id), left, row.left_purl_name);
            let (g1, p1) = resolve_purl(g, sbom_id, row, or_novalue(row.left_node_id), left, row.left_purl_name).unwrap();
            let right = or_novalue(row.right_qualified_purl);
            if right != novalue() {
                lemma_resolve_purl_extends(g1, sbom_id, row, or_novalue(row.right_node_id), right, row.right_purl_name);
                let (g3, p2) = resolve_purl(g1, sbom_id, row, or_novalue(row.right_node_id), right, row.right_purl_name).unwrap();
                assert(g2.nodes == g3.nodes);
                assert(g2.nodes[p1] == g1.nodes[p1]);
                assert(g2.nodes[p2].purl == right);
                assert forall|purl: Seq<char>| #[trigger] row_names_purl(row, purl) implies has_purl(g2.nodes, purl) by {
                    if purl == left {
                        assert(g2.nodes[p1].purl == purl);
                    } else {
                        assert(g2.nodes[p2].purl == purl);
                    }
                }
                assert forall|i: int| #![trigger g2.nodes[i]] g.nodes.len() <= i < g2.nodes.len() implies package_of_row(g2.nodes[i], sbom_id, row)
                    && !has_purl(g.nodes, g2.nodes[i].purl) by {
                    if i < g1.nodes.len() {
                        assert(g2.nodes[i] == g1.nodes[i]);
                    } else {
                        if has_purl(g.nodes, g2.nodes[i].purl) {
                            let k = choose|k: int| 0 <= k < g.nodes.len() && #[trigger] g.nodes[k].purl == g2.nodes[i].purl;
                            assert(g1.nodes[k] == g.nodes[k]);
                            assert(has_purl(g1.nodes, g2.nodes[i].purl));
                        }
                    }
                }
            } else {
                assert(g2 == g1);
                assert forall|purl: Seq<char>| #[trigger] row_names_purl(row, purl) implies has_purl(g2.nodes, purl) by {
                    assert(g2.nodes[p1].purl == purl);
                }
            }
        }
    }
}

/// A graph built from rows that name a purl holds a package with that purl.
proof fn lemma_load_rows_named(sbom_id: Seq<char>, rows: Seq<RelationshipRow>, k: int, purl: Seq<char>)
    requires
        load_rows(sbom_id, rows) is Some,
        0 <= k < rows.len(),
        row_names_purl(rows[k], purl),
    ensures
        has_purl(load_rows(sbom_id, rows).unwrap().nodes, purl),
    decreases rows.len(),
{
    let pre = rows.drop_last();
    let g0 = load_rows(sbom_id, pre).unwrap();
    let g = load_rows(sbom_id, rows).unwrap();
    lemma_load_row_extends(g0, sbom_id, rows.last());
    if k < rows.len() - 1 {
        assert(pre[k] == rows[k]);
        lemma_load_rows_named(sbom_id, pre, k, purl);
        let i = choose|i: int| 0 <= i < g0.nodes.len() && #[trigger] g0.nodes[i].purl == purl;
        assert(g.nodes[i] == g0.nodes[i]);
    }
}

/// The row that a package of a built graph comes from: the first row that
/// names the package's purl.
proof fn lemma_load_rows_source(sbom_id: Seq<char>, rows: Seq<RelationshipRow>, i: int) -> (j: int)
    requires
        load_rows(sbom_id, rows) is Some,
        0 <= i < load_rows(sbom_id, rows).unwrap().nodes.len(),
    ensures
        0 <= j < rows.len(),
        package_of_row(load_rows(sbom_id, rows).unwrap().nodes[i], sbom_id, rows[j]),
        forall|k: int|
            0 <= k < j ==> !#[trigger] row_names_purl(rows[k], load_rows(sbom_id, rows).unwrap().nodes[i].purl),
    decreases rows.len(),
{
    let pre = rows.drop_last();
    let g0 = load_rows(sbom_id, pre).unwrap();
    let g = load_rows(sbom_id, rows).unwrap();
    let last = rows.len() - 1;
    lemma_load_row_extends(g0, sbom_id, rows.last());
    if i < g0.nodes.len() {
        let j = lemma_load_rows_source(sbom_id, pre, i);
        assert(g.nodes[i] == g0.nodes[i]);
        assert(pre[j] == rows[j]);
        assert forall|k: int| 0 <= k < j implies !#[trigger] row_names_purl(rows[k], g.nodes[i].purl) by {
            assert(pre[k] == rows[k]);
        }
        j
    } else {
        assert(package_of_row(g.nodes[i], sbom_id, rows[last]));
        assert forall|k: int| 0 <= k < last implies !#[trigger] row_names_purl(rows[k], g.nodes[i].purl) by {
            assert(pre[k] == rows[k]);
            if row_names_purl(rows[k], g.nodes[i].purl) {
                lemma_load_rows_named(sbom_id, pre, k, g.nodes[i].purl);
            }
        }
        last
    }
}

/// Row `j` of `rows` is the first row that names the purl of package `p`,
/// and `p` is that row's package for the SBOM `sbom_id`.
pub open spec fn first_row_of(p: PackageNodeView, sbom_id: Seq<char>, rows: Seq<RelationshipRow>, j: int) -> bool {
    &&& 0 <= j < rows.len()
    &&& package_of_row(p, sbom_id, rows[j])
    &&& forall|k: int| 0 <= k < j ==> !#[trigger] row_names_purl(rows[k], p.purl)
}

/// Some row of `rows` is the first row that names the purl of package `p`,
/// and `p` is that row's package for the SBOM `sbom_id`.
pub open spec fn from_first_row(p: PackageNodeView, sbom_id: Seq<char>, rows: Seq<RelationshipRow>) -> bool {
    exists|j: int| #[trigger] first_row_of(p, sbom_id, rows, j)
}

/// Every package of a graph built from rows comes from the first row that
/// names its purl: its product name is that row's product name column, its
/// product version that row's product version column, and so on for every
/// field.
pub proof fn lemma_load_rows_packages(sbom_id: Seq<char>, rows: Seq<RelationshipRow>)
    ensures
        load_rows(sbom_id, rows) matches Some(g) ==> forall|i: int|
            0 <= i < g.nodes.len() ==> #[trigger] from_first_row(g.nodes[i], sbom_id, rows),
{
    if let Some(g) = load_rows(sbom_id, rows) {
        assert forall|i: int| 0 <= i < g.nodes.len() implies #[trigger] from_first_row(g.nodes[i], sbom_id, rows) by {
            let j = lemma_load_rows_source(sbom_id, rows, i);
            assert(first_row_of(g.nodes[i], sbom_id, rows, j));
        }
    }
}

/// Once a prefix of the rows fails to build, all of them do.
pub proof fn lemma_load_rows_none_prefix(sbom_id: Seq<char>, rows: Seq<RelationshipRow>, j: int)
    requires
        0 <= j <= rows.len(),
        load_rows(sbom_id, rows.take(j)) is None,
    ensures
        load_rows(sbom_id, rows) is None,
    decreases rows.len(),
{
    if j == rows.len() {
        assert(rows.take(j) =~= rows);
    } else {
        assert(rows.drop_last().take(j) =~= rows.take(j));
        lemma_load_rows_none_prefix(sbom_id, rows.drop_last(), j);
    }
}

/// A column's text, or `default` when it could not be read.
fn text_or(o: &Option<String>, default: &String) -> (s: String)
    ensures
        s@ == match o {
            Some(t) => t@,
            None => default@,
        },
{
    match o {
        Some(t) => t.clone(),
        None => default.clone(),
    }
}

impl AnalysisGraph {
    /// The node of the first package with the given purl.
    fn find_purl(&self, purl: &String) -> (r: Option<usize>)
        ensures
            match r {
                Some(i) => index_of_purl(self@.nodes, purl@) == Some(i as int),
                None => index_of_purl(self@.nodes, purl@) is None,
            },
    {
        proof {
            lemma_index_of_purl(self@.nodes, purl@);
        }
        let mut j: usize = 0;
        while j < self.nodes.len()
            invariant
                j <= self.nodes@.len(),
                self@.nodes.len() == self.nodes@.len(),
                forall|k: int| 0 <= k < j ==> (#[trigger] self@.nodes[k]).purl != purl@,
            decreases self.nodes@.len() - j,
        {
            assert(self@.nodes[j as int] == self.nodes@[j as int]@);
            if self.nodes[j].purl == *purl {
                proof {
                    lemma_index_of_purl(self@.nodes, purl@);
                    match index_of_purl(self@.nodes, purl@) {
                        Some(i) => {
                            if i > j {
                                assert(self@.nodes[j as int].purl != purl@);
                            }
                        },
                        None => {
                            assert(self@.nodes[j as int].purl != purl@);
                        },
                    }
                }
                return Some(j);
            }
            j = j + 1;
        }
        None
    }

    /// Resolves a purl to its node, adding a node when the purl is new.
    fn resolve_purl(
        &mut self,
        sbom_id: &String,
        row: &RelationshipRow,
        node_id: &String,
        purl: &String,
        name: &Option<String>,
        published: &String,
        document_id: &String,
        product_name: &String,
        product_version: &String,
    ) -> (r: Option<usize>)
        requires
            old(self).wf(),
            old(self)@.nodes.len() < u32::MAX,
            published@ == or_novalue(row.published),
            document_id@ == or_novalue(row.document_id),
            product_name@ == or_novalue(row.product_name),
            product_version@ == or_novalue(row.product_version),
        ensures
            final(self).wf(),
            match resolve_purl(old(self)@, sbom_id@, *row, node_id@, purl@, *name) {
                None => r is None && final(self)@ == old(self)@,
                Some((g, i)) => r == Some(i as usize) && final(self)@ == g && 0 <= i < g.nodes.len(),
            },
    {
        match self.find_purl(purl) {
            Some(i) => {
                proof {
                    lemma_index_of_purl(self@.nodes, purl@);
                }
                Some(i)
            },
            None => match name {
                None => None,
                Some(nm) => {
                    let ghost before = self@;
                    let i = graph_add_node(&mut self.graph, self.nodes.len());
                    self.nodes.push(
                        PackageNode {
                            sbom_id: sbom_id.clone(),
                            node_id: node_id.clone(),
                            purl: purl.clone(),
                            name: nm.clone(),
                            published: published.clone(),
                            document_id: document_id.clone(),
                            product_name: product_name.clone(),
                            product_version: product_version.clone(),
                        },
                    );
                    assert(self@.nodes =~= before.nodes.push(new_package(sbom_id@, *row, node_id@, purl@, nm@)));
                    assert(graph_node_weights(self.graph) =~= Seq::new(self.nodes@.len(), |k: int| k as usize));
                    Some(i)
                },
            },
        }
    }

    /// The graph of the SBOM `distinct_sbom_id` built from the rows of its
    /// relationship query: one node per distinct purl, one edge per row whose
    /// purls are both present, from the left package to the right one.
    /// `None` when a purl that is new to the graph does not parse; then no
    /// graph is built at all. (Each row adds at most two nodes, and petgraph's
    /// index space bounds the number of rows.)
    pub fn from_rows(distinct_sbom_id: &String, rows: &Vec<RelationshipRow>) -> (r: Option<AnalysisGraph>)
        requires
            rows@.len() <= 0x7fff_ffff,
        ensures
            match load_rows(distinct_sbom_id@, rows@) {
                None => r is None,
                Some(v) => r matches Some(g) && g.wf() && g@ == v,
            },
            r matches Some(g) ==> forall|i: int|
                0 <= i < g@.nodes.len() ==> #[trigger] from_first_row(g@.nodes[i], distinct_sbom_id@, rows@),
    {
        proof {
            lemma_load_rows_packages(distinct_sbom_id@, rows@);
        }
        let default_value = String::from_str("NOVALUE");
        let mut g = AnalysisGraph { graph: graph_new(), nodes: Vec::new() };
        assert(g@ =~= GraphView { nodes: Seq::empty(), edges: Seq::empty() });
        assert(graph_node_weights(g.graph) =~= Seq::new(0, |k: int| k as usize));
        let mut i: usize = 0;
        while i < rows.len()
            invariant
                i <= rows@.len(),
                rows@.len() <= 0x7fff_ffff,
                default_value@ == novalue(),
                g.wf(),
                g@.nodes.len() <= 2 * i,
                g@.edges.len() <= i,
                load_rows(distinct_sbom_id@, rows@.take(i as int)) == Some(g@),
            decreases rows@.len() - i,
        {
            let row = &rows[i];
            assert(rows@.take(i + 1).drop_last() =~= rows@.take(i as int));
            assert(rows@.take(i + 1).last() == *row);
            let published = text_or(&row.published, &default_value);
            let document_id = text_or(&row.document_id, &default_value);
            let product_name = text_or(&row.product_name, &default_value);
            let product_version = text_or(&row.product_version, &default_value);
            let left_node_id = text_or(&row.left_node_id, &default_value);
            let left_purl = text_or(&row.left_qualified_purl, &default_value);
            let right_node_id = text_or(&row.right_node_id, &default_value);
            let right_purl = text_or(&row.right_qualified_purl, &default_value);
            let relationship = match row.relationship {
                Some(r) => r,
                None => CONTAINED_BY,
            };
            if left_purl == default_value {
                // sbom has packages with no pURL
            } else {
                let p1 = match g.resolve_purl(
                    distinct_sbom_id,
                    row,
                    &left_node_id,
                    &left_purl,
                    &row.left_purl_name,
                    &published,
                    &document_id,
                    &product_name,
                    &product_version,
                ) {
                    Some(p) => p,
                    None => {
                        proof {
                            lemma_load_rows_none_prefix(distinct_sbom_id@, rows@, i + 1);
                        }
                        return None;
                    },
                };
                if right_purl == default_value {
                    // sbom has packages with no pURL
                } else {
                    let p2 = match g.resolve_purl(
                        distinct_sbom_id,
                        row,
                        &right_node_id,
                        &right_purl,
                        &row.right_purl_name,
                        &published,
                        &document_id,
                        &product_name,
                        &product_version,
                    ) {
                        Some(p) => p,
                        None => {
                            proof {
                                lemma_load_rows_none_prefix(distinct_sbom_id@, rows@, i + 1);
                            }
                            return None;
                        },
                    };
                    let ghost before = g@;
                    assert(p1 < g@.nodes.len());
                    assert(p2 < g@.nodes.len());
                    assert(graph_node_weights(g.graph).len() == g@.nodes.len());
                    graph_add_edge(&mut g.graph, p1, p2, relationship);
                    assert(g@ =~= GraphView {
                        nodes: before.nodes,
                        edges: before.edges.push((p1, p2, relationship_of(*row))),
                    });
                }
            }
            i = i + 1;
        }
        assert(rows@.take(rows@.len() as int) =~= rows@);
        Some(g)
    }
}

} // verus!
