//! Trusted specifications of the parts of `petgraph` that the analysis uses.
use petgraph::graph::{Graph, NodeIndex};
use fixedbitset::FixedBitSet;
use petgraph::visit::{VisitMap, Visitable};
use vstd::prelude::*;

use super::graph_spec::{in_nbrs, is_cyclic, out_nbrs, Edge};

verus! {

#[verifier::external_type_specification]
#[verifier::external_body]
#[verifier::reject_recursive_types(N)]
#[verifier::reject_recursive_types(E)]
#[verifier::reject_recursive_types(Ty)]
#[verifier::reject_recursive_types(Ix)]
pub struct ExGraph<N, E, Ty, Ix>(petgraph::graph::Graph<N, E, Ty, Ix>);

#[verifier::external_type_specification]
#[verifier::external_body]
pub struct ExDirected(petgraph::Directed);

#[verifier::external_type_specification]
#[verifier::external_body]
pub struct ExFixedBitSet(fixedbitset::FixedBitSet);

/// The bits of a `FixedBitSet`, one per position of its fixed length.
pub uninterp spec fn bitset_bits(m: FixedBitSet) -> Seq<bool>;

/// The node weights of a `petgraph` graph, in node-index order.
pub uninterp spec fn graph_node_weights(g: Graph<usize, i32>) -> Seq<usize>;

/// The edges of a `petgraph` graph (source, target, weight), in the order of
/// their addition.
pub uninterp spec fn graph_edges(g: Graph<usize, i32>) -> Seq<Edge>;

/// Direction in which neighbors are listed.
pub enum Direction {
    Outgoing,
    Incoming,
}

/// `Graph::new`: a graph without nodes and edges.
#[verifier::external_body]
pub(crate) fn graph_new() -> (g: Graph<usize, i32>)
    ensures
        graph_node_weights(g) == Seq::<usize>::empty(),
        graph_edges(g) == Seq::<Edge>::empty(),
{
    Graph::new()
}

/// `Graph::add_node`: appends a node with weight `w` and returns its index,
/// the number of nodes before the call. It panics when the default `u32`
/// index space is exhausted, which `requires` rules out.
#[verifier::external_body]
pub(crate) fn graph_add_node(g: &mut Graph<usize, i32>, w: usize) -> (i: usize)
    requires
        graph_node_weights(*old(g)).len() < u32::MAX,
    ensures
        i == graph_node_weights(*old(g)).len(),
        graph_node_weights(*final(g)) == graph_node_weights(*old(g)).push(w),
        graph_edges(*final(g)) == graph_edges(*old(g)),
{
    g.add_node(w).index()
}

/// `Graph::add_edge`: appends the edge `(a, b, w)`. It panics when `a` or `b`
/// is not a node or when the `u32` edge index space is exhausted, which
/// `requires` rules out.
#[verifier::external_body]
pub(crate) fn graph_add_edge(g: &mut Graph<usize, i32>, a: usize, b: usize, w: i32)
    requires
        a < graph_node_weights(*old(g)).len(),
        b < graph_node_weights(*old(g)).len(),
        graph_edges(*old(g)).len() < u32::MAX,
    ensures
        graph_node_weights(*final(g)) == graph_node_weights(*old(g)),
        graph_edges(*final(g)) == graph_edges(*old(g)).push((a, b, w)),
{
    g.add_edge(NodeIndex::new(a), NodeIndex::new(b), w);
}

/// `Graph::node_count`: the number of nodes.
#[verifier::external_body]
pub(crate) fn graph_node_count(g: &Graph<usize, i32>) -> (n: usize)
    ensures
        n == graph_node_weights(*g).len(),
{
    g.node_count()
}

/// `Graph::node_weight`: the weight of node `i`, or `None` when there is no
/// such node. (A node index is a `u32`; `requires` keeps `i` within it.)
#[verifier::external_body]
pub(crate) fn graph_node_weight(g: &Graph<usize, i32>, i: usize) -> (r: Option<usize>)
    requires
        i <= u32::MAX,
    ensures
        i < graph_node_weights(*g).len() ==> r == Some(graph_node_weights(*g)[i as int]),
        i >= graph_node_weights(*g).len() ==> r is None,
{
    g.node_weight(NodeIndex::new(i)).copied()
}

/// `Graph::neighbors_directed` on a directed graph: the nodes joined to `a`
/// by an edge in direction `dir`, listed in reverse order of the addition of
/// those edges (as petgraph documents), collected into a vector. (A node
/// index is a `u32`; `requires` keeps `a` within it.)
#[verifier::external_body]
pub(crate) fn graph_neighbors_directed(g: &Graph<usize, i32>, a: usize, dir: Direction) -> (r: Vec<usize>)
    requires
        a <= u32::MAX,
    ensures
        dir is Outgoing ==> r@ == out_nbrs(graph_edges(*g), a),
        dir is Incoming ==> r@ == in_nbrs(graph_edges(*g), a),
{
    let d = match dir {
        Direction::Outgoing => petgraph::Direction::Outgoing,
        Direction::Incoming => petgraph::Direction::Incoming,
    };
    g.neighbors_directed(NodeIndex::new(a), d).map(|n| n.index()).collect()
}

/// `petgraph::algo::is_cyclic_directed`: whether the graph holds a directed
/// cycle, a self-loop included. The petgraph implementation recurses once per
/// node on a path, so on a very deep graph it can exhaust the stack; this
/// contract says nothing of that machine limit.
#[verifier::external_body]
pub(crate) fn graph_is_cyclic_directed(g: &Graph<usize, i32>) -> (b: bool)
    ensures
        b == is_cyclic(graph_edges(*g)),
{
    petgraph::algo::is_cyclic_directed(g)
}

/// `Visitable::visit_map` of `Graph`: `FixedBitSet::with_capacity` of the
/// node count, with every bit clear.
#[verifier::external_body]
pub(crate) fn graph_visit_map(g: &Graph<usize, i32>) -> (m: FixedBitSet)
    ensures
        bitset_bits(m) == Seq::new(graph_node_weights(*g).len(), |i: int| false),
{
    g.visit_map()
}

/// `VisitMap::visit` of `FixedBitSet`: sets bit `i` and returns whether it was
/// clear before. It panics when `i` is beyond the length, which `requires`
/// rules out; the position goes through a `u32` node index.
#[verifier::external_body]
pub(crate) fn bitset_visit(m: &mut FixedBitSet, i: usize) -> (newly: bool)
    requires
        i < bitset_bits(*old(m)).len(),
        i <= u32::MAX,
    ensures
        newly == !bitset_bits(*old(m))[i as int],
        bitset_bits(*final(m)) == bitset_bits(*old(m)).update(i as int, true),
{
    VisitMap::<NodeIndex>::visit(m, NodeIndex::new(i))
}

/// `VisitMap::is_visited` of `FixedBitSet`: whether bit `i` is set; a
/// position beyond the length reads as clear. (The position goes through a
/// `u32` node index; `requires` keeps it within it.)
#[verifier::external_body]
pub(crate) fn bitset_is_visited(m: &FixedBitSet, i: usize) -> (b: bool)
    requires
        i <= u32::MAX,
    ensures
        b == (i < bitset_bits(*m).len() && bitset_bits(*m)[i as int]),
{
    VisitMap::<NodeIndex>::is_visited(m, &NodeIndex::new(i))
}

} // verus!
