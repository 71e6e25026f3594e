use crate::elements::{EdgeView, LogicalEdge, LogicalNode, NodeView};
use petgraph::graph::{DiGraph, EdgeIndex, Graph, NodeIndex};
use petgraph::Direction;
use vstd::prelude::*;

verus! {

/// `petgraph::graph::Graph`, carried as it is: what it holds is named by
/// [`graph_nodes`] and [`graph_edges`].
#[verifier::external_type_specification]
#[verifier::external_body]
#[verifier::reject_recursive_types(N)]
#[verifier::reject_recursive_types(E)]
#[verifier::reject_recursive_types(Ty)]
#[verifier::reject_recursive_types(Ix)]
pub struct ExGraph<N, E, Ty, Ix>(Graph<N, E, Ty, Ix>);

/// `petgraph::Directed`, the marker of graphs whose edges have a direction.
#[verifier::external_type_specification]
#[verifier::external_body]
pub struct ExDirected(petgraph::Directed);

/// A directed multigraph of operators and of the edges between them.
pub type LogicalGraph = DiGraph<LogicalNode, LogicalEdge>;

/// An edge of a graph: the positions of the nodes it leaves and enters, and
/// what it carries.
pub struct EdgeLink {
    pub source: int,
    pub target: int,
    pub edge: EdgeView,
}

/// The nodes of a graph, in the order of their indices.
pub uninterp spec fn graph_nodes(g: LogicalGraph) -> Seq<NodeView>;

/// The edges of a graph, in the order of their indices.
pub uninterp spec fn graph_edges(g: LogicalGraph) -> Seq<EdgeLink>;

/// No edge of `edges` enters the node at position `node`.
pub open spec fn no_edge_enters(edges: Seq<EdgeLink>, node: int) -> bool {
    forall|e: int| 0 <= e < edges.len() ==> (#[trigger] edges[e]).target != node
}

/// `Graph::new`: a graph without nodes and without edges.
#[verifier::external_body]
pub(crate) fn graph_new() -> (g: LogicalGraph)
    ensures
        graph_nodes(g) == Seq::<NodeView>::empty(),
        graph_edges(g) == Seq::<EdgeLink>::empty(),
{
    DiGraph::new()
}

/// The graph's `Clone`: a graph with copies of the same nodes and edges in
/// the same order.
#[verifier::external_body]
pub(crate) fn graph_clone(g: &LogicalGraph) -> (copy: LogicalGraph)
    ensures
        graph_nodes(copy) == graph_nodes(*g),
        graph_edges(copy) == graph_edges(*g),
{
    g.clone()
}

/// `Graph::node_count`: the number of nodes. The graph indexes its nodes
/// with `u32`, so there are no more than that type can count.
#[verifier::external_body]
pub(crate) fn graph_node_count(g: &LogicalGraph) -> (n: usize)
    ensures
        n == graph_nodes(*g).len(),
        n <= u32::MAX,
{
    g.node_count()
}

/// `Graph::edge_count`: the number of edges. The graph indexes its edges
/// with `u32`, so there are no more than that type can count.
#[verifier::external_body]
pub(crate) fn graph_edge_count(g: &LogicalGraph) -> (n: usize)
    ensures
        n == graph_edges(*g).len(),
        n <= u32::MAX,
{
    g.edge_count()
}

/// `Graph::add_node`: the node is added behind the others and its position
/// is returned; the edges stay. The graph indexes its nodes with `u32` and
/// panics when it is full, so a full graph is left out.
#[verifier::external_body]
pub(crate) fn graph_add_node(g: &mut LogicalGraph, node: LogicalNode) -> (index: usize)
    requires
        graph_nodes(*old(g)).len() < u32::MAX,
    ensures
        graph_nodes(*final(g)) == graph_nodes(*old(g)).push(node@),
        graph_edges(*final(g)) == graph_edges(*old(g)),
        index == graph_nodes(*old(g)).len(),
{
    g.add_node(node).index()
}

/// `Graph::add_edge`: the edge from `source` to `target` is added behind the
/// others; the nodes stay. The call panics where an endpoint is no node or
/// the graph is full of edges, so both are left out.
#[verifier::external_body]
pub(crate) fn graph_add_edge(g: &mut LogicalGraph, source: usize, target: usize, edge: LogicalEdge)
    requires
        source < graph_nodes(*old(g)).len(),
        target < graph_nodes(*old(g)).len(),
        graph_edges(*old(g)).len() < u32::MAX,
    ensures
        graph_nodes(*final(g)) == graph_nodes(*old(g)),
        graph_edges(*final(g)) == graph_edges(*old(g)).push(
            EdgeLink { source: source as int, target: target as int, edge: edge@ },
        ),
{
    g.add_edge(NodeIndex::new(source), NodeIndex::new(target), edge);
}

/// The graph's indexing by `NodeIndex`: the node at a position that the
/// graph has.
#[verifier::external_body]
pub(crate) fn graph_node(g: &LogicalGraph, index: usize) -> (node: &LogicalNode)
    requires
        index < graph_nodes(*g).len(),
    ensures
        node@ == graph_nodes(*g)[index as int],
{
    &g[NodeIndex::new(index)]
}

/// The graph's mutable indexing by `NodeIndex`: what the caller leaves in
/// the node at `index` is what the graph then holds there; the other nodes
/// and the edges stay.
#[verifier::external_body]
pub(crate) fn graph_node_mut(g: &mut LogicalGraph, index: usize) -> (node: &mut LogicalNode)
    requires
        index < graph_nodes(*old(g)).len(),
    ensures
        node@ == graph_nodes(*old(g))[index as int],
        graph_nodes(*final(g)) == graph_nodes(*old(g)).update(index as int, final(node)@),
        graph_edges(*final(g)) == graph_edges(*old(g)),
{
    &mut g[NodeIndex::new(index)]
}

/// The graph's indexing by `EdgeIndex`: what the edge at a position that
/// the graph has carries.
#[verifier::external_body]
pub(crate) fn graph_edge(g: &LogicalGraph, index: usize) -> (edge: &LogicalEdge)
    requires
        index < graph_edges(*g).len(),
    ensures
        edge@ == graph_edges(*g)[index as int].edge,
{
    &g[EdgeIndex::new(index)]
}

/// The positions of the two nodes that an edge joins.
#[derive(Clone, Copy, Debug, PartialEq, Eq, Structural)]
pub struct Endpoints {
    pub source: usize,
    pub target: usize,
}

/// `Graph::edge_endpoints`: the positions of the nodes that an edge leaves
/// and enters. A graph only ever holds edges between nodes that it has, so
/// both are positions of nodes.
#[verifier::external_body]
pub(crate) fn graph_edge_endpoints(g: &LogicalGraph, index: usize) -> (ends: Option<Endpoints>)
    requires
        index < graph_edges(*g).len(),
    ensures
        ends is Some,
        ends.unwrap().source == graph_edges(*g)[index as int].source,
        ends.unwrap().target == graph_edges(*g)[index as int].target,
        ends.unwrap().source < graph_nodes(*g).len(),
        ends.unwrap().target < graph_nodes(*g).len(),
{
    match g.edge_endpoints(EdgeIndex::new(index)) {
        Some((a, b)) => Some(Endpoints { source: a.index(), target: b.index() }),
        None => None,
    }
}

/// The positions, among the first `count` nodes, of those that no edge of
/// `edges` enters, in rising order.
pub open spec fn root_positions(edges: Seq<EdgeLink>, count: int) -> Seq<usize>
    decreases count,
{
    if count <= 0 {
        Seq::empty()
    } else if no_edge_enters(edges, count - 1) {
        root_positions(edges, count - 1).push((count - 1) as usize)
    } else {
        root_positions(edges, count - 1)
    }
}

/// `Graph::externals` with `Direction::Incoming`: the positions of the
/// nodes that no edge enters, each once, in rising order.
#[verifier::external_body]
pub(crate) fn graph_externals_incoming(g: &LogicalGraph) -> (roots: Vec<usize>)
    ensures
        roots@ == root_positions(graph_edges(*g), graph_nodes(*g).len() as int),
{
    g.externals(Direction::Incoming).map(|n| n.index()).collect()
}

/// A position is among the root positions exactly when it is one of the
/// first `count` and no edge enters it.
pub proof fn lemma_root_positions(edges: Seq<EdgeLink>, count: int, x: usize)
    requires
        0 <= count <= usize::MAX,
    ensures
        root_positions(edges, count).contains(x) <==> (x < count && no_edge_enters(edges, x as int)),
    decreases count,
{
    if count > 0 {
        lemma_root_positions(edges, count - 1, x);
        let before = root_positions(edges, count - 1);
        let last = (count - 1) as usize;
        if no_edge_enters(edges, count - 1) {
            let after = before.push(last);
            assert(root_positions(edges, count) == after);
            if after.contains(x) {
                let k = choose|k: int| 0 <= k < after.len() && after[k] == x;
                if k < before.len() {
                    assert(before[k] == x);
                    assert(before.contains(x));
                } else {
                    assert(x == last);
                }
            }
            if before.contains(x) {
                let k = choose|k: int| 0 <= k < before.len() && before[k] == x;
                assert(after[k] == x);
                assert(after.contains(x));
            }
            if x == last {
                assert(after[before.len() as int] == x);
                assert(after.contains(x));
            }
        } else {
            assert(root_positions(edges, count) == before);
        }
    } else {
        assert(root_positions(edges, count) =~= Seq::<usize>::empty());
        assert(!Seq::<usize>::empty().contains(x));
    }
}

/// The root positions rise, and each is one of the first `count`.
pub proof fn lemma_root_positions_rise(edges: Seq<EdgeLink>, count: int)
    requires
        0 <= count <= usize::MAX,
    ensures
        forall|i: int|
            0 <= i < root_positions(edges, count).len() ==> (#[trigger] root_positions(
                edges,
                count,
            )[i]) < count,
        forall|i: int, j: int|
            0 <= i < j < root_positions(edges, count).len() ==> root_positions(edges, count)[i]
                < root_positions(edges, count)[j],
    decreases count,
{
    if count > 0 {
        lemma_root_positions_rise(edges, count - 1);
        let before = root_positions(edges, count - 1);
        let after = root_positions(edges, count);
        if no_edge_enters(edges, count - 1) {
            assert(after == before.push((count - 1) as usize));
            assert forall|i: int| 0 <= i < after.len() implies (#[trigger] after[i]) < count by {
                if i < before.len() {
                    assert(after[i] == before[i]);
                }
            }
            assert forall|i: int, j: int| 0 <= i < j < after.len() implies after[i] < after[j] by {
                assert(after[i] == before[i]);
                if j < before.len() {
                    assert(after[j] == before[j]);
                }
            }
        } else {
            assert(after == before);
        }
    }
}

} // verus!
