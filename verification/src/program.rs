use crate::config::ProgramConfig;
use crate::elements::NodeView;
use crate::graph::{
    graph_clone, graph_externals_incoming, graph_node, graph_node_count, graph_node_mut, graph_edges,
    graph_nodes, lemma_root_positions, lemma_root_positions_rise, no_edge_enters, root_positions,
    LogicalGraph,
};
use crate::wire::ProgramView;
use vstd::hash_map::StringHashMap;
use vstd::prelude::*;

verus! {

/// A streaming computation: a graph of operators and the functions that
/// the operators refer to.
#[derive(Debug)]
pub struct LogicalProgram {
    pub graph: LogicalGraph,
    pub program_config: ProgramConfig,
}

impl View for LogicalProgram {
    type V = ProgramView;

    open spec fn view(&self) -> ProgramView {
        ProgramView {
            nodes: graph_nodes(self.graph),
            edges: graph_edges(self.graph),
            config: self.program_config@,
        }
    }
}

impl Clone for LogicalProgram {
    fn clone(&self) -> (res: Self)
        ensures
            res@ == self@,
    {
        LogicalProgram {
            graph: graph_clone(&self.graph),
            program_config: self.program_config.clone(),
        }
    }
}

/// The sum of the parallelism of the first `count` nodes.
pub open spec fn total_parallelism(nodes: Seq<NodeView>, count: int) -> int
    decreases count,
{
    if count <= 0 {
        0
    } else {
        total_parallelism(nodes, count - 1) + nodes[count - 1].parallelism
    }
}

/// The sum over fewer nodes is no larger than the sum over more.
pub proof fn lemma_total_parallelism_grows(nodes: Seq<NodeView>, fewer: int, more: int)
    requires
        fewer <= more,
    ensures
        0 <= total_parallelism(nodes, fewer) <= total_parallelism(nodes, more),
    decreases more,
{
    if more > 0 && fewer < more {
        lemma_total_parallelism_grows(nodes, fewer, more - 1);
    } else if more > 0 {
        lemma_total_parallelism_grows(nodes, fewer - 1, more - 1);
    }
}

/// The operator ids of the nodes that no edge enters, in the order of the
/// nodes.
pub open spec fn source_ids(p: ProgramView) -> Seq<Seq<char>> {
    let roots = root_positions(p.edges, p.nodes.len() as int);
    Seq::new(roots.len(), |k: int| p.nodes[roots[k] as int].operator_id)
}

/// An operator id is among the sources exactly when it is the id of a node
/// that no edge enters.
pub proof fn lemma_sources_exact(p: ProgramView, id: Seq<char>)
    requires
        p.nodes.len() <= usize::MAX,
    ensures
        source_ids(p).contains(id) <==> exists|n: int|
            0 <= n < p.nodes.len() && no_edge_enters(p.edges, n) && #[trigger] p.nodes[n].operator_id
                == id,
{
    let roots = root_positions(p.edges, p.nodes.len() as int);
    if source_ids(p).contains(id) {
        let k = choose|k: int| 0 <= k < source_ids(p).len() && source_ids(p)[k] == id;
        assert(roots.contains(roots[k]));
        lemma_root_positions(p.edges, p.nodes.len() as int, roots[k]);
        let n = roots[k] as int;
        assert(0 <= n < p.nodes.len() && no_edge_enters(p.edges, n) && p.nodes[n].operator_id == id);
    }
    if exists|n: int|
        0 <= n < p.nodes.len() && no_edge_enters(p.edges, n) && #[trigger] p.nodes[n].operator_id
            == id {
        let n = choose|n: int|
            0 <= n < p.nodes.len() && no_edge_enters(p.edges, n) && #[trigger] p.nodes[n].operator_id
                == id;
        lemma_root_positions(p.edges, p.nodes.len() as int, n as usize);
        assert(roots.contains(n as usize));
        let k = choose|k: int| 0 <= k < roots.len() && roots[k] == n as usize;
        assert(source_ids(p)[k] == id);
    }
}

/// Where no two nodes bear one operator id, no id occurs twice among the
/// sources.
pub proof fn lemma_sources_distinct(p: ProgramView)
    requires
        p.nodes.len() <= usize::MAX,
        forall|i: int, j: int|
            0 <= i < j < p.nodes.len() ==> (#[trigger] p.nodes[i]).operator_id != (
            #[trigger] p.nodes[j]).operator_id,
    ensures
        forall|i: int, j: int|
            0 <= i < j < source_ids(p).len() ==> #[trigger] source_ids(p)[i] != #[trigger] source_ids(
                p,
            )[j],
{
    let roots = root_positions(p.edges, p.nodes.len() as int);
    lemma_root_positions_rise(p.edges, p.nodes.len() as int);
    assert forall|i: int, j: int| 0 <= i < j < source_ids(p).len() implies #[trigger] source_ids(
        p,
    )[i] != #[trigger] source_ids(p)[j] by {
        assert(roots[i] < roots[j]);
        assert(roots[j] < p.nodes.len());
        assert(p.nodes[roots[i] as int].operator_id != p.nodes[roots[j] as int].operator_id);
    }
}

/// The table from operator id to parallelism that the first `count` nodes
/// build. Of two nodes with one id the later one is found.
pub open spec fn tasks_map(nodes: Seq<NodeView>, count: int) -> Map<Seq<char>, usize>
    decreases count,
{
    if count <= 0 {
        Map::empty()
    } else {
        tasks_map(nodes, count - 1).insert(
            nodes[count - 1].operator_id,
            nodes[count - 1].parallelism,
        )
    }
}

/// The table holds an id exactly when one of the nodes bears it, and where
/// the ids are distinct it holds each node's own parallelism.
pub proof fn lemma_tasks_map(nodes: Seq<NodeView>, count: int)
    requires
        0 <= count <= nodes.len(),
    ensures
        forall|id: Seq<char>|
            tasks_map(nodes, count).contains_key(id) <==> exists|i: int|
                0 <= i < count && #[trigger] nodes[i].operator_id == id,
        (forall|i: int, j: int|
            0 <= i < j < count ==> nodes[i].operator_id != nodes[j].operator_id) ==> forall|i: int|
            0 <= i < count ==> tasks_map(nodes, count)[#[trigger] nodes[i].operator_id]
                == nodes[i].parallelism,
    decreases count,
{
    if count > 0 {
        lemma_tasks_map(nodes, count - 1);
        let before = tasks_map(nodes, count - 1);
        assert forall|id: Seq<char>|
            tasks_map(nodes, count).contains_key(id) <==> exists|i: int|
                0 <= i < count && #[trigger] nodes[i].operator_id == id by {
            if before.contains_key(id) {
                let i = choose|i: int| 0 <= i < count - 1 && #[trigger] nodes[i].operator_id == id;
                assert(0 <= i < count && nodes[i].operator_id == id);
            }
            if nodes[count - 1].operator_id == id {
                assert(0 <= count - 1 < count && nodes[count - 1].operator_id == id);
            }
        }
    }
}

/// A node after the overrides are applied to it: with the parallelism that
/// the overrides give for its operator id, or as it was where they give
/// none.
pub open spec fn override_node(node: NodeView, overrides: Map<Seq<char>, usize>) -> NodeView {
    if overrides.contains_key(node.operator_id) {
        NodeView { parallelism: overrides[node.operator_id], ..node }
    } else {
        node
    }
}

/// Applying overrides a second time changes nothing.
pub proof fn lemma_override_idempotent(node: NodeView, overrides: Map<Seq<char>, usize>)
    ensures
        override_node(override_node(node, overrides), overrides) == override_node(node, overrides),
{
}

/// Overrides that give a node the parallelism it has leave it as it is,
/// and so do overrides that do not speak of it.
pub proof fn lemma_override_identity(node: NodeView, overrides: Map<Seq<char>, usize>)
    requires
        overrides.contains_key(node.operator_id) ==> overrides[node.operator_id]
            == node.parallelism,
    ensures
        override_node(node, overrides) == node,
{
}

impl LogicalProgram {
    /// Gives each node whose operator id the overrides speak of the
    /// parallelism that they give for it. The other nodes, the edges and
    /// the registry stay as they are.
    pub fn update_parallelism(&mut self, overrides: &StringHashMap<usize>)
        ensures
            final(self)@.nodes.len() == old(self)@.nodes.len(),
            forall|i: int|
                0 <= i < old(self)@.nodes.len() ==> #[trigger] final(self)@.nodes[i]
                    == override_node(old(self)@.nodes[i], overrides@),
            final(self)@.edges == old(self)@.edges,
            final(self)@.config == old(self)@.config,
    {
        let n = graph_node_count(&self.graph);
        let ghost before = self@;
        let mut i: usize = 0;
        while i < n
            invariant
                i <= n,
                n == before.nodes.len(),
                self@.nodes.len() == n,
                self@.edges == before.edges,
                self@.config == before.config,
                forall|k: int| 0 <= k < i ==> #[trigger] self@.nodes[k] == override_node(
                    before.nodes[k],
                    overrides@,
                ),
                forall|k: int| i <= k < n ==> #[trigger] self@.nodes[k] == before.nodes[k],
            decreases n - i,
        {
            let node = graph_node_mut(&mut self.graph, i);
            match overrides.get(node.operator_id.as_str()) {
                Some(p) => {
                    node.parallelism = *p;
                },
                None => {},
            }
            i += 1;
        }
    }

    /// The number of tasks that the program runs: the sum of the
    /// parallelism of its nodes. The sum has to fit the machine's word.
    pub fn task_count(&self) -> (res: usize)
        requires
            total_parallelism(self@.nodes, self@.nodes.len() as int) <= usize::MAX,
        ensures
            res == total_parallelism(self@.nodes, self@.nodes.len() as int),
    {
        let n = graph_node_count(&self.graph);
        let mut sum: usize = 0;
        let mut i: usize = 0;
        while i < n
            invariant
                i <= n,
                n == self@.nodes.len(),
                sum == total_parallelism(self@.nodes, i as int),
                total_parallelism(self@.nodes, n as int) <= usize::MAX,
            decreases n - i,
        {
            proof {
                lemma_total_parallelism_grows(self@.nodes, i + 1, n as int);
            }
            sum = sum + graph_node(&self.graph, i).parallelism;
            i += 1;
        }
        sum
    }

    /// The number of tasks that the program runs, where the sum of the
    /// parallelism of its nodes fits the machine's word; `None` where it
    /// does not.
    pub fn checked_task_count(&self) -> (res: Option<usize>)
        ensures
            match res {
                Some(count) => count == total_parallelism(self@.nodes, self@.nodes.len() as int),
                None => total_parallelism(self@.nodes, self@.nodes.len() as int) > usize::MAX,
            },
    {
        let n = graph_node_count(&self.graph);
        let mut sum: usize = 0;
        let mut i: usize = 0;
        while i < n
            invariant
                i <= n,
                n == self@.nodes.len(),
                sum == total_parallelism(self@.nodes, i as int),
            decreases n - i,
        {
            match sum.checked_add(graph_node(&self.graph, i).parallelism) {
                Some(next) => {
                    sum = next;
                },
                None => {
                    proof {
                        lemma_total_parallelism_grows(self@.nodes, i + 1, n as int);
                    }
                    return None;
                },
            }
            i += 1;
        }
        Some(sum)
    }

    /// The operator ids of the nodes that no edge enters, in the order of
    /// the nodes.
    pub fn sources(&self) -> (res: Vec<String>)
        ensures
            res.deep_view() == source_ids(self@),
    {
        let roots = graph_externals_incoming(&self.graph);
        let n = graph_node_count(&self.graph);
        let mut res: Vec<String> = Vec::new();
        let mut k: usize = 0;
        while k < roots.len()
            invariant
                k <= roots.len(),
                n == self@.nodes.len(),
                roots@ == root_positions(self@.edges, n as int),
                res@.len() == k,
                forall|j: int| 0 <= j < k ==> res@[j]@ == source_ids(self@)[j],
            decreases roots.len() - k,
        {
            proof {
                assert(roots@.contains(roots@[k as int]));
                lemma_root_positions(self@.edges, n as int, roots@[k as int]);
            }
            let node = graph_node(&self.graph, roots[k]);
            res.push(node.operator_id.clone());
            k += 1;
        }
        assert(res.deep_view() =~= source_ids(self@));
        res
    }

    /// The parallelism of each operator, by operator id.
    pub fn tasks_per_operator(&self) -> (res: StringHashMap<usize>)
        ensures
            res@ == tasks_map(self@.nodes, self@.nodes.len() as int),
    {
        let n = graph_node_count(&self.graph);
        let mut res: StringHashMap<usize> = StringHashMap::new();
        let mut i: usize = 0;
        while i < n
            invariant
                i <= n,
                n == self@.nodes.len(),
                res@ == tasks_map(self@.nodes, i as int),
            decreases n - i,
        {
            let node = graph_node(&self.graph, i);
            res.insert(node.operator_id.clone(), node.parallelism);
            i += 1;
        }
        res
    }
}

} // verus!
