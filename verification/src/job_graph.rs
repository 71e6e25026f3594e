use crate::elements::NodeView;
use crate::graph::{
    graph_edge, graph_edge_count, graph_edge_endpoints, graph_node, graph_node_count, EdgeLink,
};
use crate::program::LogicalProgram;
use crate::taxonomy::edge_type_name;
use crate::wire::ProgramView;
use vstd::prelude::*;

verus! {

/// A node as observers of a job see it.
#[derive(Debug, PartialEq, Eq)]
pub struct JobNode {
    pub node_id: String,
    pub operator: String,
    pub parallelism: usize,
}

/// An edge as observers of a job see it. The key and value types are
/// placeholders.
#[derive(Debug, PartialEq, Eq)]
pub struct JobEdge {
    pub src_id: String,
    pub dest_id: String,
    pub key_type: String,
    pub value_type: String,
    pub edge_type: String,
}

/// A program as observers of a job see it.
#[derive(Debug, PartialEq, Eq)]
pub struct JobGraph {
    pub nodes: Vec<JobNode>,
    pub edges: Vec<JobEdge>,
}

pub struct JobNodeView {
    pub node_id: Seq<char>,
    pub operator: Seq<char>,
    pub parallelism: usize,
}

pub struct JobEdgeView {
    pub src_id: Seq<char>,
    pub dest_id: Seq<char>,
    pub key_type: Seq<char>,
    pub value_type: Seq<char>,
    pub edge_type: Seq<char>,
}

pub struct JobGraphView {
    pub nodes: Seq<JobNodeView>,
    pub edges: Seq<JobEdgeView>,
}

impl View for JobNode {
    type V = JobNodeView;

    open spec fn view(&self) -> JobNodeView {
        JobNodeView {
            node_id: self.node_id@,
            operator: self.operator@,
            parallelism: self.parallelism,
        }
    }
}

impl DeepView for JobNode {
    type V = JobNodeView;

    open spec fn deep_view(&self) -> JobNodeView {
        self@
    }
}

impl View for JobEdge {
    type V = JobEdgeView;

    open spec fn view(&self) -> JobEdgeView {
        JobEdgeView {
            src_id: self.src_id@,
            dest_id: self.dest_id@,
            key_type: self.key_type@,
            value_type: self.value_type@,
            edge_type: self.edge_type@,
        }
    }
}

impl DeepView for JobEdge {
    type V = JobEdgeView;

    open spec fn deep_view(&self) -> JobEdgeView {
        self@
    }
}

impl View for JobGraph {
    type V = JobGraphView;

    open spec fn view(&self) -> JobGraphView {
        JobGraphView { nodes: self.nodes.deep_view(), edges: self.edges.deep_view() }
    }
}

/// What observers see of a node: its id, its description and its
/// parallelism.
pub open spec fn job_node(node: NodeView) -> JobNodeView {
    JobNodeView {
        node_id: node.operator_id,
        operator: node.description,
        parallelism: node.parallelism,
    }
}

/// What observers see of an edge: the ids of the nodes it joins and the
/// name of its type.
pub open spec fn job_edge(nodes: Seq<NodeView>, link: EdgeLink) -> JobEdgeView {
    JobEdgeView {
        src_id: nodes[link.source].operator_id,
        dest_id: nodes[link.target].operator_id,
        key_type: "()"@,
        value_type: "()"@,
        edge_type: edge_type_name(link.edge.edge_type),
    }
}

/// What observers see of a program: every node and every edge, in their
/// order.
pub open spec fn job_graph(p: ProgramView) -> JobGraphView {
    JobGraphView {
        nodes: Seq::new(p.nodes.len(), |i: int| job_node(p.nodes[i])),
        edges: Seq::new(p.edges.len(), |i: int| job_edge(p.nodes, p.edges[i])),
    }
}

impl LogicalProgram {
    /// The program as observers of a job see it. Schemas and projections
    /// are left out.
    pub fn as_job_graph(&self) -> (res: JobGraph)
        ensures
            res@ == job_graph(self@),
    {
        let n = graph_node_count(&self.graph);
        let mut nodes: Vec<JobNode> = Vec::new();
        let mut i: usize = 0;
        while i < n
            invariant
                i <= n,
                n == self@.nodes.len(),
                nodes@.len() == i,
                forall|k: int| 0 <= k < i ==> nodes@[k]@ == job_node(self@.nodes[k]),
            decreases n - i,
        {
            let node = graph_node(&self.graph, i);
            nodes.push(
                JobNode {
                    node_id: node.operator_id.clone(),
                    operator: node.description.clone(),
                    parallelism: node.parallelism,
                },
            );
            i += 1;
        }
        let m = graph_edge_count(&self.graph);
        let mut edges: Vec<JobEdge> = Vec::new();
        let mut j: usize = 0;
        while j < m
            invariant
                j <= m,
                m == self@.edges.len(),
                n == self@.nodes.len(),
                edges@.len() == j,
                forall|k: int| 0 <= k < j ==> edges@[k]@ == job_edge(self@.nodes, self@.edges[k]),
            decreases m - j,
        {
            match graph_edge_endpoints(&self.graph, j) {
                Some(ends) => {
                    let src = graph_node(&self.graph, ends.source);
                    let target = graph_node(&self.graph, ends.target);
                    edges.push(
                        JobEdge {
                            src_id: src.operator_id.clone(),
                            dest_id: target.operator_id.clone(),
                            key_type: "()".to_owned(),
                            value_type: "()".to_owned(),
                            edge_type: graph_edge(&self.graph, j).edge_type.variant_name(),
                        },
                    );
                },
                None => {},
            }
            j += 1;
        }
        let res = JobGraph { nodes, edges };
        assert(res@.nodes =~= job_graph(self@).nodes);
        assert(res@.edges =~= job_graph(self@).edges);
        res
    }
}

} // verus!
