use crate::config::{ArrowProgramConfig, ProgramConfig};
use crate::elements::{ArroyoSchema, LogicalEdge, LogicalNode, NodeView};
use crate::error::{ProgramError, ProgramFault, SchemaFault};
use crate::graph::{
    graph_add_edge, graph_add_node, graph_edge, graph_edge_count, graph_edge_endpoints,
    graph_edges, graph_new, graph_node, graph_node_count, graph_nodes, EdgeLink,
};
use crate::program::LogicalProgram;
use crate::taxonomy::{EdgeType, LogicalEdgeType, OperatorName};
use crate::wire::{
    decode_edge, decode_edge_payload, decode_node, decode_program, decode_schema, edge_fault,
    encode_edge, encode_node, encode_program, encode_schema, first_bad_edge, first_bad_node,
    edge_within_wire, index_table, indices_fit, narrow_indices, widen_indices, wire_registry,
    within_wire, ArrowEdge, ArrowNode, ArrowProgram, WireEdgeView, WireNodeView,
};
use std::collections::HashMap;
use vstd::prelude::*;

verus! {

/// Whether every position of a list fits in 32 bits.
fn all_fit(indices: &Vec<usize>) -> (ok: bool)
    ensures
        ok == indices_fit(indices@),
{
    let mut i: usize = 0;
    while i < indices.len()
        invariant
            i <= indices.len(),
            forall|k: int| 0 <= k < i ==> indices@[k] <= u32::MAX,
        decreases indices.len() - i,
    {
        if indices[i] > u32::MAX as usize {
            return false;
        }
        i += 1;
    }
    true
}

/// A list of positions as the wire writes it.
fn narrow(indices: &Vec<usize>) -> (res: Vec<u32>)
    requires
        indices_fit(indices@),
    ensures
        res@ == narrow_indices(indices@),
{
    let mut res: Vec<u32> = Vec::new();
    let mut i: usize = 0;
    while i < indices.len()
        invariant
            i <= indices.len(),
            indices_fit(indices@),
            res@.len() == i,
            forall|k: int| 0 <= k < i ==> res@[k] == indices@[k] as u32,
        decreases indices.len() - i,
    {
        res.push(indices[i] as u32);
        i += 1;
    }
    assert(res@ =~= narrow_indices(indices@));
    res
}

/// A list of positions as read from the wire.
fn widen(indices: &Vec<u32>) -> (res: Vec<usize>)
    ensures
        res@ == widen_indices(indices@),
{
    let mut res: Vec<usize> = Vec::new();
    let mut i: usize = 0;
    while i < indices.len()
        invariant
            i <= indices.len(),
            res@.len() == i,
            forall|k: int| 0 <= k < i ==> res@[k] == indices@[k] as usize,
        decreases indices.len() - i,
    {
        res.push(indices[i] as usize);
        i += 1;
    }
    assert(res@ =~= widen_indices(indices@));
    res
}

/// The wire form of the node at position `index`.
fn node_to_wire(node: &LogicalNode, index: usize) -> (res: ArrowNode)
    requires
        index <= i32::MAX,
        node.parallelism <= u32::MAX,
    ensures
        res@ == encode_node(node@, index as int),
{
    ArrowNode {
        node_index: index as i32,
        node_id: node.operator_id.clone(),
        parallelism: node.parallelism as u32,
        description: node.description.clone(),
        operator_name: node.operator_name.to_string(),
        operator_config: node.operator_config.clone(),
    }
}

/// The wire form of an edge between the nodes at two positions.
fn edge_to_wire(edge: &LogicalEdge, source: usize, target: usize) -> (res: ArrowEdge)
    requires
        source <= i32::MAX,
        target <= i32::MAX,
        edge_within_wire(
            EdgeLink { source: source as int, target: target as int, edge: edge@ },
            i32::MAX as int + 1,
        ),
    ensures
        res@ == encode_edge(EdgeLink { source: source as int, target: target as int, edge: edge@ }),
{
    let schema = crate::wire::ArroyoSchema {
        arrow_schema: edge.schema.schema.clone(),
        timestamp_index: edge.schema.timestamp_index as u32,
        key_indices: narrow(&edge.schema.key_indices),
    };
    let projection = match &edge.projection {
        Some(p) => narrow(p),
        None => Vec::new(),
    };
    let edge_type: EdgeType = EdgeType::from(edge.edge_type);
    ArrowEdge {
        source: source as i32,
        target: target as i32,
        schema: Some(schema),
        edge_type: edge_type.to_i32(),
        projection,
    }
}

impl LogicalProgram {
    /// Whether the wire carries every number of this program as it is.
    pub fn is_within_wire(&self) -> (ok: bool)
        ensures
            ok == within_wire(self@),
    {
        let n = graph_node_count(&self.graph);
        if n > i32::MAX as usize {
            return false;
        }
        let mut i: usize = 0;
        while i < n
            invariant
                i <= n,
                n == self@.nodes.len(),
                forall|k: int| 0 <= k < i ==> (#[trigger] self@.nodes[k]).parallelism <= u32::MAX,
            decreases n - i,
        {
            if graph_node(&self.graph, i).parallelism > u32::MAX as usize {
                return false;
            }
            i += 1;
        }
        let m = graph_edge_count(&self.graph);
        let mut j: usize = 0;
        while j < m
            invariant
                j <= m,
                m == self@.edges.len(),
                n == self@.nodes.len(),
                forall|k: int| 0 <= k < j ==> edge_within_wire(#[trigger] self@.edges[k], n as int),
            decreases m - j,
        {
            let ends = graph_edge_endpoints(&self.graph, j);
            let edge = graph_edge(&self.graph, j);
            let projection_fits = match &edge.projection {
                Some(p) => all_fit(p),
                None => true,
            };
            if edge.schema.timestamp_index > u32::MAX as usize || !all_fit(&edge.schema.key_indices)
                || !projection_fits {
                assert(!edge_within_wire(self@.edges[j as int], n as int));
                return false;
            }
            assert(edge_within_wire(self@.edges[j as int], n as int));
            j += 1;
        }
        true
    }

    /// The wire form of this program, where the wire carries its numbers
    /// as they are; `ExceedsWire` where it does not.
    pub fn try_to_wire(&self) -> (res: Result<ArrowProgram, ProgramError>)
        ensures
            match res {
                Ok(wire) => within_wire(self@) && wire@ == encode_program(self@) && wire@.nodes.len()
                    <= u32::MAX && wire@.edges.len() <= u32::MAX,
                Err(e) => !within_wire(self@) && e@ == ProgramFault::ExceedsWire,
            },
    {
        if self.is_within_wire() {
            Ok(self.to_wire())
        } else {
            Err(ProgramError::ExceedsWire)
        }
    }

    /// The wire form of this program: every node with its position as its
    /// index, every edge between the indices of its ends, and the registry.
    /// The wire has 32 bits for a number, so a program with a wider one is
    /// left out; `try_to_wire` takes every program.
    pub fn to_wire(&self) -> (res: ArrowProgram)
        requires
            within_wire(self@),
        ensures
            res@ == encode_program(self@),
            res@.nodes.len() <= u32::MAX,
            res@.edges.len() <= u32::MAX,
    {
        let n = graph_node_count(&self.graph);
        let mut nodes: Vec<ArrowNode> = Vec::new();
        let mut i: usize = 0;
        while i < n
            invariant
                i <= n,
                n == self@.nodes.len(),
                within_wire(self@),
                nodes@.len() == i,
                forall|k: int| 0 <= k < i ==> nodes@[k]@ == encode_node(self@.nodes[k], k),
            decreases n - i,
        {
            assert(self@.nodes[i as int].parallelism <= u32::MAX);
            nodes.push(node_to_wire(graph_node(&self.graph, i), i));
            i += 1;
        }
        let m = graph_edge_count(&self.graph);
        let mut edges: Vec<ArrowEdge> = Vec::new();
        let mut j: usize = 0;
        while j < m
            invariant
                j <= m,
                m == self@.edges.len(),
                within_wire(self@),
                edges@.len() == j,
                forall|k: int| 0 <= k < j ==> edges@[k]@ == encode_edge(self@.edges[k]),
            decreases m - j,
        {
            assert(edge_within_wire(self@.edges[j as int], self@.nodes.len() as int));
            let ends = graph_edge_endpoints(&self.graph, j);
            match ends {
                Some(ends) => {
                    edges.push(edge_to_wire(graph_edge(&self.graph, j), ends.source, ends.target));
                },
                None => {},
            }
            j += 1;
        }
        let res = ArrowProgram {
            nodes,
            edges,
            program_config: Some(ArrowProgramConfig::from(self.program_config.clone())),
        };
        assert(res@.nodes =~= encode_program(self@).nodes);
        assert(res@.edges =~= encode_program(self@).edges);
        res
    }

    /// Reads a program from its wire form.
    ///
    /// The nodes are read in order; the first operator name that names no
    /// operator is rejected with `UnknownOperator`. Then the edges are read
    /// in order, and the first thing wrong with the first faulty edge is
    /// reported: an end that no node carries as its index
    /// (`DanglingEdgeReference`), no schema (`InvalidSchema`), the sentinel
    /// edge type (`SentinelEdgeType`), a schema or projection that is
    /// malformed or indexes past the fields (`InvalidSchema`). Then the
    /// registry is read (`InvalidUdfType`). A graph holds no more than
    /// `u32::MAX` nodes and edges, so longer lists are left out.
    pub fn try_from(value: ArrowProgram) -> (res: Result<LogicalProgram, ProgramError>)
        requires
            value@.nodes.len() <= u32::MAX,
            value@.edges.len() <= u32::MAX,
        ensures
            match res {
                Ok(p) => decode_program(value@) == Ok::<crate::wire::ProgramView, ProgramFault>(p@),
                Err(e) => decode_program(value@) == Err::<crate::wire::ProgramView, ProgramFault>(
                    e@,
                ),
            },
    {
        let ghost w = value@;
        let mut graph = graph_new();
        let mut id_map: HashMap<i32, usize> = HashMap::new();
        let n = value.nodes.len();
        let mut i: usize = 0;
        while i < n
            invariant
                i <= n,
                n == w.nodes.len(),
                n <= u32::MAX,
                w == value@,
                graph_nodes(graph).len() == i,
                forall|k: int| 0 <= k < i ==> #[trigger] graph_nodes(graph)[k] == decode_node(w.nodes[k]),
                graph_edges(graph) == Seq::<EdgeLink>::empty(),
                id_map@ == index_table(w.nodes, i as int),
                forall|key: i32| id_map@.contains_key(key) ==> #[trigger] id_map@[key] < i,
                first_bad_node(w.nodes, 0) == first_bad_node(w.nodes, i as int),
            decreases n - i,
        {
            let node = &value.nodes[i];
            assert(node@ == w.nodes[i as int]);
            let operator_name = match OperatorName::try_from(node.operator_name.as_str()) {
                Ok(name) => name,
                Err(e) => {
                    assert(first_bad_node(w.nodes, i as int) == Some(i as int));
                    return Err(e);
                },
            };
            let index = graph_add_node(
                &mut graph,
                LogicalNode {
                    operator_id: node.node_id.clone(),
                    description: node.description.clone(),
                    operator_name,
                    operator_config: node.operator_config.clone(),
                    parallelism: node.parallelism as usize,
                },
            );
            id_map.insert(node.node_index, index);
            i += 1;
        }
        let ghost table = index_table(w.nodes, n as int);
        let m = value.edges.len();
        let mut j: usize = 0;
        while j < m
            invariant
                j <= m,
                m == w.edges.len(),
                m <= u32::MAX,
                n == w.nodes.len(),
                w == value@,
                first_bad_node(w.nodes, 0) is None,
                table == index_table(w.nodes, n as int),
                id_map@ == table,
                forall|key: i32| id_map@.contains_key(key) ==> #[trigger] id_map@[key] < n,
                graph_nodes(graph).len() == n,
                forall|k: int| 0 <= k < n ==> #[trigger] graph_nodes(graph)[k] == decode_node(w.nodes[k]),
                graph_edges(graph).len() == j,
                forall|k: int| 0 <= k < j ==> #[trigger] graph_edges(graph)[k] == decode_edge(w.edges[k], table),
                first_bad_edge(w.edges, table, 0) == first_bad_edge(w.edges, table, j as int),
            decreases m - j,
        {
            let edge = &value.edges[j];
            assert(edge@ == w.edges[j as int]);
            let source = match id_map.get(&edge.source) {
                Some(s) => *s,
                None => {
                    assert(first_bad_edge(w.edges, table, j as int) == Some(j as int));
                    return Err(ProgramError::DanglingEdgeReference { index: edge.source });
                },
            };
            let target = match id_map.get(&edge.target) {
                Some(t) => *t,
                None => {
                    assert(first_bad_edge(w.edges, table, j as int) == Some(j as int));
                    return Err(ProgramError::DanglingEdgeReference { index: edge.target });
                },
            };
            let schema = match &edge.schema {
                Some(s) => s,
                None => {
                    assert(first_bad_edge(w.edges, table, j as int) == Some(j as int));
                    return Err(ProgramError::InvalidSchema { fault: SchemaFault::Missing });
                },
            };
            let edge_type = match LogicalEdgeType::try_from(edge.edge_type()) {
                Ok(t) => t,
                Err(e) => {
                    assert(first_bad_edge(w.edges, table, j as int) == Some(j as int));
                    return Err(e);
                },
            };
            let projection = if edge.projection.len() == 0 {
                None
            } else {
                Some(widen(&edge.projection))
            };
            let logical = LogicalEdge {
                edge_type,
                schema: ArroyoSchema {
                    schema: schema.arrow_schema.clone(),
                    timestamp_index: schema.timestamp_index as usize,
                    key_indices: widen(&schema.key_indices),
                },
                projection,
            };
            assert(logical@ == decode_edge_payload(w.edges[j as int]));
            match logical.check() {
                Ok(_) => {},
                Err(fault) => {
                    assert(first_bad_edge(w.edges, table, j as int) == Some(j as int));
                    return Err(ProgramError::InvalidSchema { fault });
                },
            }
            proof {
                logical@.lemma_fault_wf();
                assert(edge_fault(w.edges[j as int], table) is None);
            }
            graph_add_edge(&mut graph, source, target, logical);
            j += 1;
        }
        let wire_config = match value.program_config {
            Some(c) => c,
            None => ArrowProgramConfig { udf_dylibs: Vec::new() },
        };
        assert(wire_config@ =~= wire_registry(w));
        let program_config = match ProgramConfig::try_from(wire_config) {
            Ok(c) => c,
            Err(e) => {
                return Err(e);
            },
        };
        let program = LogicalProgram { graph, program_config };
        assert(program@.nodes =~= decode_program(w)->Ok_0.nodes);
        assert(program@.edges =~= decode_program(w)->Ok_0.edges);
        Ok(program)
    }
}

impl ArrowProgram {
    /// The wire form of a program whose numbers the wire carries as they
    /// are.
    pub fn from(value: LogicalProgram) -> (res: ArrowProgram)
        requires
            within_wire(value@),
        ensures
            res@ == encode_program(value@),
            res@.nodes.len() <= u32::MAX,
            res@.edges.len() <= u32::MAX,
    {
        value.to_wire()
    }
}

} // verus!
