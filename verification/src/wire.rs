use crate::config::{canonical, decode_config, ArrowProgramConfig, UdfEntryView};
use crate::elements::{first_index_outside, EdgeView, NodeView, SchemaView};
use crate::error::{ProgramFault, SchemaFault};
use crate::graph::EdgeLink;
use crate::taxonomy::{
    edge_type_number, edge_type_of_number, logical_edge_type, operator_text, parse_operator,
    wire_edge_type, EdgeType,
};
use vstd::prelude::*;

verus! {

/// A node as the wire carries it.
#[derive(Debug, PartialEq, Eq)]
pub struct ArrowNode {
    pub node_index: i32,
    pub node_id: String,
    pub parallelism: u32,
    pub description: String,
    pub operator_name: String,
    pub operator_config: Vec<u8>,
}

/// A schema as the wire carries it.
#[derive(Debug, PartialEq, Eq)]
pub struct ArroyoSchema {
    pub arrow_schema: String,
    pub timestamp_index: u32,
    pub key_indices: Vec<u32>,
}

/// An edge as the wire carries it. Its ends are node indices, its edge type
/// is a number, and an empty projection stands for all columns.
#[derive(Debug, PartialEq, Eq)]
pub struct ArrowEdge {
    pub source: i32,
    pub target: i32,
    pub schema: Option<ArroyoSchema>,
    pub edge_type: i32,
    pub projection: Vec<u32>,
}

/// A program as the wire carries it.
#[derive(Debug, PartialEq, Eq)]
pub struct ArrowProgram {
    pub nodes: Vec<ArrowNode>,
    pub edges: Vec<ArrowEdge>,
    pub program_config: Option<ArrowProgramConfig>,
}

pub struct WireNodeView {
    pub node_index: i32,
    pub node_id: Seq<char>,
    pub parallelism: u32,
    pub description: Seq<char>,
    pub operator_name: Seq<char>,
    pub operator_config: Seq<u8>,
}

pub struct WireSchemaView {
    pub arrow_schema: Seq<char>,
    pub timestamp_index: u32,
    pub key_indices: Seq<u32>,
}

pub struct WireEdgeView {
    pub source: i32,
    pub target: i32,
    pub schema: Option<WireSchemaView>,
    pub edge_type: i32,
    pub projection: Seq<u32>,
}

pub struct WireProgramView {
    pub nodes: Seq<WireNodeView>,
    pub edges: Seq<WireEdgeView>,
    pub program_config: Option<Seq<UdfEntryView>>,
}

/// The content of a program in memory: its nodes and edges in the order of
/// their indices, and its registry of functions.
pub struct ProgramView {
    pub nodes: Seq<NodeView>,
    pub edges: Seq<EdgeLink>,
    pub config: Seq<UdfEntryView>,
}

impl View for ArrowNode {
    type V = WireNodeView;

    open spec fn view(&self) -> WireNodeView {
        WireNodeView {
            node_index: self.node_index,
            node_id: self.node_id@,
            parallelism: self.parallelism,
            description: self.description@,
            operator_name: self.operator_name@,
            operator_config: self.operator_config@,
        }
    }
}

impl DeepView for ArrowNode {
    type V = WireNodeView;

    open spec fn deep_view(&self) -> WireNodeView {
        self@
    }
}

impl View for ArroyoSchema {
    type V = WireSchemaView;

    open spec fn view(&self) -> WireSchemaView {
        WireSchemaView {
            arrow_schema: self.arrow_schema@,
            timestamp_index: self.timestamp_index,
            key_indices: self.key_indices@,
        }
    }
}

/// The view of an optional wire schema.
pub open spec fn wire_schema_view(s: Option<ArroyoSchema>) -> Option<WireSchemaView> {
    match s {
        Some(s) => Some(s@),
        None => None,
    }
}

impl View for ArrowEdge {
    type V = WireEdgeView;

    open spec fn view(&self) -> WireEdgeView {
        WireEdgeView {
            source: self.source,
            target: self.target,
            schema: wire_schema_view(self.schema),
            edge_type: self.edge_type,
            projection: self.projection@,
        }
    }
}

impl DeepView for ArrowEdge {
    type V = WireEdgeView;

    open spec fn deep_view(&self) -> WireEdgeView {
        self@
    }
}

/// The view of an optional wire registry.
pub open spec fn wire_config_view(c: Option<ArrowProgramConfig>) -> Option<Seq<UdfEntryView>> {
    match c {
        Some(c) => Some(c@),
        None => None,
    }
}

impl View for ArrowProgram {
    type V = WireProgramView;

    open spec fn view(&self) -> WireProgramView {
        WireProgramView {
            nodes: self.nodes.deep_view(),
            edges: self.edges.deep_view(),
            program_config: wire_config_view(self.program_config),
        }
    }
}

impl ArrowEdge {
    /// The edge type that this edge's number is read as.
    pub fn edge_type(&self) -> (t: EdgeType)
        ensures
            t == edge_type_of_number(self.edge_type as int),
    {
        EdgeType::from_i32(self.edge_type)
    }
}

// ---------------------------------------------------------------------
// To the wire
// ---------------------------------------------------------------------

/// Every position of a list fits in 32 bits.
pub open spec fn indices_fit(indices: Seq<usize>) -> bool {
    forall|i: int| 0 <= i < indices.len() ==> indices[i] <= u32::MAX
}

/// An edge that the wire carries as it is: it joins two of the `nodes`
/// nodes, and the positions in its schema and projection fit in 32 bits.
pub open spec fn edge_within_wire(link: EdgeLink, nodes: int) -> bool {
    &&& 0 <= link.source < nodes
    &&& 0 <= link.target < nodes
    &&& link.edge.schema.timestamp_index <= u32::MAX
    &&& indices_fit(link.edge.schema.key_indices)
    &&& link.edge.projection matches Some(p) ==> indices_fit(p)
}

/// A program whose numbers the wire carries as they are: its nodes can be
/// numbered in 31 bits, every parallelism fits in 32 bits, and every edge
/// is one that the wire carries as it is.
pub open spec fn within_wire(p: ProgramView) -> bool {
    &&& p.nodes.len() <= i32::MAX
    &&& forall|i: int| 0 <= i < p.nodes.len() ==> (#[trigger] p.nodes[i]).parallelism <= u32::MAX
    &&& forall|i: int|
        0 <= i < p.edges.len() ==> edge_within_wire(#[trigger] p.edges[i], p.nodes.len() as int)
}

/// A list of positions as the wire writes it; each is written as it is
/// where it fits in 32 bits.
pub open spec fn narrow_indices(indices: Seq<usize>) -> Seq<u32> {
    Seq::new(indices.len(), |i: int| indices[i] as u32)
}

/// A list of positions as read from the wire.
pub open spec fn widen_indices(indices: Seq<u32>) -> Seq<usize> {
    Seq::new(indices.len(), |i: int| indices[i] as usize)
}

/// The wire form of the node at position `index`.
pub open spec fn encode_node(node: NodeView, index: int) -> WireNodeView {
    WireNodeView {
        node_index: index as i32,
        node_id: node.operator_id,
        parallelism: node.parallelism as u32,
        description: node.description,
        operator_name: operator_text(node.operator_name),
        operator_config: node.operator_config,
    }
}

/// The wire form of a schema.
pub open spec fn encode_schema(schema: SchemaView) -> WireSchemaView {
    WireSchemaView {
        arrow_schema: schema.schema,
        timestamp_index: schema.timestamp_index as u32,
        key_indices: narrow_indices(schema.key_indices),
    }
}

/// The wire form of an edge. A projection of all columns and a projection
/// of none are both written as the empty list.
pub open spec fn encode_edge(link: EdgeLink) -> WireEdgeView {
    WireEdgeView {
        source: link.source as i32,
        target: link.target as i32,
        schema: Some(encode_schema(link.edge.schema)),
        edge_type: edge_type_number(wire_edge_type(link.edge.edge_type)) as i32,
        projection: match link.edge.projection {
            Some(p) => narrow_indices(p),
            None => Seq::empty(),
        },
    }
}

/// The wire form of a program: its nodes, numbered by their positions, its
/// edges between those numbers, and its registry in the order of its
/// names.
pub open spec fn encode_program(p: ProgramView) -> WireProgramView {
    WireProgramView {
        nodes: Seq::new(p.nodes.len(), |i: int| encode_node(p.nodes[i], i)),
        edges: Seq::new(p.edges.len(), |i: int| encode_edge(p.edges[i])),
        program_config: Some(canonical(p.config)),
    }
}

// ---------------------------------------------------------------------
// From the wire
// ---------------------------------------------------------------------

/// The table from node index to position that the first `count` wire nodes
/// build. Of two nodes with one index the later one is found.
pub open spec fn index_table(nodes: Seq<WireNodeView>, count: int) -> Map<i32, usize>
    decreases count,
{
    if count <= 0 {
        Map::empty()
    } else {
        index_table(nodes, count - 1).insert(nodes[count - 1].node_index, (count - 1) as usize)
    }
}

/// The position of the first node from `from` on whose operator name names
/// no operator.
pub open spec fn first_bad_node(nodes: Seq<WireNodeView>, from: int) -> Option<int>
    decreases nodes.len() - from,
{
    if from < 0 || from >= nodes.len() {
        None
    } else if parse_operator(nodes[from].operator_name) is None {
        Some(from)
    } else {
        first_bad_node(nodes, from + 1)
    }
}

/// The node that a wire node stands for, where its operator name names an
/// operator.
pub open spec fn decode_node(node: WireNodeView) -> NodeView {
    NodeView {
        operator_id: node.node_id,
        description: node.description,
        operator_name: parse_operator(node.operator_name).unwrap(),
        operator_config: node.operator_config,
        parallelism: node.parallelism as usize,
    }
}

/// The schema that a wire schema stands for.
pub open spec fn decode_schema(schema: WireSchemaView) -> SchemaView {
    SchemaView {
        schema: schema.arrow_schema,
        timestamp_index: schema.timestamp_index as usize,
        key_indices: widen_indices(schema.key_indices),
    }
}

/// What a wire edge carries, where it has a schema and an edge type. An
/// empty projection is read as all columns.
pub open spec fn decode_edge_payload(edge: WireEdgeView) -> EdgeView {
    EdgeView {
        edge_type: logical_edge_type(edge_type_of_number(edge.edge_type as int)).unwrap(),
        schema: decode_schema(edge.schema.unwrap()),
        projection: if edge.projection.len() == 0 {
            None
        } else {
            Some(widen_indices(edge.projection))
        },
    }
}

/// What is wrong with a wire edge, if anything; the first of: a source that
/// no node carries, such a target, no schema, the sentinel edge type, a
/// fault of the schema or of the projection.
pub open spec fn edge_fault(edge: WireEdgeView, table: Map<i32, usize>) -> Option<ProgramFault> {
    if !table.contains_key(edge.source) {
        Some(ProgramFault::DanglingEdgeReference { index: edge.source as int })
    } else if !table.contains_key(edge.target) {
        Some(ProgramFault::DanglingEdgeReference { index: edge.target as int })
    } else if edge.schema is None {
        Some(ProgramFault::InvalidSchema { fault: SchemaFault::Missing })
    } else if edge_type_of_number(edge.edge_type as int) == EdgeType::Unused {
        Some(ProgramFault::SentinelEdgeType)
    } else {
        match decode_edge_payload(edge).fault() {
            Some(fault) => Some(ProgramFault::InvalidSchema { fault }),
            None => None,
        }
    }
}

/// The edge that a wire edge stands for, where nothing is wrong with it.
pub open spec fn decode_edge(edge: WireEdgeView, table: Map<i32, usize>) -> EdgeLink {
    EdgeLink {
        source: table[edge.source] as int,
        target: table[edge.target] as int,
        edge: decode_edge_payload(edge),
    }
}

/// The position of the first edge from `from` on with which something is
/// wrong.
pub open spec fn first_bad_edge(edges: Seq<WireEdgeView>, table: Map<i32, usize>, from: int) -> Option<
    int,
>
    decreases edges.len() - from,
{
    if from < 0 || from >= edges.len() {
        None
    } else if edge_fault(edges[from], table) is Some {
        Some(from)
    } else {
        first_bad_edge(edges, table, from + 1)
    }
}

/// The registry of a wire program; an absent one is empty.
pub open spec fn wire_registry(w: WireProgramView) -> Seq<UdfEntryView> {
    match w.program_config {
        Some(c) => c,
        None => Seq::empty(),
    }
}

/// What reading a program from the wire gives. The nodes are read first and
/// the first operator name that names no operator is rejected. Then the
/// edges are read against the table of node indices and the first fault of
/// the first faulty edge is reported. Then the registry is read.
pub open spec fn decode_program(w: WireProgramView) -> Result<ProgramView, ProgramFault> {
    match first_bad_node(w.nodes, 0) {
        Some(i) => Err(ProgramFault::UnknownOperator { name: w.nodes[i].operator_name }),
        None => {
            let table = index_table(w.nodes, w.nodes.len() as int);
            match first_bad_edge(w.edges, table, 0) {
                Some(i) => Err(edge_fault(w.edges[i], table).unwrap()),
                None => match decode_config(wire_registry(w)) {
                    Err(fault) => Err(fault),
                    Ok(config) => Ok(
                        ProgramView {
                            nodes: Seq::new(w.nodes.len(), |i: int| decode_node(w.nodes[i])),
                            edges: Seq::new(w.edges.len(), |i: int| decode_edge(w.edges[i], table)),
                            config,
                        },
                    ),
                },
            }
        },
    }
}

} // verus!
