use arrow_schema::{DataType, Field, Schema};
use arroyo_datastream::wire;
use arroyo_datastream::{
    ArrowDylibUdfConfig, ArrowEdge, ArrowNode, ArrowProgram, ArrowProgramConfig, ArrowUdfEntry,
    ArroyoSchema, DylibUdfConfig, LogicalEdge, LogicalEdgeType, LogicalGraph, LogicalNode,
    LogicalProgram, OperatorName, ProgramConfig, ProgramError, SchemaFault,
};
use petgraph::graph::{EdgeIndex, NodeIndex};

fn schema_text() -> String {
    serde_json::to_string(&Schema::new(vec![
        Field::new("id", DataType::Int64, false),
        Field::new("_timestamp", DataType::Int64, false),
    ]))
    .unwrap()
}

fn schema() -> ArroyoSchema {
    ArroyoSchema::new(schema_text(), 1, vec![0])
}

fn node(id: &str, operator_name: OperatorName, parallelism: usize) -> LogicalNode {
    LogicalNode {
        operator_id: id.to_string(),
        description: format!("{} operator", id),
        operator_name,
        operator_config: id.as_bytes().to_vec(),
        parallelism,
    }
}

fn joined() -> LogicalProgram {
    let mut graph = LogicalGraph::new();
    let left = graph.add_node(node("left", OperatorName::ConnectorSource, 2));
    let right = graph.add_node(node("right", OperatorName::ConnectorSource, 3));
    let join = graph.add_node(node("join", OperatorName::Join, 4));
    let sink = graph.add_node(node("sink", OperatorName::ConnectorSink, 1));
    graph.add_edge(left, join, LogicalEdge::project_all(LogicalEdgeType::LeftJoin, schema()));
    graph.add_edge(right, join, LogicalEdge::project_all(LogicalEdgeType::RightJoin, schema()));
    graph.add_edge(join, sink, LogicalEdge::new(LogicalEdgeType::Shuffle, schema(), Some(vec![1, 0])));
    graph.add_edge(join, sink, LogicalEdge::new(LogicalEdgeType::Forward, schema(), Some(vec![0])));
    let mut program_config = ProgramConfig::new();
    program_config.insert(
        "my_sqr".to_string(),
        DylibUdfConfig {
            dylib_path: "/lib/sqr.so".to_string(),
            arg_types: vec![vec![0x52, 0x00]],
            return_type: vec![0x52, 0x00],
        },
    );
    LogicalProgram { graph, program_config }
}

fn assert_same(a: &LogicalProgram, b: &LogicalProgram) {
    assert_eq!(a.graph.node_count(), b.graph.node_count());
    assert_eq!(a.graph.edge_count(), b.graph.edge_count());
    for i in 0..a.graph.node_count() {
        assert_eq!(a.graph.node_weight(NodeIndex::new(i)), b.graph.node_weight(NodeIndex::new(i)));
    }
    for i in 0..a.graph.edge_count() {
        assert_eq!(
            a.graph.edge_endpoints(EdgeIndex::new(i)),
            b.graph.edge_endpoints(EdgeIndex::new(i))
        );
        assert_eq!(a.graph.edge_weight(EdgeIndex::new(i)), b.graph.edge_weight(EdgeIndex::new(i)));
    }
    assert_eq!(a.program_config, b.program_config);
}

fn wire_node(index: i32, id: &str, operator_name: &str) -> ArrowNode {
    ArrowNode {
        node_index: index,
        node_id: id.to_string(),
        parallelism: 2,
        description: String::new(),
        operator_name: operator_name.to_string(),
        operator_config: vec![],
    }
}

fn wire_schema() -> wire::ArroyoSchema {
    wire::ArroyoSchema { arrow_schema: schema_text(), timestamp_index: 1, key_indices: vec![0] }
}

fn wire_edge(source: i32, target: i32) -> ArrowEdge {
    ArrowEdge { source, target, schema: Some(wire_schema()), edge_type: 1, projection: vec![] }
}

fn two_nodes(edges: Vec<ArrowEdge>) -> ArrowProgram {
    ArrowProgram {
        nodes: vec![wire_node(10, "a", "ConnectorSource"), wire_node(20, "b", "ConnectorSink")],
        edges,
        program_config: None,
    }
}

fn error_of(program: ArrowProgram) -> ProgramError {
    LogicalProgram::try_from(program).unwrap_err()
}

#[test]
fn wire_form_numbers_nodes_by_position() {
    let wire = joined().to_wire();
    assert_eq!(wire.nodes.len(), 4);
    assert_eq!(wire.edges.len(), 4);
    for (i, n) in wire.nodes.iter().enumerate() {
        assert_eq!(n.node_index, i as i32);
    }
    assert_eq!(wire.nodes[2].node_id, "join");
    assert_eq!(wire.nodes[2].description, "join operator");
    assert_eq!(wire.nodes[2].operator_name, "Join");
    assert_eq!(wire.nodes[2].operator_config, b"join".to_vec());
    assert_eq!(wire.nodes[2].parallelism, 4);
    let ends: Vec<(i32, i32, i32)> =
        wire.edges.iter().map(|e| (e.source, e.target, e.edge_type)).collect();
    assert_eq!(ends, vec![(0, 2, 3), (1, 2, 4), (2, 3, 2), (2, 3, 1)]);
    assert_eq!(wire.edges[0].projection, Vec::<u32>::new());
    assert_eq!(wire.edges[2].projection, vec![1, 0]);
    assert_eq!(wire.edges[0].schema, Some(wire_schema()));
    let config = wire.program_config.unwrap();
    assert_eq!(config.udf_dylibs.len(), 1);
    assert_eq!(config.udf_dylibs[0].name, "my_sqr");
}

#[test]
fn from_consumes_the_program_and_gives_the_same_wire_form() {
    assert_eq!(ArrowProgram::from(joined()), joined().to_wire());
}

#[test]
fn program_round_trips_through_the_wire() {
    let program = joined();
    let back = LogicalProgram::try_from(program.to_wire()).unwrap();
    assert_same(&program, &back);
    assert_eq!(back.to_wire(), program.to_wire());
}

#[test]
fn empty_program_round_trips() {
    let program = LogicalProgram { graph: LogicalGraph::new(), program_config: ProgramConfig::new() };
    let wire = program.to_wire();
    assert_eq!(wire.nodes.len(), 0);
    assert_eq!(wire.edges.len(), 0);
    assert_eq!(wire.program_config, Some(ArrowProgramConfig { udf_dylibs: vec![] }));
    assert_same(&program, &LogicalProgram::try_from(wire).unwrap());
}

#[test]
fn projection_of_no_columns_comes_back_as_all() {
    let mut graph = LogicalGraph::new();
    let a = graph.add_node(node("a", OperatorName::ConnectorSource, 1));
    let b = graph.add_node(node("b", OperatorName::ConnectorSink, 1));
    graph.add_edge(a, b, LogicalEdge::new(LogicalEdgeType::Forward, schema(), Some(vec![])));
    let program = LogicalProgram { graph, program_config: ProgramConfig::new() };
    let back = LogicalProgram::try_from(program.to_wire()).unwrap();
    let edge = back.graph.edge_weight(EdgeIndex::new(0)).unwrap();
    assert_eq!(edge.projection, None);
    assert_eq!(edge.schema, schema());
    assert_eq!(edge.edge_type, LogicalEdgeType::Forward);
}

#[test]
fn node_indices_with_gaps_are_renumbered() {
    let program = LogicalProgram::try_from(two_nodes(vec![wire_edge(10, 20), wire_edge(20, 10)]))
        .unwrap();
    assert_eq!(program.graph.node_count(), 2);
    assert_eq!(
        program.graph.edge_endpoints(EdgeIndex::new(0)),
        Some((NodeIndex::new(0), NodeIndex::new(1)))
    );
    assert_eq!(
        program.graph.edge_endpoints(EdgeIndex::new(1)),
        Some((NodeIndex::new(1), NodeIndex::new(0)))
    );
    assert_eq!(program.graph.node_weight(NodeIndex::new(1)).unwrap().operator_id, "b");
    assert_eq!(program.graph.node_weight(NodeIndex::new(1)).unwrap().parallelism, 2);
    assert_eq!(program.program_config, ProgramConfig::new());
    let wire = program.to_wire();
    assert_eq!((wire.edges[0].source, wire.edges[0].target), (0, 1));
}

#[test]
fn later_node_of_an_index_is_the_one_that_edges_find() {
    let mut wire = two_nodes(vec![wire_edge(10, 20)]);
    wire.nodes.push(wire_node(10, "c", "Join"));
    let program = LogicalProgram::try_from(wire).unwrap();
    assert_eq!(
        program.graph.edge_endpoints(EdgeIndex::new(0)),
        Some((NodeIndex::new(2), NodeIndex::new(1)))
    );
}

#[test]
fn dangling_source_is_rejected_with_its_index() {
    assert_eq!(
        error_of(two_nodes(vec![wire_edge(10, 20), wire_edge(99, 20)])),
        ProgramError::DanglingEdgeReference { index: 99 }
    );
}

#[test]
fn dangling_target_is_rejected_with_its_index() {
    assert_eq!(
        error_of(two_nodes(vec![wire_edge(10, -3)])),
        ProgramError::DanglingEdgeReference { index: -3 }
    );
    assert_eq!(
        error_of(two_nodes(vec![wire_edge(0, 1)])),
        ProgramError::DanglingEdgeReference { index: 0 }
    );
}

#[test]
fn sentinel_edge_type_on_the_wire_is_rejected() {
    let mut edge = wire_edge(10, 20);
    edge.edge_type = 0;
    assert_eq!(error_of(two_nodes(vec![edge])), ProgramError::SentinelEdgeType);
    let mut unknown = wire_edge(10, 20);
    unknown.edge_type = 17;
    assert_eq!(error_of(two_nodes(vec![unknown])), ProgramError::SentinelEdgeType);
}

#[test]
fn unknown_operator_on_the_wire_is_rejected_with_its_name() {
    let mut wire = two_nodes(vec![wire_edge(99, 20)]);
    wire.nodes[1].operator_name = "Teleport".to_string();
    assert_eq!(error_of(wire), ProgramError::UnknownOperator { name: "Teleport".to_string() });
}

#[test]
fn missing_schema_is_rejected() {
    let mut edge = wire_edge(10, 20);
    edge.schema = None;
    assert_eq!(
        error_of(two_nodes(vec![edge])),
        ProgramError::InvalidSchema { fault: SchemaFault::Missing }
    );
}

#[test]
fn malformed_schema_is_rejected() {
    let mut edge = wire_edge(10, 20);
    edge.schema = Some(wire::ArroyoSchema {
        arrow_schema: "{\"fields\":".to_string(),
        timestamp_index: 0,
        key_indices: vec![],
    });
    assert_eq!(
        error_of(two_nodes(vec![edge])),
        ProgramError::InvalidSchema { fault: SchemaFault::Malformed }
    );
}

#[test]
fn schema_indices_out_of_range_are_rejected_with_the_index() {
    let mut timestamp = wire_edge(10, 20);
    timestamp.schema.as_mut().unwrap().timestamp_index = 2;
    assert_eq!(
        error_of(two_nodes(vec![timestamp])),
        ProgramError::InvalidSchema { fault: SchemaFault::TimestampIndex(2) }
    );
    let mut key = wire_edge(10, 20);
    key.schema.as_mut().unwrap().key_indices = vec![1, 0, 5];
    assert_eq!(
        error_of(two_nodes(vec![key])),
        ProgramError::InvalidSchema { fault: SchemaFault::KeyIndex(5) }
    );
    let mut projection = wire_edge(10, 20);
    projection.projection = vec![0, 4];
    assert_eq!(
        error_of(two_nodes(vec![projection])),
        ProgramError::InvalidSchema { fault: SchemaFault::ProjectionIndex(4) }
    );
}

#[test]
fn first_fault_of_the_first_faulty_edge_is_reported() {
    let mut both = wire_edge(99, 20);
    both.edge_type = 0;
    both.schema = None;
    assert_eq!(
        error_of(two_nodes(vec![both])),
        ProgramError::DanglingEdgeReference { index: 99 }
    );
    let mut no_schema = wire_edge(10, 20);
    no_schema.edge_type = 0;
    no_schema.schema = None;
    assert_eq!(
        error_of(two_nodes(vec![no_schema])),
        ProgramError::InvalidSchema { fault: SchemaFault::Missing }
    );
    let mut sentinel = wire_edge(10, 20);
    sentinel.edge_type = 0;
    sentinel.projection = vec![9];
    assert_eq!(error_of(two_nodes(vec![sentinel, wire_edge(1, 2)])), ProgramError::SentinelEdgeType);
}

#[test]
fn bad_udf_type_on_the_wire_is_rejected_with_the_name() {
    let mut wire = two_nodes(vec![wire_edge(10, 20)]);
    wire.program_config = Some(ArrowProgramConfig {
        udf_dylibs: vec![ArrowUdfEntry {
            name: "broken".to_string(),
            config: ArrowDylibUdfConfig {
                dylib_path: "/lib/x.so".to_string(),
                arg_types: vec![vec![0xff]],
                return_type: vec![],
            },
        }],
    });
    assert_eq!(error_of(wire), ProgramError::InvalidUdfType { udf: "broken".to_string() });
}

#[test]
fn numbers_wider_than_the_wire_are_refused() {
    let wide = (u32::MAX as usize).checked_add(1);
    if let Some(wide) = wide {
        let mut graph = LogicalGraph::new();
        graph.add_node(node("a", OperatorName::ArrowValue, wide));
        let program = LogicalProgram { graph, program_config: ProgramConfig::new() };
        assert!(!program.is_within_wire());
        assert_eq!(program.try_to_wire(), Err(ProgramError::ExceedsWire));
        assert_eq!(program.try_get_hash(), Err(ProgramError::ExceedsWire));

        let mut graph = LogicalGraph::new();
        let a = graph.add_node(node("a", OperatorName::ArrowValue, 1));
        let mut keyed = schema();
        keyed.key_indices = vec![0, wide];
        graph.add_edge(a, a, LogicalEdge::project_all(LogicalEdgeType::Forward, keyed));
        let program = LogicalProgram { graph, program_config: ProgramConfig::new() };
        assert_eq!(program.try_to_wire(), Err(ProgramError::ExceedsWire));

        let mut graph = LogicalGraph::new();
        let a = graph.add_node(node("a", OperatorName::ArrowValue, 1));
        graph.add_edge(a, a, LogicalEdge::new(LogicalEdgeType::Forward, schema(), Some(vec![wide])));
        let program = LogicalProgram { graph, program_config: ProgramConfig::new() };
        assert_eq!(program.try_to_wire(), Err(ProgramError::ExceedsWire));
    }
}

#[test]
fn checked_wire_form_is_the_wire_form() {
    assert!(joined().is_within_wire());
    assert_eq!(joined().try_to_wire(), Ok(joined().to_wire()));
    assert_eq!(joined().try_get_hash(), Ok(joined().get_hash()));
}

#[test]
fn widest_parallelism_that_fits_goes_to_the_wire_as_it_is() {
    let mut graph = LogicalGraph::new();
    graph.add_node(node("a", OperatorName::ArrowValue, u32::MAX as usize));
    let program = LogicalProgram { graph, program_config: ProgramConfig::new() };
    assert_eq!(program.to_wire().nodes[0].parallelism, u32::MAX);
    let back = LogicalProgram::try_from(program.to_wire()).unwrap();
    assert_eq!(back.graph.node_weight(NodeIndex::new(0)).unwrap().parallelism, u32::MAX as usize);
}
