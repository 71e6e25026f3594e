use arrow_schema::{DataType, Field, Schema};
use arroyo_datastream::{
    ArroyoSchema, JobEdge, JobGraph, JobNode, LogicalEdge, LogicalEdgeType, LogicalGraph,
    LogicalNode, LogicalProgram, OperatorName, ProgramConfig,
};

fn schema() -> ArroyoSchema {
    let fields = Schema::new(vec![Field::new("_timestamp", DataType::Int64, false)]);
    ArroyoSchema::from_arrow(&fields, 0, vec![]).unwrap()
}

fn node(id: &str, description: &str, parallelism: usize) -> LogicalNode {
    LogicalNode {
        operator_id: id.to_string(),
        description: description.to_string(),
        operator_name: OperatorName::ArrowValue,
        operator_config: vec![],
        parallelism,
    }
}

fn job_edge(src: &str, dest: &str, edge_type: &str) -> JobEdge {
    JobEdge {
        src_id: src.to_string(),
        dest_id: dest.to_string(),
        key_type: "()".to_string(),
        value_type: "()".to_string(),
        edge_type: edge_type.to_string(),
    }
}

#[test]
fn job_graph_shows_ids_descriptions_and_edge_type_names() {
    let mut graph = LogicalGraph::new();
    let a = graph.add_node(node("a", "reads", 2));
    let b = graph.add_node(node("b", "joins", 4));
    let c = graph.add_node(node("c", "writes", 1));
    graph.add_edge(a, b, LogicalEdge::project_all(LogicalEdgeType::LeftJoin, schema()));
    graph.add_edge(a, b, LogicalEdge::project_all(LogicalEdgeType::RightJoin, schema()));
    graph.add_edge(b, c, LogicalEdge::new(LogicalEdgeType::Shuffle, schema(), Some(vec![0])));
    graph.add_edge(c, c, LogicalEdge::project_all(LogicalEdgeType::Forward, schema()));
    let program = LogicalProgram { graph, program_config: ProgramConfig::new() };
    assert_eq!(
        program.as_job_graph(),
        JobGraph {
            nodes: vec![
                JobNode { node_id: "a".to_string(), operator: "reads".to_string(), parallelism: 2 },
                JobNode { node_id: "b".to_string(), operator: "joins".to_string(), parallelism: 4 },
                JobNode { node_id: "c".to_string(), operator: "writes".to_string(), parallelism: 1 },
            ],
            edges: vec![
                job_edge("a", "b", "LeftJoin"),
                job_edge("a", "b", "RightJoin"),
                job_edge("b", "c", "Shuffle"),
                job_edge("c", "c", "Forward"),
            ],
        }
    );
}

#[test]
fn job_graph_carries_parallelism_in_full() {
    let mut graph = LogicalGraph::new();
    graph.add_node(node("a", "reads", usize::MAX));
    let program = LogicalProgram { graph, program_config: ProgramConfig::new() };
    assert_eq!(program.as_job_graph().nodes[0].parallelism, usize::MAX);
}

#[test]
fn job_graph_of_an_empty_program_is_empty() {
    let program = LogicalProgram { graph: LogicalGraph::new(), program_config: ProgramConfig::new() };
    assert_eq!(program.as_job_graph(), JobGraph { nodes: vec![], edges: vec![] });
}
