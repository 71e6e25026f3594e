use arrow_schema::{DataType, Field, Schema};
use arroyo_datastream::{
    ArroyoSchema, LogicalEdge, LogicalEdgeType, LogicalGraph, LogicalNode, LogicalProgram,
    OperatorName, ProgramConfig, StringHashMap,
};

fn schema() -> ArroyoSchema {
    let fields = Schema::new(vec![
        Field::new("id", DataType::Int64, false),
        Field::new("_timestamp", DataType::Int64, false),
    ]);
    ArroyoSchema::from_arrow(&fields, 1, vec![0]).unwrap()
}

fn node(id: &str, operator_name: OperatorName, parallelism: usize) -> LogicalNode {
    LogicalNode {
        operator_id: id.to_string(),
        description: format!("{} operator", id),
        operator_name,
        operator_config: vec![1, 2, 3],
        parallelism,
    }
}

fn pipeline() -> LogicalProgram {
    let mut graph = LogicalGraph::new();
    let src = graph.add_node(node("src", OperatorName::ConnectorSource, 2));
    let agg = graph.add_node(node("agg", OperatorName::TumblingWindowAggregate, 4));
    let sink = graph.add_node(node("sink", OperatorName::ConnectorSink, 1));
    graph.add_edge(src, agg, LogicalEdge::project_all(LogicalEdgeType::Forward, schema()));
    graph.add_edge(agg, sink, LogicalEdge::project_all(LogicalEdgeType::Forward, schema()));
    LogicalProgram { graph, program_config: ProgramConfig::new() }
}

#[test]
fn pipeline_task_count_sources_and_tasks() {
    let program = pipeline();
    assert_eq!(program.task_count(), 7);
    assert_eq!(program.sources(), vec!["src".to_string()]);
    let tasks = program.tasks_per_operator();
    assert_eq!(tasks.len(), 3);
    assert_eq!(tasks.get("src"), Some(&2));
    assert_eq!(tasks.get("agg"), Some(&4));
    assert_eq!(tasks.get("sink"), Some(&1));
}

#[test]
fn update_parallelism_touches_only_named_operators() {
    let mut program = pipeline();
    let mut overrides = StringHashMap::new();
    overrides.insert("agg".to_string(), 8);
    program.update_parallelism(&overrides);
    assert_eq!(program.task_count(), 11);
    let tasks = program.tasks_per_operator();
    assert_eq!(tasks.get("agg"), Some(&8));
    assert_eq!(tasks.get("src"), Some(&2));
    assert_eq!(tasks.get("sink"), Some(&1));
    assert_eq!(program.sources(), vec!["src".to_string()]);
}

#[test]
fn empty_program_has_no_tasks_and_no_sources() {
    let program = LogicalProgram { graph: LogicalGraph::new(), program_config: ProgramConfig::new() };
    assert_eq!(program.task_count(), 0);
    assert_eq!(program.sources(), Vec::<String>::new());
    assert_eq!(program.tasks_per_operator().len(), 0);
}

#[test]
fn sources_are_the_nodes_that_no_edge_enters() {
    let mut graph = LogicalGraph::new();
    let a = graph.add_node(node("a", OperatorName::ConnectorSource, 1));
    let b = graph.add_node(node("b", OperatorName::Join, 1));
    let c = graph.add_node(node("c", OperatorName::ConnectorSource, 1));
    let d = graph.add_node(node("d", OperatorName::ConnectorSink, 1));
    let _lonely = graph.add_node(node("e", OperatorName::ArrowValue, 1));
    graph.add_edge(a, b, LogicalEdge::project_all(LogicalEdgeType::LeftJoin, schema()));
    graph.add_edge(c, b, LogicalEdge::project_all(LogicalEdgeType::RightJoin, schema()));
    graph.add_edge(b, d, LogicalEdge::project_all(LogicalEdgeType::Forward, schema()));
    graph.add_edge(b, d, LogicalEdge::project_all(LogicalEdgeType::Shuffle, schema()));
    let program = LogicalProgram { graph, program_config: ProgramConfig::new() };
    assert_eq!(program.sources(), vec!["a".to_string(), "c".to_string(), "e".to_string()]);
}

#[test]
fn a_cycle_has_no_sources() {
    let mut graph = LogicalGraph::new();
    let a = graph.add_node(node("a", OperatorName::ArrowValue, 1));
    let b = graph.add_node(node("b", OperatorName::ArrowValue, 1));
    let c = graph.add_node(node("c", OperatorName::ArrowValue, 1));
    graph.add_edge(a, b, LogicalEdge::project_all(LogicalEdgeType::Forward, schema()));
    graph.add_edge(b, a, LogicalEdge::project_all(LogicalEdgeType::Forward, schema()));
    graph.add_edge(c, c, LogicalEdge::project_all(LogicalEdgeType::Forward, schema()));
    let program = LogicalProgram { graph, program_config: ProgramConfig::new() };
    assert_eq!(program.sources(), Vec::<String>::new());
}

#[test]
fn update_parallelism_with_the_same_values_changes_nothing() {
    let mut program = pipeline();
    let before = program.to_wire();
    let mut overrides = StringHashMap::new();
    overrides.insert("src".to_string(), 2);
    overrides.insert("agg".to_string(), 4);
    overrides.insert("sink".to_string(), 1);
    program.update_parallelism(&overrides);
    assert_eq!(program.to_wire(), before);
    program.update_parallelism(&StringHashMap::new());
    assert_eq!(program.to_wire(), before);
}

#[test]
fn update_parallelism_twice_is_as_once() {
    let mut overrides = StringHashMap::new();
    overrides.insert("agg".to_string(), 8);
    overrides.insert("sink".to_string(), 3);
    overrides.insert("nobody".to_string(), 99);
    let mut once = pipeline();
    once.update_parallelism(&overrides);
    let mut twice = pipeline();
    twice.update_parallelism(&overrides);
    twice.update_parallelism(&overrides);
    assert_eq!(once.to_wire(), twice.to_wire());
    assert_eq!(once.task_count(), 13);
    assert_eq!(once.tasks_per_operator().get("nobody"), None);
}

#[test]
fn update_parallelism_reaches_every_node_of_an_id() {
    let mut graph = LogicalGraph::new();
    graph.add_node(node("twin", OperatorName::ArrowValue, 1));
    graph.add_node(node("other", OperatorName::ArrowValue, 2));
    graph.add_node(node("twin", OperatorName::ArrowKey, 3));
    let mut program = LogicalProgram { graph, program_config: ProgramConfig::new() };
    assert_eq!(program.tasks_per_operator().len(), 2);
    assert_eq!(program.tasks_per_operator().get("twin"), Some(&3));
    let mut overrides = StringHashMap::new();
    overrides.insert("twin".to_string(), 10);
    program.update_parallelism(&overrides);
    assert_eq!(program.task_count(), 22);
    let wire = program.to_wire();
    assert_eq!(wire.nodes[0].parallelism, 10);
    assert_eq!(wire.nodes[1].parallelism, 2);
    assert_eq!(wire.nodes[2].parallelism, 10);
}

#[test]
fn clone_is_a_program_of_its_own() {
    let program = pipeline();
    let mut copy = program.clone();
    let mut overrides = StringHashMap::new();
    overrides.insert("src".to_string(), 5);
    copy.update_parallelism(&overrides);
    assert_eq!(program.task_count(), 7);
    assert_eq!(copy.task_count(), 10);
}

#[test]
fn checked_task_count_is_none_where_the_sum_is_too_large() {
    assert_eq!(pipeline().checked_task_count(), Some(7));
    let mut graph = LogicalGraph::new();
    graph.add_node(node("a", OperatorName::ArrowValue, usize::MAX));
    let fits = LogicalProgram { graph: graph.clone(), program_config: ProgramConfig::new() };
    assert_eq!(fits.checked_task_count(), Some(usize::MAX));
    assert_eq!(fits.task_count(), usize::MAX);
    graph.add_node(node("b", OperatorName::ArrowValue, 1));
    let too_large = LogicalProgram { graph, program_config: ProgramConfig::new() };
    assert_eq!(too_large.checked_task_count(), None);
}

#[test]
fn sources_name_each_root_once() {
    let mut graph = LogicalGraph::new();
    for id in ["a", "b", "c", "d"] {
        graph.add_node(node(id, OperatorName::ArrowValue, 1));
    }
    let program = LogicalProgram { graph, program_config: ProgramConfig::new() };
    let sources = program.sources();
    assert_eq!(sources.len(), 4);
    for (i, id) in sources.iter().enumerate() {
        assert!(!sources[i + 1..].contains(id));
    }
}
