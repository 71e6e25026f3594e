use arrow_schema::{DataType, Field, Schema};
use arroyo_datastream::{
    ArroyoSchema, LogicalEdge, LogicalEdgeType, LogicalNode, OperatorName, ProgramError,
    SchemaFault,
};

fn three_fields() -> Schema {
    Schema::new(vec![
        Field::new("id", DataType::Int64, false),
        Field::new("name", DataType::Utf8, true),
        Field::new("_timestamp", DataType::Int64, false),
    ])
}

fn text() -> String {
    serde_json::to_string(&three_fields()).unwrap()
}

#[test]
fn schema_from_arrow_keeps_indices_and_counts_fields() {
    let schema = ArroyoSchema::from_arrow(&three_fields(), 2, vec![0, 1]).unwrap();
    assert_eq!(schema.timestamp_index, 2);
    assert_eq!(schema.key_indices, vec![0, 1]);
    assert_eq!(schema.check(), Ok(3));
    let back: Schema = serde_json::from_str(&schema.schema).unwrap();
    assert_eq!(back, three_fields());
}

#[test]
fn schema_from_arrow_rejects_indices_past_the_fields() {
    assert_eq!(
        ArroyoSchema::from_arrow(&three_fields(), 3, vec![]),
        Err(ProgramError::InvalidSchema { fault: SchemaFault::TimestampIndex(3) })
    );
    assert_eq!(
        ArroyoSchema::from_arrow(&three_fields(), 0, vec![1, 7, 9]),
        Err(ProgramError::InvalidSchema { fault: SchemaFault::KeyIndex(7) })
    );
}

#[test]
fn schema_from_text_is_the_schema_or_its_first_fault() {
    let good = ArroyoSchema::from_text(text(), 2, vec![1, 0]).unwrap();
    assert_eq!(good, ArroyoSchema::new(text(), 2, vec![1, 0]));
    assert_eq!(
        ArroyoSchema::from_text("nonsense".to_string(), 0, vec![]),
        Err(ProgramError::InvalidSchema { fault: SchemaFault::Malformed })
    );
    assert_eq!(
        ArroyoSchema::from_text(text(), 3, vec![9]),
        Err(ProgramError::InvalidSchema { fault: SchemaFault::TimestampIndex(3) })
    );
    assert_eq!(
        ArroyoSchema::from_text(text(), 0, vec![2, 3, 4]),
        Err(ProgramError::InvalidSchema { fault: SchemaFault::KeyIndex(3) })
    );
}

#[test]
fn schema_check_counts_the_fields_of_the_text() {
    assert_eq!(ArroyoSchema::new(text(), 0, vec![]).check(), Ok(3));
    let empty = serde_json::to_string(&Schema::empty()).unwrap();
    assert_eq!(
        ArroyoSchema::new(empty, 0, vec![]).check(),
        Err(SchemaFault::TimestampIndex(0))
    );
}

#[test]
fn schema_check_rejects_text_that_is_no_schema() {
    for bad in ["", "not json", "{}", "[1, 2, 3]", "{\"fields\": 3}"] {
        assert_eq!(
            ArroyoSchema::new(bad.to_string(), 0, vec![]).check(),
            Err(SchemaFault::Malformed)
        );
    }
}

#[test]
fn schema_check_reports_the_first_fault() {
    assert_eq!(
        ArroyoSchema::new(text(), 3, vec![5]).check(),
        Err(SchemaFault::TimestampIndex(3))
    );
    assert_eq!(ArroyoSchema::new(text(), 2, vec![0, 4, 5]).check(), Err(SchemaFault::KeyIndex(4)));
    assert_eq!(ArroyoSchema::new(text(), 2, vec![2, 2, 0]).check(), Ok(3));
}

#[test]
fn edge_constructors_keep_their_parts() {
    let schema = ArroyoSchema::new(text(), 2, vec![0]);
    let edge = LogicalEdge::new(LogicalEdgeType::Shuffle, schema.clone(), Some(vec![2, 0]));
    assert_eq!(edge.edge_type, LogicalEdgeType::Shuffle);
    assert_eq!(edge.schema, schema);
    assert_eq!(edge.projection, Some(vec![2, 0]));
    let all = LogicalEdge::project_all(LogicalEdgeType::LeftJoin, schema.clone());
    assert_eq!(all.edge_type, LogicalEdgeType::LeftJoin);
    assert_eq!(all.schema, schema);
    assert_eq!(all.projection, None);
    assert_eq!(all.clone(), all);
}

#[test]
fn edge_check_covers_the_projection() {
    let schema = ArroyoSchema::new(text(), 2, vec![0]);
    let good = LogicalEdge::new(LogicalEdgeType::Forward, schema.clone(), Some(vec![0, 1, 2]));
    assert_eq!(good.check(), Ok(3));
    let bad = LogicalEdge::new(LogicalEdgeType::Forward, schema.clone(), Some(vec![1, 3, 8]));
    assert_eq!(bad.check(), Err(SchemaFault::ProjectionIndex(3)));
    let worse = LogicalEdge::new(
        LogicalEdgeType::Forward,
        ArroyoSchema::new(text(), 9, vec![0]),
        Some(vec![8]),
    );
    assert_eq!(worse.check(), Err(SchemaFault::TimestampIndex(9)));
    let none = LogicalEdge::new(LogicalEdgeType::Forward, schema, Some(vec![]));
    assert_eq!(none.check(), Ok(3));
}

#[test]
fn node_is_shown_by_description_and_debugged_by_id() {
    let node = LogicalNode {
        operator_id: "op_7".to_string(),
        description: "tumbling count".to_string(),
        operator_name: OperatorName::TumblingWindowAggregate,
        operator_config: vec![9, 9],
        parallelism: 3,
    };
    assert_eq!(node.to_string(), "tumbling count");
    assert_eq!(node.debug_string(), "op_7");
    assert_eq!(node.clone(), node);
}
