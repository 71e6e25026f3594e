use arroyo_datastream::{EdgeType, LogicalEdgeType, OperatorName, ProgramError};

fn all_operators() -> Vec<(OperatorName, &'static str)> {
    vec![
        (OperatorName::ExpressionWatermark, "ExpressionWatermark"),
        (OperatorName::ArrowValue, "ArrowValue"),
        (OperatorName::ArrowKey, "ArrowKey"),
        (OperatorName::ArrowAggregate, "ArrowAggregate"),
        (OperatorName::Join, "Join"),
        (OperatorName::InstantJoin, "InstantJoin"),
        (OperatorName::TumblingWindowAggregate, "TumblingWindowAggregate"),
        (OperatorName::SlidingWindowAggregate, "SlidingWindowAggregate"),
        (OperatorName::SessionWindowAggregate, "SessionWindowAggregate"),
        (OperatorName::ConnectorSource, "ConnectorSource"),
        (OperatorName::ConnectorSink, "ConnectorSink"),
    ]
}

#[test]
fn operator_names_have_their_canonical_text() {
    for (op, text) in all_operators() {
        assert_eq!(op.to_string(), text);
    }
}

#[test]
fn operator_names_round_trip_through_text() {
    for (op, text) in all_operators() {
        assert_eq!(OperatorName::try_from(text), Ok(op));
        assert_eq!(OperatorName::try_from(op.to_string().as_str()), Ok(op));
    }
}

#[test]
fn unknown_operator_text_is_rejected_with_the_text() {
    for text in ["", "join", "JOIN", "Join ", " Join", "ArrowValues", "Sink", "ConnectorSourc"] {
        assert_eq!(
            OperatorName::try_from(text),
            Err(ProgramError::UnknownOperator { name: text.to_string() })
        );
    }
}

#[test]
fn edge_types_go_to_the_wire_and_back() {
    let pairs = [
        (LogicalEdgeType::Forward, EdgeType::Forward, 1),
        (LogicalEdgeType::Shuffle, EdgeType::Shuffle, 2),
        (LogicalEdgeType::LeftJoin, EdgeType::LeftJoin, 3),
        (LogicalEdgeType::RightJoin, EdgeType::RightJoin, 4),
    ];
    for (logical, wire, number) in pairs {
        assert_eq!(EdgeType::from(logical), wire);
        assert_eq!(LogicalEdgeType::try_from(wire), Ok(logical));
        assert_eq!(wire.to_i32(), number);
        assert_eq!(EdgeType::from_i32(number), wire);
    }
}

#[test]
fn sentinel_edge_type_is_rejected() {
    assert_eq!(LogicalEdgeType::try_from(EdgeType::Unused), Err(ProgramError::SentinelEdgeType));
    assert_eq!(EdgeType::Unused.to_i32(), 0);
    assert_eq!(EdgeType::from_i32(0), EdgeType::Unused);
}

#[test]
fn numbers_of_no_edge_type_read_as_the_sentinel() {
    for number in [-1, 5, 9, i32::MAX, i32::MIN] {
        assert_eq!(EdgeType::from_i32(number), EdgeType::Unused);
    }
}

#[test]
fn edge_types_have_distinct_glyphs() {
    assert_eq!(LogicalEdgeType::Forward.to_string(), "→");
    assert_eq!(LogicalEdgeType::Shuffle.to_string(), "⤨");
    assert_eq!(LogicalEdgeType::LeftJoin.to_string(), "-[left]⤨");
    assert_eq!(LogicalEdgeType::RightJoin.to_string(), "-[right]⤨");
}

#[test]
fn edge_types_are_named_after_their_variants() {
    assert_eq!(LogicalEdgeType::Forward.variant_name(), "Forward");
    assert_eq!(LogicalEdgeType::Shuffle.variant_name(), "Shuffle");
    assert_eq!(LogicalEdgeType::LeftJoin.variant_name(), "LeftJoin");
    assert_eq!(LogicalEdgeType::RightJoin.variant_name(), "RightJoin");
}

#[test]
fn edge_types_are_ordered_as_declared() {
    assert!(LogicalEdgeType::Forward < LogicalEdgeType::Shuffle);
    assert!(LogicalEdgeType::Shuffle < LogicalEdgeType::LeftJoin);
    assert!(LogicalEdgeType::LeftJoin < LogicalEdgeType::RightJoin);
}
