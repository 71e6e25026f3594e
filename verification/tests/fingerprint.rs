use arrow_schema::{DataType, Field, Schema};
use arroyo_datastream::fingerprint::{code_from_samples, digest, fingerprint};
use arroyo_datastream::wire;
use arroyo_datastream::{
    ArrowDylibUdfConfig, ArrowEdge, ArrowNode, ArrowProgram, ArrowProgramConfig, ArrowUdfEntry,
    ArroyoSchema, DylibUdfConfig, LogicalEdge, LogicalEdgeType, LogicalGraph, LogicalNode,
    LogicalProgram, OperatorName, ProgramConfig,
};
use rand::distributions::Alphanumeric;
use rand::rngs::SmallRng;
use rand::{Rng, SeedableRng};
use std::collections::hash_map::DefaultHasher;
use std::collections::HashSet;
use std::hash::Hasher;

fn schema_of(fields: usize) -> ArroyoSchema {
    let fields: Vec<Field> =
        (0..fields).map(|i| Field::new(format!("f{}", i), DataType::Int64, false)).collect();
    ArroyoSchema::new(serde_json::to_string(&Schema::new(fields)).unwrap(), 0, vec![0])
}

fn program(
    parallelism: usize,
    config: Vec<u8>,
    schema: ArroyoSchema,
    projection: Option<Vec<usize>>,
) -> LogicalProgram {
    let mut graph = LogicalGraph::new();
    let src = graph.add_node(LogicalNode {
        operator_id: "src".to_string(),
        description: "source".to_string(),
        operator_name: OperatorName::ConnectorSource,
        operator_config: vec![1],
        parallelism: 2,
    });
    let agg = graph.add_node(LogicalNode {
        operator_id: "agg".to_string(),
        description: "aggregate".to_string(),
        operator_name: OperatorName::TumblingWindowAggregate,
        operator_config: config,
        parallelism,
    });
    graph.add_edge(src, agg, LogicalEdge::new(LogicalEdgeType::Shuffle, schema, projection));
    LogicalProgram { graph, program_config: ProgramConfig::new() }
}

fn base() -> LogicalProgram {
    program(4, vec![7, 7], schema_of(3), Some(vec![0, 1]))
}

fn expected_fingerprint(bytes: &[u8]) -> String {
    let mut hasher = DefaultHasher::new();
    for b in bytes {
        hasher.write_u8(*b);
    }
    let rng = SmallRng::seed_from_u64(hasher.finish());
    rng.sample_iter(&Alphanumeric).take(16).map(char::from).map(|c| c.to_ascii_lowercase()).collect()
}

#[test]
fn node_bytes_are_the_tagged_fields_in_order() {
    let node = ArrowNode {
        node_index: 1,
        node_id: "a".to_string(),
        parallelism: 300,
        description: String::new(),
        operator_name: "Join".to_string(),
        operator_config: vec![7],
    };
    assert_eq!(
        node.encode_to_vec(),
        vec![
            0x08, 0x01, 0x12, 0x01, 0x61, 0x18, 0xac, 0x02, 0x2a, 0x04, 0x4a, 0x6f, 0x69, 0x6e,
            0x32, 0x01, 0x07
        ]
    );
}

#[test]
fn empty_fields_are_left_out_and_negative_numbers_take_ten_bytes() {
    let node = ArrowNode {
        node_index: 0,
        node_id: String::new(),
        parallelism: 0,
        description: String::new(),
        operator_name: String::new(),
        operator_config: vec![],
    };
    assert_eq!(node.encode_to_vec(), Vec::<u8>::new());
    let negative = ArrowNode { node_index: -1, ..node };
    assert_eq!(
        negative.encode_to_vec(),
        vec![0x08, 0xff, 0xff, 0xff, 0xff, 0xff, 0xff, 0xff, 0xff, 0xff, 0x01]
    );
}

#[test]
fn text_is_written_as_utf8() {
    let node = ArrowNode {
        node_index: 0,
        node_id: "é→".to_string(),
        parallelism: 0,
        description: String::new(),
        operator_name: String::new(),
        operator_config: vec![],
    };
    assert_eq!(node.encode_to_vec(), vec![0x12, 0x05, 0xc3, 0xa9, 0xe2, 0x86, 0x92]);
}

#[test]
fn edge_bytes_nest_the_schema_and_pack_the_numbers() {
    let schema = wire::ArroyoSchema {
        arrow_schema: "s".to_string(),
        timestamp_index: 2,
        key_indices: vec![0, 300],
    };
    assert_eq!(
        schema.encode_to_vec(),
        vec![0x0a, 0x01, 0x73, 0x10, 0x02, 0x1a, 0x03, 0x00, 0xac, 0x02]
    );
    let edge =
        ArrowEdge { source: 0, target: 1, schema: Some(schema), edge_type: 2, projection: vec![1] };
    assert_eq!(
        edge.encode_to_vec(),
        vec![
            0x10, 0x01, 0x22, 0x0a, 0x0a, 0x01, 0x73, 0x10, 0x02, 0x1a, 0x03, 0x00, 0xac, 0x02,
            0x28, 0x02, 0x32, 0x01, 0x01
        ]
    );
    let bare = ArrowEdge { source: 0, target: 0, schema: None, edge_type: 0, projection: vec![] };
    assert_eq!(bare.encode_to_vec(), Vec::<u8>::new());
}

#[test]
fn program_bytes_hold_nodes_edges_and_registry() {
    let node = ArrowNode {
        node_index: 1,
        node_id: "a".to_string(),
        parallelism: 1,
        description: String::new(),
        operator_name: String::new(),
        operator_config: vec![],
    };
    let edge = ArrowEdge { source: 1, target: 1, schema: None, edge_type: 1, projection: vec![] };
    let entry = ArrowUdfEntry {
        name: "f".to_string(),
        config: ArrowDylibUdfConfig {
            dylib_path: "p".to_string(),
            arg_types: vec![vec![0x52, 0x00]],
            return_type: vec![],
        },
    };
    assert_eq!(
        entry.encode_to_vec(),
        vec![0x0a, 0x01, 0x66, 0x12, 0x07, 0x0a, 0x01, 0x70, 0x12, 0x02, 0x52, 0x00]
    );
    let program = ArrowProgram {
        nodes: vec![node],
        edges: vec![edge],
        program_config: Some(ArrowProgramConfig { udf_dylibs: vec![entry] }),
    };
    assert_eq!(
        program.encode_to_vec(),
        vec![
            0x0a, 0x07, 0x08, 0x01, 0x12, 0x01, 0x61, 0x18, 0x01, 0x12, 0x06, 0x08, 0x01, 0x10,
            0x01, 0x28, 0x01, 0x1a, 0x0e, 0x0a, 0x0c, 0x0a, 0x01, 0x66, 0x12, 0x07, 0x0a, 0x01,
            0x70, 0x12, 0x02, 0x52, 0x00
        ]
    );
    let empty = ArrowProgram { nodes: vec![], edges: vec![], program_config: None };
    assert_eq!(empty.encode_to_vec(), Vec::<u8>::new());
    let with_registry = ArrowProgram {
        nodes: vec![],
        edges: vec![],
        program_config: Some(ArrowProgramConfig { udf_dylibs: vec![] }),
    };
    assert_eq!(with_registry.encode_to_vec(), vec![0x1a, 0x00]);
}

#[test]
fn long_payloads_get_a_longer_length() {
    let node = ArrowNode {
        node_index: 0,
        node_id: String::new(),
        parallelism: 0,
        description: String::new(),
        operator_name: String::new(),
        operator_config: vec![5; 200],
    };
    let bytes = node.encode_to_vec();
    assert_eq!(bytes.len(), 203);
    assert_eq!(&bytes[..3], &[0x32, 0xc8, 0x01]);
    assert!(bytes[3..].iter().all(|b| *b == 5));
}

#[test]
fn digest_feeds_the_hasher_byte_by_byte() {
    for bytes in [vec![], vec![0u8], vec![1, 2, 3], (0..=255u8).collect::<Vec<u8>>()] {
        let mut hasher = DefaultHasher::new();
        for b in &bytes {
            hasher.write_u8(*b);
        }
        assert_eq!(digest(&bytes), hasher.finish());
    }
}

#[test]
fn code_from_samples_makes_capitals_small() {
    assert_eq!(code_from_samples(b"AZaz09Qq"), "azaz09qq");
    assert_eq!(code_from_samples(b""), "");
    assert_eq!(code_from_samples(b"@[`{"), "@[`{");
}

#[test]
fn fingerprint_is_sixteen_small_alphanumerics() {
    for bytes in [vec![], vec![1, 2, 3], vec![0; 1000]] {
        let code = fingerprint(&bytes);
        assert_eq!(code.len(), 16);
        assert!(code.chars().all(|c| c.is_ascii_digit() || c.is_ascii_lowercase()));
        assert_eq!(code, expected_fingerprint(&bytes));
    }
}

#[test]
fn program_hash_is_the_fingerprint_of_its_wire_bytes() {
    let bytes = base().to_wire().encode_to_vec();
    assert_eq!(base().get_hash(), expected_fingerprint(&bytes));
    assert_eq!(base().get_hash(), fingerprint(&bytes));
    assert_eq!(base().get_hash().len(), 16);
}

#[test]
fn program_hash_is_the_same_every_time() {
    let program = base();
    let first = program.get_hash();
    for _ in 0..20 {
        assert_eq!(program.get_hash(), first);
        assert_eq!(base().get_hash(), first);
        assert_eq!(program.clone().get_hash(), first);
    }
    let back = LogicalProgram::try_from(program.to_wire()).unwrap();
    assert_eq!(back.get_hash(), first);
}

#[test]
fn program_hash_changes_with_parallelism() {
    let mut seen = HashSet::new();
    for parallelism in 1..=200 {
        assert!(seen.insert(program(parallelism, vec![7, 7], schema_of(3), Some(vec![0, 1])).get_hash()));
    }
}

#[test]
fn program_hash_changes_with_config_bytes() {
    let mut seen = HashSet::new();
    for a in 0..=255u8 {
        assert!(seen.insert(program(4, vec![a, 7], schema_of(3), Some(vec![0, 1])).get_hash()));
        assert!(seen.insert(program(4, vec![7, 7, a], schema_of(3), Some(vec![0, 1])).get_hash()));
    }
}

#[test]
fn program_hash_changes_with_schema_and_projection() {
    let mut seen = HashSet::new();
    assert!(seen.insert(base().get_hash()));
    for fields in 4..40 {
        assert!(seen.insert(program(4, vec![7, 7], schema_of(fields), Some(vec![0, 1])).get_hash()));
    }
    for column in 2..40 {
        let wide = schema_of(40);
        assert!(seen.insert(program(4, vec![7, 7], wide.clone(), Some(vec![0, column])).get_hash()));
        assert!(seen.insert(program(4, vec![7, 7], wide, Some(vec![column])).get_hash()));
    }
    let mut keyed = schema_of(3);
    keyed.key_indices = vec![0, 2];
    assert!(seen.insert(program(4, vec![7, 7], keyed, Some(vec![0, 1])).get_hash()));
    let mut timed = schema_of(3);
    timed.timestamp_index = 1;
    assert!(seen.insert(program(4, vec![7, 7], timed, Some(vec![0, 1])).get_hash()));
    assert!(seen.insert(program(4, vec![7, 7], schema_of(3), None).get_hash()));
}

#[test]
fn program_hash_changes_with_the_registry() {
    let mut with_udf = base();
    with_udf.program_config.insert(
        "f".to_string(),
        DylibUdfConfig { dylib_path: "/f.so".to_string(), arg_types: vec![], return_type: vec![] },
    );
    assert_ne!(with_udf.get_hash(), base().get_hash());
}

#[test]
fn changed_programs_are_written_as_other_bytes() {
    let bytes = |p: LogicalProgram| p.to_wire().encode_to_vec();
    let mut seen = HashSet::new();
    assert!(seen.insert(bytes(base())));
    for parallelism in 5..50 {
        assert!(seen.insert(bytes(program(parallelism, vec![7, 7], schema_of(3), Some(vec![0, 1])))));
    }
    for a in 0..=255u8 {
        if a != 7 {
            assert!(seen.insert(bytes(program(4, vec![7, a], schema_of(3), Some(vec![0, 1])))));
        }
    }
    assert!(seen.insert(bytes(program(4, vec![], schema_of(3), Some(vec![0, 1])))));
    assert!(seen.insert(bytes(program(4, vec![7, 7], schema_of(4), Some(vec![0, 1])))));
    assert!(seen.insert(bytes(program(4, vec![7, 7], schema_of(3), Some(vec![1, 0])))));
    assert!(seen.insert(bytes(program(4, vec![7, 7], schema_of(3), Some(vec![0])))));
    assert!(seen.insert(bytes(program(4, vec![7, 7], schema_of(3), None))));
    assert_eq!(
        bytes(program(4, vec![7, 7], schema_of(3), Some(vec![]))),
        bytes(program(4, vec![7, 7], schema_of(3), None))
    );
}

#[test]
fn program_hash_does_not_depend_on_the_order_the_registry_was_filled_in() {
    let f = || DylibUdfConfig {
        dylib_path: "/f.so".to_string(),
        arg_types: vec![vec![0x52, 0x00]],
        return_type: vec![],
    };
    let g = || DylibUdfConfig {
        dylib_path: "/g.so".to_string(),
        arg_types: vec![],
        return_type: vec![0x72, 0x00],
    };
    let mut one = base();
    one.program_config.insert("f".to_string(), f());
    one.program_config.insert("g".to_string(), g());
    let mut other = base();
    other.program_config.insert("g".to_string(), g());
    other.program_config.insert("f".to_string(), f());
    assert_eq!(one.to_wire(), other.to_wire());
    assert_eq!(one.get_hash(), other.get_hash());
    let mut by_hand = base();
    by_hand.program_config = ProgramConfig {
        udf_dylibs: vec![
            arroyo_datastream::UdfEntry { name: "g".to_string(), config: g() },
            arroyo_datastream::UdfEntry { name: "f".to_string(), config: f() },
        ],
    };
    assert_eq!(by_hand.get_hash(), one.get_hash());
    let mut changed = base();
    changed.program_config.insert("f".to_string(), g());
    changed.program_config.insert("g".to_string(), f());
    assert_ne!(changed.get_hash(), one.get_hash());
}
