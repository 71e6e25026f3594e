use arroyo_datastream::public_ids::{format_id, prefix};
use arroyo_datastream::{generate_id, IdTypes};

fn kinds() -> Vec<(IdTypes, &'static str)> {
    vec![
        (IdTypes::ApiKey, "ak"),
        (IdTypes::Connection, "conn"),
        (IdTypes::Schema, "sch"),
        (IdTypes::Pipeline, "pl"),
        (IdTypes::PipelineDefinition, "pld"),
        (IdTypes::JobConfig, "jc"),
        (IdTypes::Checkpoint, "cp"),
        (IdTypes::JobStatus, "js"),
        (IdTypes::ClusterInfo, "ci"),
        (IdTypes::JobLogMessage, "jlm"),
        (IdTypes::ConnectionTable, "ct"),
        (IdTypes::ConnectionTablePipeline, "ctp"),
    ]
}

#[test]
fn every_kind_has_its_prefix() {
    for (kind, expected) in kinds() {
        assert_eq!(prefix(kind), expected);
    }
}

#[test]
fn format_id_joins_prefix_and_code_with_an_underscore() {
    assert_eq!(format_id(IdTypes::Pipeline, "0123456789"), "pl_0123456789");
    assert_eq!(format_id(IdTypes::ConnectionTablePipeline, "aZ"), "ctp_aZ");
    assert_eq!(format_id(IdTypes::ApiKey, ""), "ak_");
}

#[test]
fn generated_ids_are_prefix_underscore_and_ten_alphanumerics() {
    for (kind, expected) in kinds() {
        for _ in 0..50 {
            let id = generate_id(kind);
            let (head, code) = id.split_at(expected.len() + 1);
            assert_eq!(head, format!("{}_", expected));
            assert_eq!(code.chars().count(), 10);
            assert!(code.chars().all(|c| c.is_ascii_alphanumeric()));
        }
    }
}

#[test]
fn generated_ids_differ() {
    let first = generate_id(IdTypes::JobConfig);
    let second = generate_id(IdTypes::JobConfig);
    assert_ne!(first, second);
}
