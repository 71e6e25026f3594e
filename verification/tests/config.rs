use arroyo_datastream::names::name_less;
use arroyo_datastream::{
    ArrowDylibUdfConfig, ArrowProgramConfig, ArrowUdfEntry, DylibUdfConfig, ProgramConfig,
    ProgramError,
};
use datafusion_proto::protobuf::ArrowType;
use prost::Message;

fn int64() -> Vec<u8> {
    vec![0x52, 0x00]
}

fn utf8() -> Vec<u8> {
    vec![0x72, 0x00]
}

fn wire_udf(path: &str, args: Vec<Vec<u8>>, ret: Vec<u8>) -> ArrowDylibUdfConfig {
    ArrowDylibUdfConfig { dylib_path: path.to_string(), arg_types: args, return_type: ret }
}

fn udf(path: &str) -> DylibUdfConfig {
    DylibUdfConfig {
        dylib_path: path.to_string(),
        arg_types: vec![int64(), utf8()],
        return_type: int64(),
    }
}

#[test]
fn type_blobs_of_the_tests_are_what_the_decoder_accepts() {
    assert!(ArrowType::decode(int64().as_slice()).unwrap().arrow_type_enum.is_some());
    assert!(ArrowType::decode(utf8().as_slice()).unwrap().arrow_type_enum.is_some());
    assert_eq!(ArrowType::decode(int64().as_slice()).unwrap().encode_to_vec(), int64());
    assert!(ArrowType::decode(&[0xff][..]).is_err());
}

#[test]
fn udf_with_decodable_types_is_read_as_it_is() {
    let read = DylibUdfConfig::try_from(wire_udf("/lib/sqr.so", vec![int64(), utf8()], int64()));
    assert_eq!(read, Some(udf("/lib/sqr.so")));
    assert!(udf("/lib/sqr.so").is_valid());
    let no_args = DylibUdfConfig::try_from(wire_udf("", vec![], vec![]));
    assert_eq!(
        no_args,
        Some(DylibUdfConfig { dylib_path: String::new(), arg_types: vec![], return_type: vec![] })
    );
}

#[test]
fn udf_with_an_undecodable_type_is_rejected() {
    assert_eq!(DylibUdfConfig::try_from(wire_udf("a", vec![int64()], vec![0xff])), None);
    assert_eq!(DylibUdfConfig::try_from(wire_udf("a", vec![int64(), vec![0x52]], int64())), None);
    assert_eq!(DylibUdfConfig::try_from(wire_udf("a", vec![vec![0x08]], int64())), None);
}

#[test]
fn udf_goes_to_the_wire_unchanged() {
    let wire = ArrowDylibUdfConfig::from(udf("/lib/f.so"));
    assert_eq!(wire, wire_udf("/lib/f.so", vec![int64(), utf8()], int64()));
    assert_eq!(DylibUdfConfig::try_from(wire), Some(udf("/lib/f.so")));
}

#[test]
fn registry_insert_replaces_by_name_and_keeps_order() {
    let mut registry = ProgramConfig::new();
    assert_eq!(registry.udf_dylibs.len(), 0);
    assert_eq!(registry.get("f"), None);
    registry.insert("f".to_string(), udf("/one"));
    registry.insert("g".to_string(), udf("/two"));
    registry.insert("f".to_string(), udf("/three"));
    assert_eq!(registry.udf_dylibs.len(), 2);
    assert_eq!(registry.udf_dylibs[0].name, "f");
    assert_eq!(registry.udf_dylibs[1].name, "g");
    assert_eq!(registry.get("f"), Some(&udf("/three")));
    assert_eq!(registry.get("g"), Some(&udf("/two")));
    assert_eq!(registry.get("h"), None);
    assert_eq!(registry.position("g"), Some(1));
    assert_eq!(registry.position("G"), None);
}

#[test]
fn registry_round_trips_through_the_wire() {
    let mut registry = ProgramConfig::new();
    registry.insert("my_sqr".to_string(), udf("/lib/sqr.so"));
    registry.insert("my_sqr_opt".to_string(), udf("/lib/sqr_opt.so"));
    let wire = ArrowProgramConfig::from(registry.clone());
    assert_eq!(wire.udf_dylibs.len(), 2);
    assert_eq!(wire.udf_dylibs[0].name, "my_sqr");
    assert_eq!(wire.udf_dylibs[1].name, "my_sqr_opt");
    assert_eq!(wire.udf_dylibs[1].config, wire_udf("/lib/sqr_opt.so", vec![int64(), utf8()], int64()));
    assert_eq!(ProgramConfig::try_from(wire), Ok(registry));
}

#[test]
fn registry_names_the_first_function_with_a_bad_type() {
    let wire = ArrowProgramConfig {
        udf_dylibs: vec![
            ArrowUdfEntry { name: "good".to_string(), config: wire_udf("a", vec![], int64()) },
            ArrowUdfEntry { name: "bad".to_string(), config: wire_udf("b", vec![vec![0xff]], int64()) },
            ArrowUdfEntry { name: "worse".to_string(), config: wire_udf("c", vec![], vec![0xff]) },
        ],
    };
    assert_eq!(
        ProgramConfig::try_from(wire),
        Err(ProgramError::InvalidUdfType { udf: "bad".to_string() })
    );
}

#[test]
fn later_wire_entry_of_a_name_takes_the_place_of_the_earlier() {
    let wire = ArrowProgramConfig {
        udf_dylibs: vec![
            ArrowUdfEntry { name: "f".to_string(), config: wire_udf("first", vec![], int64()) },
            ArrowUdfEntry { name: "g".to_string(), config: wire_udf("other", vec![], int64()) },
            ArrowUdfEntry { name: "f".to_string(), config: wire_udf("second", vec![], utf8()) },
        ],
    };
    let registry = ProgramConfig::try_from(wire).unwrap();
    assert_eq!(registry.udf_dylibs.len(), 2);
    assert_eq!(registry.udf_dylibs[0].name, "f");
    assert_eq!(registry.udf_dylibs[0].config.dylib_path, "second");
    assert_eq!(registry.udf_dylibs[0].config.return_type, utf8());
    assert_eq!(registry.udf_dylibs[1].name, "g");
}

#[test]
fn registry_stands_in_name_order_however_it_was_filled() {
    let mut one = ProgramConfig::new();
    one.insert("mid".to_string(), udf("/m"));
    one.insert("zeta".to_string(), udf("/z"));
    one.insert("alpha".to_string(), udf("/a"));
    one.insert("Beta".to_string(), udf("/b"));
    let names: Vec<&str> = one.udf_dylibs.iter().map(|e| e.name.as_str()).collect();
    assert_eq!(names, vec!["Beta", "alpha", "mid", "zeta"]);
    let mut other = ProgramConfig::new();
    other.insert("Beta".to_string(), udf("/b"));
    other.insert("alpha".to_string(), udf("/a"));
    other.insert("zeta".to_string(), udf("/z"));
    other.insert("mid".to_string(), udf("/m"));
    assert_eq!(one, other);
    assert_eq!(one.slot_of("aaa"), 1);
    assert_eq!(one.slot_of("mid"), 2);
    assert_eq!(one.slot_of("zzz"), 4);
    assert_eq!(one.slot_of(""), 0);
}

#[test]
fn wire_form_of_a_registry_is_in_name_order() {
    let filled_by_hand = ProgramConfig {
        udf_dylibs: vec![
            arroyo_datastream::UdfEntry { name: "g".to_string(), config: udf("/g") },
            arroyo_datastream::UdfEntry { name: "f".to_string(), config: udf("/f") },
        ],
    };
    let wire = ArrowProgramConfig::from(filled_by_hand);
    assert_eq!(wire.udf_dylibs.len(), 2);
    assert_eq!(wire.udf_dylibs[0].name, "f");
    assert_eq!(wire.udf_dylibs[0].config.dylib_path, "/f");
    assert_eq!(wire.udf_dylibs[1].name, "g");
}

#[test]
fn names_are_ordered_by_their_bytes() {
    assert!(name_less("a", "b"));
    assert!(!name_less("b", "a"));
    assert!(!name_less("a", "a"));
    assert!(name_less("", "a"));
    assert!(!name_less("a", ""));
    assert!(!name_less("", ""));
    assert!(name_less("a", "aa"));
    assert!(!name_less("aa", "a"));
    assert!(name_less("Z", "a"));
    assert!(name_less("z", "é"));
    assert!(name_less("my_sqr", "my_sqr_opt"));
    for (a, b) in [("x", "y"), ("abc", "abd"), ("", "q"), ("é", "→")] {
        assert_eq!(name_less(a, b), a < b);
        assert_eq!(name_less(b, a), b < a);
    }
}
