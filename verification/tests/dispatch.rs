//! Checks of the selector and builder dispatch tables, and of the persisted
//! config record's exact shape.

use field_index::selector::{
    index_builder_selector, index_selector, FieldIndex, FieldIndexBuilder, NumericIndexRef,
    PayloadSchemaParams, TextIndexParams, TokenizerType,
};
use field_index::config::{encode_config, parse_config};

#[test]
fn integer_with_lookup_and_range_yields_both_lookup_first() {
    let field = String::from("payload.count");
    let schema = PayloadSchemaParams::Integer { lookup: true, range: true };
    let out = index_selector(&field, &schema, &Some(String::from("/idx")), false).unwrap();
    assert_eq!(out.len(), 2);
    match &out[0] {
        FieldIndex::IntMapIndex { column, .. } => assert_eq!(column, "payload.count"),
        _ => panic!("first handle must serve lookup queries"),
    }
    match &out[1] {
        FieldIndex::IntIndex(NumericIndexRef::Mmap { dir }) => assert_eq!(dir, "/idx"),
        _ => panic!("second handle must serve range queries from the frozen directory"),
    }
}

#[test]
fn integer_flags_control_the_handle_set() {
    let field = String::from("n");
    let lookup_only = PayloadSchemaParams::Integer { lookup: true, range: false };
    let out = index_selector(&field, &lookup_only, &None, true).unwrap();
    assert_eq!(out.len(), 1);
    assert!(matches!(&out[0], FieldIndex::IntMapIndex { .. }));

    let range_only = PayloadSchemaParams::Integer { lookup: false, range: true };
    let out = index_selector(&field, &range_only, &None, true).unwrap();
    assert_eq!(out.len(), 1);
    match &out[0] {
        FieldIndex::IntIndex(NumericIndexRef::Appendable { column, is_appendable }) => {
            assert_eq!(column, "n");
            assert!(*is_appendable);
        },
        _ => panic!("range without a frozen directory opens the appendable sibling"),
    }
}

#[test]
fn each_schema_type_maps_to_its_variant() {
    let field = String::from("f");
    let dir = Some(String::from("/d"));

    let out = index_selector(&field, &PayloadSchemaParams::Keyword, &dir, false).unwrap();
    assert_eq!(out.len(), 1);
    assert!(matches!(&out[0], FieldIndex::KeywordIndex { .. }));

    let out = index_selector(&field, &PayloadSchemaParams::Float, &dir, false).unwrap();
    assert!(matches!(&out[0], FieldIndex::FloatIndex(NumericIndexRef::Mmap { .. })));

    let out = index_selector(&field, &PayloadSchemaParams::Geo, &dir, false).unwrap();
    assert!(matches!(&out[0], FieldIndex::GeoIndex { .. }));

    let params = TextIndexParams { tokenizer: TokenizerType::Word, lowercase: true };
    let out = index_selector(&field, &PayloadSchemaParams::Text(params), &dir, false).unwrap();
    match &out[0] {
        FieldIndex::FullTextIndex { column, params: p, .. } => {
            assert_eq!(column, "f");
            assert_eq!(*p, params);
        },
        _ => panic!("text schema must open the full-text sibling"),
    }

    let out = index_selector(&field, &PayloadSchemaParams::Bool, &dir, false).unwrap();
    assert!(matches!(&out[0], FieldIndex::BinaryIndex { .. }));

    let out = index_selector(&field, &PayloadSchemaParams::Datetime, &dir, false).unwrap();
    assert!(matches!(&out[0], FieldIndex::DatetimeIndex(NumericIndexRef::Mmap { .. })));

    let out = index_selector(&field, &PayloadSchemaParams::Uuid, &None, true).unwrap();
    assert!(matches!(&out[0], FieldIndex::UuidIndex(NumericIndexRef::Appendable { .. })));
}

#[test]
fn builder_dispatch_follows_the_same_table() {
    let field = String::from("f");
    let frozen = Some(String::from("/d"));

    let out = index_builder_selector(&field, &PayloadSchemaParams::Keyword, &frozen);
    assert_eq!(out.len(), 1);
    assert!(matches!(&out[0], FieldIndexBuilder::KeywordIndex { .. }));

    let both = PayloadSchemaParams::Integer { lookup: true, range: true };
    let out = index_builder_selector(&field, &both, &frozen);
    assert_eq!(out.len(), 2);
    assert!(matches!(&out[0], FieldIndexBuilder::IntMapIndex { .. }));
    match &out[1] {
        FieldIndexBuilder::IntMmapIndex { dir } => assert_eq!(dir, "/d"),
        _ => panic!("frozen integer range builder expected"),
    }

    let out = index_builder_selector(&field, &both, &None);
    assert_eq!(out.len(), 2);
    assert!(matches!(&out[1], FieldIndexBuilder::IntIndex { .. }));

    let out = index_builder_selector(&field, &PayloadSchemaParams::Float, &None);
    assert!(matches!(&out[0], FieldIndexBuilder::FloatIndex { .. }));
    let out = index_builder_selector(&field, &PayloadSchemaParams::Float, &frozen);
    assert!(matches!(&out[0], FieldIndexBuilder::FloatMmapIndex { .. }));

    let out = index_builder_selector(&field, &PayloadSchemaParams::Datetime, &frozen);
    assert!(matches!(&out[0], FieldIndexBuilder::DatetimeMmapIndex { .. }));
    let out = index_builder_selector(&field, &PayloadSchemaParams::Uuid, &frozen);
    assert!(matches!(&out[0], FieldIndexBuilder::UuidMmapIndex { .. }));
    let out = index_builder_selector(&field, &PayloadSchemaParams::Geo, &frozen);
    assert!(matches!(&out[0], FieldIndexBuilder::GeoIndex { .. }));
    let out = index_builder_selector(&field, &PayloadSchemaParams::Bool, &frozen);
    assert!(matches!(&out[0], FieldIndexBuilder::BinaryIndex { .. }));
}

#[test]
fn config_record_has_the_exact_json_shape() {
    assert_eq!(encode_config(3), b"{\"total_key_value_pairs\":3}".to_vec());
    assert_eq!(encode_config(0), b"{\"total_key_value_pairs\":0}".to_vec());
    assert_eq!(
        encode_config(184467),
        b"{\"total_key_value_pairs\":184467}".to_vec()
    );
}

#[test]
fn config_record_round_trips_and_rejects_malformed_input() {
    for n in [0usize, 1, 9, 10, 63, 64, 1000, 123456789] {
        assert_eq!(parse_config(&encode_config(n)), Some(n));
    }
    assert_eq!(parse_config(b""), None);
    assert_eq!(parse_config(b"{}"), None);
    assert_eq!(parse_config(b"{\"total_key_value_pairs\":}"), None);
    assert_eq!(parse_config(b"{\"total_key_value_pairs\":12"), None);
    assert_eq!(parse_config(b"{\"total_key_value_pairs\":1a}"), None);
    assert_eq!(parse_config(b"[\"total_key_value_pairs\":1]"), None);
    // a leading zero is not a canonical integer writing
    assert_eq!(parse_config(b"{\"total_key_value_pairs\":007}"), None);
    assert_eq!(parse_config(b"{\"total_key_value_pairs\":00}"), None);
    assert_eq!(parse_config(b"{\"total_key_value_pairs\":0}"), Some(0));
}
