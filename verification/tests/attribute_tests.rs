use arrow::datatypes::DataType;
use oxbow::attribute::AttributeBuilder;
use oxbow::attribute::AttributeColumn;
use oxbow::attribute::AttributeDef;
use oxbow::attribute::AttributeScanner;
use oxbow::attribute::AttributeType;
use oxbow::attribute::AttributeValue;
use oxbow::attribute::GffRecord;
use oxbow::attribute::GtfRecord;
use oxbow::attribute::Push;
use oxbow::error::EngineError;

#[test]
fn def_accepts_string_tag_case_insensitively() {
    for tag in ["string", "String", "STRING", "sTrInG"] {
        let def = AttributeDef::new("gene_id".to_string(), tag).unwrap();
        assert_eq!(def.name, "gene_id");
        assert_eq!(def.ty, AttributeType::String);
    }
}

#[test]
fn def_accepts_array_tag_case_insensitively() {
    for tag in ["array", "Array", "ARRAY", "aRrAy"] {
        let def = AttributeDef::new("tags".to_string(), tag).unwrap();
        assert_eq!(def.name, "tags");
        assert_eq!(def.ty, AttributeType::Array);
    }
}

#[test]
fn def_rejects_unknown_tags() {
    for tag in ["text", "strings", "arr", "", "int", "string "] {
        match AttributeDef::new("x".to_string(), tag) {
            Err(EngineError::InvalidInput(t)) => assert_eq!(t, tag),
            other => panic!("expected InvalidInput, got {:?}", other),
        }
    }
}

#[test]
fn def_maps_to_expected_arrow_types() {
    let s = AttributeDef::new("a".to_string(), "string").unwrap();
    let field = s.get_arrow_field();
    assert_eq!(field.name(), "a");
    assert!(field.is_nullable());
    assert_eq!(field.data_type(), &DataType::Utf8);

    let a = AttributeDef::new("b".to_string(), "array").unwrap();
    let field = a.get_arrow_field();
    assert_eq!(field.name(), "b");
    assert!(field.is_nullable());
    match field.data_type() {
        DataType::List(child) => {
            assert_eq!(child.name(), "item");
            assert_eq!(child.data_type(), &DataType::Utf8);
        }
        other => panic!("expected a list type, got {:?}", other),
    }
}

#[test]
fn string_builder_round_trip_preserves_length_and_nulls() {
    let mut b = AttributeBuilder::new(&AttributeType::String);
    b.append_value(&AttributeValue::String("g1".to_string())).unwrap();
    b.append_null();
    b.append_value(&AttributeValue::String("g2".to_string())).unwrap();
    b.append_null();
    let col = b.finish();
    match col {
        AttributeColumn::String(c) => {
            assert_eq!(c.len(), 4);
            assert!(!c.is_null(0));
            assert!(c.is_null(1));
            assert!(!c.is_null(2));
            assert!(c.is_null(3));
            assert_eq!(c.value(0), "g1");
            assert_eq!(c.value(2), "g2");
        }
        AttributeColumn::Array(_) => panic!("expected a scalar column"),
    }
}

#[test]
fn list_builder_distinguishes_null_from_empty() {
    let mut b = AttributeBuilder::new(&AttributeType::Array);
    b.append_value(&AttributeValue::Array(vec!["x".to_string(), "y".to_string()]))
        .unwrap();
    b.append_null();
    b.append_value(&AttributeValue::Array(vec![])).unwrap();
    let col = b.finish();
    match col {
        AttributeColumn::Array(c) => {
            assert_eq!(c.len(), 3);
            assert!(!c.is_null(0));
            assert!(c.is_null(1));
            assert!(!c.is_null(2));
            assert_eq!(c.value_len(0), 2);
            assert_eq!(c.value_item(0, 0), "x");
            assert_eq!(c.value_item(0, 1), "y");
            assert_eq!(c.value_len(2), 0);
        }
        AttributeColumn::String(_) => panic!("expected a list column"),
    }
}

#[test]
fn type_mismatch_fails_and_leaves_builder_unchanged() {
    let mut b = AttributeBuilder::new(&AttributeType::String);
    b.append_value(&AttributeValue::String("v".to_string())).unwrap();
    match b.append_value(&AttributeValue::Array(vec!["w".to_string()])) {
        Err(EngineError::TypeMismatch { expected, found }) => {
            assert_eq!(expected, AttributeType::String);
            assert_eq!(found, AttributeType::Array);
        }
        other => panic!("expected TypeMismatch, got {:?}", other),
    }
    let col = b.finish();
    match col {
        AttributeColumn::String(c) => {
            assert_eq!(c.len(), 1);
            assert_eq!(c.value(0), "v");
        }
        AttributeColumn::Array(_) => panic!("expected a scalar column"),
    }

    let mut b = AttributeBuilder::new(&AttributeType::Array);
    match b.append_value(&AttributeValue::String("v".to_string())) {
        Err(EngineError::TypeMismatch { expected, found }) => {
            assert_eq!(expected, AttributeType::Array);
            assert_eq!(found, AttributeType::String);
        }
        other => panic!("expected TypeMismatch, got {:?}", other),
    }
    let col = b.finish();
    match col {
        AttributeColumn::Array(c) => assert_eq!(c.len(), 0),
        AttributeColumn::String(_) => panic!("expected a list column"),
    }
}

#[test]
fn first_seen_type_wins_for_conflicting_observations() {
    let mut scanner = AttributeScanner::new();
    scanner.push(GffRecord {
        attributes: vec![("K".to_string(), AttributeValue::String("v".to_string()))],
    });
    scanner.push(GffRecord {
        attributes: vec![(
            "K".to_string(),
            AttributeValue::Array(vec!["a".to_string(), "b".to_string()]),
        )],
    });
    let defs = scanner.collect();
    assert_eq!(defs, vec![("K".to_string(), "String".to_string())]);
}

#[test]
fn array_first_observation_fixes_array_type() {
    let mut scanner = AttributeScanner::new();
    scanner.push(GffRecord {
        attributes: vec![(
            "K".to_string(),
            AttributeValue::Array(vec!["a".to_string()]),
        )],
    });
    scanner.push(GffRecord {
        attributes: vec![("K".to_string(), AttributeValue::String("v".to_string()))],
    });
    let defs = scanner.collect();
    assert_eq!(defs, vec![("K".to_string(), "Array".to_string())]);
}

#[test]
fn collect_is_sorted_and_deduplicated() {
    let mut scanner = AttributeScanner::new();
    scanner.push(GtfRecord {
        attributes: vec![
            ("zeta".to_string(), "1".to_string()),
            ("alpha".to_string(), "2".to_string()),
        ],
    });
    scanner.push(GtfRecord {
        attributes: vec![
            ("mid".to_string(), "3".to_string()),
            ("alpha".to_string(), "4".to_string()),
            ("zeta".to_string(), "5".to_string()),
        ],
    });
    let defs = scanner.collect();
    assert_eq!(
        defs,
        vec![
            ("alpha".to_string(), "String".to_string()),
            ("mid".to_string(), "String".to_string()),
            ("zeta".to_string(), "String".to_string()),
        ]
    );
}

#[test]
fn collect_on_fresh_scanner_is_empty() {
    let scanner = AttributeScanner::new();
    assert!(scanner.collect().is_empty());
}

#[test]
fn gene_id_across_two_records_builds_string_column() {
    let mut scanner = AttributeScanner::new();
    scanner.push(GtfRecord {
        attributes: vec![("gene_id".to_string(), "g1".to_string())],
    });
    scanner.push(GtfRecord {
        attributes: vec![("gene_id".to_string(), "g2".to_string())],
    });
    let defs = scanner.collect();
    assert_eq!(defs, vec![("gene_id".to_string(), "String".to_string())]);

    let def = AttributeDef::new(defs[0].0.clone(), defs[0].1.as_str()).unwrap();
    let mut b = AttributeBuilder::new(&def.ty);
    b.append_value(&AttributeValue::String("g1".to_string())).unwrap();
    b.append_value(&AttributeValue::String("g2".to_string())).unwrap();
    match b.finish() {
        AttributeColumn::String(c) => {
            assert_eq!(c.len(), 2);
            assert!(!c.is_null(0));
            assert!(!c.is_null(1));
            assert_eq!(c.value(0), "g1");
            assert_eq!(c.value(1), "g2");
        }
        AttributeColumn::Array(_) => panic!("expected a scalar column"),
    }
}

#[test]
fn default_scanner_records_nothing() {
    let scanner = AttributeScanner::default();
    assert!(scanner.collect().is_empty());
}

#[test]
fn record_without_attributes_adds_nothing() {
    let mut scanner = AttributeScanner::new();
    scanner.push(GtfRecord { attributes: vec![] });
    scanner.push(GffRecord { attributes: vec![] });
    assert!(scanner.collect().is_empty());
}
