//! Codec behaviour: text and integer encodings, their round trips, and the
//! double-mapping conversions.

use diesel_enums::{
    decode_int, decode_text, encode_int, encode_text, from_id_repr, process_variants, to_id_repr,
    CaseKind, SkipRangeIndex, VariantDeclaration,
};

fn sample_records() -> Vec<diesel_enums::VariantData> {
    let decls: Vec<VariantDeclaration> = ["Grass", "Poison", "Fire"]
        .iter()
        .map(|n| VariantDeclaration {
            name: n.to_string(),
            db_name: None,
            id: None,
            skip_check: false,
        })
        .collect();
    process_variants(&decls, Some(CaseKind::Pascal), &SkipRangeIndex::empty())
}

#[test]
fn encode_text_gives_db_name() {
    let records = sample_records();
    assert_eq!(encode_text(&records, 0), "Grass");
    assert_eq!(encode_text(&records, 2), "Fire");
}

#[test]
fn encode_int_gives_assigned_id() {
    let records = sample_records();
    assert_eq!(encode_int(&records, 0), 1);
    assert_eq!(encode_int(&records, 2), 3);
}

#[test]
fn text_round_trip() {
    let records = sample_records();
    for v in 0..records.len() {
        let name = encode_text(&records, v);
        assert_eq!(decode_text("Types", &records, &name).unwrap(), v);
    }
}

#[test]
fn int_round_trip() {
    let records = sample_records();
    for v in 0..records.len() {
        let id = encode_int(&records, v);
        assert_eq!(decode_int("Types", &records, id).unwrap(), v);
    }
}

#[test]
fn decode_text_is_case_sensitive() {
    let records = sample_records();
    assert!(decode_text("Types", &records, "grass").is_err());
    assert_eq!(decode_text("Types", &records, "Grass").unwrap(), 0);
}

#[test]
fn decode_text_unknown_name() {
    let records = sample_records();
    let e = decode_text("Types", &records, "Water").unwrap_err();
    assert_eq!(e.rust_enum, "Types");
    assert_eq!(e.value, "Water");
    assert_eq!(e.message(), "No matching Types variant found for `Water`");
}

#[test]
fn decode_int_unknown_id() {
    let records = sample_records();
    let e = decode_int("Types", &records, 42).unwrap_err();
    assert_eq!(e.rust_enum, "Types");
    assert_eq!(e.value, "42");
    let e = decode_int("Types", &records, -7).unwrap_err();
    assert_eq!(e.value, "-7");
}

#[test]
fn double_mapping_conversions() {
    let records = sample_records();
    assert_eq!(to_id_repr("Types", &records, "Poison").unwrap(), 2);
    assert_eq!(from_id_repr("Types", &records, 2).unwrap(), "Poison");
    for v in 0..records.len() {
        let name = encode_text(&records, v);
        let id = to_id_repr("Types", &records, &name).unwrap();
        assert_eq!(from_id_repr("Types", &records, id).unwrap(), name);
    }
    assert!(to_id_repr("Types", &records, "water").is_err());
    assert!(from_id_repr("Types", &records, 9).is_err());
}

#[test]
fn decode_text_returns_first_match() {
    // With a duplicated db-name (never rejected, but outside the documented
    // invariant) the earlier declaration wins.
    let decls: Vec<VariantDeclaration> = vec![
        VariantDeclaration {
            name: "A".to_string(),
            db_name: Some("same".to_string()),
            id: None,
            skip_check: false,
        },
        VariantDeclaration {
            name: "B".to_string(),
            db_name: Some("same".to_string()),
            id: None,
            skip_check: false,
        },
    ];
    let records = process_variants(&decls, Some(CaseKind::Snake), &SkipRangeIndex::empty());
    assert_eq!(decode_text("Types", &records, "same").unwrap(), 0);
}
