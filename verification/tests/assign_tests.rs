//! Variant assignment: derived db-names, automatic and overridden ids, and
//! the skip-range index.

use diesel_enums::{
    process_variants, CaseKind, RangeSpec, SkipRangeIndex, VariantDeclaration,
};

fn decl(name: &str) -> VariantDeclaration {
    VariantDeclaration { name: name.to_string(), db_name: None, id: None, skip_check: false }
}

#[test]
fn default_ids_start_at_one() {
    let decls = vec![decl("A"), decl("B"), decl("C")];
    let records = process_variants(&decls, Some(CaseKind::Snake), &SkipRangeIndex::empty());
    let ids: Vec<i64> = records.iter().map(|r| r.id).collect();
    assert_eq!(ids, vec![1, 2, 3]);
}

#[test]
fn explicit_id_does_not_advance_cursor() {
    // The override is used as-is; the next automatic id is still 1.
    let mut decls = vec![decl("Grass"), decl("Poison"), decl("Fire")];
    decls[0].id = Some(20);
    let records = process_variants(&decls, Some(CaseKind::Pascal), &SkipRangeIndex::empty());
    let ids: Vec<i64> = records.iter().map(|r| r.id).collect();
    assert_eq!(ids, vec![20, 1, 2]);
}

#[test]
fn explicit_id_may_duplicate() {
    // Overrides are checked neither against the skip index nor against ids
    // already issued: a silent duplicate is possible.
    let mut decls = vec![decl("A"), decl("B")];
    decls[1].id = Some(1);
    let records = process_variants(&decls, Some(CaseKind::Snake), &SkipRangeIndex::empty());
    let ids: Vec<i64> = records.iter().map(|r| r.id).collect();
    assert_eq!(ids, vec![1, 1]);
}

#[test]
fn skip_ranges_are_jumped() {
    // `1..6`, `6` and `7..=10` exclude 1 through 10; assignment starts at 11.
    let specs = vec![
        RangeSpec { start: Some(1), end: Some(6), inclusive: false },
        RangeSpec { start: Some(6), end: Some(6), inclusive: true },
        RangeSpec { start: Some(7), end: Some(10), inclusive: true },
    ];
    let index = SkipRangeIndex::normalize(&specs).unwrap();
    let decls = vec![decl("A"), decl("B")];
    let records = process_variants(&decls, Some(CaseKind::Snake), &index);
    let ids: Vec<i64> = records.iter().map(|r| r.id).collect();
    assert_eq!(ids, vec![11, 12]);
}

#[test]
fn skip_range_in_the_middle() {
    let specs = vec![RangeSpec { start: Some(2), end: Some(4), inclusive: false }];
    let index = SkipRangeIndex::normalize(&specs).unwrap();
    let decls = vec![decl("A"), decl("B"), decl("C")];
    let records = process_variants(&decls, Some(CaseKind::Snake), &index);
    let ids: Vec<i64> = records.iter().map(|r| r.id).collect();
    assert_eq!(ids, vec![1, 4, 5]);
}

#[test]
fn db_name_override_wins_over_case() {
    let mut decls = vec![decl("Grass")];
    decls[0].db_name = Some("abc".to_string());
    let records = process_variants(&decls, Some(CaseKind::Upper), &SkipRangeIndex::empty());
    assert_eq!(records[0].db_name, "abc");
    assert_eq!(records[0].name, "Grass");
}

#[test]
fn no_case_leaves_name_verbatim() {
    let decls = vec![decl("MixedCase")];
    let records = process_variants(&decls, None, &SkipRangeIndex::empty());
    assert_eq!(records[0].db_name, "MixedCase");
}

#[test]
fn case_transforms() {
    let decls = vec![decl("MyVariantName")];
    let empty = SkipRangeIndex::empty();
    let cases = [
        (CaseKind::Snake, "my_variant_name"),
        (CaseKind::UpperSnake, "MY_VARIANT_NAME"),
        (CaseKind::Camel, "myVariantName"),
        (CaseKind::Pascal, "MyVariantName"),
        (CaseKind::Lower, "my variant name"),
        (CaseKind::Upper, "MY VARIANT NAME"),
        (CaseKind::Kebab, "my-variant-name"),
    ];
    for (case, expected) in cases {
        let records = process_variants(&decls, Some(case), &empty);
        assert_eq!(records[0].db_name, expected);
    }
}

#[test]
fn contains_half_open_and_inclusive() {
    let specs = vec![
        RangeSpec { start: Some(1), end: Some(6), inclusive: false },
        RangeSpec { start: Some(7), end: Some(10), inclusive: true },
    ];
    let index = SkipRangeIndex::normalize(&specs).unwrap();
    assert!(index.contains(1));
    assert!(index.contains(5));
    assert!(!index.contains(6));
    assert!(index.contains(7));
    assert!(index.contains(10));
    assert!(!index.contains(11));
    assert!(!index.contains(0));
}

#[test]
fn normalize_sorts_by_start() {
    // Given out of order, membership still works after normalization.
    let specs = vec![
        RangeSpec { start: Some(20), end: Some(25), inclusive: false },
        RangeSpec { start: Some(3), end: Some(5), inclusive: false },
    ];
    let index = SkipRangeIndex::normalize(&specs).unwrap();
    assert!(index.contains(3));
    assert!(index.contains(22));
    assert!(!index.contains(10));
}

#[test]
fn normalize_rejects_unbounded_range() {
    let specs = vec![RangeSpec { start: Some(1), end: None, inclusive: false }];
    assert!(SkipRangeIndex::normalize(&specs).is_err());
}

#[test]
fn missing_start_defaults_to_zero() {
    let specs = vec![RangeSpec { start: None, end: Some(3), inclusive: false }];
    let index = SkipRangeIndex::normalize(&specs).unwrap();
    assert!(index.contains(0));
    assert!(index.contains(2));
    assert!(!index.contains(3));
    let decls = vec![decl("A")];
    let records = process_variants(&decls, Some(CaseKind::Snake), &index);
    assert_eq!(records[0].id, 3);
}

#[test]
fn empty_index_skips_nothing() {
    let index = SkipRangeIndex::empty();
    assert!(!index.contains(0));
    assert!(!index.contains(1));
    assert!(!index.contains(100));
}
