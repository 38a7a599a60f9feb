//! Consistency-check scenarios: a declared enumeration of the eighteen
//! creature types reconciled against remote snapshots of the same table.

use diesel_enums::{
    check_consistency_names, check_consistency_with_ids, process_variants, CaseKind, DbEnumSource,
    ErrorKind, RangeSpec, SkipRangeIndex, VariantDeclaration,
};

const TYPES: [&str; 18] = [
    "Grass", "Poison", "Fire", "Flying", "Water", "Bug", "Normal", "Electric", "Ground", "Fairy",
    "Fighting", "Psychic", "Rock", "Steel", "Ice", "Ghost", "Dragon", "Dark",
];

const TYPES_LOWER: [&str; 18] = [
    "grass", "poison", "fire", "flying", "water", "bug", "normal", "electric", "ground", "fairy",
    "fighting", "psychic", "rock", "steel", "ice", "ghost", "dragon", "dark",
];

fn plain_decls(names: &[&str]) -> Vec<VariantDeclaration> {
    names
        .iter()
        .map(|n| VariantDeclaration {
            name: n.to_string(),
            db_name: None,
            id: None,
            skip_check: false,
        })
        .collect()
}

fn table_source() -> DbEnumSource {
    DbEnumSource::Column { table: "types".to_string(), column: "name".to_string() }
}

/// Remote rows `(1, "Grass") .. (18, "Dark")`, as the fixture table holds.
fn remote_rows() -> Vec<(i64, String)> {
    TYPES
        .iter()
        .enumerate()
        .map(|(i, n)| ((i + 1) as i64, n.to_string()))
        .collect()
}

#[test]
fn you_shall_pass() {
    let decls = plain_decls(&TYPES);
    let records = process_variants(&decls, Some(CaseKind::Pascal), &SkipRangeIndex::empty());
    let result = check_consistency_with_ids("Types", table_source(), &records, &remote_rows());
    assert!(result.is_ok());
}

#[test]
fn altered_casing() {
    let lowercase_idents: Vec<&str> = TYPES_LOWER.to_vec();
    let decls = plain_decls(&lowercase_idents);
    let records = process_variants(&decls, Some(CaseKind::Pascal), &SkipRangeIndex::empty());
    let result = check_consistency_with_ids("Types", table_source(), &records, &remote_rows());
    assert!(result.is_ok());
}

#[test]
fn wrong_casing() {
    // Local db-names rendered in UPPERCASE against a remote native enum whose
    // labels are lowercase: zero overlap in both directions.
    let decls = plain_decls(&TYPES);
    let records = process_variants(&decls, Some(CaseKind::Upper), &SkipRangeIndex::empty());
    let remote: Vec<String> = TYPES_LOWER.iter().map(|n| n.to_string()).collect();
    let errors = check_consistency_names(
        "PokemonTypes",
        DbEnumSource::CustomEnum("pokemon_type".to_string()),
        &records,
        &remote,
    )
    .unwrap_err()
    .errors;

    assert_eq!(errors.len(), 2);
    assert!(errors.iter().any(|e| {
        if let ErrorKind::MissingFromDb(items) = e {
            items.len() == 18
        } else if let ErrorKind::MissingFromRustEnum(items) = e {
            items.len() == 18
        } else {
            false
        }
    }));
}

#[test]
fn missing_db_variant() {
    // The local enumeration omits "Grass"; the remote side has all eighteen.
    let seventeen: Vec<&str> = TYPES.iter().skip(1).cloned().collect();
    let decls = plain_decls(&seventeen);
    let records = process_variants(&decls, Some(CaseKind::Snake), &SkipRangeIndex::empty());
    let remote: Vec<String> = TYPES_LOWER.iter().map(|n| n.to_string()).collect();
    let errors = check_consistency_names(
        "PokemonTypes",
        DbEnumSource::CustomEnum("pokemon_type".to_string()),
        &records,
        &remote,
    )
    .unwrap_err()
    .errors;

    assert_eq!(errors.len(), 1);
    match errors.first().unwrap() {
        ErrorKind::MissingFromRustEnum(items) => {
            assert_eq!(items.len(), 1);
            assert_eq!(items[0], "grass");
        }
        _ => panic!(),
    }
}

#[test]
fn extra_variant() {
    // One extra local variant beyond the eighteen remote names.
    let mut nineteen: Vec<&str> = vec!["NotAPokemonType"];
    nineteen.extend(TYPES.iter());
    let decls = plain_decls(&nineteen);
    let records = process_variants(&decls, Some(CaseKind::Snake), &SkipRangeIndex::empty());
    let remote: Vec<String> = TYPES_LOWER.iter().map(|n| n.to_string()).collect();
    let errors = check_consistency_names(
        "PokemonTypes",
        DbEnumSource::CustomEnum("pokemon_type".to_string()),
        &records,
        &remote,
    )
    .unwrap_err()
    .errors;

    assert_eq!(errors.len(), 1);
    match errors.first().unwrap() {
        ErrorKind::MissingFromDb(items) => {
            assert_eq!(items.len(), 1);
            assert_eq!(items[0], "not_a_pokemon_type");
        }
        _ => panic!(),
    }
}

#[test]
fn name_mismatch() {
    // "Grass" carries an explicit db-name override "abc" that the remote
    // side does not know.
    let mut decls = plain_decls(&TYPES);
    decls[0].db_name = Some("abc".to_string());
    let records = process_variants(&decls, Some(CaseKind::Pascal), &SkipRangeIndex::empty());
    let errors = check_consistency_with_ids("Types", table_source(), &records, &remote_rows())
        .unwrap_err()
        .errors;

    assert_eq!(errors.len(), 2);
    assert!(errors.iter().any(|e| {
        if let ErrorKind::MissingFromDb(items) = e {
            assert_eq!(items.len(), 1);
            assert_eq!(items[0], "abc");
            true
        } else if let ErrorKind::MissingFromRustEnum(items) = e {
            assert_eq!(items.len(), 1);
            assert_eq!(items[0], "Grass");
            true
        } else {
            false
        }
    }));
}

#[test]
fn id_mismatch() {
    // "Grass" carries an explicit id override 20; the remote row says 1.
    let mut decls = plain_decls(&TYPES);
    decls[0].id = Some(20);
    let records = process_variants(&decls, Some(CaseKind::Pascal), &SkipRangeIndex::empty());
    let errors = check_consistency_with_ids("Types", table_source(), &records, &remote_rows())
        .unwrap_err()
        .errors;

    assert_eq!(errors.len(), 1);
    match errors.first().unwrap() {
        ErrorKind::IdMismatches(items) => {
            let (name, expected, found) = items.first().unwrap();
            assert_eq!(name, "Grass");
            assert_eq!(*expected, 1);
            assert_eq!(*found, 20);
        }
        _ => panic!(),
    }
}

#[test]
fn ignored_id_mismatch() {
    // Two variants swapped in declaration order: irrelevant when only
    // name-mapping is active.
    let mut reordered: Vec<&str> = TYPES.to_vec();
    reordered.swap(0, 1);
    let decls = plain_decls(&reordered);
    let records = process_variants(&decls, Some(CaseKind::Pascal), &SkipRangeIndex::empty());
    let remote: Vec<String> = TYPES.iter().map(|n| n.to_string()).collect();
    let result = check_consistency_names("Types", table_source(), &records, &remote);
    assert!(result.is_ok());
}

#[test]
fn skipped_ids() {
    // Skip ranges `1..6`, `6`, `7..=10` push the first automatic id to 11;
    // the remote ids still start at 1, so every variant's id mismatches.
    let skip_specs = vec![
        RangeSpec { start: Some(1), end: Some(6), inclusive: false },
        RangeSpec { start: Some(6), end: Some(6), inclusive: true },
        RangeSpec { start: Some(7), end: Some(10), inclusive: true },
    ];
    let index = SkipRangeIndex::normalize(&skip_specs).unwrap();
    let decls = plain_decls(&TYPES);
    let records = process_variants(&decls, Some(CaseKind::Pascal), &index);
    let errors = check_consistency_with_ids("Types", table_source(), &records, &remote_rows())
        .unwrap_err()
        .errors;

    assert_eq!(errors.len(), 1);
    match errors.first().unwrap() {
        ErrorKind::IdMismatches(items) => {
            assert_eq!(items.len(), 18);
            for (i, (_, expected, found)) in items.iter().enumerate() {
                assert_eq!(*expected, (i + 1) as i64);
                assert_eq!(*found, (i + 11) as i64);
            }
        }
        _ => panic!(),
    }
}

#[test]
fn exact_match_with_explicit_ids() {
    // Explicit ids that happen to agree with the remote rows still succeed.
    let mut decls = plain_decls(&TYPES);
    for (i, d) in decls.iter_mut().enumerate() {
        d.id = Some((i + 1) as i64);
    }
    let records = process_variants(&decls, Some(CaseKind::Pascal), &SkipRangeIndex::empty());
    let result = check_consistency_with_ids("Types", table_source(), &records, &remote_rows());
    assert!(result.is_ok());
}

#[test]
fn skip_check_flag_excludes_variant() {
    // A record flagged skip-check is left out of the name-only local set.
    let mut decls = plain_decls(&TYPES);
    decls[0].skip_check = true;
    let records = process_variants(&decls, Some(CaseKind::Pascal), &SkipRangeIndex::empty());
    let remote: Vec<String> = TYPES.iter().skip(1).map(|n| n.to_string()).collect();
    let result = check_consistency_names("Types", table_source(), &records, &remote);
    assert!(result.is_ok());
}

#[test]
fn duplicate_remote_name_reported_once_matched() {
    // A remote name occurring twice matches the local set only once; the
    // second occurrence is reported as missing locally.
    let decls = plain_decls(&["Grass"]);
    let records = process_variants(&decls, Some(CaseKind::Snake), &SkipRangeIndex::empty());
    let remote: Vec<String> = vec!["grass".to_string(), "grass".to_string()];
    let errors = check_consistency_names("Types", table_source(), &records, &remote)
        .unwrap_err()
        .errors;
    assert_eq!(errors.len(), 1);
    match errors.first().unwrap() {
        ErrorKind::MissingFromRustEnum(items) => {
            assert_eq!(items, &vec!["grass".to_string()]);
        }
        _ => panic!(),
    }
}

#[test]
fn error_carries_enum_and_source() {
    let decls = plain_decls(&["Grass"]);
    let records = process_variants(&decls, Some(CaseKind::Pascal), &SkipRangeIndex::empty());
    let rows: Vec<(i64, String)> = vec![(2, "Grass".to_string())];
    let e = check_consistency_with_ids("Types", table_source(), &records, &rows).unwrap_err();
    assert_eq!(e.rust_enum, "Types");
    assert_eq!(
        e.db_source,
        DbEnumSource::Column { table: "types".to_string(), column: "name".to_string() }
    );
    assert_eq!(
        e.errors,
        vec![ErrorKind::IdMismatches(vec![("Grass".to_string(), 2, 1)])]
    );
}

#[test]
fn missing_lists_are_sorted() {
    // Remote-only names come back sorted, not in remote order; local-only
    // names are sorted as well.
    let decls = plain_decls(&["Zebra", "Apple"]);
    let records = process_variants(&decls, Some(CaseKind::Snake), &SkipRangeIndex::empty());
    let remote: Vec<String> = vec!["walrus".to_string(), "banana".to_string()];
    let errors = check_consistency_names("Things", table_source(), &records, &remote)
        .unwrap_err()
        .errors;
    assert_eq!(errors.len(), 2);
    match &errors[0] {
        ErrorKind::MissingFromRustEnum(items) => {
            assert_eq!(items, &vec!["banana".to_string(), "walrus".to_string()]);
        }
        _ => panic!(),
    }
    match &errors[1] {
        ErrorKind::MissingFromDb(items) => {
            assert_eq!(items, &vec!["apple".to_string(), "zebra".to_string()]);
        }
        _ => panic!(),
    }
}

#[test]
fn empty_both_sides_pass() {
    let records = process_variants(&vec![], Some(CaseKind::Snake), &SkipRangeIndex::empty());
    assert!(check_consistency_with_ids("Types", table_source(), &records, &vec![]).is_ok());
    assert!(check_consistency_names("Types", table_source(), &records, &vec![]).is_ok());
}

#[test]
fn empty_remote_reports_all_local() {
    let decls = plain_decls(&["B", "A"]);
    let records = process_variants(&decls, Some(CaseKind::Snake), &SkipRangeIndex::empty());
    let errors = check_consistency_with_ids("Types", table_source(), &records, &vec![])
        .unwrap_err()
        .errors;
    assert_eq!(
        errors,
        vec![ErrorKind::MissingFromDb(vec!["a".to_string(), "b".to_string()])]
    );
}

#[test]
fn duplicate_local_db_name_keeps_last_id() {
    // Two records sharing a db-name: the map keeps the later record's id.
    let decls: Vec<VariantDeclaration> = vec![
        VariantDeclaration {
            name: "A".to_string(),
            db_name: Some("same".to_string()),
            id: None,
            skip_check: false,
        },
        VariantDeclaration {
            name: "B".to_string(),
            db_name: Some("same".to_string()),
            id: None,
            skip_check: false,
        },
    ];
    let records = process_variants(&decls, Some(CaseKind::Snake), &SkipRangeIndex::empty());
    let rows: Vec<(i64, String)> = vec![(2, "same".to_string())];
    assert!(check_consistency_with_ids("Types", table_source(), &records, &rows).is_ok());
}
