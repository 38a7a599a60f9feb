//! Rendered reports: the exact text each discrepancy and each full report
//! produces.

use diesel_enums::{DbEnumError, DbEnumSource, ErrorKind};

#[test]
fn source_name_and_type() {
    let column =
        DbEnumSource::Column { table: "types".to_string(), column: "name".to_string() };
    assert_eq!(column.name(), "types.name");
    assert_eq!(column.db_type(), "column");

    let custom = DbEnumSource::CustomEnum("pokemon_type".to_string());
    assert_eq!(custom.name(), "pokemon_type");
    assert_eq!(custom.db_type(), "enum");
}

#[test]
fn new_error_is_empty() {
    let e = DbEnumError::new(
        "Types".to_string(),
        DbEnumSource::CustomEnum("pokemon_type".to_string()),
    );
    assert_eq!(e.rust_enum, "Types");
    assert!(e.errors.is_empty());
}

#[test]
fn missing_from_db_message() {
    let e = ErrorKind::MissingFromDb(vec!["apple".to_string(), "zebra".to_string()]);
    assert_eq!(
        e.message(),
        "\n  - Variants missing from the database: [ apple, zebra ]\n"
    );
}

#[test]
fn missing_from_rust_enum_message() {
    let e = ErrorKind::MissingFromRustEnum(vec!["grass".to_string()]);
    assert_eq!(
        e.message(),
        "\n  - Variants missing from the rust enum: [ grass ]\n"
    );
}

#[test]
fn id_mismatches_message() {
    let e = ErrorKind::IdMismatches(vec![
        ("Grass".to_string(), 1, 20),
        ("Dark".to_string(), -3, 18),
    ]);
    assert_eq!(
        e.message(),
        "\n  - Wrong id mapping for `Grass`. Expected: 1, found: 20\n\
         \n  - Wrong id mapping for `Dark`. Expected: -3, found: 18\n"
    );
}

#[test]
fn empty_join_renders_empty_list() {
    let e = ErrorKind::MissingFromDb(vec![]);
    assert_eq!(e.message(), "\n  - Variants missing from the database: [  ]\n");
}

#[test]
fn full_report_message() {
    let e = DbEnumError {
        rust_enum: "Types".to_string(),
        db_source: DbEnumSource::Column {
            table: "types".to_string(),
            column: "name".to_string(),
        },
        errors: vec![
            ErrorKind::IdMismatches(vec![("Grass".to_string(), 1, 20)]),
            ErrorKind::MissingFromDb(vec!["abc".to_string()]),
        ],
    };
    assert_eq!(
        e.message(),
        "\n The rust enum `Types` and the database column `types.name` are out of sync: \n\
         \n  - Wrong id mapping for `Grass`. Expected: 1, found: 20\n\n\
         \n  - Variants missing from the database: [ abc ]\n\n"
    );
}

#[test]
fn report_for_custom_enum_source() {
    let e = DbEnumError {
        rust_enum: "PokemonTypes".to_string(),
        db_source: DbEnumSource::CustomEnum("pokemon_type".to_string()),
        errors: vec![],
    };
    assert_eq!(
        e.message(),
        "\n The rust enum `PokemonTypes` and the database enum `pokemon_type` are out of sync: \n"
    );
}

#[test]
fn extreme_ids_render() {
    let e = ErrorKind::IdMismatches(vec![("X".to_string(), i64::MIN, i64::MAX)]);
    assert_eq!(
        e.message(),
        "\n  - Wrong id mapping for `X`. Expected: -9223372036854775808, \
         found: 9223372036854775807\n"
    );
}
