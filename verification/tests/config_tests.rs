//! Configuration resolution: attribute validation, defaults, and the full
//! enumeration definition.

use diesel_enums::{
    enum_definition, resolve_attributes, CaseKind, Check, ConfigError, DbEnumSource, EnumAttr,
    IdType, MappingArg, NameTypes, RangeSpec, VariantDeclaration,
};

fn conn_attr() -> EnumAttr {
    EnumAttr::Conn(vec!["crate_root".to_string(), "run_query".to_string()])
}

fn decl(name: &str) -> VariantDeclaration {
    VariantDeclaration { name: name.to_string(), db_name: None, id: None, skip_check: false }
}

#[test]
fn defaults_resolve() {
    let attrs = resolve_attributes(&vec![conn_attr()]).unwrap();
    assert!(attrs.table.is_none());
    assert!(attrs.column.is_none());
    assert_eq!(attrs.case, CaseKind::Snake);
    assert!(!attrs.skip_test);
    // Id-mapping defaults to an Integer column mapped to i32; name-mapping
    // is off by default.
    let id = attrs.id_mapping.unwrap();
    assert_eq!(id.rust_type, IdType::I32);
    assert_eq!(id.type_path, vec!["diesel", "sql_types", "Integer"]);
    assert!(attrs.name_mapping.is_none());
    match attrs.conn {
        Check::Conn(p) => assert_eq!(p, vec!["crate_root", "run_query"]),
        Check::Skip => panic!(),
    }
}

#[test]
fn missing_connection_is_an_error() {
    let e = resolve_attributes(&vec![]).unwrap_err();
    assert_eq!(e, ConfigError::MissingConnection);
}

#[test]
fn skip_consistency_check_alone_is_enough() {
    let attrs = resolve_attributes(&vec![EnumAttr::SkipConsistencyCheck]).unwrap();
    assert_eq!(attrs.conn, Check::Skip);
}

#[test]
fn conn_with_skip_check_conflicts() {
    let e = resolve_attributes(&vec![conn_attr(), EnumAttr::SkipConsistencyCheck]).unwrap_err();
    assert_eq!(e, ConfigError::ConflictingCheckAttributes);
    let e = resolve_attributes(&vec![EnumAttr::SkipConsistencyCheck, conn_attr()]).unwrap_err();
    assert_eq!(e, ConfigError::ConflictingCheckAttributes);
}

#[test]
fn duplicate_attribute_is_an_error() {
    let attrs = vec![
        conn_attr(),
        EnumAttr::Table("a".to_string()),
        EnumAttr::Table("b".to_string()),
    ];
    let e = resolve_attributes(&attrs).unwrap_err();
    assert_eq!(e, ConfigError::DuplicateAttribute("table".to_string()));
}

#[test]
fn unknown_attribute_is_an_error() {
    let attrs = vec![conn_attr(), EnumAttr::Unknown("tables".to_string())];
    let e = resolve_attributes(&attrs).unwrap_err();
    assert_eq!(e, ConfigError::UnknownAttribute("tables".to_string()));
}

#[test]
fn case_names_resolve() {
    let cases = [
        ("snake_case", CaseKind::Snake),
        ("UPPER_SNAKE", CaseKind::UpperSnake),
        ("camelCase", CaseKind::Camel),
        ("PascalCase", CaseKind::Pascal),
        ("lowercase", CaseKind::Lower),
        ("UPPERCASE", CaseKind::Upper),
        ("kebab-case", CaseKind::Kebab),
    ];
    for (name, expected) in cases {
        let attrs =
            resolve_attributes(&vec![conn_attr(), EnumAttr::Case(name.to_string())]).unwrap();
        assert_eq!(attrs.case, expected);
    }
}

#[test]
fn invalid_case_is_an_error() {
    let attrs = vec![conn_attr(), EnumAttr::Case("Title Case".to_string())];
    let e = resolve_attributes(&attrs).unwrap_err();
    assert_eq!(e, ConfigError::InvalidCase("Title Case".to_string()));
}

#[test]
fn id_mapping_skip_and_type() {
    let attrs = resolve_attributes(&vec![
        conn_attr(),
        EnumAttr::IdMapping(vec![MappingArg::Skip]),
    ])
    .unwrap();
    assert!(attrs.id_mapping.is_none());

    let attrs = resolve_attributes(&vec![
        conn_attr(),
        EnumAttr::IdMapping(vec![MappingArg::TypePath(vec![
            "diesel".to_string(),
            "sql_types".to_string(),
            "BigInt".to_string(),
        ])]),
    ])
    .unwrap();
    let id = attrs.id_mapping.unwrap();
    assert_eq!(id.rust_type, IdType::I64);
    assert_eq!(id.type_path, vec!["diesel", "sql_types", "BigInt"]);
}

#[test]
fn unknown_id_type_is_an_error() {
    let attrs = vec![
        conn_attr(),
        EnumAttr::IdMapping(vec![MappingArg::TypePath(vec![
            "diesel".to_string(),
            "sql_types".to_string(),
            "Text".to_string(),
        ])]),
    ];
    let e = resolve_attributes(&attrs).unwrap_err();
    assert_eq!(e, ConfigError::UnknownIdType("Text".to_string()));
}

#[test]
fn name_mapping_custom_name_fallback() {
    // A type path without an explicit name falls back to the snake-cased
    // last path segment.
    let attrs = resolve_attributes(&vec![
        conn_attr(),
        EnumAttr::NameMapping(vec![MappingArg::TypePath(vec![
            "sql_types".to_string(),
            "PokemonType".to_string(),
        ])]),
    ])
    .unwrap();
    let nm = attrs.name_mapping.unwrap();
    match nm.db_type {
        NameTypes::Custom { name } => assert_eq!(name, "pokemon_type"),
        NameTypes::Text => panic!(),
    }
    assert_eq!(nm.path, vec!["sql_types", "PokemonType"]);
}

#[test]
fn name_mapping_explicit_name() {
    let attrs = resolve_attributes(&vec![
        conn_attr(),
        EnumAttr::NameMapping(vec![
            MappingArg::TypePath(vec!["sql_types".to_string(), "PokemonType".to_string()]),
            MappingArg::Name("pokemon_kind".to_string()),
        ]),
    ])
    .unwrap();
    let nm = attrs.name_mapping.unwrap();
    assert!(nm.db_type.is_custom());
    match nm.db_type {
        NameTypes::Custom { name } => assert_eq!(name, "pokemon_kind"),
        NameTypes::Text => panic!(),
    }
}

#[test]
fn name_mapping_default_is_text() {
    let attrs = resolve_attributes(&vec![
        conn_attr(),
        EnumAttr::NameMapping(vec![MappingArg::Default]),
    ])
    .unwrap();
    let nm = attrs.name_mapping.unwrap();
    assert_eq!(nm.db_type, NameTypes::Text);
    assert!(!nm.db_type.is_custom());
    assert_eq!(nm.path, vec!["diesel", "sql_types", "Text"]);
}

#[test]
fn infinite_skip_range_is_an_error() {
    let attrs = vec![
        conn_attr(),
        EnumAttr::SkipIds(vec![RangeSpec { start: Some(1), end: None, inclusive: false }]),
    ];
    let e = resolve_attributes(&attrs).unwrap_err();
    assert_eq!(e, ConfigError::InfiniteRange);
}

#[test]
fn definition_defaults_table_and_column() {
    let attrs = resolve_attributes(&vec![conn_attr()]).unwrap();
    let decls = vec![decl("Grass"), decl("Poison")];
    let d = enum_definition("PokemonTypes", attrs, &decls).unwrap();
    assert_eq!(d.name, "PokemonTypes");
    assert_eq!(d.table_name, "pokemon_types");
    assert_eq!(d.column_name, "name");
    assert_eq!(d.records.len(), 2);
    assert_eq!(d.records[0].db_name, "grass");
    assert_eq!(d.records[1].id, 2);
    assert_eq!(
        d.source(),
        DbEnumSource::Column { table: "pokemon_types".to_string(), column: "name".to_string() }
    );
}

#[test]
fn definition_with_custom_enum_source() {
    let attrs = resolve_attributes(&vec![
        conn_attr(),
        EnumAttr::IdMapping(vec![MappingArg::Skip]),
        EnumAttr::NameMapping(vec![MappingArg::TypePath(vec![
            "sql_types".to_string(),
            "PokemonType".to_string(),
        ])]),
    ])
    .unwrap();
    let decls = vec![decl("Grass")];
    let d = enum_definition("PokemonTypes", attrs, &decls).unwrap();
    assert_eq!(d.source(), DbEnumSource::CustomEnum("pokemon_type".to_string()));
}

#[test]
fn custom_table_name() {
    let attrs = resolve_attributes(&vec![
        conn_attr(),
        EnumAttr::Table("types".to_string()),
        EnumAttr::Case("PascalCase".to_string()),
    ])
    .unwrap();
    let decls = vec![decl("Grass")];
    let d = enum_definition("PokeTypes", attrs, &decls).unwrap();
    assert_eq!(d.table_name, "types");
    assert_eq!(d.records[0].db_name, "Grass");
}

#[test]
fn definition_requires_a_mapping() {
    let attrs = resolve_attributes(&vec![
        conn_attr(),
        EnumAttr::IdMapping(vec![MappingArg::Skip]),
        EnumAttr::NameMapping(vec![MappingArg::Skip]),
    ])
    .unwrap();
    let decls = vec![decl("Grass")];
    let e = enum_definition("Types", attrs, &decls).unwrap_err();
    assert_eq!(e, ConfigError::NoMappingConfigured);
}

#[test]
fn exclusive_mapping_args() {
    let attrs = vec![
        conn_attr(),
        EnumAttr::IdMapping(vec![MappingArg::Default, MappingArg::Skip]),
    ];
    assert!(resolve_attributes(&attrs).is_err());
}
