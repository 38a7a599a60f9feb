//! One checked enumeration, fully resolved: its names, its configuration,
//! and its assigned variant records.

use vstd::prelude::*;
use crate::casing::{apply_case, case_code, cased, CaseKind};
use crate::config::{lit_string, Attributes, NameTypes};
use crate::errors::{ConfigError, DbEnumSource};
use crate::variants::{
    assigned_ids, derived_db_name, overrides_of, process_variants, record_ids, VariantData,
    VariantDeclaration,
};

verus! {

/// An enumeration ready for checking and translation: the resolved
/// configuration together with the assigned variant records, immutable once
/// built.
#[derive(Clone, Debug, PartialEq, Eq, Hash)]
pub struct EnumDefinition {
    /// The enumeration's symbolic name.
    pub name: String,
    /// The lookup table checked against.
    pub table_name: String,
    /// The name column checked against.
    pub column_name: String,
    /// The resolved configuration.
    pub attrs: Attributes,
    /// The assigned variant records, in declaration order.
    pub records: Vec<VariantData>,
}

/// Builds the definition of one enumeration from its name, its resolved
/// configuration, and its ordered variant declarations. Fails exactly when
/// neither id-mapping nor name-mapping is active. The table name defaults to
/// the snake-cased enumeration name, the column name to `name`; the records
/// come from the variant assignment under the configured case transform and
/// skip ranges.
pub fn enum_definition(name: &str, attrs: Attributes, decls: &Vec<VariantDeclaration>) -> (r:
    Result<EnumDefinition, ConfigError>)
    requires
        attrs.skip_index.max_end() + decls@.len() + 1 <= i64::MAX,
    ensures
        match r {
            Ok(d) => {
                &&& attrs.id_mapping is Some || attrs.name_mapping is Some
                &&& d.name@ == name@
                &&& d.attrs == attrs
                &&& d.table_name@ == (match attrs.table {
                    Some(t) => t@,
                    None => cased(case_code(CaseKind::Snake), name@),
                })
                &&& d.column_name@ == (match attrs.column {
                    Some(c) => c@,
                    None => "name"@,
                })
                &&& d.records@.len() == decls@.len()
                &&& forall|k: int|
                    0 <= k < decls@.len() ==> {
                        &&& (#[trigger] d.records@[k]).name@ == decls@[k].name@
                        &&& d.records@[k].db_name@ == derived_db_name(
                            decls@[k],
                            Some(attrs.case),
                        )
                        &&& d.records@[k].skip_check == decls@[k].skip_check
                    }
                &&& forall|k: int|
                    0 <= k < decls@.len() && decls@[k].id is Some ==> (
                    #[trigger] d.records@[k]).id == decls@[k].id.unwrap()
                &&& (attrs.skip_index.sorted_by_start() && attrs.skip_index.disjoint()
                    ==> record_ids(d.records@) == assigned_ids(
                    overrides_of(decls@),
                    attrs.skip_index,
                    1,
                ))
            },
            Err(e) => {
                &&& e == ConfigError::NoMappingConfigured
                &&& attrs.id_mapping is None
                &&& attrs.name_mapping is None
            },
        },
{
    if attrs.id_mapping.is_none() && attrs.name_mapping.is_none() {
        return Err(ConfigError::NoMappingConfigured);
    }
    let table_name: String = match &attrs.table {
        Some(t) => t.clone(),
        None => apply_case(name, CaseKind::Snake),
    };
    let column_name: String = match &attrs.column {
        Some(c) => c.clone(),
        None => lit_string("name"),
    };
    let records = process_variants(decls, Some(attrs.case), &attrs.skip_index);
    Ok(EnumDefinition { name: lit_string(name), table_name, column_name, attrs, records })
}

impl EnumDefinition {
    /// The database source a name-only check targets: the configured custom
    /// type when there is one, else the lookup column.
    pub open spec fn source_spec(&self) -> DbEnumSource {
        match self.attrs.name_mapping {
            Some(nm) => match nm.db_type {
                NameTypes::Custom { name } => DbEnumSource::CustomEnum(name),
                NameTypes::Text => DbEnumSource::Column {
                    table: self.table_name,
                    column: self.column_name,
                },
            },
            None => DbEnumSource::Column { table: self.table_name, column: self.column_name },
        }
    }

    pub fn source(&self) -> (r: DbEnumSource)
        ensures
            r == self.source_spec(),
    {
        match &self.attrs.name_mapping {
            Some(nm) => match &nm.db_type {
                NameTypes::Custom { name } => DbEnumSource::CustomEnum(name.clone()),
                NameTypes::Text => DbEnumSource::Column {
                    table: self.table_name.clone(),
                    column: self.column_name.clone(),
                },
            },
            None => DbEnumSource::Column {
                table: self.table_name.clone(),
                column: self.column_name.clone(),
            },
        }
    }
}

} // verus!
