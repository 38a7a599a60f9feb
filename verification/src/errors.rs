//! The structured taxonomy of discrepancies produced by a consistency check,
//! and the identification of the database-side source that was checked.

use vstd::prelude::*;
use vstd::string::*;

verus! {

/// One class of discrepancy between the declared enumeration and the remote
/// snapshot, collected exhaustively in a single pass.
#[derive(Clone, Debug, PartialEq, Eq, Hash)]
pub enum ErrorKind {
    /// Names declared locally but absent from the database, sorted.
    MissingFromDb(Vec<String>),
    /// Names present in the database but not declared locally, sorted.
    MissingFromRustEnum(Vec<String>),
    /// Names present on both sides whose ids disagree, in remote-row order;
    /// each entry is `(name, id found in the database, locally assigned id)`.
    IdMismatches(Vec<(String, i64, i64)>),
}

/// The error a decoder returns when a wire value matches no declared
/// variant. Recoverable by the caller; the decoders never coerce an unknown
/// value to a default variant.
#[derive(Clone, Debug, PartialEq, Eq, Hash)]
pub struct UnknownVariantError {
    /// The enumeration's name.
    pub rust_enum: String,
    /// The wire value that matched no variant, rendered as text.
    pub value: String,
}

/// An error found while validating an enumeration's configuration, before any
/// assignment or check runs.
#[derive(Clone, Debug, PartialEq, Eq, Hash)]
pub enum ConfigError {
    /// The same attribute was given twice; carries the attribute's name.
    DuplicateAttribute(String),
    /// An attribute that is not part of the configuration surface; carries
    /// its name.
    UnknownAttribute(String),
    /// `default` or `skip` was combined with other mapping arguments; carries
    /// the offending argument's name.
    ExclusiveMappingArg(String),
    /// A connection was supplied together with a request to skip the check.
    ConflictingCheckAttributes,
    /// Neither a connection nor a request to skip the check was supplied, and
    /// the defaults do not skip it.
    MissingConnection,
    /// The value given for `case` names no known case transform; carries the
    /// value.
    InvalidCase(String),
    /// The id column type is not one of the supported integer types; carries
    /// the type's name.
    UnknownIdType(String),
    /// A skip range without an end.
    InfiniteRange,
    /// A type path with no segments.
    InvalidPath,
    /// Neither id-mapping nor name-mapping is active for the enumeration.
    NoMappingConfigured,
}

/// The database-side source an enumeration is checked against: either a
/// store-native enumerated type, or a lookup table's name column.
#[derive(Clone, Debug, PartialEq, Eq, Hash)]
pub enum DbEnumSource {
    CustomEnum(String),
    Column { table: String, column: String },
}

impl DbEnumSource {
    /// The name of the target source: the native type's name, or
    /// `table.column` for a lookup column.
    pub open spec fn name_spec(&self) -> Seq<char> {
        match self {
            DbEnumSource::CustomEnum(name) => name@,
            DbEnumSource::Column { table, column } => table@ + "."@ + column@,
        }
    }

    pub fn name(&self) -> (r: String)
        ensures
            r@ == self.name_spec(),
    {
        match self {
            DbEnumSource::CustomEnum(name) => name.clone(),
            DbEnumSource::Column { table, column } => {
                let mut s = table.clone();
                s.append(".");
                s.append(column.as_str());
                s
            },
        }
    }

    /// What kind of source this is, as a word usable in a report.
    pub open spec fn db_type_spec(&self) -> Seq<char> {
        match self {
            DbEnumSource::CustomEnum(_) => "enum"@,
            DbEnumSource::Column { .. } => "column"@,
        }
    }

    pub fn db_type(&self) -> (r: &'static str)
        ensures
            r@ == self.db_type_spec(),
    {
        match self {
            DbEnumSource::CustomEnum(_) => "enum",
            DbEnumSource::Column { .. } => "column",
        }
    }
}

/// The complete picture of a failed consistency check: which enumeration was
/// checked, against which source, and every discrepancy that was found.
#[derive(Clone, Debug, PartialEq, Eq, Hash)]
pub struct DbEnumError {
    pub rust_enum: String,
    pub db_source: DbEnumSource,
    pub errors: Vec<ErrorKind>,
}

impl DbEnumError {
    /// An empty report for the given enumeration and source; the checker fills
    /// in the discrepancies.
    pub fn new(rust_enum: String, db_source: DbEnumSource) -> (r: Self)
        ensures
            r.rust_enum == rust_enum,
            r.db_source == db_source,
            r.errors@ == Seq::<ErrorKind>::empty(),
    {
        Self { rust_enum, db_source, errors: Vec::new() }
    }
}

} // verus!
