//! Keeps a statically declared enumeration in sync with a database-side
//! encoding of the same enumeration: derives each variant's external name
//! and numeric id from its declaration (honoring overrides and reserved-id
//! skip ranges), reconciles the declared set against a remote snapshot in a
//! single pass, and defines the codecs that translate between the symbolic
//! variants and their two wire encodings (textual name, integer id).

pub mod casing;
pub mod check;
pub mod codec;
pub mod config;
pub mod definition;
pub mod errors;
pub mod report;
pub mod skip_ranges;
pub mod text;
pub mod variants;

pub use casing::CaseKind;
pub use check::{check_consistency_names, check_consistency_with_ids};
pub use codec::{decode_int, decode_text, encode_int, encode_text, from_id_repr, to_id_repr};
pub use config::{
    resolve_attributes, Attributes, Check, EnumAttr, IdMapping, IdType, MappingArg, NameMapping,
    NameTypes,
};
pub use definition::{enum_definition, EnumDefinition};
pub use errors::{ConfigError, DbEnumError, DbEnumSource, ErrorKind, UnknownVariantError};
pub use skip_ranges::{RangeSpec, SkipRangeIndex};
pub use variants::{process_variants, VariantData, VariantDeclaration};
