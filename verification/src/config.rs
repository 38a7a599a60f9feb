//! The validated configuration of one enumeration: which mappings are
//! active, the case transform, the source names, the skip ranges and the
//! check policy, resolved once from the parsed attribute surface before any
//! assignment runs.

use vstd::prelude::*;
use vstd::string::*;
use crate::casing::{case_code, cased, CaseKind};
use crate::errors::ConfigError;
use crate::skip_ranges::{RangeSpec, SkipRangeIndex};
use crate::text::{str_eq, views_of};

verus! {

// The build-wide defaults: explicit constants, read once at
// configuration-construction time, never from ambient process-wide state.
// This build keeps them all off.

/// Whether an enumeration with no connection configured skips the
/// consistency check by default.
pub fn default_skip_consistency_check() -> (r: bool)
    ensures
        r == false,
{
    false
}

/// Whether the generated consistency test is skipped by default.
pub fn default_skip_test() -> (r: bool)
    ensures
        r == false,
{
    false
}

/// Whether name-mapping is active by default.
pub fn default_name_mapping() -> (r: bool)
    ensures
        r == false,
{
    false
}

/// Whether the default id-mapping is suppressed.
pub fn no_default_id_mapping() -> (r: bool)
    ensures
        r == false,
{
    false
}

/// Whether consistency tests run on an asynchronous executor.
pub fn async_tests() -> (r: bool)
    ensures
        r == false,
{
    false
}

/// Whether reports are rendered with colored, itemized output.
pub fn pretty_test_errors() -> (r: bool)
    ensures
        r == false,
{
    false
}

/// Whether a default connection-function path is assumed.
pub fn default_conn_function_path() -> (r: bool)
    ensures
        r == false,
{
    false
}

/// Whether a default runner path is assumed.
pub fn default_runner_path() -> (r: bool)
    ensures
        r == false,
{
    false
}

/// Whether the bundled SQLite runner is the default.
pub fn default_sqlite_runner() -> (r: bool)
    ensures
        r == false,
{
    false
}

/// Whether the bundled Postgres runner is the default.
pub fn default_postgres_runner() -> (r: bool)
    ensures
        r == false,
{
    false
}

/// The integer types an id column can map to.
#[derive(Clone, Copy, Debug, PartialEq, Eq, Hash, Structural)]
pub enum IdType {
    I8,
    I16,
    I32,
    I64,
}

/// An active id mapping: the SQL type path of the id column, and the integer
/// type it maps to.
#[derive(Clone, Debug, PartialEq, Eq, Hash)]
pub struct IdMapping {
    pub type_path: Vec<String>,
    pub rust_type: IdType,
}

/// The path segments both defaults point into.
fn default_sql_types_path(leaf: &str) -> (r: Vec<String>)
    ensures
        views_of(r@) == seq!["diesel"@, "sql_types"@, leaf@],
{
    let mut r: Vec<String> = Vec::new();
    r.push(lit_string("diesel"));
    r.push(lit_string("sql_types"));
    r.push(lit_string(leaf));
    proof {
        assert(views_of(r@) =~= seq!["diesel"@, "sql_types"@, leaf@]);
    }
    r
}

impl Default for IdMapping {
    /// The default id mapping: an `Integer` column mapped to `i32`.
    fn default() -> (r: Self)
        ensures
            views_of(r.type_path@) == seq!["diesel"@, "sql_types"@, "Integer"@],
            r.rust_type == IdType::I32,
    {
        IdMapping { type_path: default_sql_types_path("Integer"), rust_type: IdType::I32 }
    }
}

/// How a name mapping is represented on the database side: a plain text
/// column, or a store-native custom enumerated type with its own name.
#[derive(Clone, Debug, PartialEq, Eq, Hash)]
pub enum NameTypes {
    Text,
    Custom { name: String },
}

impl NameTypes {
    /// Whether this names a store-native custom type.
    pub open spec fn is_custom_spec(&self) -> bool {
        self matches NameTypes::Custom { .. }
    }

    pub fn is_custom(&self) -> (r: bool)
        ensures
            r == self.is_custom_spec(),
    {
        match self {
            NameTypes::Custom { .. } => true,
            NameTypes::Text => false,
        }
    }
}

/// An active name mapping: how the name is typed on the database side, and
/// the SQL type path used for it.
#[derive(Clone, Debug, PartialEq, Eq, Hash)]
pub struct NameMapping {
    pub db_type: NameTypes,
    pub path: Vec<String>,
}

impl Default for NameMapping {
    /// The default name mapping: a `Text` column.
    fn default() -> (r: Self)
        ensures
            r.db_type == NameTypes::Text,
            views_of(r.path@) == seq!["diesel"@, "sql_types"@, "Text"@],
    {
        NameMapping { db_type: NameTypes::Text, path: default_sql_types_path("Text") }
    }
}

/// Whether the consistency check runs, and through which connection
/// callback.
#[derive(Clone, Debug, PartialEq, Eq, Hash)]
pub enum Check {
    Conn(Vec<String>),
    Skip,
}

/// One argument inside `id_mapping(..)` or `name_mapping(..)`, as parsed
/// from the declaration surface.
#[derive(Clone, Debug, PartialEq, Eq, Hash)]
pub enum MappingArg {
    Default,
    Skip,
    TypePath(Vec<String>),
    Name(String),
    Unknown(String),
}

/// One enumeration-level attribute, as parsed from the declaration surface.
#[derive(Clone, Debug, PartialEq, Eq, Hash)]
pub enum EnumAttr {
    Table(String),
    Column(String),
    Conn(Vec<String>),
    SkipConsistencyCheck,
    SkipTest,
    Case(String),
    SkipIds(Vec<RangeSpec>),
    NameMapping(Vec<MappingArg>),
    IdMapping(Vec<MappingArg>),
    Unknown(String),
}

/// The case transform a configured name denotes, if any.
pub open spec fn case_of_name(s: Seq<char>) -> Option<CaseKind> {
    if s == "snake_case"@ {
        Some(CaseKind::Snake)
    } else if s == "UPPER_SNAKE"@ {
        Some(CaseKind::UpperSnake)
    } else if s == "camelCase"@ {
        Some(CaseKind::Camel)
    } else if s == "PascalCase"@ {
        Some(CaseKind::Pascal)
    } else if s == "lowercase"@ {
        Some(CaseKind::Lower)
    } else if s == "UPPERCASE"@ {
        Some(CaseKind::Upper)
    } else if s == "kebab-case"@ {
        Some(CaseKind::Kebab)
    } else {
        None
    }
}

/// Maps a configured case name to its transform; fails exactly on names that
/// denote none.
pub fn parse_case(value: &str) -> (r: Result<CaseKind, ConfigError>)
    ensures
        match r {
            Ok(c) => case_of_name(value@) == Some(c),
            Err(e) => {
                &&& case_of_name(value@) is None
                &&& e matches ConfigError::InvalidCase(v) && v@ == value@
            },
        },
{
    if str_eq(value, "snake_case") {
        Ok(CaseKind::Snake)
    } else if str_eq(value, "UPPER_SNAKE") {
        Ok(CaseKind::UpperSnake)
    } else if str_eq(value, "camelCase") {
        Ok(CaseKind::Camel)
    } else if str_eq(value, "PascalCase") {
        Ok(CaseKind::Pascal)
    } else if str_eq(value, "lowercase") {
        Ok(CaseKind::Lower)
    } else if str_eq(value, "UPPERCASE") {
        Ok(CaseKind::Upper)
    } else if str_eq(value, "kebab-case") {
        Ok(CaseKind::Kebab)
    } else {
        Err(ConfigError::InvalidCase(lit_string(value)))
    }
}

/// The integer type a SQL id-column type name denotes, if any.
pub open spec fn id_type_of_segment(s: Seq<char>) -> Option<IdType> {
    if s == "Integer"@ {
        Some(IdType::I32)
    } else if s == "BigInt"@ {
        Some(IdType::I64)
    } else if s == "SmallInt"@ {
        Some(IdType::I16)
    } else if s == "TinyInt"@ {
        Some(IdType::I8)
    } else {
        None
    }
}

fn parse_id_type_segment(s: &str) -> (r: Option<IdType>)
    ensures
        r == id_type_of_segment(s@),
{
    if str_eq(s, "Integer") {
        Some(IdType::I32)
    } else if str_eq(s, "BigInt") {
        Some(IdType::I64)
    } else if str_eq(s, "SmallInt") {
        Some(IdType::I16)
    } else if str_eq(s, "TinyInt") {
        Some(IdType::I8)
    } else {
        None
    }
}

/// A usable type-path argument for an id mapping: non-empty, ending in a
/// known integer column type.
pub open spec fn valid_id_type_arg(a: MappingArg) -> bool {
    a matches MappingArg::TypePath(p) && p@.len() > 0 && id_type_of_segment(p@.last()@) is Some
}

/// A usable type-path argument for a name mapping: non-empty.
pub open spec fn valid_name_type_arg(a: MappingArg) -> bool {
    a matches MappingArg::TypePath(p) && p@.len() > 0
}

/// The argument lists `id_mapping(..)` accepts: nothing, `default` alone,
/// `skip` alone, or one column type.
pub open spec fn id_args_valid(args: Seq<MappingArg>) -> bool {
    ||| args.len() == 0
    ||| (args.len() == 1 && (args[0] is Default || args[0] is Skip))
    ||| (args.len() == 1 && valid_id_type_arg(args[0]))
}

/// The argument lists `name_mapping(..)` accepts: nothing, `default` alone,
/// `skip` alone, a type path, a name, or one of each.
pub open spec fn name_args_valid(args: Seq<MappingArg>) -> bool {
    ||| args.len() == 0
    ||| (args.len() == 1 && (args[0] is Default || args[0] is Skip))
    ||| (args.len() == 1 && (valid_name_type_arg(args[0]) || args[0] is Name))
    ||| (args.len() == 2 && valid_name_type_arg(args[0]) && args[1] is Name)
    ||| (args.len() == 2 && args[0] is Name && valid_name_type_arg(args[1]))
}

/// An error that names an unacceptable mapping argument.
pub open spec fn is_mapping_arg_error(e: ConfigError) -> bool {
    ||| e is ExclusiveMappingArg
    ||| e is DuplicateAttribute
    ||| e is UnknownAttribute
    ||| e is InvalidPath
    ||| e is UnknownIdType
}

/// The id mapping a valid argument list resolves to, `None` for `skip`.
pub open spec fn id_resolution(args: Seq<MappingArg>, r: Option<IdMapping>) -> bool
    recommends
        id_args_valid(args),
{
    if args.len() == 1 && args[0] is Skip {
        r is None
    } else if args.len() == 1 && args[0] is TypePath {
        r matches Some(m) && views_of(m.type_path@) == views_of(args[0]->TypePath_0@)
            && Some(m.rust_type) == id_type_of_segment(args[0]->TypePath_0@.last()@)
    } else {
        r matches Some(m) && views_of(m.type_path@) == seq!["diesel"@, "sql_types"@, "Integer"@]
            && m.rust_type == IdType::I32
    }
}

/// Resolves the arguments of `id_mapping(..)`; fails exactly on argument
/// lists the surface does not accept.
pub fn resolve_id_mapping(args: &Vec<MappingArg>) -> (r: Result<Option<IdMapping>, ConfigError>)
    ensures
        match r {
            Ok(o) => id_args_valid(args@) && id_resolution(args@, o),
            Err(e) => !id_args_valid(args@) && is_mapping_arg_error(e),
        },
{
    if args.len() == 0 {
        return Ok(Some(IdMapping::default()));
    }
    if args.len() >= 2 {
        return Err(match &args[1] {
            MappingArg::Default => ConfigError::ExclusiveMappingArg(lit_string("default")),
            MappingArg::Skip => ConfigError::ExclusiveMappingArg(lit_string("skip")),
            MappingArg::TypePath(_) => ConfigError::DuplicateAttribute(lit_string("type")),
            MappingArg::Name(n) => ConfigError::UnknownAttribute(n.clone()),
            MappingArg::Unknown(n) => ConfigError::UnknownAttribute(n.clone()),
        });
    }
    match &args[0] {
        MappingArg::Default => Ok(Some(IdMapping::default())),
        MappingArg::Skip => Ok(None),
        MappingArg::TypePath(p) => {
            if p.len() == 0 {
                return Err(ConfigError::InvalidPath);
            }
            let leaf = &p[p.len() - 1];
            match parse_id_type_segment(leaf.as_str()) {
                Some(t) => {
                    let path = clone_path(p);
                    Ok(Some(IdMapping { type_path: path, rust_type: t }))
                },
                None => Err(ConfigError::UnknownIdType(leaf.clone())),
            }
        },
        MappingArg::Name(n) => Err(ConfigError::UnknownAttribute(n.clone())),
        MappingArg::Unknown(n) => Err(ConfigError::UnknownAttribute(n.clone())),
    }
}

/// A custom name mapping carrying exactly this name.
pub open spec fn is_custom_named(t: NameTypes, n: Seq<char>) -> bool {
    t matches NameTypes::Custom { name } && name@ == n
}

/// The name mapping a valid argument list resolves to, `None` for `skip`: a
/// type path makes the mapping custom, named by the `name` argument or, in
/// its absence, by the snake-cased last path segment; without a type path
/// the mapping is a plain text column and a bare name is ignored.
pub open spec fn name_resolution(args: Seq<MappingArg>, r: Option<NameMapping>) -> bool
    recommends
        name_args_valid(args),
{
    if args.len() == 1 && args[0] is Skip {
        r is None
    } else if exists|k: int| 0 <= k < args.len() && (#[trigger] args[k]) is TypePath {
        let pk = choose|k: int| 0 <= k < args.len() && (#[trigger] args[k]) is TypePath;
        let p = args[pk]->TypePath_0;
        let custom_name = if exists|k: int| 0 <= k < args.len() && (#[trigger] args[k]) is Name {
            let nk = choose|k: int| 0 <= k < args.len() && (#[trigger] args[k]) is Name;
            args[nk]->Name_0@
        } else {
            cased(case_code(CaseKind::Snake), p@.last()@)
        };
        r matches Some(m) && views_of(m.path@) == views_of(p@) && is_custom_named(
            m.db_type,
            custom_name,
        )
    } else {
        r matches Some(m) && m.db_type == NameTypes::Text && views_of(m.path@) == seq![
            "diesel"@,
            "sql_types"@,
            "Text"@,
        ]
    }
}

/// Resolves the arguments of `name_mapping(..)`; fails exactly on argument
/// lists the surface does not accept.
pub fn resolve_name_mapping(args: &Vec<MappingArg>) -> (r: Result<Option<NameMapping>, ConfigError>)
    ensures
        match r {
            Ok(o) => name_args_valid(args@) && name_resolution(args@, o),
            Err(e) => !name_args_valid(args@) && is_mapping_arg_error(e),
        },
{
    if args.len() == 0 {
        return Ok(Some(NameMapping::default()));
    }
    if args.len() >= 3 {
        return Err(ConfigError::DuplicateAttribute(lit_string("path")));
    }
    if args.len() == 2 {
        match (&args[0], &args[1]) {
            (MappingArg::TypePath(p), MappingArg::Name(n)) => {
                return build_custom_mapping(p, Some(n));
            },
            (MappingArg::Name(n), MappingArg::TypePath(p)) => {
                return build_custom_mapping(p, Some(n));
            },
            (MappingArg::Default, _) | (_, MappingArg::Default) => {
                return Err(ConfigError::ExclusiveMappingArg(lit_string("default")));
            },
            (MappingArg::Skip, _) | (_, MappingArg::Skip) => {
                return Err(ConfigError::ExclusiveMappingArg(lit_string("skip")));
            },
            (MappingArg::TypePath(_), MappingArg::TypePath(_)) => {
                return Err(ConfigError::DuplicateAttribute(lit_string("path")));
            },
            (MappingArg::Name(_), MappingArg::Name(_)) => {
                return Err(ConfigError::DuplicateAttribute(lit_string("name")));
            },
            (MappingArg::Unknown(n), _) | (_, MappingArg::Unknown(n)) => {
                return Err(ConfigError::UnknownAttribute(n.clone()));
            },
        }
    }
    match &args[0] {
        MappingArg::Default => Ok(Some(NameMapping::default())),
        MappingArg::Skip => Ok(None),
        MappingArg::TypePath(p) => build_custom_mapping(p, None),
        MappingArg::Name(_) => Ok(Some(NameMapping::default())),
        MappingArg::Unknown(n) => Err(ConfigError::UnknownAttribute(n.clone())),
    }
}

/// A custom name mapping from a type path and an optional explicit name;
/// without one, the name is the snake-cased last path segment.
fn build_custom_mapping(p: &Vec<String>, explicit: Option<&String>) -> (r: Result<
    Option<NameMapping>,
    ConfigError,
>)
    ensures
        match r {
            Ok(o) => {
                &&& p@.len() > 0
                &&& o matches Some(m) && views_of(m.path@) == views_of(p@) && is_custom_named(
                    m.db_type,
                    match explicit {
                        Some(n) => n@,
                        None => cased(case_code(CaseKind::Snake), p@.last()@),
                    },
                )
            },
            Err(e) => p@.len() == 0 && e == ConfigError::InvalidPath,
        },
{
    if p.len() == 0 {
        return Err(ConfigError::InvalidPath);
    }
    let name: String = match explicit {
        Some(n) => n.clone(),
        None => crate::casing::apply_case(p[p.len() - 1].as_str(), CaseKind::Snake),
    };
    let path = clone_path(p);
    Ok(Some(NameMapping { db_type: NameTypes::Custom { name }, path }))
}


/// A stable code for each attribute kind, for stating that no attribute is
/// given twice.
pub open spec fn attr_kind(a: EnumAttr) -> int {
    match a {
        EnumAttr::Table(_) => 0,
        EnumAttr::Column(_) => 1,
        EnumAttr::Conn(_) => 2,
        EnumAttr::SkipConsistencyCheck => 3,
        EnumAttr::SkipTest => 4,
        EnumAttr::Case(_) => 5,
        EnumAttr::SkipIds(_) => 6,
        EnumAttr::NameMapping(_) => 7,
        EnumAttr::IdMapping(_) => 8,
        EnumAttr::Unknown(_) => 9,
    }
}

/// Two attributes that cannot stand together: the same attribute twice, or
/// a connection next to a request to skip the check.
pub open spec fn conflicting(a: EnumAttr, b: EnumAttr) -> bool {
    ||| attr_kind(a) == attr_kind(b)
    ||| (a is Conn && b is SkipConsistencyCheck)
    ||| (a is SkipConsistencyCheck && b is Conn)
}

/// One attribute acceptable on its own.
pub open spec fn attr_wellformed(a: EnumAttr) -> bool {
    match a {
        EnumAttr::Unknown(_) => false,
        EnumAttr::Case(c) => case_of_name(c@) is Some,
        EnumAttr::SkipIds(rs) => forall|j: int|
            0 <= j < rs@.len() ==> (#[trigger] rs@[j]).end is Some,
        EnumAttr::NameMapping(args) => name_args_valid(args@),
        EnumAttr::IdMapping(args) => id_args_valid(args@),
        _ => true,
    }
}

/// An attribute list the surface accepts: each attribute acceptable on its
/// own, no two in conflict, and either a connection or a request to skip the
/// check present (the build's default does not skip it).
pub open spec fn attrs_valid(attrs: Seq<EnumAttr>) -> bool {
    &&& forall|k: int| 0 <= k < attrs.len() ==> attr_wellformed(#[trigger] attrs[k])
    &&& forall|p: int, q: int|
        0 <= p < q < attrs.len() ==> !conflicting(#[trigger] attrs[p], #[trigger] attrs[q])
    &&& exists|k: int|
        0 <= k < attrs.len() && ((#[trigger] attrs[k]) is Conn || attrs[k]
            is SkipConsistencyCheck)
}

/// The inclusive range ends leave room for the half-open conversion.
pub open spec fn ranges_bounded(rs: Seq<RangeSpec>) -> bool {
    forall|j: int|
        0 <= j < rs.len() && (#[trigger] rs[j]).inclusive && rs[j].end is Some ==> rs[
            j
        ].end.unwrap() < i64::MAX
}

/// An optional string holding exactly this content.
pub open spec fn opt_string_is(o: Option<String>, s: Seq<char>) -> bool {
    o matches Some(x) && x@ == s
}

/// A check policy calling exactly this connection path.
pub open spec fn conn_is(c: Check, p: Seq<Seq<char>>) -> bool {
    c matches Check::Conn(v) && views_of(v@) == p
}

spec fn opt_conn_is(o: Option<Check>, p: Seq<Seq<char>>) -> bool {
    o matches Some(c) && conn_is(c, p)
}

spec fn opt_check_is_skip(o: Option<Check>) -> bool {
    o matches Some(c) && c is Skip
}

spec fn opt_case_is(o: Option<CaseKind>, name: Seq<char>) -> bool {
    o matches Some(c) && Some(c) == case_of_name(name)
}

/// A skip index built from exactly these configured ranges.
pub open spec fn skip_index_matches(idx: SkipRangeIndex, rs: Seq<RangeSpec>) -> bool {
    &&& idx.sorted_by_start()
    &&& idx.ranges().to_multiset() == rs.map_values(|r: RangeSpec| r.normalized()).to_multiset()
}

spec fn opt_index_matches(o: Option<SkipRangeIndex>, rs: Seq<RangeSpec>) -> bool {
    o matches Some(idx) && skip_index_matches(idx, rs)
}

spec fn opt_id_resolution(o: Option<Option<IdMapping>>, args: Seq<MappingArg>) -> bool {
    o matches Some(m) && id_resolution(args, m)
}

spec fn opt_name_resolution(o: Option<Option<NameMapping>>, args: Seq<MappingArg>) -> bool {
    o matches Some(m) && name_resolution(args, m)
}

/// The default id mapping, active when the attribute is absent.
pub open spec fn default_id_mapping_is(o: Option<IdMapping>) -> bool {
    o matches Some(m) && views_of(m.type_path@) == seq!["diesel"@, "sql_types"@, "Integer"@]
        && m.rust_type == IdType::I32
}

/// An attribute carrying a skip range without an end.
pub open spec fn has_unbounded_skip(a: EnumAttr) -> bool {
    a matches EnumAttr::SkipIds(rs) && exists|j: int|
        0 <= j < rs@.len() && (#[trigger] rs@[j]).end is None
}

/// An attribute carrying a case name that denotes no transform.
pub open spec fn has_invalid_case(a: EnumAttr) -> bool {
    a matches EnumAttr::Case(c) && case_of_name(c@) is None
}

/// The resolved configuration of one enumeration.
#[derive(Clone, Debug, PartialEq, Eq, Hash)]
pub struct Attributes {
    /// The lookup table's name; the snake-cased enumeration name when absent.
    pub table: Option<String>,
    /// The name column's name; `name` when absent.
    pub column: Option<String>,
    /// Whether the check runs, and through which connection callback.
    pub conn: Check,
    /// Whether the generated consistency test is skipped.
    pub skip_test: bool,
    /// The case transform for derived db-names.
    pub case: CaseKind,
    /// The active name mapping, if any.
    pub name_mapping: Option<NameMapping>,
    /// The active id mapping, if any.
    pub id_mapping: Option<IdMapping>,
    /// The ids excluded from automatic assignment.
    pub skip_index: SkipRangeIndex,
}

/// How each resolved field relates to the attribute that set it, or to its
/// default when none did.
pub open spec fn resolution_matches(attrs: Seq<EnumAttr>, a: Attributes) -> bool {
    &&& forall|k: int|
        0 <= k < attrs.len() ==> ((#[trigger] attrs[k]) matches EnumAttr::Table(t)
            ==> opt_string_is(a.table, t@))
    &&& ((forall|k: int| 0 <= k < attrs.len() ==> !((#[trigger] attrs[k]) is Table)) ==> a.table
        is None)
    &&& forall|k: int|
        0 <= k < attrs.len() ==> ((#[trigger] attrs[k]) matches EnumAttr::Column(t)
            ==> opt_string_is(a.column, t@))
    &&& ((forall|k: int| 0 <= k < attrs.len() ==> !((#[trigger] attrs[k]) is Column)) ==> a.column
        is None)
    &&& forall|k: int|
        0 <= k < attrs.len() ==> ((#[trigger] attrs[k]) matches EnumAttr::Conn(p) ==> conn_is(
            a.conn,
            views_of(p@),
        ))
    &&& forall|k: int|
        0 <= k < attrs.len() ==> ((#[trigger] attrs[k]) is SkipConsistencyCheck ==> a.conn
            is Skip)
    &&& a.skip_test == exists|k: int| 0 <= k < attrs.len() && (#[trigger] attrs[k]) is SkipTest
    &&& forall|k: int|
        0 <= k < attrs.len() ==> ((#[trigger] attrs[k]) matches EnumAttr::Case(c) ==> Some(a.case)
            == case_of_name(c@))
    &&& ((forall|k: int| 0 <= k < attrs.len() ==> !((#[trigger] attrs[k]) is Case)) ==> a.case
        == CaseKind::Snake)
    &&& forall|k: int|
        0 <= k < attrs.len() ==> ((#[trigger] attrs[k]) matches EnumAttr::SkipIds(rs)
            ==> skip_index_matches(a.skip_index, rs@))
    &&& ((forall|k: int| 0 <= k < attrs.len() ==> !((#[trigger] attrs[k]) is SkipIds))
        ==> a.skip_index.ranges() == Seq::<(i64, i64)>::empty())
    &&& forall|k: int|
        0 <= k < attrs.len() ==> ((#[trigger] attrs[k]) matches EnumAttr::IdMapping(args)
            ==> id_resolution(args@, a.id_mapping))
    &&& ((forall|k: int| 0 <= k < attrs.len() ==> !((#[trigger] attrs[k]) is IdMapping))
        ==> default_id_mapping_is(a.id_mapping))
    &&& forall|k: int|
        0 <= k < attrs.len() ==> ((#[trigger] attrs[k]) matches EnumAttr::NameMapping(args)
            ==> name_resolution(args@, a.name_mapping))
    &&& ((forall|k: int| 0 <= k < attrs.len() ==> !((#[trigger] attrs[k]) is NameMapping))
        ==> a.name_mapping is None)
}

/// Resolves the enumeration-level attribute list into a configuration,
/// filling in the build defaults for everything left unsaid. Fails exactly
/// on attribute lists the surface does not accept: an unknown or duplicated
/// attribute, a connection given together with a request to skip the check,
/// an invalid case name, an unbounded skip range, an unacceptable mapping
/// argument list, or no connection and no request to skip the check at all.
pub fn resolve_attributes(attrs: &Vec<EnumAttr>) -> (r: Result<Attributes, ConfigError>)
    requires
        forall|k: int|
            0 <= k < attrs@.len() ==> ((#[trigger] attrs@[k]) matches EnumAttr::SkipIds(rs)
                ==> ranges_bounded(rs@)),
    ensures
        match r {
            Ok(a) => attrs_valid(attrs@) && resolution_matches(attrs@, a),
            Err(e) => {
                &&& !attrs_valid(attrs@)
                &&& (e == ConfigError::MissingConnection ==> forall|k: int|
                    0 <= k < attrs@.len() ==> !((#[trigger] attrs@[k]) is Conn || attrs@[k]
                        is SkipConsistencyCheck))
                &&& (e == ConfigError::ConflictingCheckAttributes ==> (exists|p: int|
                    0 <= p < attrs@.len() && (#[trigger] attrs@[p]) is Conn) && (exists|p: int|
                    0 <= p < attrs@.len() && (#[trigger] attrs@[p]) is SkipConsistencyCheck))
                &&& (e == ConfigError::InfiniteRange ==> exists|k: int|
                    0 <= k < attrs@.len() && has_unbounded_skip(#[trigger] attrs@[k]))
                &&& (e matches ConfigError::InvalidCase(_) ==> exists|k: int|
                    0 <= k < attrs@.len() && has_invalid_case(#[trigger] attrs@[k]))
            },
        },
{
    let mut table: Option<String> = None;
    let mut column: Option<String> = None;
    let mut conn: Option<Check> = None;
    let mut case_acc: Option<CaseKind> = None;
    let mut skip_test_seen = false;
    let mut skip_ids_acc: Option<SkipRangeIndex> = None;
    let mut name_acc: Option<Option<NameMapping>> = None;
    let mut id_acc: Option<Option<IdMapping>> = None;
    let mut i: usize = 0;
    while i < attrs.len()
        invariant
            i <= attrs@.len(),
            forall|k: int|
                0 <= k < attrs@.len() ==> ((#[trigger] attrs@[k]) matches EnumAttr::SkipIds(rs)
                    ==> ranges_bounded(rs@)),
            forall|k: int| 0 <= k < i ==> attr_wellformed(#[trigger] attrs@[k]),
            forall|p: int, q: int|
                0 <= p < q < i ==> !conflicting(#[trigger] attrs@[p], #[trigger] attrs@[q]),
            (table is Some) == exists|k: int| 0 <= k < i && (#[trigger] attrs@[k]) is Table,
            forall|k: int|
                0 <= k < i ==> ((#[trigger] attrs@[k]) matches EnumAttr::Table(t)
                    ==> opt_string_is(table, t@)),
            (column is Some) == exists|k: int| 0 <= k < i && (#[trigger] attrs@[k]) is Column,
            forall|k: int|
                0 <= k < i ==> ((#[trigger] attrs@[k]) matches EnumAttr::Column(t)
                    ==> opt_string_is(column, t@)),
            (conn is Some) == exists|k: int|
                0 <= k < i && ((#[trigger] attrs@[k]) is Conn || attrs@[k]
                    is SkipConsistencyCheck),
            forall|k: int|
                0 <= k < i ==> ((#[trigger] attrs@[k]) matches EnumAttr::Conn(p) ==> opt_conn_is(
                    conn,
                    views_of(p@),
                )),
            forall|k: int|
                0 <= k < i ==> ((#[trigger] attrs@[k]) is SkipConsistencyCheck
                    ==> opt_check_is_skip(conn)),
            (case_acc is Some) == exists|k: int| 0 <= k < i && (#[trigger] attrs@[k]) is Case,
            forall|k: int|
                0 <= k < i ==> ((#[trigger] attrs@[k]) matches EnumAttr::Case(c) ==> opt_case_is(
                    case_acc,
                    c@,
                )),
            skip_test_seen == exists|k: int| 0 <= k < i && (#[trigger] attrs@[k]) is SkipTest,
            (skip_ids_acc is Some) == exists|k: int|
                0 <= k < i && (#[trigger] attrs@[k]) is SkipIds,
            forall|k: int|
                0 <= k < i ==> ((#[trigger] attrs@[k]) matches EnumAttr::SkipIds(rs)
                    ==> opt_index_matches(skip_ids_acc, rs@)),
            (id_acc is Some) == exists|k: int| 0 <= k < i && (#[trigger] attrs@[k]) is IdMapping,
            forall|k: int|
                0 <= k < i ==> ((#[trigger] attrs@[k]) matches EnumAttr::IdMapping(args)
                    ==> opt_id_resolution(id_acc, args@)),
            (name_acc is Some) == exists|k: int|
                0 <= k < i && (#[trigger] attrs@[k]) is NameMapping,
            forall|k: int|
                0 <= k < i ==> ((#[trigger] attrs@[k]) matches EnumAttr::NameMapping(args)
                    ==> opt_name_resolution(name_acc, args@)),
        decreases attrs@.len() - i,
    {
        let ghost prev = i as int;
        match &attrs[i] {
            EnumAttr::Table(t) => {
                if table.is_some() {
                    proof {
                        let k = choose|k: int| 0 <= k < i && (#[trigger] attrs@[k]) is Table;
                        assert(conflicting(attrs@[k], attrs@[i as int]));
                    }
                    return Err(ConfigError::DuplicateAttribute(lit_string("table")));
                }
                table = Some(t.clone());
            },
            EnumAttr::Column(t) => {
                if column.is_some() {
                    proof {
                        let k = choose|k: int| 0 <= k < i && (#[trigger] attrs@[k]) is Column;
                        assert(conflicting(attrs@[k], attrs@[i as int]));
                    }
                    return Err(ConfigError::DuplicateAttribute(lit_string("column")));
                }
                column = Some(t.clone());
            },
            EnumAttr::Conn(p) => {
                if conn.is_some() {
                    let earlier_skipped = matches!(conn, Some(Check::Skip));
                    proof {
                        let k = choose|k: int|
                            0 <= k < i && ((#[trigger] attrs@[k]) is Conn || attrs@[k]
                                is SkipConsistencyCheck);
                        assert(conflicting(attrs@[k], attrs@[i as int]));
                        if earlier_skipped {
                            // an earlier connection would have left a Conn value
                            assert(attrs@[k] is SkipConsistencyCheck);
                        }
                    }
                    return Err(
                        if earlier_skipped {
                            ConfigError::ConflictingCheckAttributes
                        } else {
                            ConfigError::DuplicateAttribute(lit_string("conn"))
                        },
                    );
                }
                conn = Some(Check::Conn(clone_path(p)));
            },
            EnumAttr::SkipConsistencyCheck => {
                if conn.is_some() {
                    let earlier_conn = matches!(conn, Some(Check::Conn(_)));
                    proof {
                        let k = choose|k: int|
                            0 <= k < i && ((#[trigger] attrs@[k]) is Conn || attrs@[k]
                                is SkipConsistencyCheck);
                        assert(conflicting(attrs@[k], attrs@[i as int]));
                        if earlier_conn {
                            // an earlier skip request would have left a Skip value
                            assert(attrs@[k] is Conn);
                        }
                    }
                    return Err(
                        if earlier_conn {
                            ConfigError::ConflictingCheckAttributes
                        } else {
                            ConfigError::DuplicateAttribute(lit_string("skip_consistency_check"))
                        },
                    );
                }
                conn = Some(Check::Skip);
            },
            EnumAttr::SkipTest => {
                if skip_test_seen {
                    proof {
                        let k = choose|k: int| 0 <= k < i && (#[trigger] attrs@[k]) is SkipTest;
                        assert(conflicting(attrs@[k], attrs@[i as int]));
                    }
                    return Err(ConfigError::DuplicateAttribute(lit_string("skip_test")));
                }
                skip_test_seen = true;
            },
            EnumAttr::Case(c) => {
                if case_acc.is_some() {
                    proof {
                        let k = choose|k: int| 0 <= k < i && (#[trigger] attrs@[k]) is Case;
                        assert(conflicting(attrs@[k], attrs@[i as int]));
                    }
                    return Err(ConfigError::DuplicateAttribute(lit_string("case")));
                }
                match parse_case(c.as_str()) {
                    Ok(ck) => {
                        case_acc = Some(ck);
                    },
                    Err(e) => {
                        proof {
                            assert(!attr_wellformed(attrs@[i as int]));
                        }
                        return Err(e);
                    },
                }
            },
            EnumAttr::SkipIds(rs) => {
                if skip_ids_acc.is_some() {
                    proof {
                        let k = choose|k: int| 0 <= k < i && (#[trigger] attrs@[k]) is SkipIds;
                        assert(conflicting(attrs@[k], attrs@[i as int]));
                    }
                    return Err(ConfigError::DuplicateAttribute(lit_string("skip_ids")));
                }
                proof {
                    assert(ranges_bounded(rs@));
                }
                match SkipRangeIndex::normalize(rs) {
                    Ok(idx) => {
                        skip_ids_acc = Some(idx);
                    },
                    Err(e) => {
                        proof {
                            assert(!attr_wellformed(attrs@[i as int]));
                        }
                        return Err(e);
                    },
                }
            },
            EnumAttr::IdMapping(args) => {
                if id_acc.is_some() {
                    proof {
                        let k = choose|k: int| 0 <= k < i && (#[trigger] attrs@[k]) is IdMapping;
                        assert(conflicting(attrs@[k], attrs@[i as int]));
                    }
                    return Err(ConfigError::DuplicateAttribute(lit_string("id_mapping")));
                }
                match resolve_id_mapping(args) {
                    Ok(o) => {
                        id_acc = Some(o);
                    },
                    Err(e) => {
                        proof {
                            assert(!attr_wellformed(attrs@[i as int]));
                        }
                        return Err(e);
                    },
                }
            },
            EnumAttr::NameMapping(args) => {
                if name_acc.is_some() {
                    proof {
                        let k = choose|k: int|
                            0 <= k < i && (#[trigger] attrs@[k]) is NameMapping;
                        assert(conflicting(attrs@[k], attrs@[i as int]));
                    }
                    return Err(ConfigError::DuplicateAttribute(lit_string("name_mapping")));
                }
                match resolve_name_mapping(args) {
                    Ok(o) => {
                        name_acc = Some(o);
                    },
                    Err(e) => {
                        proof {
                            assert(!attr_wellformed(attrs@[i as int]));
                        }
                        return Err(e);
                    },
                }
            },
            EnumAttr::Unknown(n) => {
                proof {
                    assert(!attr_wellformed(attrs@[i as int]));
                }
                return Err(ConfigError::UnknownAttribute(n.clone()));
            },
        }
        i += 1;
    }
    let conn_final: Check = match conn {
        Some(c) => c,
        None => {
            if default_skip_consistency_check() {
                Check::Skip
            } else {
                return Err(ConfigError::MissingConnection);
            }
        },
    };
    let name_mapping: Option<NameMapping> = match name_acc {
        Some(o) => o,
        None => {
            if default_name_mapping() {
                Some(NameMapping::default())
            } else {
                None
            }
        },
    };
    let id_mapping: Option<IdMapping> = match id_acc {
        Some(o) => o,
        None => {
            if no_default_id_mapping() {
                None
            } else {
                Some(IdMapping::default())
            }
        },
    };
    let case: CaseKind = match case_acc {
        Some(c) => c,
        None => CaseKind::Snake,
    };
    let skip_index: SkipRangeIndex = match skip_ids_acc {
        Some(idx) => idx,
        None => SkipRangeIndex::empty(),
    };
    let skip_test = if skip_test_seen {
        true
    } else {
        default_skip_test()
    };
    Ok(
        Attributes {
            table,
            column,
            conn: conn_final,
            skip_test,
            case,
            name_mapping,
            id_mapping,
            skip_index,
        },
    )
}

/// An owned copy of a path's segments.
fn clone_path(p: &Vec<String>) -> (r: Vec<String>)
    ensures
        views_of(r@) == views_of(p@),
{
    let mut r: Vec<String> = Vec::new();
    let mut i: usize = 0;
    while i < p.len()
        invariant
            i <= p@.len(),
            views_of(r@) == views_of(p@).take(i as int),
        decreases p@.len() - i,
    {
        let ghost rpre = r@;
        r.push(p[i].clone());
        proof {
            assert(views_of(r@) =~= views_of(rpre).push(p@[i as int]@));
            assert(views_of(p@).take(i + 1) =~= views_of(p@).take(i as int).push(
                views_of(p@)[i as int],
            ));
            assert(views_of(r@) =~= views_of(p@).take(i + 1));
        }
        i += 1;
    }
    proof {
        assert(views_of(p@).take(p@.len() as int) =~= views_of(p@));
    }
    r
}

/// An owned copy of a string slice.
pub(crate) fn lit_string(s: &str) -> (r: String)
    ensures
        r@ == s@,
{
    let mut r = String::new();
    r.append(s);
    r
}

} // verus!
