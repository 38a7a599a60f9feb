//! The case transforms applied to symbolic variant names when deriving their
//! external db-names.

use vstd::prelude::*;

verus! {

/// The case transforms that an enumeration can configure for its db-names.
#[derive(Clone, Copy, Debug, PartialEq, Eq, Hash, Structural)]
pub enum CaseKind {
    Snake,
    UpperSnake,
    Camel,
    Pascal,
    Lower,
    Upper,
    Kebab,
}

/// A stable code for each case transform, used as the first argument of
/// `cased`.
pub open spec fn case_code(c: CaseKind) -> int {
    match c {
        CaseKind::Snake => 0,
        CaseKind::UpperSnake => 1,
        CaseKind::Camel => 2,
        CaseKind::Pascal => 3,
        CaseKind::Lower => 4,
        CaseKind::Upper => 5,
        CaseKind::Kebab => 6,
    }
}

/// What the case conversion produces for the given input under the case
/// transform with the given code. The result is a function of the input
/// characters and the chosen case alone.
pub uninterp spec fn cased(code: int, s: Seq<char>) -> Seq<char>;

/// Relies on convert_case's `Casing::to_case`: renders the input in the given
/// case, from the input string and the case alone.
#[verifier::external_body]
pub(crate) fn apply_case(s: &str, case: CaseKind) -> (r: String)
    ensures
        r@ == cased(case_code(case), s@),
{
    let c = match case {
        CaseKind::Snake => convert_case::Case::Snake,
        CaseKind::UpperSnake => convert_case::Case::UpperSnake,
        CaseKind::Camel => convert_case::Case::Camel,
        CaseKind::Pascal => convert_case::Case::Pascal,
        CaseKind::Lower => convert_case::Case::Lower,
        CaseKind::Upper => convert_case::Case::Upper,
        CaseKind::Kebab => convert_case::Case::Kebab,
    };
    convert_case::Casing::to_case(&s, c)
}

} // verus!
