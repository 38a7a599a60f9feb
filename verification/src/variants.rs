//! Turns an ordered list of variant declarations into concrete variant
//! records: symbolic name, derived db-name, and assigned id.

use vstd::prelude::*;
use crate::casing::{apply_case, case_code, cased, CaseKind};
use crate::skip_ranges::SkipRangeIndex;

verus! {

/// One declared variant of the enumeration, before assignment.
#[derive(Clone, Debug, PartialEq, Eq, Hash)]
pub struct VariantDeclaration {
    /// The symbolic name, unique within the enumeration.
    pub name: String,
    /// An explicit db-name override; when absent, the db-name is derived from
    /// the symbolic name.
    pub db_name: Option<String>,
    /// An explicit id override. It is used as-is: the cursor is not advanced
    /// and the value is checked neither against the skip index nor against
    /// ids already issued, so explicit overrides can duplicate other ids.
    pub id: Option<i64>,
    /// Excludes this variant from name-only consistency checks.
    pub skip_check: bool,
}

/// One concrete variant record, created once per enumeration and immutable
/// afterwards.
#[derive(Clone, Debug, PartialEq, Eq, Hash)]
pub struct VariantData {
    pub name: String,
    pub db_name: String,
    pub id: i64,
    pub skip_check: bool,
}

/// The db-name a declaration gets: its override if present, else the symbolic
/// name under the configured case transform, else the symbolic name verbatim.
pub open spec fn derived_db_name(d: VariantDeclaration, case: Option<CaseKind>) -> Seq<char> {
    if d.db_name is Some {
        d.db_name.unwrap()@
    } else if case is Some {
        cased(case_code(case.unwrap()), d.name@)
    } else {
        d.name@
    }
}

/// The first id at or after `c` that no skip range contains.
pub open spec fn next_free(idx: SkipRangeIndex, c: int) -> int
    decreases idx.max_end() - c,
    via next_free_decreases
{
    if idx.in_skip(c) {
        next_free(idx, c + 1)
    } else {
        c
    }
}

#[via_fn]
proof fn next_free_decreases(idx: SkipRangeIndex, c: int) {
    if idx.in_skip(c) {
        idx.lemma_in_skip_below_max_end(c);
    }
}

pub proof fn lemma_next_free(idx: SkipRangeIndex, c: int)
    ensures
        next_free(idx, c) >= c,
        !idx.in_skip(next_free(idx, c)),
        next_free(idx, c) <= (if c > idx.max_end() {
            c
        } else {
            idx.max_end()
        }),
    decreases idx.max_end() - c,
{
    if idx.in_skip(c) {
        idx.lemma_in_skip_below_max_end(c);
        lemma_next_free(idx, c + 1);
    }
}

/// The explicit id overrides of a declaration list, in order.
pub open spec fn overrides_of(decls: Seq<VariantDeclaration>) -> Seq<Option<i64>> {
    decls.map_values(|d: VariantDeclaration| d.id)
}

/// The ids assigned to a declaration list, with the auto-assignment cursor
/// starting at `c`: an explicit override is used as-is and leaves the cursor
/// alone; otherwise the cursor advances past every skipped value, the first
/// free id is assigned, and the cursor moves one past it.
pub open spec fn assigned_ids(ov: Seq<Option<i64>>, idx: SkipRangeIndex, c: int) -> Seq<int>
    decreases ov.len(),
{
    if ov.len() == 0 {
        Seq::empty()
    } else if ov[0] is Some {
        seq![ov[0].unwrap() as int] + assigned_ids(ov.drop_first(), idx, c)
    } else {
        let id = next_free(idx, c);
        seq![id] + assigned_ids(ov.drop_first(), idx, id + 1)
    }
}

/// Explicit overrides are kept as given; automatically assigned ids are at
/// least the cursor, strictly increasing among themselves, and never in a
/// skip range.
pub proof fn lemma_assigned_ids_props(ov: Seq<Option<i64>>, idx: SkipRangeIndex, c: int)
    ensures
        assigned_ids(ov, idx, c).len() == ov.len(),
        forall|k: int|
            0 <= k < ov.len() && ov[k] is None ==> #[trigger] assigned_ids(ov, idx, c)[k] >= c
                && !idx.in_skip(assigned_ids(ov, idx, c)[k]),
        forall|k1: int, k2: int|
            0 <= k1 < k2 < ov.len() && ov[k1] is None && ov[k2] is None ==> #[trigger] assigned_ids(
                ov,
                idx,
                c,
            )[k1] < #[trigger] assigned_ids(ov, idx, c)[k2],
        forall|k: int|
            0 <= k < ov.len() && ov[k] is Some ==> #[trigger] assigned_ids(ov, idx, c)[k] == ov[
                k
            ].unwrap(),
    decreases ov.len(),
{
    if ov.len() > 0 {
        let ids = assigned_ids(ov, idx, c);
        let rest = ov.drop_first();
        if ov[0] is Some {
            lemma_assigned_ids_props(rest, idx, c);
            let rids = assigned_ids(rest, idx, c);
            assert(ids == seq![ov[0].unwrap() as int] + rids);
            assert forall|k: int| 1 <= k < ov.len() implies ids[k] == rids[k - 1] && ov[k]
                == rest[k - 1] by {}
        } else {
            let id = next_free(idx, c);
            lemma_next_free(idx, c);
            lemma_assigned_ids_props(rest, idx, id + 1);
            let rids = assigned_ids(rest, idx, id + 1);
            assert(ids == seq![id] + rids);
            assert forall|k: int| 1 <= k < ov.len() implies ids[k] == rids[k - 1] && ov[k]
                == rest[k - 1] by {}
        }
    }
}

/// For every declaration list with unique symbolic names and any configured
/// skip-range index, the assignment gives automatically assigned ids that are
/// strictly increasing in declaration order, and no automatically assigned id
/// lies in a configured skip range.
pub proof fn lemma_variant_assignment_sound(decls: Seq<VariantDeclaration>, idx: SkipRangeIndex)
    requires
        forall|i: int, j: int|
            0 <= i < j < decls.len() ==> (#[trigger] decls[i]).name@ != (#[trigger] decls[j]).name@,
    ensures
        forall|i: int, j: int|
            0 <= i < j < decls.len() && decls[i].id is None && decls[j].id is None
                ==> #[trigger] assigned_ids(overrides_of(decls), idx, 1)[i] < #[trigger] assigned_ids(
                overrides_of(decls),
                idx,
                1,
            )[j],
        forall|i: int|
            0 <= i < decls.len() && decls[i].id is None ==> !idx.in_skip(
                #[trigger] assigned_ids(overrides_of(decls), idx, 1)[i],
            ),
{
    lemma_assigned_ids_props(overrides_of(decls), idx, 1);
    assert forall|i: int| 0 <= i < decls.len() implies overrides_of(decls)[i] == decls[i].id by {}
}

/// The assigned ids of a record list, as mathematical integers.
pub open spec fn record_ids(records: Seq<VariantData>) -> Seq<int> {
    records.map_values(|v: VariantData| v.id as int)
}

/// Assigns names and ids to an ordered list of declarations, preserving
/// declaration order. Ids are assigned whatever the mappings in force; the
/// enumeration's configuration decides which of them are used.
///
/// When the skip index's ranges are sorted and disjoint, the assigned ids are
/// exactly [`assigned_ids`] starting from cursor 1; overlapping ranges leave
/// membership, and so the assigned ids, unspecified.
pub fn process_variants(
    decls: &Vec<VariantDeclaration>,
    case: Option<CaseKind>,
    skip_index: &SkipRangeIndex,
) -> (r: Vec<VariantData>)
    requires
        skip_index.max_end() + decls@.len() + 1 <= i64::MAX,
    ensures
        r@.len() == decls@.len(),
        forall|k: int|
            0 <= k < decls@.len() ==> {
                &&& (#[trigger] r@[k]).name@ == decls@[k].name@
                &&& r@[k].db_name@ == derived_db_name(decls@[k], case)
                &&& r@[k].skip_check == decls@[k].skip_check
            },
        forall|k: int|
            0 <= k < decls@.len() && decls@[k].id is Some ==> (#[trigger] r@[k]).id == decls@[
                k
            ].id.unwrap(),
        skip_index.sorted_by_start() && skip_index.disjoint() ==> record_ids(r@) == assigned_ids(
            overrides_of(decls@),
            *skip_index,
            1,
        ),
{
    let ghost wf = skip_index.sorted_by_start() && skip_index.disjoint();
    let ghost ov = overrides_of(decls@);
    proof {
        skip_index.lemma_max_end_nonneg();
        assert(ov.skip(0) =~= ov);
    }
    let mut out: Vec<VariantData> = Vec::new();
    let mut cursor: i64 = 1;
    let mut i: usize = 0;
    while i < decls.len()
        invariant
            i <= decls@.len(),
            out@.len() == i,
            ov == overrides_of(decls@),
            skip_index.max_end() >= 0,
            skip_index.max_end() + decls@.len() + 1 <= i64::MAX,
            1 <= cursor,
            cursor as int <= skip_index.max_end() + i + 1,
            wf == (skip_index.sorted_by_start() && skip_index.disjoint()),
            forall|k: int|
                0 <= k < i ==> {
                    &&& (#[trigger] out@[k]).name@ == decls@[k].name@
                    &&& out@[k].db_name@ == derived_db_name(decls@[k], case)
                    &&& out@[k].skip_check == decls@[k].skip_check
                },
            forall|k: int|
                0 <= k < i && decls@[k].id is Some ==> (#[trigger] out@[k]).id == decls@[
                    k
                ].id.unwrap(),
            wf ==> assigned_ids(ov, *skip_index, 1) == record_ids(out@) + assigned_ids(
                ov.skip(i as int),
                *skip_index,
                cursor as int,
            ),
        decreases decls@.len() - i,
    {
        let ghost idx = *skip_index;
        let d = &decls[i];
        let name = d.name.clone();
        let db_name: String = match &d.db_name {
            Some(n) => n.clone(),
            None => {
                match case {
                    Some(c) => apply_case(d.name.as_str(), c),
                    None => d.name.clone(),
                }
            },
        };
        let skip_check = d.skip_check;
        proof {
            assert(ov[i as int] == decls@[i as int].id);
            assert(ov.skip(i as int)[0] == ov[i as int]);
            assert(ov.skip(i as int).drop_first() =~= ov.skip(i + 1));
        }
        let id_val: i64 = match d.id {
            Some(v) => {
                proof {
                    if wf {
                        assert(assigned_ids(ov.skip(i as int), idx, cursor as int) == seq![
                            v as int,
                        ] + assigned_ids(ov.skip(i + 1), idx, cursor as int));
                    }
                }
                v
            },
            None => {
                let ghost c0 = cursor as int;
                while skip_index.contains(cursor)
                    invariant
                        1 <= cursor,
                        skip_index.max_end() >= 0,
                        skip_index.max_end() + decls@.len() + 1 <= i64::MAX,
                        i < decls@.len(),
                        cursor as int <= skip_index.max_end() + i + 1,
                        wf == (skip_index.sorted_by_start() && skip_index.disjoint()),
                        wf ==> next_free(*skip_index, c0) == next_free(
                            *skip_index,
                            cursor as int,
                        ),
                        idx == *skip_index,
                    decreases skip_index.max_end() - cursor,
                {
                    proof {
                        skip_index.lemma_in_skip_below_max_end(cursor as int);
                    }
                    cursor = cursor + 1;
                }
                proof {
                    if wf {
                        assert(!idx.in_skip(cursor as int));
                        assert(next_free(idx, cursor as int) == cursor as int);
                        assert(next_free(idx, c0) == cursor as int);
                        assert(assigned_ids(ov.skip(i as int), idx, c0) == seq![cursor as int]
                            + assigned_ids(ov.skip(i + 1), idx, cursor as int + 1));
                    }
                }
                let v = cursor;
                cursor = cursor + 1;
                v
            },
        };
        let ghost out_pre = out@;
        out.push(VariantData { name, db_name, id: id_val, skip_check });
        proof {
            assert(record_ids(out@) =~= record_ids(out_pre).push(id_val as int));
            if wf {
                assert(record_ids(out_pre) + (seq![id_val as int] + assigned_ids(
                    ov.skip(i + 1),
                    idx,
                    cursor as int,
                )) =~= record_ids(out@) + assigned_ids(ov.skip(i + 1), idx, cursor as int));
            }
        }
        i += 1;
    }
    proof {
        assert(ov.skip(decls@.len() as int) =~= Seq::<Option<i64>>::empty());
        if wf {
            assert(record_ids(out@) + assigned_ids(
                ov.skip(decls@.len() as int),
                *skip_index,
                cursor as int,
            ) =~= record_ids(out@));
        }
    }
    out
}

} // verus!
