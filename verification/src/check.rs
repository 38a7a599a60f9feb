//! The consistency checker: reconciles assigned variant records against one
//! fetched remote snapshot and produces the complete discrepancy taxonomy in
//! a single pass, never stopping at the first finding.

use vstd::prelude::*;
use crate::errors::{DbEnumError, DbEnumSource, ErrorKind};
use crate::text::{names_sorted, sort_strings, str_eq, views_of};
use crate::variants::VariantData;

verus! {

/// The local map from db-name to assigned id, built from all records; a
/// duplicated db-name keeps the last record's id.
pub open spec fn names_to_ids(records: Seq<VariantData>) -> Map<Seq<char>, int>
    decreases records.len(),
{
    if records.len() == 0 {
        Map::empty()
    } else {
        names_to_ids(records.drop_last()).insert(
            records.last().db_name@,
            records.last().id as int,
        )
    }
}

/// The local set of db-names for a name-only check: every record's db-name,
/// excluding records whose skip-check flag is set.
pub open spec fn names_to_check(records: Seq<VariantData>) -> Set<Seq<char>>
    decreases records.len(),
{
    if records.len() == 0 {
        Set::empty()
    } else {
        let rest = names_to_check(records.drop_last());
        if records.last().skip_check {
            rest
        } else {
            rest.insert(records.last().db_name@)
        }
    }
}

/// The remote rows of an id check, as id and character content.
pub open spec fn rows_view(rows: Seq<(i64, String)>) -> Seq<(i64, Seq<char>)> {
    rows.map_values(|p: (i64, String)| (p.0, p.1@))
}

/// What one pass over the remote rows leaves behind when id-mapping is
/// active: the local entries never matched, the remote names missing locally
/// in remote-row order, and the id mismatches in remote-row order, each as
/// `(name, id found remotely, id assigned locally)`.
pub struct IdCheckOutcome {
    pub unmatched: Map<Seq<char>, int>,
    pub missing_locally: Seq<Seq<char>>,
    pub mismatches: Seq<(Seq<char>, int, int)>,
}

/// Processes the remote rows in order against the local map, as the check
/// does: a matched name is removed from the map and its ids compared; an
/// unmatched name is recorded as missing locally.
pub open spec fn run_id_check(m: Map<Seq<char>, int>, rows: Seq<(i64, Seq<char>)>) -> IdCheckOutcome
    decreases rows.len(),
{
    if rows.len() == 0 {
        IdCheckOutcome { unmatched: m, missing_locally: Seq::empty(), mismatches: Seq::empty() }
    } else {
        let rid = rows[0].0 as int;
        let name = rows[0].1;
        if m.dom().contains(name) {
            let lid = m[name];
            let rest = run_id_check(m.remove(name), rows.drop_first());
            if rid != lid {
                IdCheckOutcome {
                    unmatched: rest.unmatched,
                    missing_locally: rest.missing_locally,
                    mismatches: seq![(name, rid, lid)] + rest.mismatches,
                }
            } else {
                rest
            }
        } else {
            let rest = run_id_check(m, rows.drop_first());
            IdCheckOutcome {
                unmatched: rest.unmatched,
                missing_locally: seq![name] + rest.missing_locally,
                mismatches: rest.mismatches,
            }
        }
    }
}

/// What one pass over the remote names leaves behind when only name-mapping
/// is active.
pub struct NameCheckOutcome {
    pub unmatched: Set<Seq<char>>,
    pub missing_locally: Seq<Seq<char>>,
}

/// Processes the remote names in order against the local set.
pub open spec fn run_name_check(s: Set<Seq<char>>, rows: Seq<Seq<char>>) -> NameCheckOutcome
    decreases rows.len(),
{
    if rows.len() == 0 {
        NameCheckOutcome { unmatched: s, missing_locally: Seq::empty() }
    } else {
        let name = rows[0];
        if s.contains(name) {
            run_name_check(s.remove(name), rows.drop_first())
        } else {
            let rest = run_name_check(s, rows.drop_first());
            NameCheckOutcome {
                unmatched: rest.unmatched,
                missing_locally: seq![name] + rest.missing_locally,
            }
        }
    }
}

/// A vector that lists a set of names in sorted order, each exactly once.
pub open spec fn is_sorted_listing(v: Seq<Seq<char>>, of: Set<Seq<char>>) -> bool {
    &&& names_sorted(v)
    &&& v.no_duplicates()
    &&& forall|n: Seq<char>| v.contains(n) <==> of.contains(n)
}

/// A vector that holds exactly the given names, sorted.
pub open spec fn is_sorted_perm(v: Seq<Seq<char>>, of: Seq<Seq<char>>) -> bool {
    &&& names_sorted(v)
    &&& v.to_multiset() == of.to_multiset()
}

/// The mismatch entries of a report, as character content and integers.
pub open spec fn mism_views(s: Seq<(String, i64, i64)>) -> Seq<(Seq<char>, int, int)> {
    s.map_values(|t: (String, i64, i64)| (t.0@, t.1 as int, t.2 as int))
}

/// A report entry holding exactly these id mismatches.
pub open spec fn entry_is_mismatches(e: ErrorKind, mm: Seq<(Seq<char>, int, int)>) -> bool {
    e matches ErrorKind::IdMismatches(v) && mism_views(v@) == mm
}

/// A report entry listing exactly these remote-only names, sorted.
pub open spec fn entry_is_missing_locally(e: ErrorKind, names: Seq<Seq<char>>) -> bool {
    e matches ErrorKind::MissingFromRustEnum(v) && is_sorted_perm(views_of(v@), names)
}

/// A report entry listing exactly this set of local-only names, sorted.
pub open spec fn entry_is_missing_remotely(e: ErrorKind, names: Set<Seq<char>>) -> bool {
    e matches ErrorKind::MissingFromDb(v) && is_sorted_listing(views_of(v@), names)
}

/// The errors of a failed id check: in fixed order and each present exactly
/// when non-empty, id mismatches as collected, the two name lists sorted.
pub open spec fn id_errors_match(errors: Seq<ErrorKind>, o: IdCheckOutcome) -> bool {
    let has_mm = o.mismatches.len() > 0;
    let has_mr = o.missing_locally.len() > 0;
    let has_md = exists|n: Seq<char>| o.unmatched.dom().contains(n);
    let n_mm: int = if has_mm {
        1
    } else {
        0
    };
    let n_mr: int = if has_mr {
        1
    } else {
        0
    };
    let n_md: int = if has_md {
        1
    } else {
        0
    };
    &&& errors.len() == n_mm + n_mr + n_md
    &&& (has_mm ==> entry_is_mismatches(errors[0], o.mismatches))
    &&& (has_mr ==> entry_is_missing_locally(errors[n_mm], o.missing_locally))
    &&& (has_md ==> entry_is_missing_remotely(errors[n_mm + n_mr], o.unmatched.dom()))
}

/// The errors of a failed name-only check.
pub open spec fn name_errors_match(errors: Seq<ErrorKind>, o: NameCheckOutcome) -> bool {
    let has_mr = o.missing_locally.len() > 0;
    let has_md = exists|n: Seq<char>| o.unmatched.contains(n);
    let n_mr: int = if has_mr {
        1
    } else {
        0
    };
    let n_md: int = if has_md {
        1
    } else {
        0
    };
    &&& errors.len() == n_mr + n_md
    &&& (has_mr ==> entry_is_missing_locally(errors[0], o.missing_locally))
    &&& (has_md ==> entry_is_missing_remotely(errors[n_mr], o.unmatched))
}

/// No two entries of the scratch map share a db-name.
spec fn keys_distinct(s: Seq<(String, i64)>) -> bool {
    forall|p: int, q: int|
        0 <= p < q < s.len() ==> (#[trigger] s[p]).0@ != (#[trigger] s[q]).0@
}

/// The map an association list denotes; later entries win.
spec fn assoc_view(s: Seq<(String, i64)>) -> Map<Seq<char>, int>
    decreases s.len(),
{
    if s.len() == 0 {
        Map::empty()
    } else {
        assoc_view(s.drop_last()).insert(s.last().0@, s.last().1 as int)
    }
}

proof fn lemma_assoc_dom(s: Seq<(String, i64)>, n: Seq<char>)
    ensures
        assoc_view(s).dom().contains(n) <==> exists|k: int|
            0 <= k < s.len() && (#[trigger] s[k]).0@ == n,
    decreases s.len(),
{
    if s.len() > 0 {
        lemma_assoc_dom(s.drop_last(), n);
        if s.last().0@ == n {
            assert(s[s.len() - 1].0@ == n);
        } else if assoc_view(s).dom().contains(n) {
            let k = choose|k: int| 0 <= k < s.drop_last().len() && (#[trigger] s.drop_last()[k]).0@ == n;
            assert(s[k].0@ == n);
        } else {
            if exists|k: int| 0 <= k < s.len() && (#[trigger] s[k]).0@ == n {
                let k = choose|k: int| 0 <= k < s.len() && (#[trigger] s[k]).0@ == n;
                assert(k < s.len() - 1);
                assert(s.drop_last()[k].0@ == n);
                assert(false);
            }
        }
    }
}

proof fn lemma_assoc_at(s: Seq<(String, i64)>, k: int)
    requires
        keys_distinct(s),
        0 <= k < s.len(),
    ensures
        assoc_view(s).dom().contains(s[k].0@),
        assoc_view(s)[s[k].0@] == s[k].1 as int,
    decreases s.len(),
{
    if k == s.len() - 1 {
    } else {
        assert(keys_distinct(s.drop_last()));
        assert(s.drop_last()[k] == s[k]);
        lemma_assoc_at(s.drop_last(), k);
        assert(s[k].0@ != s.last().0@);
    }
}

proof fn lemma_assoc_remove(s: Seq<(String, i64)>, j: int)
    requires
        keys_distinct(s),
        0 <= j < s.len(),
    ensures
        assoc_view(s.remove(j)) == assoc_view(s).remove(s[j].0@),
    decreases s.len(),
{
    let n = s[j].0@;
    if j == s.len() - 1 {
        assert(s.remove(j) =~= s.drop_last());
        lemma_assoc_dom(s.drop_last(), n);
        assert(!assoc_view(s.drop_last()).dom().contains(n)) by {
            if exists|k: int| 0 <= k < s.drop_last().len() && (#[trigger] s.drop_last()[k]).0@
                == n {
                let k = choose|k: int|
                    0 <= k < s.drop_last().len() && (#[trigger] s.drop_last()[k]).0@ == n;
                assert(s[k].0@ == s[j].0@);
                assert(false);
            }
        }
        assert(assoc_view(s).remove(n) =~= assoc_view(s.drop_last()));
    } else {
        assert(keys_distinct(s.drop_last()));
        assert(s.drop_last()[j] == s[j]);
        lemma_assoc_remove(s.drop_last(), j);
        assert(s.remove(j).last() == s.last());
        assert(s.remove(j).drop_last() =~= s.drop_last().remove(j));
        assert(assoc_view(s.remove(j)) == assoc_view(s.drop_last().remove(j)).insert(
            s.last().0@,
            s.last().1 as int,
        ));
        assert(s[j].0@ != s.last().0@);
        assert(assoc_view(s.drop_last()).remove(n).insert(s.last().0@, s.last().1 as int)
            =~= assoc_view(s.drop_last()).insert(s.last().0@, s.last().1 as int).remove(n));
    }
}

/// First entry with the given name, if any.
fn find_name(m: &Vec<(String, i64)>, name: &str) -> (r: Option<usize>)
    ensures
        match r {
            Some(j) => j < m@.len() && m@[j as int].0@ == name@,
            None => forall|k: int| 0 <= k < m@.len() ==> (#[trigger] m@[k]).0@ != name@,
        },
{
    let mut k: usize = 0;
    while k < m.len()
        invariant
            k <= m@.len(),
            forall|p: int| 0 <= p < k ==> (#[trigger] m@[p]).0@ != name@,
        decreases m@.len() - k,
    {
        if str_eq(m[k].0.as_str(), name) {
            return Some(k);
        }
        k += 1;
    }
    None
}

/// Builds the scratch map from db-name to assigned id out of all records; a
/// db-name given twice keeps the last record's id.
fn build_id_map(records: &Vec<VariantData>) -> (m: Vec<(String, i64)>)
    ensures
        keys_distinct(m@),
        assoc_view(m@) == names_to_ids(records@),
{
    let mut m: Vec<(String, i64)> = Vec::new();
    let mut i: usize = 0;
    while i < records.len()
        invariant
            i <= records@.len(),
            keys_distinct(m@),
            assoc_view(m@) == names_to_ids(records@.take(i as int)),
        decreases records@.len() - i,
    {
        let rec = &records[i];
        let ghost pre = m@;
        match find_name(&m, rec.db_name.as_str()) {
            Some(j) => {
                proof {
                    lemma_assoc_remove(pre, j as int);
                }
                m.remove(j);
                proof {
                    assert forall|p: int, q: int|
                        0 <= p < q < m@.len() implies (#[trigger] m@[p]).0@ != (
                    #[trigger] m@[q]).0@ by {
                        assert(m@ == pre.remove(j as int));
                    }
                    assert forall|k: int| 0 <= k < m@.len() implies (#[trigger] m@[k]).0@
                        != rec.db_name@ by {
                        assert(m@ == pre.remove(j as int));
                        if k < j {
                            assert(m@[k] == pre[k]);
                        } else {
                            assert(m@[k] == pre[k + 1]);
                        }
                    }
                }
            },
            None => {
            },
        }
        let ghost mid = m@;
        m.push((rec.db_name.clone(), rec.id));
        proof {
            assert(m@.drop_last() =~= mid);
            assert(m@.last().0@ == rec.db_name@);
            assert(assoc_view(m@) == assoc_view(mid).insert(rec.db_name@, rec.id as int));
            assert(records@.take(i + 1).drop_last() =~= records@.take(i as int));
            assert(records@.take(i + 1).last() == records@[i as int]);
            assert(names_to_ids(records@.take(i + 1)) == names_to_ids(records@.take(i as int)).insert(
                records@[i as int].db_name@,
                records@[i as int].id as int,
            ));
            assert(assoc_view(mid).insert(rec.db_name@, rec.id as int) =~= names_to_ids(
                records@.take(i as int),
            ).insert(rec.db_name@, rec.id as int));
            assert forall|p: int, q: int|
                0 <= p < q < m@.len() implies (#[trigger] m@[p]).0@ != (#[trigger] m@[q]).0@ by {
                if q < m@.len() - 1 {
                    assert(m@[p] == mid[p] && m@[q] == mid[q]);
                } else {
                    assert(m@[q].0@ == rec.db_name@);
                    assert(m@[p] == mid[p]);
                }
            }
        }
        i += 1;
    }
    proof {
        assert(records@.take(records@.len() as int) =~= records@);
    }
    m
}

/// The names of the scratch map's entries, in order.
fn collect_keys(m: &Vec<(String, i64)>) -> (r: Vec<String>)
    ensures
        views_of(r@) == m@.map_values(|p: (String, i64)| p.0@),
{
    let mut r: Vec<String> = Vec::new();
    let mut k: usize = 0;
    while k < m.len()
        invariant
            k <= m@.len(),
            views_of(r@) == m@.map_values(|p: (String, i64)| p.0@).take(k as int),
        decreases m@.len() - k,
    {
        let ghost rpre = r@;
        r.push(m[k].0.clone());
        proof {
            let all = m@.map_values(|p: (String, i64)| p.0@);
            assert(views_of(r@) =~= views_of(rpre).push(m@[k as int].0@));
            assert(all.take(k + 1) =~= all.take(k as int).push(all[k as int]));
            assert(views_of(r@) =~= all.take(k + 1));
        }
        k += 1;
    }
    proof {
        let all = m@.map_values(|p: (String, i64)| p.0@);
        assert(all.take(all.len() as int) =~= all);
    }
    r
}

/// Checks an enumeration with id-mapping active against the remote
/// `(id, name)` rows fetched from its lookup table, in one pass.
///
/// Succeeds exactly when every remote name is declared locally with the same
/// id and no local name is left over. Otherwise the error carries, in this
/// fixed order and each only when non-empty: the id mismatches in remote-row
/// order, the remote names missing locally (sorted), and the local names
/// missing remotely (sorted, one entry per name).
pub fn check_consistency_with_ids(
    rust_enum: &str,
    source: DbEnumSource,
    records: &Vec<VariantData>,
    rows: &Vec<(i64, String)>,
) -> (r: Result<(), DbEnumError>)
    ensures
        ({
            let o = run_id_check(names_to_ids(records@), rows_view(rows@));
            match r {
                Ok(()) => {
                    &&& o.mismatches.len() == 0
                    &&& o.missing_locally.len() == 0
                    &&& !(exists|n: Seq<char>| o.unmatched.dom().contains(n))
                },
                Err(e) => {
                    &&& (o.mismatches.len() > 0 || o.missing_locally.len() > 0 || exists|
                        n: Seq<char>,
                    | o.unmatched.dom().contains(n))
                    &&& e.rust_enum@ == rust_enum@
                    &&& e.db_source == source
                    &&& id_errors_match(e.errors@, o)
                },
            }
        }),
{
    let ghost rv = rows_view(rows@);
    let ghost total = run_id_check(names_to_ids(records@), rv);
    let mut m = build_id_map(records);
    let mut missing: Vec<String> = Vec::new();
    let mut mism: Vec<(String, i64, i64)> = Vec::new();
    proof {
        assert(rv.skip(0) =~= rv);
        assert(views_of(missing@) + total.missing_locally =~= total.missing_locally);
        assert(mism_views(mism@) + total.mismatches =~= total.mismatches);
    }
    let mut i: usize = 0;
    while i < rows.len()
        invariant
            i <= rows@.len(),
            rv == rows_view(rows@),
            total == run_id_check(names_to_ids(records@), rv),
            keys_distinct(m@),
            total.unmatched == run_id_check(assoc_view(m@), rv.skip(i as int)).unmatched,
            total.missing_locally == views_of(missing@) + run_id_check(
                assoc_view(m@),
                rv.skip(i as int),
            ).missing_locally,
            total.mismatches == mism_views(mism@) + run_id_check(
                assoc_view(m@),
                rv.skip(i as int),
            ).mismatches,
        decreases rows@.len() - i,
    {
        let row = &rows[i];
        let rid: i64 = row.0;
        let ghost suffix = rv.skip(i as int);
        proof {
            assert(suffix.len() == rv.len() - i);
            assert(suffix[0] == rv[i as int]);
            assert(rv[i as int] == (rows@[i as int].0, rows@[i as int].1@));
            assert(suffix.drop_first() =~= rv.skip(i + 1));
        }
        match find_name(&m, row.1.as_str()) {
            Some(j) => {
                let lid: i64 = m[j].1;
                let ghost pre = m@;
                proof {
                    lemma_assoc_dom(pre, row.1@);
                    assert(assoc_view(pre).dom().contains(row.1@)) by {
                        assert(pre[j as int].0@ == row.1@);
                    }
                    lemma_assoc_at(pre, j as int);
                    assert(assoc_view(pre)[row.1@] == lid as int);
                    lemma_assoc_remove(pre, j as int);
                }
                m.remove(j);
                proof {
                    assert(m@ == pre.remove(j as int));
                    assert(assoc_view(m@) == assoc_view(pre).remove(row.1@));
                    assert forall|p: int, q: int|
                        0 <= p < q < m@.len() implies (#[trigger] m@[p]).0@ != (
                    #[trigger] m@[q]).0@ by {}
                }
                if rid != lid {
                    let ghost mism_pre = mism@;
                    mism.push((row.1.clone(), rid, lid));
                    proof {
                        assert(mism_views(mism@) =~= mism_views(mism_pre).push(
                            (row.1@, rid as int, lid as int),
                        ));
                        let rest = run_id_check(assoc_view(m@), rv.skip(i + 1));
                        assert(run_id_check(assoc_view(pre), suffix).mismatches == seq![
                            (row.1@, rid as int, lid as int),
                        ] + rest.mismatches);
                        assert(mism_views(mism_pre) + (seq![(row.1@, rid as int, lid as int)]
                            + rest.mismatches) =~= mism_views(mism@) + rest.mismatches);
                        assert(run_id_check(assoc_view(pre), suffix).missing_locally
                            == rest.missing_locally);
                        assert(run_id_check(assoc_view(pre), suffix).unmatched == rest.unmatched);
                    }
                } else {
                    proof {
                        assert(run_id_check(assoc_view(pre), suffix) == run_id_check(
                            assoc_view(m@),
                            rv.skip(i + 1),
                        ));
                    }
                }
            },
            None => {
                proof {
                    lemma_assoc_dom(m@, row.1@);
                    assert(!assoc_view(m@).dom().contains(row.1@));
                }
                let ghost missing_pre = missing@;
                missing.push(row.1.clone());
                proof {
                    assert(views_of(missing@) =~= views_of(missing_pre).push(row.1@));
                    let rest = run_id_check(assoc_view(m@), rv.skip(i + 1));
                    assert(run_id_check(assoc_view(m@), suffix).missing_locally == seq![row.1@]
                        + rest.missing_locally);
                    assert(views_of(missing_pre) + (seq![row.1@] + rest.missing_locally)
                        =~= views_of(missing@) + rest.missing_locally);
                }
            },
        }
        i += 1;
    }
    proof {
        assert(rv.skip(rows@.len() as int) =~= Seq::<(i64, Seq<char>)>::empty());
        assert(total.unmatched == assoc_view(m@));
        assert(total.missing_locally =~= views_of(missing@)) by {
            assert(run_id_check(assoc_view(m@), rv.skip(rows@.len() as int)).missing_locally
                == Seq::<Seq<char>>::empty());
            assert(views_of(missing@) + Seq::<Seq<char>>::empty() =~= views_of(missing@));
        }
        assert(total.mismatches =~= mism_views(mism@)) by {
            assert(run_id_check(assoc_view(m@), rv.skip(rows@.len() as int)).mismatches == Seq::<
                (Seq<char>, int, int),
            >::empty());
            assert(mism_views(mism@) + Seq::<(Seq<char>, int, int)>::empty() =~= mism_views(
                mism@,
            ));
        }
    }
    let ghost missing_unsorted = missing@;
    sort_strings(&mut missing);
    let mut excess = collect_keys(&m);
    let ghost excess_unsorted = excess@;
    proof {
        assert(views_of(excess@) =~= m@.map_values(|p: (String, i64)| p.0@));
        assert(views_of(excess@).no_duplicates()) by {
            assert forall|p: int, q: int|
                0 <= p < views_of(excess@).len() && 0 <= q < views_of(excess@).len() && p
                    != q implies views_of(excess@)[p] != views_of(excess@)[q] by {
                if p < q {
                    assert(m@[p].0@ != m@[q].0@);
                } else {
                    assert(m@[q].0@ != m@[p].0@);
                }
            }
        }
        views_of(excess@).lemma_multiset_has_no_duplicates();
    }
    sort_strings(&mut excess);
    proof {
        broadcast use vstd::seq_lib::group_to_multiset_ensures;

        views_of(excess@).lemma_multiset_has_no_duplicates_conv();
        assert(views_of(excess@).no_duplicates());
        assert forall|n: Seq<char>|
            views_of(excess@).contains(n) <==> total.unmatched.dom().contains(n) by {
            lemma_assoc_dom(m@, n);
            let keyviews = m@.map_values(|p: (String, i64)| p.0@);
            assert(views_of(excess@).to_multiset().count(n) == views_of(
                excess_unsorted,
            ).to_multiset().count(n));
            assert(views_of(excess@).contains(n) <==> views_of(excess@).to_multiset().count(n)
                > 0);
            assert(views_of(excess_unsorted).contains(n) <==> views_of(
                excess_unsorted,
            ).to_multiset().count(n) > 0);
            assert(views_of(excess@).contains(n) <==> views_of(excess_unsorted).contains(n));
            assert(views_of(excess_unsorted) == keyviews);
            if keyviews.contains(n) {
                let k = choose|k: int| 0 <= k < keyviews.len() && keyviews[k] == n;
                assert(m@[k].0@ == n);
            }
            if exists|k: int| 0 <= k < m@.len() && (#[trigger] m@[k]).0@ == n {
                let k = choose|k: int| 0 <= k < m@.len() && (#[trigger] m@[k]).0@ == n;
                assert(keyviews[k] == n);
            }
        }
    }
    let has_mm = mism.len() > 0;
    let has_mr = missing.len() > 0;
    let has_md = excess.len() > 0;
    proof {
        assert(has_mm == (total.mismatches.len() > 0));
        assert(has_mr == (total.missing_locally.len() > 0)) by {
            broadcast use vstd::seq_lib::group_to_multiset_ensures;

            assert(views_of(missing@).to_multiset() == views_of(missing_unsorted).to_multiset());
            assert(views_of(missing@).to_multiset().len() == views_of(
                missing_unsorted,
            ).to_multiset().len());
        }
        assert(has_md == (exists|n: Seq<char>| total.unmatched.dom().contains(n))) by {
            if excess@.len() > 0 {
                assert(views_of(excess@).contains(views_of(excess@)[0]));
            }
            if exists|n: Seq<char>| total.unmatched.dom().contains(n) {
                let n = choose|n: Seq<char>| total.unmatched.dom().contains(n);
                assert(views_of(excess@).contains(n));
            }
        }
    }
    if !has_mm && !has_mr && !has_md {
        return Ok(());
    }
    let mut errors: Vec<ErrorKind> = Vec::new();
    if has_mm {
        errors.push(ErrorKind::IdMismatches(mism));
    }
    if has_mr {
        errors.push(ErrorKind::MissingFromRustEnum(missing));
    }
    if has_md {
        errors.push(ErrorKind::MissingFromDb(excess));
    }
    let e = DbEnumError { rust_enum: string_of(rust_enum), db_source: source, errors };
    proof {
        assert(id_errors_match(e.errors@, total));
    }
    Err(e)
}


/// No two names in the scratch set share their content.
spec fn names_distinct(s: Seq<String>) -> bool {
    forall|p: int, q: int| 0 <= p < q < s.len() ==> (#[trigger] s[p])@ != (#[trigger] s[q])@
}

/// The set of names a vector denotes.
spec fn names_set_view(s: Seq<String>) -> Set<Seq<char>>
    decreases s.len(),
{
    if s.len() == 0 {
        Set::empty()
    } else {
        names_set_view(s.drop_last()).insert(s.last()@)
    }
}

proof fn lemma_set_view_contains(s: Seq<String>, n: Seq<char>)
    ensures
        names_set_view(s).contains(n) <==> exists|k: int| 0 <= k < s.len() && (#[trigger] s[k])@
            == n,
    decreases s.len(),
{
    if s.len() > 0 {
        lemma_set_view_contains(s.drop_last(), n);
        if s.last()@ == n {
            assert(s[s.len() - 1]@ == n);
        } else if names_set_view(s).contains(n) {
            let k = choose|k: int| 0 <= k < s.drop_last().len() && (#[trigger] s.drop_last()[k])@ == n;
            assert(s[k]@ == n);
        } else {
            if exists|k: int| 0 <= k < s.len() && (#[trigger] s[k])@ == n {
                let k = choose|k: int| 0 <= k < s.len() && (#[trigger] s[k])@ == n;
                assert(k < s.len() - 1);
                assert(s.drop_last()[k]@ == n);
                assert(false);
            }
        }
    }
}

proof fn lemma_set_view_remove(s: Seq<String>, j: int)
    requires
        names_distinct(s),
        0 <= j < s.len(),
    ensures
        names_set_view(s.remove(j)) == names_set_view(s).remove(s[j]@),
    decreases s.len(),
{
    let n = s[j]@;
    if j == s.len() - 1 {
        assert(s.remove(j) =~= s.drop_last());
        assert(!names_set_view(s.drop_last()).contains(n)) by {
            lemma_set_view_contains(s.drop_last(), n);
            if exists|k: int| 0 <= k < s.drop_last().len() && (#[trigger] s.drop_last()[k])@ == n {
                let k = choose|k: int|
                    0 <= k < s.drop_last().len() && (#[trigger] s.drop_last()[k])@ == n;
                assert(s[k]@ == s[j]@);
                assert(false);
            }
        }
        assert(names_set_view(s).remove(n) =~= names_set_view(s.drop_last()));
    } else {
        assert(names_distinct(s.drop_last()));
        assert(s.drop_last()[j] == s[j]);
        lemma_set_view_remove(s.drop_last(), j);
        assert(s.remove(j).last() == s.last());
        assert(s.remove(j).drop_last() =~= s.drop_last().remove(j));
        assert(names_set_view(s.remove(j)) == names_set_view(s.drop_last().remove(j)).insert(
            s.last()@,
        ));
        assert(s[j]@ != s.last()@);
        assert(names_set_view(s.drop_last()).remove(n).insert(s.last()@) =~= names_set_view(
            s.drop_last(),
        ).insert(s.last()@).remove(n));
    }
}

/// First name equal to the given one, if any.
fn find_string(v: &Vec<String>, name: &str) -> (r: Option<usize>)
    ensures
        match r {
            Some(j) => j < v@.len() && v@[j as int]@ == name@,
            None => forall|k: int| 0 <= k < v@.len() ==> (#[trigger] v@[k])@ != name@,
        },
{
    let mut k: usize = 0;
    while k < v.len()
        invariant
            k <= v@.len(),
            forall|p: int| 0 <= p < k ==> (#[trigger] v@[p])@ != name@,
        decreases v@.len() - k,
    {
        if str_eq(v[k].as_str(), name) {
            return Some(k);
        }
        k += 1;
    }
    None
}

/// Builds the scratch set of db-names for a name-only check, leaving out
/// records whose skip-check flag is set; each name appears once.
fn build_name_set(records: &Vec<VariantData>) -> (r: Vec<String>)
    ensures
        names_distinct(r@),
        names_set_view(r@) == names_to_check(records@),
{
    let mut r: Vec<String> = Vec::new();
    let mut i: usize = 0;
    while i < records.len()
        invariant
            i <= records@.len(),
            names_distinct(r@),
            names_set_view(r@) == names_to_check(records@.take(i as int)),
        decreases records@.len() - i,
    {
        let rec = &records[i];
        proof {
            assert(records@.take(i + 1).drop_last() =~= records@.take(i as int));
            assert(records@.take(i + 1).last() == records@[i as int]);
        }
        if !rec.skip_check {
            let ghost pre = r@;
            match find_string(&r, rec.db_name.as_str()) {
                Some(_) => {
                    proof {
                        lemma_set_view_contains(pre, rec.db_name@);
                        assert(names_set_view(pre).contains(rec.db_name@));
                        assert(names_set_view(pre).insert(rec.db_name@) =~= names_set_view(pre));
                    }
                },
                None => {
                    r.push(rec.db_name.clone());
                    proof {
                        assert(r@.drop_last() =~= pre);
                        assert(r@.last()@ == rec.db_name@);
                        assert(names_set_view(r@) == names_set_view(pre).insert(rec.db_name@));
                        assert forall|p: int, q: int|
                            0 <= p < q < r@.len() implies (#[trigger] r@[p])@ != (
                        #[trigger] r@[q])@ by {
                            if q < r@.len() - 1 {
                                assert(r@[p] == pre[p] && r@[q] == pre[q]);
                            } else {
                                assert(r@[q]@ == rec.db_name@);
                                assert(r@[p] == pre[p]);
                            }
                        }
                    }
                },
            }
        }
        i += 1;
    }
    proof {
        assert(records@.take(records@.len() as int) =~= records@);
    }
    r
}

/// Checks an enumeration without id-mapping against the remote names fetched
/// from its source, in one pass.
///
/// Succeeds exactly when the remote names and the locally declared db-names
/// (those not flagged to skip the check) coincide as sets, counting each
/// remote occurrence against the local set once. Otherwise the error
/// carries, each only when non-empty: the remote names missing locally
/// (sorted), then the local names missing remotely (sorted, one entry per
/// name).
pub fn check_consistency_names(
    rust_enum: &str,
    source: DbEnumSource,
    records: &Vec<VariantData>,
    rows: &Vec<String>,
) -> (r: Result<(), DbEnumError>)
    ensures
        ({
            let o = run_name_check(names_to_check(records@), views_of(rows@));
            match r {
                Ok(()) => {
                    &&& o.missing_locally.len() == 0
                    &&& !(exists|n: Seq<char>| o.unmatched.contains(n))
                },
                Err(e) => {
                    &&& (o.missing_locally.len() > 0 || exists|n: Seq<char>| o.unmatched.contains(
                        n,
                    ))
                    &&& e.rust_enum@ == rust_enum@
                    &&& e.db_source == source
                    &&& name_errors_match(e.errors@, o)
                },
            }
        }),
{
    let ghost rv = views_of(rows@);
    let ghost total = run_name_check(names_to_check(records@), rv);
    let mut local = build_name_set(records);
    let mut missing: Vec<String> = Vec::new();
    proof {
        assert(rv.skip(0) =~= rv);
        assert(views_of(missing@) + total.missing_locally =~= total.missing_locally);
    }
    let mut i: usize = 0;
    while i < rows.len()
        invariant
            i <= rows@.len(),
            rv == views_of(rows@),
            total == run_name_check(names_to_check(records@), rv),
            names_distinct(local@),
            total.unmatched == run_name_check(names_set_view(local@), rv.skip(i as int)).unmatched,
            total.missing_locally == views_of(missing@) + run_name_check(
                names_set_view(local@),
                rv.skip(i as int),
            ).missing_locally,
        decreases rows@.len() - i,
    {
        let row = &rows[i];
        let ghost suffix = rv.skip(i as int);
        proof {
            assert(suffix.len() == rv.len() - i);
            assert(suffix[0] == rv[i as int]);
            assert(rv[i as int] == rows@[i as int]@);
            assert(suffix.drop_first() =~= rv.skip(i + 1));
        }
        match find_string(&local, row.as_str()) {
            Some(j) => {
                let ghost pre = local@;
                proof {
                    lemma_set_view_contains(pre, row@);
                    assert(names_set_view(pre).contains(row@)) by {
                        assert(pre[j as int]@ == row@);
                    }
                    lemma_set_view_remove(pre, j as int);
                }
                local.remove(j);
                proof {
                    assert(local@ == pre.remove(j as int));
                    assert(names_set_view(local@) == names_set_view(pre).remove(row@));
                    assert forall|p: int, q: int|
                        0 <= p < q < local@.len() implies (#[trigger] local@[p])@ != (
                    #[trigger] local@[q])@ by {}
                    assert(run_name_check(names_set_view(pre), suffix) == run_name_check(
                        names_set_view(local@),
                        rv.skip(i + 1),
                    ));
                }
            },
            None => {
                proof {
                    lemma_set_view_contains(local@, row@);
                    assert(!names_set_view(local@).contains(row@));
                }
                let ghost missing_pre = missing@;
                missing.push(row.clone());
                proof {
                    assert(views_of(missing@) =~= views_of(missing_pre).push(row@));
                    let rest = run_name_check(names_set_view(local@), rv.skip(i + 1));
                    assert(run_name_check(names_set_view(local@), suffix).missing_locally == seq![
                        row@,
                    ] + rest.missing_locally);
                    assert(views_of(missing_pre) + (seq![row@] + rest.missing_locally)
                        =~= views_of(missing@) + rest.missing_locally);
                }
            },
        }
        i += 1;
    }
    proof {
        assert(rv.skip(rows@.len() as int) =~= Seq::<Seq<char>>::empty());
        assert(total.unmatched == names_set_view(local@));
        assert(total.missing_locally =~= views_of(missing@)) by {
            assert(run_name_check(names_set_view(local@), rv.skip(rows@.len() as int))
                .missing_locally == Seq::<Seq<char>>::empty());
            assert(views_of(missing@) + Seq::<Seq<char>>::empty() =~= views_of(missing@));
        }
    }
    let ghost missing_unsorted = missing@;
    sort_strings(&mut missing);
    let ghost excess_unsorted_names = local@;
    proof {
        assert(views_of(local@).no_duplicates()) by {
            assert forall|p: int, q: int|
                0 <= p < views_of(local@).len() && 0 <= q < views_of(local@).len() && p
                    != q implies views_of(local@)[p] != views_of(local@)[q] by {
                if p < q {
                    assert(local@[p]@ != local@[q]@);
                } else {
                    assert(local@[q]@ != local@[p]@);
                }
            }
        }
        views_of(local@).lemma_multiset_has_no_duplicates();
    }
    let mut excess = local;
    sort_strings(&mut excess);
    proof {
        broadcast use vstd::seq_lib::group_to_multiset_ensures;

        views_of(excess@).lemma_multiset_has_no_duplicates_conv();
        assert(views_of(excess@).no_duplicates());
        assert forall|n: Seq<char>|
            #![trigger views_of(excess@).contains(n)]
            #![trigger total.unmatched.contains(n)]
            views_of(excess@).contains(n) <==> total.unmatched.contains(n) by {
            lemma_set_view_contains(excess_unsorted_names, n);
            assert(views_of(excess@).to_multiset().count(n) == views_of(
                excess_unsorted_names,
            ).to_multiset().count(n));
            assert(views_of(excess@).contains(n) <==> views_of(excess@).to_multiset().count(n)
                > 0);
            assert(views_of(excess_unsorted_names).contains(n) <==> views_of(
                excess_unsorted_names,
            ).to_multiset().count(n) > 0);
            if views_of(excess_unsorted_names).contains(n) {
                let k = choose|k: int|
                    0 <= k < views_of(excess_unsorted_names).len() && views_of(
                        excess_unsorted_names,
                    )[k] == n;
                assert(excess_unsorted_names[k]@ == n);
            }
            if exists|k: int|
                0 <= k < excess_unsorted_names.len() && (#[trigger] excess_unsorted_names[k])@
                    == n {
                let k = choose|k: int|
                    0 <= k < excess_unsorted_names.len() && (#[trigger] excess_unsorted_names[k])@
                        == n;
                assert(views_of(excess_unsorted_names)[k] == n);
            }
        }
    }
    let has_mr = missing.len() > 0;
    let has_md = excess.len() > 0;
    proof {
        assert(has_mr == (total.missing_locally.len() > 0)) by {
            broadcast use vstd::seq_lib::group_to_multiset_ensures;

            assert(views_of(missing@).to_multiset() == views_of(missing_unsorted).to_multiset());
            assert(views_of(missing@).to_multiset().len() == views_of(
                missing_unsorted,
            ).to_multiset().len());
        }
        assert(has_md == (exists|n: Seq<char>| total.unmatched.contains(n))) by {
            if excess@.len() > 0 {
                assert(views_of(excess@).contains(views_of(excess@)[0]));
            }
            if exists|n: Seq<char>| total.unmatched.contains(n) {
                let n = choose|n: Seq<char>| total.unmatched.contains(n);
                assert(views_of(excess@).contains(n));
            }
        }
    }
    if !has_mr && !has_md {
        return Ok(());
    }
    let mut errors: Vec<ErrorKind> = Vec::new();
    if has_mr {
        errors.push(ErrorKind::MissingFromRustEnum(missing));
    }
    if has_md {
        errors.push(ErrorKind::MissingFromDb(excess));
    }
    let e = DbEnumError { rust_enum: string_of(rust_enum), db_source: source, errors };
    proof {
        assert(name_errors_match(e.errors@, total));
    }
    Err(e)
}


pub proof fn lemma_names_to_ids_dom(records: Seq<VariantData>, n: Seq<char>)
    ensures
        names_to_ids(records).dom().contains(n) <==> exists|k: int|
            0 <= k < records.len() && (#[trigger] records[k]).db_name@ == n,
    decreases records.len(),
{
    if records.len() > 0 {
        lemma_names_to_ids_dom(records.drop_last(), n);
        if records.last().db_name@ == n {
            assert(records[records.len() - 1].db_name@ == n);
        } else if names_to_ids(records).dom().contains(n) {
            let k = choose|k: int|
                0 <= k < records.drop_last().len() && (#[trigger] records.drop_last()[k]).db_name@
                    == n;
            assert(records[k].db_name@ == n);
        } else {
            if exists|k: int| 0 <= k < records.len() && (#[trigger] records[k]).db_name@ == n {
                let k = choose|k: int|
                    0 <= k < records.len() && (#[trigger] records[k]).db_name@ == n;
                assert(k < records.len() - 1);
                assert(records.drop_last()[k].db_name@ == n);
                assert(false);
            }
        }
    }
}

pub proof fn lemma_names_to_ids_at(records: Seq<VariantData>, k: int)
    requires
        forall|p: int, q: int|
            0 <= p < q < records.len() ==> (#[trigger] records[p]).db_name@ != (
            #[trigger] records[q]).db_name@,
        0 <= k < records.len(),
    ensures
        names_to_ids(records).dom().contains(records[k].db_name@),
        names_to_ids(records)[records[k].db_name@] == records[k].id as int,
    decreases records.len(),
{
    if k == records.len() - 1 {
    } else {
        assert(records.drop_last()[k] == records[k]);
        lemma_names_to_ids_at(records.drop_last(), k);
        assert(records[k].db_name@ != records.last().db_name@) by {
            assert(records[records.len() - 1] == records.last());
        }
    }
}

/// Running the id check on a local map that matches the remote rows exactly,
/// name for name and id for id, leaves nothing behind.
proof fn lemma_run_id_check_exact(m: Map<Seq<char>, int>, rows: Seq<(i64, Seq<char>)>)
    requires
        forall|p: int, q: int|
            0 <= p < q < rows.len() ==> (#[trigger] rows[p]).1 != (#[trigger] rows[q]).1,
        forall|k: int|
            0 <= k < rows.len() ==> m.dom().contains((#[trigger] rows[k]).1) && m[rows[k].1]
                == rows[k].0 as int,
        forall|n: Seq<char>|
            #[trigger] m.dom().contains(n) ==> exists|k: int|
                0 <= k < rows.len() && (#[trigger] rows[k]).1 == n,
    ensures
        run_id_check(m, rows).mismatches.len() == 0,
        run_id_check(m, rows).missing_locally.len() == 0,
        forall|n: Seq<char>| !(#[trigger] run_id_check(m, rows).unmatched.dom().contains(n)),
    decreases rows.len(),
{
    if rows.len() == 0 {
        assert forall|n: Seq<char>| !(#[trigger] m.dom().contains(n)) by {
            if m.dom().contains(n) {
                let k = choose|k: int| 0 <= k < rows.len() && (#[trigger] rows[k]).1 == n;
                assert(false);
            }
        }
    } else {
        let name = rows[0].1;
        let m2 = m.remove(name);
        let rest = rows.drop_first();
        assert(m.dom().contains(name) && m[name] == rows[0].0 as int);
        assert forall|p: int, q: int|
            0 <= p < q < rest.len() implies (#[trigger] rest[p]).1 != (#[trigger] rest[q]).1 by {
            assert(rest[p] == rows[p + 1] && rest[q] == rows[q + 1]);
        }
        assert forall|k: int|
            0 <= k < rest.len() implies m2.dom().contains((#[trigger] rest[k]).1) && m2[rest[k].1]
                == rest[k].0 as int by {
            assert(rest[k] == rows[k + 1]);
            assert(rows[0].1 != rows[k + 1].1);
        }
        assert forall|n: Seq<char>| #[trigger] m2.dom().contains(n) implies exists|k: int|
            0 <= k < rest.len() && (#[trigger] rest[k]).1 == n by {
            assert(m.dom().contains(n));
            let k = choose|k: int| 0 <= k < rows.len() && (#[trigger] rows[k]).1 == n;
            assert(n != name);
            assert(k >= 1);
            assert(rest[k - 1].1 == n);
        }
        lemma_run_id_check_exact(m2, rest);
        assert(run_id_check(m, rows) == run_id_check(m2, rest));
    }
}

/// If the locally declared `(db-name, id)` pairs exactly match the remote
/// `(id, name)` rows as sets, an id-mapping consistency check succeeds with
/// no errors: the run leaves no mismatch, no name missing locally, and no
/// name missing remotely.
pub proof fn lemma_exact_match_succeeds(records: Seq<VariantData>, rows: Seq<(i64, String)>)
    requires
        forall|p: int, q: int|
            0 <= p < q < records.len() ==> (#[trigger] records[p]).db_name@ != (
            #[trigger] records[q]).db_name@,
        forall|p: int, q: int|
            0 <= p < q < rows.len() ==> (#[trigger] rows[p]).1@ != (#[trigger] rows[q]).1@,
        forall|k: int|
            0 <= k < rows.len() ==> exists|j: int|
                0 <= j < records.len() && (#[trigger] records[j]).db_name@ == (
                #[trigger] rows[k]).1@ && records[j].id == rows[k].0,
        forall|j: int|
            0 <= j < records.len() ==> exists|k: int|
                0 <= k < rows.len() && (#[trigger] rows[k]).1@ == (
                #[trigger] records[j]).db_name@ && rows[k].0 == records[j].id,
    ensures
        ({
            let o = run_id_check(names_to_ids(records), rows_view(rows));
            &&& o.mismatches.len() == 0
            &&& o.missing_locally.len() == 0
            &&& forall|n: Seq<char>| !(#[trigger] o.unmatched.dom().contains(n))
        }),
{
    let m = names_to_ids(records);
    let rv = rows_view(rows);
    assert forall|p: int, q: int|
        0 <= p < q < rv.len() implies (#[trigger] rv[p]).1 != (#[trigger] rv[q]).1 by {
        assert(rv[p].1 == rows[p].1@ && rv[q].1 == rows[q].1@);
    }
    assert forall|k: int|
        0 <= k < rv.len() implies m.dom().contains((#[trigger] rv[k]).1) && m[rv[k].1] == rv[
        k].0 as int by {
        assert(rv[k] == (rows[k].0, rows[k].1@));
        let j = choose|j: int|
            0 <= j < records.len() && (#[trigger] records[j]).db_name@ == rows[k].1@ && records[
                j
            ].id == rows[k].0;
        lemma_names_to_ids_at(records, j);
    }
    assert forall|n: Seq<char>| #[trigger] m.dom().contains(n) implies exists|k: int|
        0 <= k < rv.len() && (#[trigger] rv[k]).1 == n by {
        lemma_names_to_ids_dom(records, n);
        let j = choose|j: int| 0 <= j < records.len() && (#[trigger] records[j]).db_name@ == n;
        let k = choose|k: int|
            0 <= k < rows.len() && (#[trigger] rows[k]).1@ == records[j].db_name@ && rows[k].0
                == records[j].id;
        assert(rv[k].1 == n);
    }
    lemma_run_id_check_exact(m, rv);
}

/// An owned copy of a string slice.
fn string_of(s: &str) -> (r: String)
    ensures
        r@ == s@,
{
    let mut r = String::new();
    r.append(s);
    r
}

} // verus!
