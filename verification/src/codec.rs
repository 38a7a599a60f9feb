//! The codecs of an enumeration: stateless translations between a variant,
//! identified by its index in declaration order, and its two wire encodings
//! (textual db-name, integer id), derived from the shared variant records.
//!
//! When both encodings are in use for one enumeration (a double mapping), the
//! text-keyed and the id-keyed representation are related by the conversions
//! at the bottom of this module, derived purely from declaration order.

use vstd::prelude::*;
use crate::errors::UnknownVariantError;
use crate::text::{int_str, i64_to_string, str_eq};
use crate::variants::VariantData;

verus! {

/// The first declared variant carrying the given db-name, if any.
pub open spec fn decode_text_spec(records: Seq<VariantData>, name: Seq<char>) -> Option<int>
    decreases records.len(),
{
    if records.len() == 0 {
        None
    } else if records[0].db_name@ == name {
        Some(0int)
    } else {
        match decode_text_spec(records.drop_first(), name) {
            Some(i) => Some(i + 1),
            None => None,
        }
    }
}

/// The first declared variant carrying the given id, if any.
pub open spec fn decode_int_spec(records: Seq<VariantData>, id: int) -> Option<int>
    decreases records.len(),
{
    if records.len() == 0 {
        None
    } else if records[0].id == id {
        Some(0int)
    } else {
        match decode_int_spec(records.drop_first(), id) {
            Some(i) => Some(i + 1),
            None => None,
        }
    }
}

proof fn lemma_decode_text_at(records: Seq<VariantData>, name: Seq<char>, i: int)
    requires
        0 <= i < records.len(),
        records[i].db_name@ == name,
        forall|k: int| 0 <= k < i ==> (#[trigger] records[k]).db_name@ != name,
    ensures
        decode_text_spec(records, name) == Some(i),
    decreases i,
{
    if i > 0 {
        assert(records[0].db_name@ != name);
        let rest = records.drop_first();
        assert(rest[i - 1].db_name@ == name);
        assert forall|k: int| 0 <= k < i - 1 implies (#[trigger] rest[k]).db_name@ != name by {
            assert(rest[k] == records[k + 1]);
        }
        lemma_decode_text_at(rest, name, i - 1);
    }
}

proof fn lemma_decode_text_none(records: Seq<VariantData>, name: Seq<char>)
    requires
        forall|k: int| 0 <= k < records.len() ==> (#[trigger] records[k]).db_name@ != name,
    ensures
        decode_text_spec(records, name) is None,
    decreases records.len(),
{
    if records.len() > 0 {
        let rest = records.drop_first();
        assert forall|k: int| 0 <= k < rest.len() implies (#[trigger] rest[k]).db_name@ != name by {
            assert(rest[k] == records[k + 1]);
        }
        lemma_decode_text_none(rest, name);
    }
}

proof fn lemma_decode_int_at(records: Seq<VariantData>, id: int, i: int)
    requires
        0 <= i < records.len(),
        records[i].id == id,
        forall|k: int| 0 <= k < i ==> (#[trigger] records[k]).id != id,
    ensures
        decode_int_spec(records, id) == Some(i),
    decreases i,
{
    if i > 0 {
        assert(records[0].id != id);
        let rest = records.drop_first();
        assert(rest[i - 1].id == id);
        assert forall|k: int| 0 <= k < i - 1 implies (#[trigger] rest[k]).id != id by {
            assert(rest[k] == records[k + 1]);
        }
        lemma_decode_int_at(rest, id, i - 1);
    }
}

proof fn lemma_decode_int_none(records: Seq<VariantData>, id: int)
    requires
        forall|k: int| 0 <= k < records.len() ==> (#[trigger] records[k]).id != id,
    ensures
        decode_int_spec(records, id) is None,
    decreases records.len(),
{
    if records.len() > 0 {
        let rest = records.drop_first();
        assert forall|k: int| 0 <= k < rest.len() implies (#[trigger] rest[k]).id != id by {
            assert(rest[k] == records[k + 1]);
        }
        lemma_decode_int_none(rest, id);
    }
}

/// Encodes a variant as its db-name; total on declared variants.
pub fn encode_text(records: &Vec<VariantData>, variant: usize) -> (r: String)
    requires
        variant < records@.len(),
    ensures
        r@ == records@[variant as int].db_name@,
{
    records[variant].db_name.clone()
}

/// Encodes a variant as its assigned id; total on declared variants.
pub fn encode_int(records: &Vec<VariantData>, variant: usize) -> (r: i64)
    requires
        variant < records@.len(),
    ensures
        r == records@[variant as int].id,
{
    records[variant].id
}

/// Decodes a db-name to the first declared variant carrying it, comparing
/// the exact character content, case-sensitively. Fails on a name no variant
/// carries; it never falls back to a default variant.
pub fn decode_text(rust_enum: &str, records: &Vec<VariantData>, name: &str) -> (r: Result<
    usize,
    UnknownVariantError,
>)
    ensures
        match r {
            Ok(v) => v < records@.len() && decode_text_spec(records@, name@) == Some(v as int),
            Err(e) => {
                &&& decode_text_spec(records@, name@) is None
                &&& e.rust_enum@ == rust_enum@
                &&& e.value@ == name@
            },
        },
{
    let mut i: usize = 0;
    while i < records.len()
        invariant
            i <= records@.len(),
            forall|k: int| 0 <= k < i ==> (#[trigger] records@[k]).db_name@ != name@,
        decreases records@.len() - i,
    {
        if str_eq(records[i].db_name.as_str(), name) {
            proof {
                lemma_decode_text_at(records@, name@, i as int);
            }
            return Ok(i);
        }
        i += 1;
    }
    proof {
        lemma_decode_text_none(records@, name@);
    }
    Err(UnknownVariantError { rust_enum: copy_str(rust_enum), value: copy_str(name) })
}

/// Decodes an id to the first declared variant carrying it. Fails on an id
/// no variant carries; it never falls back to a default variant.
pub fn decode_int(rust_enum: &str, records: &Vec<VariantData>, id: i64) -> (r: Result<
    usize,
    UnknownVariantError,
>)
    ensures
        match r {
            Ok(v) => v < records@.len() && decode_int_spec(records@, id as int) == Some(v as int),
            Err(e) => {
                &&& decode_int_spec(records@, id as int) is None
                &&& e.rust_enum@ == rust_enum@
                &&& e.value@ == int_str(id as int)
            },
        },
{
    let mut i: usize = 0;
    while i < records.len()
        invariant
            i <= records@.len(),
            forall|k: int| 0 <= k < i ==> (#[trigger] records@[k]).id != id,
        decreases records@.len() - i,
    {
        if records[i].id == id {
            proof {
                lemma_decode_int_at(records@, id as int, i as int);
            }
            return Ok(i);
        }
        i += 1;
    }
    proof {
        lemma_decode_int_none(records@, id as int);
    }
    Err(UnknownVariantError { rust_enum: copy_str(rust_enum), value: i64_to_string(id) })
}

/// What converting a text-keyed value to the id-keyed representation gives:
/// the id declared at the same position.
pub open spec fn to_id_repr_spec(records: Seq<VariantData>, name: Seq<char>) -> Option<int> {
    match decode_text_spec(records, name) {
        Some(v) => Some(records[v].id as int),
        None => None,
    }
}

/// What converting an id-keyed value back to the text-keyed representation
/// gives: the db-name declared at the same position.
pub open spec fn from_id_repr_spec(records: Seq<VariantData>, id: int) -> Option<Seq<char>> {
    match decode_int_spec(records, id) {
        Some(v) => Some(records[v].db_name@),
        None => None,
    }
}

/// Converts a value of the text-keyed representation to the id-keyed one,
/// through the shared declaration order.
pub fn to_id_repr(rust_enum: &str, records: &Vec<VariantData>, name: &str) -> (r: Result<
    i64,
    UnknownVariantError,
>)
    ensures
        match r {
            Ok(id) => to_id_repr_spec(records@, name@) == Some(id as int),
            Err(_) => to_id_repr_spec(records@, name@) is None,
        },
{
    let v = decode_text(rust_enum, records, name)?;
    Ok(records[v].id)
}

/// Converts a value of the id-keyed representation back to the text-keyed
/// one, through the shared declaration order.
pub fn from_id_repr(rust_enum: &str, records: &Vec<VariantData>, id: i64) -> (r: Result<
    String,
    UnknownVariantError,
>)
    ensures
        match r {
            Ok(name) => from_id_repr_spec(records@, id as int) == Some(name@),
            Err(_) => from_id_repr_spec(records@, id as int) is None,
        },
{
    let v = decode_int(rust_enum, records, id)?;
    Ok(records[v].db_name.clone())
}

/// Round trip: for every declared variant of an enumeration with unique
/// db-names, decoding the encoded db-name returns the variant itself.
pub proof fn lemma_text_round_trip(records: Seq<VariantData>, v: int)
    requires
        0 <= v < records.len(),
        forall|p: int, q: int|
            0 <= p < q < records.len() ==> (#[trigger] records[p]).db_name@ != (
            #[trigger] records[q]).db_name@,
    ensures
        decode_text_spec(records, records[v].db_name@) == Some(v),
{
    lemma_decode_text_at(records, records[v].db_name@, v);
}

/// Round trip: for every declared variant of an enumeration with unique
/// assigned ids, decoding the encoded id returns the variant itself.
pub proof fn lemma_int_round_trip(records: Seq<VariantData>, v: int)
    requires
        0 <= v < records.len(),
        forall|p: int, q: int|
            0 <= p < q < records.len() ==> (#[trigger] records[p]).id != (
            #[trigger] records[q]).id,
    ensures
        decode_int_spec(records, records[v].id as int) == Some(v),
{
    lemma_decode_int_at(records, records[v].id as int, v);
}

/// Double mapping: when db-names and ids are both unique, the text-keyed and
/// the id-keyed representation convert back and forth through the shared
/// declaration order without drift, for every declared variant.
pub proof fn lemma_double_mapping_round_trip(records: Seq<VariantData>, v: int)
    requires
        0 <= v < records.len(),
        forall|p: int, q: int|
            0 <= p < q < records.len() ==> (#[trigger] records[p]).db_name@ != (
            #[trigger] records[q]).db_name@,
        forall|p: int, q: int|
            0 <= p < q < records.len() ==> (#[trigger] records[p]).id != (
            #[trigger] records[q]).id,
    ensures
        to_id_repr_spec(records, records[v].db_name@) == Some(records[v].id as int),
        from_id_repr_spec(records, records[v].id as int) == Some(records[v].db_name@),
{
    lemma_text_round_trip(records, v);
    lemma_int_round_trip(records, v);
}

/// An owned copy of a string slice.
fn copy_str(s: &str) -> (r: String)
    ensures
        r@ == s@,
{
    let mut r = String::new();
    r.append(s);
    r
}

} // verus!
