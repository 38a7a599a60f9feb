//! The index of integer ranges excluded from automatic id assignment.

use vstd::prelude::*;
use crate::errors::ConfigError;

verus! {

/// One configured range of ids to exclude from automatic assignment, as it
/// appears in the configuration: the start may be left open (treated as 0),
/// and the end is either half-open or inclusive. A range with no end at all
/// is a configuration error.
#[derive(Clone, Copy, Debug, PartialEq, Eq, Hash)]
pub struct RangeSpec {
    pub start: Option<i64>,
    pub end: Option<i64>,
    pub inclusive: bool,
}

impl RangeSpec {
    /// The half-open interval this entry denotes, once an end is known to be
    /// present: inclusive ends are shifted up by one.
    pub open spec fn normalized(&self) -> (i64, i64)
        recommends
            self.end is Some,
    {
        let s: i64 = if self.start is Some {
            self.start.unwrap()
        } else {
            0
        };
        let e: i64 = if self.inclusive {
            (self.end.unwrap() + 1) as i64
        } else {
            self.end.unwrap()
        };
        (s, e)
    }
}

/// The largest end among the stored half-open ranges, at least 0; ids at or
/// above this value are never skipped.
pub open spec fn seq_max_end(rs: Seq<(i64, i64)>) -> int
    decreases rs.len(),
{
    if rs.len() == 0 {
        0
    } else {
        let m = seq_max_end(rs.drop_last());
        if rs.last().1 > m {
            rs.last().1 as int
        } else {
            m
        }
    }
}

pub proof fn lemma_seq_max_end(rs: Seq<(i64, i64)>, k: int)
    requires
        0 <= k < rs.len(),
    ensures
        rs[k].1 <= seq_max_end(rs),
        seq_max_end(rs) >= 0,
    decreases rs.len(),
{
    if k == rs.len() - 1 {
        if rs.len() > 1 {
            lemma_seq_max_end(rs.drop_last(), 0);
        }
    } else {
        lemma_seq_max_end(rs.drop_last(), k);
        assert(rs.drop_last()[k] == rs[k]);
    }
}


/// Whether the half-open range contains the id.
pub open spec fn range_has(r: (i64, i64), id: int) -> bool {
    r.0 <= id && id < r.1
}

/// Sorts half-open ranges by their start, keeping the same contents.
fn sort_ranges(v: &mut Vec<(i64, i64)>)
    ensures
        forall|p: int, q: int|
            0 <= p < q < final(v)@.len() ==> #[trigger] final(v)@[p].0 <= #[trigger] final(v)@[q].0,
        final(v)@.to_multiset() == old(v)@.to_multiset(),
{
    if v.len() <= 1 {
        return ;
    }
    let mut i: usize = 1;
    while i < v.len()
        invariant
            1 <= i,
            i <= v@.len(),
            forall|p: int, q: int| 0 <= p < q < i ==> #[trigger] v@[p].0 <= #[trigger] v@[q].0,
            v@.to_multiset() == old(v)@.to_multiset(),
        decreases v@.len() - i,
    {
        let ghost pre = v@;
        let s = v.remove(i);
        let mut j: usize = 0;
        while j < i && v[j].0 <= s.0
            invariant
                j <= i,
                i <= v@.len(),
                v@ == pre.remove(i as int),
                s == pre[i as int],
                forall|k: int| 0 <= k < j ==> #[trigger] v@[k].0 <= s.0,
            decreases i - j,
        {
            j += 1;
        }
        let ghost mid = v@;
        v.insert(j, s);
        proof {
            broadcast use vstd::seq_lib::group_to_multiset_ensures;
            broadcast use vstd::multiset::group_multiset_axioms;

            assert(mid == pre.remove(i as int));
            assert(v@ == mid.insert(j as int, s));
            assert(pre.contains(s)) by {
                assert(pre[i as int] == s);
            }
            assert(v@.to_multiset() =~= pre.to_multiset());
            assert forall|p: int, q: int| 0 <= p < q < i + 1 implies #[trigger] v@[p].0
                <= #[trigger] v@[q].0 by {
                if q < j {
                    assert(v@[p] == mid[p] && v@[q] == mid[q]);
                } else if q == j {
                    assert(v@[q] == s);
                    assert(mid[p].0 <= s.0);
                } else {
                    assert(v@[q] == mid[q - 1]);
                    assert(j < i);
                    assert(s.0 <= mid[j as int].0 <= mid[q - 1].0);
                    if p < j {
                        assert(v@[p] == mid[p]);
                        assert(mid[p].0 <= s.0);
                    } else if p == j {
                        assert(v@[p] == s);
                    } else {
                        assert(v@[p] == mid[p - 1]);
                    }
                }
            }
        }
        i += 1;
    }
}

/// The normalized, sorted set of id ranges excluded from automatic
/// assignment. Built once by [`SkipRangeIndex::normalize`]; queried by a
/// binary search that is exact when the configured ranges are disjoint.
#[derive(Clone, Debug, PartialEq, Eq, Hash)]
pub struct SkipRangeIndex {
    ranges: Vec<(i64, i64)>,
}

impl SkipRangeIndex {
    /// The stored half-open ranges, sorted by start.
    pub closed spec fn ranges(&self) -> Seq<(i64, i64)> {
        self.ranges@
    }

    /// The ranges are sorted by start ascending; `normalize` establishes
    /// this.
    pub open spec fn sorted_by_start(&self) -> bool {
        forall|i: int, j: int|
            0 <= i < j < self.ranges().len() ==> #[trigger] self.ranges()[i].0
                <= #[trigger] self.ranges()[j].0
    }

    /// The ranges are well-formed and pairwise disjoint. `normalize` does not
    /// establish or require this: supplying disjoint ranges is the caller's
    /// responsibility, and membership is only exactly specified when they
    /// are.
    pub open spec fn disjoint(&self) -> bool {
        &&& forall|i: int|
            0 <= i < self.ranges().len() ==> #[trigger] self.ranges()[i].0 <= self.ranges()[i].1
        &&& forall|i: int|
            0 <= i + 1 < self.ranges().len() ==> #[trigger] self.ranges()[i].1
                <= self.ranges()[i + 1].0
    }

    /// Whether some configured range contains the id.
    pub open spec fn in_skip(&self, id: int) -> bool {
        exists|k: int| 0 <= k < self.ranges().len() && range_has(#[trigger] self.ranges()[k], id)
    }

    /// An upper bound past which no id is ever skipped.
    pub open spec fn max_end(&self) -> int {
        seq_max_end(self.ranges())
    }

    pub proof fn lemma_in_skip_below_max_end(&self, id: int)
        requires
            self.in_skip(id),
        ensures
            id < self.max_end(),
    {
        let k = choose|k: int|
            0 <= k < self.ranges().len() && range_has(#[trigger] self.ranges()[k], id);
        lemma_seq_max_end(self.ranges(), k);
    }

    pub proof fn lemma_max_end_nonneg(&self)
        ensures
            self.max_end() >= 0,
        decreases self.ranges().len(),
    {
        if self.ranges().len() > 0 {
            lemma_seq_max_end(self.ranges(), 0);
        }
    }

    /// An index with no ranges: nothing is ever skipped.
    pub fn empty() -> (r: SkipRangeIndex)
        ensures
            r.ranges() == Seq::<(i64, i64)>::empty(),
            r.sorted_by_start(),
            r.disjoint(),
            forall|id: int| !r.in_skip(id),
    {
        SkipRangeIndex { ranges: Vec::new() }
    }

    /// Converts the configured ranges to half-open form and sorts them by
    /// start. Fails exactly when some range has no end. Overlapping ranges
    /// are kept as given: detecting them is not this type's job.
    pub fn normalize(specs: &Vec<RangeSpec>) -> (r: Result<SkipRangeIndex, ConfigError>)
        requires
            forall|k: int|
                0 <= k < specs@.len() && (#[trigger] specs@[k]).inclusive && specs@[k].end is Some
                    ==> specs@[k].end.unwrap() < i64::MAX,
        ensures
            match r {
                Ok(idx) => {
                    &&& forall|k: int| 0 <= k < specs@.len() ==> (#[trigger] specs@[k]).end is Some
                    &&& idx.sorted_by_start()
                    &&& idx.ranges().to_multiset() == specs@.map_values(
                        |rs: RangeSpec| rs.normalized(),
                    ).to_multiset()
                },
                Err(e) => {
                    &&& e == ConfigError::InfiniteRange
                    &&& exists|k: int|
                        0 <= k < specs@.len() && (#[trigger] specs@[k]).end is None
                },
            },
    {
        let mut ranges: Vec<(i64, i64)> = Vec::new();
        let mut i: usize = 0;
        while i < specs.len()
            invariant
                i <= specs@.len(),
                forall|k: int|
                    0 <= k < specs@.len() && (#[trigger] specs@[k]).inclusive && specs@[k].end
                        is Some ==> specs@[k].end.unwrap() < i64::MAX,
                forall|k: int| 0 <= k < i ==> (#[trigger] specs@[k]).end is Some,
                ranges@ == specs@.take(i as int).map_values(|rs: RangeSpec| rs.normalized()),
            decreases specs@.len() - i,
        {
            let spec_entry = specs[i];
            let end = match spec_entry.end {
                Some(e) => e,
                None => {
                    return Err(ConfigError::InfiniteRange);
                },
            };
            let start: i64 = match spec_entry.start {
                Some(s) => s,
                None => 0,
            };
            let final_end: i64 = if spec_entry.inclusive {
                end + 1
            } else {
                end
            };
            ranges.push((start, final_end));
            proof {
                assert(ranges@ =~= specs@.take(i + 1).map_values(
                    |rs: RangeSpec| rs.normalized(),
                ));
            }
            i += 1;
        }
        proof {
            assert(specs@.take(specs@.len() as int) =~= specs@);
        }
        sort_ranges(&mut ranges);
        Ok(SkipRangeIndex { ranges })
    }

    /// No range at or after `mid` holds an id left of `mid`'s start.
    proof fn lemma_none_above(&self, id: int, mid: int)
        requires
            self.sorted_by_start(),
            0 <= mid < self.ranges().len(),
            id < self.ranges()[mid].0,
        ensures
            forall|k: int|
                mid <= k < self.ranges().len() ==> !range_has(#[trigger] self.ranges()[k], id),
    {
        assert forall|k: int|
            mid <= k < self.ranges().len() implies !range_has(#[trigger] self.ranges()[k], id) by {
            if k > mid {
                assert(self.ranges()[mid].0 <= self.ranges()[k].0);
            }
        }
    }

    /// No range at or before `mid` holds an id at or past `mid`'s end.
    proof fn lemma_none_below(&self, id: int, mid: int)
        requires
            self.sorted_by_start(),
            self.disjoint(),
            0 <= mid < self.ranges().len(),
            id >= self.ranges()[mid].1,
        ensures
            forall|k: int| 0 <= k <= mid ==> !range_has(#[trigger] self.ranges()[k], id),
    {
        assert forall|k: int| 0 <= k <= mid implies !range_has(#[trigger] self.ranges()[k], id) by {
            if k < mid {
                assert(self.ranges()[k].1 <= self.ranges()[k + 1].0);
                assert(self.ranges()[k + 1].0 <= self.ranges()[mid].0);
                assert(self.ranges()[mid].0 <= self.ranges()[mid].1);
            }
        }
    }

    /// Binary search for the id among the sorted ranges. A `true` answer
    /// always means some range contains the id; when the ranges are disjoint
    /// the answer is exact both ways.
    pub fn contains(&self, id: i64) -> (r: bool)
        ensures
            r ==> self.in_skip(id as int),
            self.sorted_by_start() && self.disjoint() ==> r == self.in_skip(id as int),
    {
        let mut lo: usize = 0;
        let mut hi: usize = self.ranges.len();
        while lo < hi
            invariant
                lo <= hi <= self.ranges().len(),
                self.sorted_by_start() && self.disjoint() ==> forall|k: int|
                    0 <= k < self.ranges().len() && !(lo <= k < hi) ==> !range_has(
                        #[trigger] self.ranges()[k],
                        id as int,
                    ),
            decreases hi - lo,
        {
            let mid = lo + (hi - lo) / 2;
            let (s, e) = self.ranges[mid];
            if (id as i64) < s {
                proof {
                    if self.sorted_by_start() && self.disjoint() {
                        self.lemma_none_above(id as int, mid as int);
                    }
                }
                hi = mid;
            } else if id >= e {
                proof {
                    if self.sorted_by_start() && self.disjoint() {
                        self.lemma_none_below(id as int, mid as int);
                    }
                }
                lo = mid + 1;
            } else {
                proof {
                    assert(self.in_skip(id as int)) by {
                        assert(range_has(self.ranges()[mid as int], id as int));
                    }
                }
                return true;
            }
        }
        false
    }
}

} // verus!
