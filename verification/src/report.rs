//! Renders consistency reports and decoder errors as text for human and
//! test consumption.

use vstd::prelude::*;
use vstd::string::*;
use crate::check::mism_views;
use crate::errors::{DbEnumError, ErrorKind, UnknownVariantError};
use crate::text::{int_str, i64_to_string, join_names, joined_with, views_of};

verus! {

/// One rendered line per id mismatch, in order.
pub open spec fn mismatch_lines(items: Seq<(Seq<char>, int, int)>) -> Seq<char>
    decreases items.len(),
{
    if items.len() == 0 {
        Seq::empty()
    } else {
        "\n  - Wrong id mapping for `"@ + items[0].0 + "`. Expected: "@ + int_str(items[0].1)
            + ", found: "@ + int_str(items[0].2) + "\n"@ + mismatch_lines(items.drop_first())
    }
}

impl ErrorKind {
    /// The rendered form of this discrepancy: a bracketed name list for
    /// missing variants, one line per id mismatch.
    pub open spec fn message_spec(&self) -> Seq<char> {
        match self {
            ErrorKind::MissingFromDb(items) => "\n  - Variants missing from the database: [ "@
                + joined_with(views_of(items@), ", "@) + " ]\n"@,
            ErrorKind::MissingFromRustEnum(items) => "\n  - Variants missing from the rust enum: [ "@
                + joined_with(views_of(items@), ", "@) + " ]\n"@,
            ErrorKind::IdMismatches(items) => mismatch_lines(mism_views(items@)),
        }
    }

    /// Renders this discrepancy.
    pub fn message(&self) -> (r: String)
        ensures
            r@ == self.message_spec(),
    {
        match self {
            ErrorKind::MissingFromDb(items) => {
                let mut s = String::new();
                s.append("\n  - Variants missing from the database: [ ");
                let joined = join_names(items, ", ");
                s.append(joined.as_str());
                s.append(" ]\n");
                proof {
                    assert(s@ =~= self.message_spec());
                }
                s
            },
            ErrorKind::MissingFromRustEnum(items) => {
                let mut s = String::new();
                s.append("\n  - Variants missing from the rust enum: [ ");
                let joined = join_names(items, ", ");
                s.append(joined.as_str());
                s.append(" ]\n");
                proof {
                    assert(s@ =~= self.message_spec());
                }
                s
            },
            ErrorKind::IdMismatches(items) => {
                let ghost all = mism_views(items@);
                let mut s = String::new();
                proof {
                    assert(all.skip(0) =~= all);
                    assert(s@ + mismatch_lines(all) =~= mismatch_lines(all));
                }
                let mut i: usize = 0;
                while i < items.len()
                    invariant
                        i <= items@.len(),
                        all == mism_views(items@),
                        mismatch_lines(all) == s@ + mismatch_lines(all.skip(i as int)),
                    decreases items@.len() - i,
                {
                    let item = &items[i];
                    let ghost pre = s@;
                    let ghost suffix = all.skip(i as int);
                    proof {
                        assert(suffix.len() == all.len() - i);
                        assert(suffix[0] == all[i as int]);
                        assert(all[i as int] == (items@[i as int].0@, items@[i as int].1 as int,
                        items@[i as int].2 as int));
                        assert(suffix.drop_first() =~= all.skip(i + 1));
                    }
                    s.append("\n  - Wrong id mapping for `");
                    s.append(item.0.as_str());
                    s.append("`. Expected: ");
                    let expected = i64_to_string(item.1);
                    s.append(expected.as_str());
                    s.append(", found: ");
                    let found = i64_to_string(item.2);
                    s.append(found.as_str());
                    s.append("\n");
                    proof {
                        let line = "\n  - Wrong id mapping for `"@ + suffix[0].0 + "`. Expected: "@
                            + int_str(suffix[0].1) + ", found: "@ + int_str(suffix[0].2) + "\n"@;
                        assert(s@ =~= pre + line);
                        assert(mismatch_lines(suffix) == line + mismatch_lines(all.skip(i + 1)));
                        assert(pre + (line + mismatch_lines(all.skip(i + 1))) =~= s@
                            + mismatch_lines(all.skip(i + 1)));
                    }
                    i += 1;
                }
                proof {
                    assert(all.skip(items@.len() as int) =~= Seq::<(Seq<char>, int, int)>::empty());
                    assert(s@ + mismatch_lines(all.skip(items@.len() as int)) =~= s@);
                }
                s
            },
        }
    }
}

/// The rendered discrepancies of a report, each followed by a line break.
pub open spec fn kind_lines(errors: Seq<ErrorKind>) -> Seq<char>
    decreases errors.len(),
{
    if errors.len() == 0 {
        Seq::empty()
    } else {
        errors[0].message_spec() + "\n"@ + kind_lines(errors.drop_first())
    }
}

impl DbEnumError {
    /// The rendered form of the whole report: a header naming the
    /// enumeration and the source, then every discrepancy.
    pub open spec fn message_spec(&self) -> Seq<char> {
        "\n The rust enum `"@ + self.rust_enum@ + "` and the database "@
            + self.db_source.db_type_spec() + " `"@ + self.db_source.name_spec()
            + "` are out of sync: \n"@ + kind_lines(self.errors@)
    }

    /// Renders the whole report.
    pub fn message(&self) -> (r: String)
        ensures
            r@ == self.message_spec(),
    {
        let mut s = String::new();
        s.append("\n The rust enum `");
        s.append(self.rust_enum.as_str());
        s.append("` and the database ");
        s.append(self.db_source.db_type());
        s.append(" `");
        let source_name = self.db_source.name();
        s.append(source_name.as_str());
        s.append("` are out of sync: \n");
        let ghost header = s@;
        proof {
            assert(s@ + kind_lines(self.errors@) =~= header + kind_lines(self.errors@));
            assert(self.errors@.skip(0) =~= self.errors@);
        }
        let mut i: usize = 0;
        while i < self.errors.len()
            invariant
                i <= self.errors@.len(),
                header + kind_lines(self.errors@) == s@ + kind_lines(
                    self.errors@.skip(i as int),
                ),
            decreases self.errors@.len() - i,
        {
            let ghost pre = s@;
            let ghost suffix = self.errors@.skip(i as int);
            proof {
                assert(suffix.len() == self.errors@.len() - i);
                assert(suffix[0] == self.errors@[i as int]);
                assert(suffix.drop_first() =~= self.errors@.skip(i + 1));
            }
            let m = self.errors[i].message();
            s.append(m.as_str());
            s.append("\n");
            proof {
                let line = suffix[0].message_spec() + "\n"@;
                assert(s@ =~= pre + line);
                assert(kind_lines(suffix) == line + kind_lines(self.errors@.skip(i + 1)));
                assert(pre + (line + kind_lines(self.errors@.skip(i + 1))) =~= s@ + kind_lines(
                    self.errors@.skip(i + 1),
                ));
            }
            i += 1;
        }
        proof {
            assert(self.errors@.skip(self.errors@.len() as int) =~= Seq::<ErrorKind>::empty());
            assert(s@ + kind_lines(self.errors@.skip(self.errors@.len() as int)) =~= s@);
            assert(s@ =~= self.message_spec());
        }
        s
    }
}

impl UnknownVariantError {
    /// The rendered form of a decoder failure.
    pub open spec fn message_spec(&self) -> Seq<char> {
        "No matching "@ + self.rust_enum@ + " variant found for `"@ + self.value@ + "`"@
    }

    /// Renders a decoder failure.
    pub fn message(&self) -> (r: String)
        ensures
            r@ == self.message_spec(),
    {
        let mut s = String::new();
        s.append("No matching ");
        s.append(self.rust_enum.as_str());
        s.append(" variant found for `");
        s.append(self.value.as_str());
        s.append("`");
        proof {
            assert(s@ =~= self.message_spec());
        }
        s
    }
}

} // verus!
