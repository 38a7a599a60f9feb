//! Ordering, comparison, sorting and rendering helpers for the names and ids
//! that appear in variant records and consistency reports.

use vstd::prelude::*;
use vstd::string::*;

verus! {

/// Lexicographic order on character sequences, comparing characters by
/// Unicode scalar value: the order in which report entries are sorted.
pub open spec fn chars_le(a: Seq<char>, b: Seq<char>) -> bool
    decreases a.len(),
{
    if a.len() == 0 {
        true
    } else if b.len() == 0 {
        false
    } else if (a[0] as u32) < (b[0] as u32) {
        true
    } else if (a[0] as u32) > (b[0] as u32) {
        false
    } else {
        chars_le(a.drop_first(), b.drop_first())
    }
}

/// Any two character sequences are ordered one way or the other.
pub proof fn lemma_chars_le_total(a: Seq<char>, b: Seq<char>)
    ensures
        chars_le(a, b) || chars_le(b, a),
    decreases a.len(),
{
    if a.len() != 0 && b.len() != 0 && (a[0] as u32) == (b[0] as u32) {
        lemma_chars_le_total(a.drop_first(), b.drop_first());
    }
}

/// `chars_le` is transitive.
pub proof fn lemma_chars_le_trans(a: Seq<char>, b: Seq<char>, c: Seq<char>)
    requires
        chars_le(a, b),
        chars_le(b, c),
    ensures
        chars_le(a, c),
    decreases a.len(),
{
    if a.len() != 0 {
        if (a[0] as u32) == (b[0] as u32) && (b[0] as u32) == (c[0] as u32) {
            lemma_chars_le_trans(a.drop_first(), b.drop_first(), c.drop_first());
        }
    }
}

/// Equality test on string slices, by character content.
pub fn str_eq(a: &str, b: &str) -> (r: bool)
    ensures
        r == (a@ == b@),
{
    let a_len = a.unicode_len();
    let b_len = b.unicode_len();
    if a_len != b_len {
        return false;
    }
    let mut i: usize = 0;
    while i < a_len
        invariant
            i <= a_len,
            a_len == a@.len(),
            a_len == b@.len(),
            forall|k: int| 0 <= k < i ==> a@[k] == b@[k],
        decreases a_len - i,
    {
        if a.get_char(i) != b.get_char(i) {
            return false;
        }
        i += 1;
    }
    assert(a@ =~= b@);
    true
}

/// Order test on string slices: `chars_le` on the character contents.
pub fn str_le(a: &str, b: &str) -> (r: bool)
    ensures
        r == chars_le(a@, b@),
{
    let a_len = a.unicode_len();
    let b_len = b.unicode_len();
    let mut i: usize = 0;
    proof {
        assert(a@.skip(0) =~= a@);
        assert(b@.skip(0) =~= b@);
    }
    loop
        invariant
            i <= a_len,
            i <= b_len,
            a_len == a@.len(),
            b_len == b@.len(),
            chars_le(a@, b@) == chars_le(a@.skip(i as int), b@.skip(i as int)),
        decreases a_len - i,
    {
        proof {
            assert(a@.skip(i as int).len() == a@.len() - i);
            assert(b@.skip(i as int).len() == b@.len() - i);
        }
        if i >= a_len {
            return true;
        }
        if i >= b_len {
            return false;
        }
        let ca = a.get_char(i);
        let cb = b.get_char(i);
        proof {
            assert(a@.skip(i as int)[0] == a@[i as int]);
            assert(b@.skip(i as int)[0] == b@[i as int]);
        }
        if (ca as u32) < (cb as u32) {
            return true;
        }
        if (ca as u32) > (cb as u32) {
            return false;
        }
        proof {
            assert(a@.skip(i as int).drop_first() =~= a@.skip(i + 1));
            assert(b@.skip(i as int).drop_first() =~= b@.skip(i + 1));
        }
        i += 1;
    }
}

/// The character contents of a sequence of strings.
pub open spec fn views_of(s: Seq<String>) -> Seq<Seq<char>> {
    s.map_values(|x: String| x@)
}

/// Whether a sequence of names is sorted by `chars_le`.
pub open spec fn names_sorted(s: Seq<Seq<char>>) -> bool {
    forall|i: int, j: int| 0 <= i < j < s.len() ==> chars_le(s[i], s[j])
}

/// Sorts a vector of strings lexicographically, keeping exactly the same
/// contents (as a multiset of character sequences).
pub fn sort_strings(v: &mut Vec<String>)
    ensures
        names_sorted(views_of(final(v)@)),
        views_of(final(v)@).to_multiset() == views_of(old(v)@).to_multiset(),
{
    let ghost orig = views_of(v@);
    if v.len() <= 1 {
        return ;
    }
    let mut i: usize = 1;
    while i < v.len()
        invariant
            1 <= i,
            i <= v@.len(),
            names_sorted(views_of(v@).take(i as int)),
            views_of(v@).to_multiset() == orig.to_multiset(),
        decreases v@.len() - i,
    {
        let ghost pre = v@;
        let s = v.remove(i);
        proof {
            assert(views_of(v@).take(i as int) =~= views_of(pre).take(i as int));
        }
        let mut j: usize = 0;
        while j < i && str_le(v[j].as_str(), s.as_str())
            invariant
                j <= i,
                i <= v@.len(),
                v@ == pre.remove(i as int),
                s == pre[i as int],
                forall|k: int| 0 <= k < j ==> chars_le(#[trigger] views_of(v@)[k], s@),
            decreases i - j,
        {
            j += 1;
        }
        proof {
            if j < i {
                lemma_chars_le_total(views_of(v@)[j as int], s@);
                assert(chars_le(s@, views_of(v@)[j as int]));
            }
        }
        let ghost mid = v@;
        v.insert(j, s);
        proof {
            broadcast use vstd::seq_lib::group_to_multiset_ensures;
            broadcast use vstd::multiset::group_multiset_axioms;

            // contents are preserved: one element was taken out and put back
            assert(views_of(mid) =~= views_of(pre).remove(i as int));
            assert(views_of(v@) =~= views_of(mid).insert(j as int, s@));
            assert(views_of(pre).contains(s@)) by {
                assert(views_of(pre)[i as int] == s@);
            }
            assert(views_of(v@).to_multiset() =~= views_of(pre).to_multiset());
            // the sorted prefix grew by one
            let vw = views_of(v@);
            let bw = views_of(mid);
            let sorted_prefix = views_of(pre).take(i as int);
            assert(bw.take(i as int) =~= sorted_prefix);
            assert forall|p: int, q: int| 0 <= p < q < i + 1 implies chars_le(vw[p], vw[q]) by {
                if q < j {
                    assert(vw[p] == bw[p] && vw[q] == bw[q]);
                    assert(chars_le(sorted_prefix[p], sorted_prefix[q]));
                } else if q == j {
                    assert(vw[q] == s@);
                    assert(chars_le(bw[p], s@));
                } else {
                    // q > j: vw[q] is the old element at q - 1
                    assert(vw[q] == bw[q - 1]);
                    assert(j < i);
                    if j < q - 1 {
                        assert(chars_le(bw[j as int], bw[q - 1]));
                        lemma_chars_le_trans(s@, bw[j as int], bw[q - 1]);
                    }
                    assert(chars_le(s@, bw[q - 1]));
                    if p < j {
                        assert(chars_le(bw[p], s@));
                        lemma_chars_le_trans(bw[p], s@, bw[q - 1]);
                    } else if p == j {
                        assert(vw[p] == s@);
                    } else {
                        assert(vw[p] == bw[p - 1]);
                        assert(chars_le(bw[p - 1], bw[q - 1]));
                    }
                }
            }
            assert(names_sorted(vw.take(i + 1)));
        }
        i += 1;
    }
    proof {
        assert(views_of(v@).take(v@.len() as int) =~= views_of(v@));
    }
}

/// The names joined with the given separator, in order.
pub open spec fn joined_with(names: Seq<Seq<char>>, sep: Seq<char>) -> Seq<char>
    decreases names.len(),
{
    if names.len() == 0 {
        Seq::empty()
    } else if names.len() == 1 {
        names[0]
    } else {
        names[0] + sep + joined_with(names.drop_first(), sep)
    }
}

proof fn lemma_joined_push(names: Seq<Seq<char>>, sep: Seq<char>, x: Seq<char>)
    requires
        names.len() >= 1,
    ensures
        joined_with(names.push(x), sep) == joined_with(names, sep) + sep + x,
    decreases names.len(),
{
    if names.len() == 1 {
        assert(names.push(x).drop_first() =~= seq![x]);
        assert(names.push(x).len() == 2);
        assert(names.push(x)[0] == names[0]);
        assert(joined_with(seq![x], sep) == x);
        assert(joined_with(names.push(x), sep) == names[0] + sep + joined_with(seq![x], sep));
        assert(joined_with(names, sep) == names[0]);
        assert(joined_with(names.push(x), sep) =~= joined_with(names, sep) + sep + x);
    } else {
        lemma_joined_push(names.drop_first(), sep, x);
        assert(names.push(x).drop_first() =~= names.drop_first().push(x));
        assert(joined_with(names, sep) + sep + x =~= names[0] + sep + (joined_with(
            names.drop_first(),
            sep,
        ) + sep + x));
        assert(joined_with(names.push(x), sep) =~= joined_with(names, sep) + sep + x);
    }
}

/// Joins the strings with the separator: `["a", "b"]` with `", "` gives
/// `"a, b"`.
pub fn join_names(names: &Vec<String>, sep: &str) -> (r: String)
    ensures
        r@ == joined_with(views_of(names@), sep@),
{
    let mut s = String::new();
    if names.len() == 0 {
        return s;
    }
    s.append(names[0].as_str());
    let mut i: usize = 1;
    while i < names.len()
        invariant
            1 <= i,
            i <= names@.len(),
            s@ == joined_with(views_of(names@).take(i as int), sep@),
        decreases names@.len() - i,
    {
        s.append(sep);
        s.append(names[i].as_str());
        proof {
            let vw = views_of(names@);
            assert(vw.take(i as int).push(vw[i as int]) =~= vw.take(i + 1));
            lemma_joined_push(vw.take(i as int), sep@, vw[i as int]);
        }
        i += 1;
    }
    proof {
        assert(views_of(names@).take(names@.len() as int) =~= views_of(names@));
    }
    s
}

/// The character for one decimal digit.
pub open spec fn decimal_digit(d: int) -> char {
    if d == 0 {
        '0'
    } else if d == 1 {
        '1'
    } else if d == 2 {
        '2'
    } else if d == 3 {
        '3'
    } else if d == 4 {
        '4'
    } else if d == 5 {
        '5'
    } else if d == 6 {
        '6'
    } else if d == 7 {
        '7'
    } else if d == 8 {
        '8'
    } else {
        '9'
    }
}

/// The decimal rendering of a non-negative integer, without sign.
pub open spec fn dec_str(n: int) -> Seq<char>
    decreases n,
{
    if n < 10 {
        seq![decimal_digit(n)]
    } else {
        dec_str(n / 10).push(decimal_digit(n % 10))
    }
}

/// The decimal rendering of an integer, with a leading `-` when negative.
pub open spec fn int_str(n: int) -> Seq<char> {
    if n < 0 {
        seq!['-'] + dec_str(-n)
    } else {
        dec_str(n)
    }
}

fn digit_str(d: u64) -> (r: &'static str)
    requires
        d < 10,
    ensures
        r@ == seq![decimal_digit(d as int)],
{
    proof {
        reveal_strlit("0");
        reveal_strlit("1");
        reveal_strlit("2");
        reveal_strlit("3");
        reveal_strlit("4");
        reveal_strlit("5");
        reveal_strlit("6");
        reveal_strlit("7");
        reveal_strlit("8");
        reveal_strlit("9");
    }
    let r: &'static str = if d == 0 {
        "0"
    } else if d == 1 {
        "1"
    } else if d == 2 {
        "2"
    } else if d == 3 {
        "3"
    } else if d == 4 {
        "4"
    } else if d == 5 {
        "5"
    } else if d == 6 {
        "6"
    } else if d == 7 {
        "7"
    } else if d == 8 {
        "8"
    } else {
        "9"
    };
    proof {
        assert(r@ =~= seq![decimal_digit(d as int)]);
    }
    r
}

/// The digits of `digits` read back to front, as characters.
spec fn digit_tail(digits: Seq<u64>) -> Seq<char> {
    Seq::new(digits.len(), |i: int| decimal_digit(digits[digits.len() - 1 - i] as int))
}

/// Renders an integer in decimal, as the reports do.
pub fn i64_to_string(n: i64) -> (r: String)
    ensures
        r@ == int_str(n as int),
{
    let mut s = String::new();
    if n < 0 {
        proof {
            reveal_strlit("-");
        }
        s.append("-");
        assert(s@ =~= seq!['-']);
    }
    let mut m: u64 = if n >= 0 {
        n as u64
    } else {
        ((-(n + 1)) as u64) + 1
    };
    let ghost m0 = m as int;
    assert(m0 == if n >= 0 { n as int } else { -(n as int) });
    let mut digits: Vec<u64> = Vec::new();
    while m >= 10
        invariant
            dec_str(m0) == dec_str(m as int) + digit_tail(digits@),
            forall|k: int| 0 <= k < digits@.len() ==> digits@[k] < 10,
        decreases m,
    {
        let d = m % 10;
        m = m / 10;
        let ghost before = digits@;
        digits.push(d);
        proof {
            assert(digit_tail(digits@) =~= seq![decimal_digit(d as int)] + digit_tail(before));
            assert(dec_str((m * 10 + d) as int) == dec_str(m as int).push(
                decimal_digit(d as int),
            ));
            assert(dec_str(m as int).push(decimal_digit(d as int)) + digit_tail(before) =~= dec_str(
                m as int,
            ) + digit_tail(digits@));
        }
    }
    s.append(digit_str(m));
    let ghost abs_prefix = s@;
    proof {
        assert(dec_str(m as int) =~= seq![decimal_digit(m as int)]);
        assert(abs_prefix + digit_tail(digits@) =~= (if n < 0 {
            seq!['-']
        } else {
            Seq::<char>::empty()
        }) + dec_str(m0));
    }
    let mut j: usize = digits.len();
    while j > 0
        invariant
            j <= digits@.len(),
            forall|k: int| 0 <= k < digits@.len() ==> digits@[k] < 10,
            s@ == abs_prefix + digit_tail(digits@).take(digits@.len() - j),
        decreases j,
    {
        j -= 1;
        let d = digits[j];
        s.append(digit_str(d));
        proof {
            let t = digit_tail(digits@);
            assert(t[digits@.len() - 1 - (j as int)] == decimal_digit(d as int));
            assert(t.take(digits@.len() - j) =~= t.take(digits@.len() - j - 1).push(
                decimal_digit(d as int),
            ));
            assert(abs_prefix + t.take(digits@.len() - j - 1) + seq![decimal_digit(d as int)]
                =~= abs_prefix + t.take(digits@.len() - j));
        }
    }
    proof {
        assert(digit_tail(digits@).take(digits@.len() as int) =~= digit_tail(digits@));
        assert(s@ =~= int_str(n as int));
    }
    s
}

} // verus!
