//! Reading the reply text: its physical lines, and the signed decimal number
//! on its first line.
use vstd::prelude::*;

verus! {

/// The byte of a line feed.
pub const LF: u8 = 10;

/// The byte of a carriage return.
pub const CR: u8 = 13;

/// The position of the first `c` in `s`, or -1 where there is none.
pub open spec fn first_index_of(s: Seq<u8>, c: u8) -> int
    decreases s.len(),
{
    if s.len() == 0 {
        -1
    } else if s[0] == c {
        0
    } else if first_index_of(s.drop_first(), c) < 0 {
        -1
    } else {
        first_index_of(s.drop_first(), c) + 1
    }
}

/// A line without the carriage return that may end it.
pub open spec fn strip_cr(l: Seq<u8>) -> Seq<u8> {
    if l.len() > 0 && l.last() == CR {
        l.drop_last()
    } else {
        l
    }
}

/// The lines of a text: the pieces between line feeds, each without a
/// carriage return just before its line feed; a text that ends with a line
/// feed has no empty last line, and the empty text has no lines.
pub open spec fn lines_of(s: Seq<u8>) -> Seq<Seq<u8>>
    decreases s.len(),
{
    if s.len() == 0 {
        Seq::empty()
    } else {
        let i = first_index_of(s, LF);
        if i < 0 || i >= s.len() {
            seq![s]
        } else {
            seq![strip_cr(s.take(i))] + lines_of(s.skip(i + 1))
        }
    }
}

/// `first_index_of` is the first position that holds `c`.
pub proof fn lemma_first_index(s: Seq<u8>, c: u8, j: int)
    requires
        0 <= j <= s.len(),
        forall|k: int| 0 <= k < j ==> s[k] != c,
        j < s.len() ==> s[j] == c,
    ensures
        first_index_of(s, c) == if j < s.len() { j } else { -1 },
    decreases s.len(),
{
    if s.len() > 0 && s[0] != c {
        assert forall|k: int| 0 <= k < j - 1 implies s.drop_first()[k] != c by {
            assert(s[k + 1] != c);
        }
        lemma_first_index(s.drop_first(), c, j - 1);
    }
}

/// Splits `text` into its lines.
pub fn split_lines(text: &[u8]) -> (r: Vec<Vec<u8>>)
    ensures
        r@.len() == lines_of(text@).len(),
        forall|i: int| 0 <= i < r@.len() ==> (#[trigger] r@[i])@ == lines_of(text@)[i],
        forall|i: int| 0 <= i < r@.len() ==> (#[trigger] r@[i])@.len() <= text@.len(),
{
    let mut r: Vec<Vec<u8>> = Vec::new();
    let mut start: usize = 0;
    let ghost done: Seq<Seq<u8>> = Seq::empty();
    assert(text@.skip(0) =~= text@);
    while start < text.len()
        invariant
            start <= text@.len(),
            r@.len() == done.len(),
            forall|i: int| 0 <= i < r@.len() ==> (#[trigger] r@[i])@ == done[i],
            forall|i: int| 0 <= i < r@.len() ==> (#[trigger] r@[i])@.len() <= text@.len(),
            lines_of(text@) == done + lines_of(text@.skip(start as int)),
        decreases text@.len() - start,
    {
        let ghost rest = text@.skip(start as int);
        let mut end: usize = start;
        while end < text.len() && text[end] != LF
            invariant
                start <= end <= text@.len(),
                forall|k: int| start <= k < end ==> text@[k] != LF,
            decreases text@.len() - end,
        {
            end = end + 1;
        }
        proof {
            lemma_first_index(rest, LF, end - start);
        }
        let mut line_end: usize = end;
        if end < text.len() && end > start && text[end - 1] == CR {
            line_end = end - 1;
        }
        let line = vstd::slice::slice_to_vec(vstd::slice::slice_subrange(text, start, line_end));
        proof {
            if end < text@.len() {
                assert(rest.take(end - start).len() > 0 ==> rest.take(end - start).last() == text@[end - 1]);
                assert(line@ =~= strip_cr(rest.take(end - start)));
                assert(rest.skip(end - start + 1) =~= text@.skip(end + 1));
            } else {
                assert(line@ =~= rest);
                assert(lines_of(rest) == seq![rest]);
                assert(text@.skip(end as int).len() == 0);
            }
            done = done.push(line@);
        }
        r.push(line);
        if end < text.len() {
            start = end + 1;
        } else {
            start = end;
        }
        assert(lines_of(text@) =~= done + lines_of(text@.skip(start as int)));
    }
    assert(text@.skip(start as int).len() == 0);
    assert(lines_of(text@) =~= done);
    r
}

/// Whether every byte of `d` is an ASCII decimal digit.
pub open spec fn all_digits(d: Seq<u8>) -> bool {
    forall|i: int| 0 <= i < d.len() ==> 48 <= #[trigger] d[i] <= 57
}

/// The number that the decimal digits `d` spell.
pub open spec fn digits_value(d: Seq<u8>) -> int
    decreases d.len(),
{
    if d.len() == 0 {
        0
    } else {
        digits_value(d.drop_last()) * 10 + (d.last() - 48)
    }
}

/// The number a line spells: an optional `+` or `-`, then one or more
/// decimal digits, and nothing else.
pub open spec fn signed_value(l: Seq<u8>) -> Option<int> {
    if l.len() == 0 {
        None
    } else {
        let negative = l[0] == 45;
        let d = if l[0] == 45 || l[0] == 43 { l.skip(1) } else { l };
        if d.len() == 0 || !all_digits(d) {
            None
        } else if negative {
            Some(-digits_value(d))
        } else {
            Some(digits_value(d))
        }
    }
}

/// The exit status a line gives: its number, where that fits an `i32`.
pub open spec fn status_of(l: Seq<u8>) -> Option<i32> {
    match signed_value(l) {
        Some(v) => if i32::MIN <= v <= i32::MAX { Some(v as i32) } else { None },
        None => None,
    }
}

/// Appending digits never makes the number smaller.
pub proof fn lemma_digits_grow(d: Seq<u8>, i: int)
    requires
        all_digits(d),
        0 <= i <= d.len(),
    ensures
        0 <= digits_value(d.take(i)) <= digits_value(d),
    decreases d.len(),
{
    if d.len() > 0 {
        assert(all_digits(d.drop_last())) by {
            assert forall|k: int| 0 <= k < d.len() - 1 implies 48 <= #[trigger] d.drop_last()[k] <= 57 by {
                assert(d[k] == d.drop_last()[k]);
            }
        }
        if i == d.len() {
            assert(d.take(i) =~= d);
            lemma_digits_grow(d.drop_last(), 0);
        } else {
            assert(d.drop_last().take(i) =~= d.take(i));
            lemma_digits_grow(d.drop_last(), i);
        }
        assert(48 <= d[d.len() - 1] <= 57);
    } else {
        assert(d.take(i) =~= d);
    }
}

/// Parses the exit status on a line, as `status_of` describes it.
pub fn parse_status(l: &[u8]) -> (r: Option<i32>)
    ensures
        r == status_of(l@),
{
    if l.len() == 0 {
        return None;
    }
    let negative = l[0] == 45;
    let start: usize = if l[0] == 45 || l[0] == 43 { 1 } else { 0 };
    let ghost d = l@.skip(start as int);
    assert(d == if l@[0] == 45 || l@[0] == 43 { l@.skip(1) } else { l@ });
    if start == l.len() {
        return None;
    }
    let mut acc: i64 = 0;
    let mut i: usize = start;
    assert(d.take(0) =~= Seq::<u8>::empty());
    while i < l.len()
        invariant
            start <= i <= l@.len(),
            d == l@.skip(start as int),
            l@.len() > 0,
            d.len() > 0,
            negative == (l@[0] == 45),
            d == if l@[0] == 45 || l@[0] == 43 { l@.skip(1) } else { l@ },
            all_digits(d.take(i - start)),
            acc == digits_value(d.take(i - start)),
            0 <= acc <= 2147483648,
        decreases l@.len() - i,
    {
        let b = l[i];
        assert(d[i - start] == b);
        if b < 48 || b > 57 {
            assert(!all_digits(d));
            return None;
        }
        assert(d.take(i - start + 1).drop_last() =~= d.take(i - start));
        assert(all_digits(d.take(i - start + 1))) by {
            assert forall|k: int| 0 <= k < i - start + 1 implies 48 <= #[trigger] d.take(i - start + 1)[k] <= 57 by {
                if k < i - start {
                    assert(d.take(i - start + 1)[k] == d.take(i - start)[k]);
                }
            }
        }
        acc = acc * 10 + (b - 48) as i64;
        i = i + 1;
        if acc > 2147483648 {
            proof {
                if all_digits(d) {
                    lemma_digits_grow(d, i - start);
                }
            }
            return None;
        }
    }
    assert(d.take(i - start) =~= d);
    if negative {
        Some((-acc) as i32)
    } else if acc > 2147483647 {
        None
    } else {
        Some(acc as i32)
    }
}

} // verus!
