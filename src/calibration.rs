//! From found digits to a line's two-digit value, and from lines to their total.
use vstd::prelude::*;

use crate::extract::{all_digits, lemma_extracted_are_digits, Extractor};
use crate::text::chars_of;

verus! {

/// The first character of `d`, or `'0'` when `d` is empty.
pub open spec fn first_or_zero(d: Seq<char>) -> char {
    if d.len() > 0 {
        d[0]
    } else {
        '0'
    }
}

/// The last character of `d`, or `'0'` when `d` is empty.
pub open spec fn last_or_zero(d: Seq<char>) -> char {
    if d.len() > 0 {
        d.last()
    } else {
        '0'
    }
}

/// The value of an ASCII digit.
pub open spec fn digit_value(c: char) -> int {
    c as int - '0' as int
}

/// The number written by the first and the last of the digits `d`.
pub open spec fn two_digit_value(d: Seq<char>) -> int {
    10 * digit_value(first_or_zero(d)) + digit_value(last_or_zero(d))
}

/// The value of one line under the extractor `e`.
pub open spec fn calibration_value(line: Seq<char>, e: Extractor) -> int {
    two_digit_value(e.digits_of(line))
}

/// The sum of the values of `lines` under the extractor `e`.
pub open spec fn calibration_sum(lines: Seq<Seq<char>>, e: Extractor) -> int
    decreases lines.len(),
{
    if lines.len() == 0 {
        0
    } else {
        calibration_sum(lines.drop_last(), e) + calibration_value(lines.last(), e)
    }
}

/// The text of each line.
pub open spec fn line_texts(lines: Seq<String>) -> Seq<Seq<char>> {
    lines.map_values(|l: String| l@)
}

/// The two-digit number made of the first and the last of `digits`; an absent
/// digit counts as `'0'`.
pub fn line_value(digits: &String) -> (r: i32)
    requires
        all_digits(digits@),
    ensures
        r == two_digit_value(digits@),
        0 <= r <= 99,
{
    let chars = chars_of(digits.as_str());
    let first = if chars.len() > 0 {
        chars[0]
    } else {
        '0'
    };
    let last = if chars.len() > 0 {
        chars[chars.len() - 1]
    } else {
        '0'
    };
    let tens = (first as u32 - '0' as u32) as i32;
    let ones = (last as u32 - '0' as u32) as i32;
    10 * tens + ones
}

proof fn lemma_value_bounds(line: Seq<char>, e: Extractor)
    ensures
        0 <= calibration_value(line, e) <= 99,
{
    lemma_extracted_are_digits(e, line);
}

proof fn lemma_prefix_sum_bounded(lines: Seq<Seq<char>>, n: int, e: Extractor)
    requires
        0 <= n <= lines.len(),
    ensures
        0 <= calibration_sum(lines.take(n), e) <= calibration_sum(lines, e),
    decreases lines.len(),
{
    if n < lines.len() {
        lemma_prefix_sum_bounded(lines.drop_last(), n, e);
        lemma_value_bounds(lines.last(), e);
        assert(lines.drop_last().take(n) == lines.take(n));
    } else {
        assert(lines.take(n) == lines);
        if lines.len() > 0 {
            lemma_prefix_sum_bounded(lines.drop_last(), n - 1, e);
            lemma_value_bounds(lines.last(), e);
            assert(lines.drop_last().take(n - 1) == lines.drop_last());
        }
    }
}

/// Sums the values of `lines` under `extractor`, in order. The total is
/// `None` exactly when it does not fit in an `i64`.
pub fn process_file(lines: &Vec<String>, extractor: Extractor) -> (r: Option<i64>)
    ensures
        r == (if calibration_sum(line_texts(lines@), extractor) <= i64::MAX {
            Some(calibration_sum(line_texts(lines@), extractor) as i64)
        } else {
            None::<i64>
        }),
{
    let ghost texts = line_texts(lines@);
    let mut total: i64 = 0;
    let mut i: usize = 0;
    while i < lines.len()
        invariant
            texts == line_texts(lines@),
            i <= lines.len(),
            total == calibration_sum(texts.take(i as int), extractor),
        decreases lines.len() - i,
    {
        let digits = extractor.extract(lines[i].clone());
        proof {
            lemma_extracted_are_digits(extractor, lines[i as int]@);
            assert(texts.take(i + 1).drop_last() == texts.take(i as int));
            lemma_prefix_sum_bounded(texts, i + 1, extractor);
        }
        let value = line_value(&digits);
        if total > i64::MAX - value as i64 {
            return None;
        }
        total = total + value as i64;
        i = i + 1;
    }
    assert(texts.take(i as int) == texts);
    Some(total)
}

/// A line with no digits found in it has the value zero.
pub proof fn lemma_no_digits_value_zero(line: Seq<char>, e: Extractor)
    requires
        e.digits_of(line).len() == 0,
    ensures
        calibration_value(line, e) == 0,
{
}

/// A line with exactly one digit found in it has that digit twice as its value.
pub proof fn lemma_one_digit_value_doubled(line: Seq<char>, e: Extractor)
    requires
        e.digits_of(line).len() == 1,
    ensures
        calibration_value(line, e) == 11 * digit_value(e.digits_of(line)[0]),
{
}

proof fn lemma_sum_remove(lines: Seq<Seq<char>>, j: int, e: Extractor)
    requires
        0 <= j < lines.len(),
    ensures
        calibration_sum(lines, e) == calibration_sum(lines.remove(j), e) + calibration_value(
            lines[j],
            e,
        ),
    decreases lines.len(),
{
    if j == lines.len() - 1 {
        assert(lines.remove(j) == lines.drop_last());
    } else {
        lemma_sum_remove(lines.drop_last(), j, e);
        assert(lines.remove(j).drop_last() == lines.drop_last().remove(j));
        assert(lines.remove(j).last() == lines.last());
    }
}

/// The total does not depend on the order of the lines: two documents holding
/// the same lines, each as often, have the same total.
pub proof fn lemma_sum_order_independent(a: Seq<Seq<char>>, b: Seq<Seq<char>>, e: Extractor)
    requires
        a.to_multiset() == b.to_multiset(),
    ensures
        calibration_sum(a, e) == calibration_sum(b, e),
    decreases a.len(),
{
    broadcast use vstd::seq_lib::group_to_multiset_ensures;

    if a.len() == 0 {
        vstd::seq_lib::to_multiset_len(a);
        vstd::seq_lib::to_multiset_len(b);
    } else {
        let x = a.last();
        let rest = a.drop_last();
        assert(a == rest.push(x));
        assert(b.to_multiset().count(x) > 0);
        assert(b.contains(x));
        let j = choose|j: int| 0 <= j < b.len() && b[j] == x;
        assert(b.remove(j).to_multiset() == b.to_multiset().remove(x));
        assert(rest.to_multiset() == a.to_multiset().remove(x));
        lemma_sum_order_independent(rest, b.remove(j), e);
        lemma_sum_remove(b, j, e);
    }
}

} // verus!
