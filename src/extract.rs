//! The two ways of finding the digits of a line.
use vstd::prelude::*;

use crate::text::{chars_of, push_char};

verus! {

/// An ASCII digit, `'0'` to `'9'`.
pub open spec fn is_digit(c: char) -> bool {
    '0' <= c <= '9'
}

/// The ASCII digits of `s`, in the order in which they stand.
pub open spec fn ascii_digits(s: Seq<char>) -> Seq<char>
    decreases s.len(),
{
    if s.len() == 0 {
        Seq::empty()
    } else if is_digit(s.last()) {
        ascii_digits(s.drop_last()).push(s.last())
    } else {
        ascii_digits(s.drop_last())
    }
}

/// Keeps the ASCII digits of `line`, in order.
pub fn part1_extractor(line: String) -> (r: String)
    ensures
        r@ == ascii_digits(line@),
{
    let chars = chars_of(line.as_str());
    let mut r = String::new();
    let mut i: usize = 0;
    while i < chars.len()
        invariant
            chars@ == line@,
            i <= chars@.len(),
            r@ == ascii_digits(line@.take(i as int)),
        decreases chars.len() - i,
    {
        let c = chars[i];
        assert(line@.take(i + 1).drop_last() == line@.take(i as int));
        if '0' <= c && c <= '9' {
            push_char(&mut r, c);
        }
        i = i + 1;
    }
    assert(line@.take(i as int) == line@);
    r
}

/// The spelled-out name of the digit `d`, for `1 <= d <= 9`.
pub open spec fn digit_name(d: int) -> Seq<char> {
    if d == 1 {
        seq!['o', 'n', 'e']
    } else if d == 2 {
        seq!['t', 'w', 'o']
    } else if d == 3 {
        seq!['t', 'h', 'r', 'e', 'e']
    } else if d == 4 {
        seq!['f', 'o', 'u', 'r']
    } else if d == 5 {
        seq!['f', 'i', 'v', 'e']
    } else if d == 6 {
        seq!['s', 'i', 'x']
    } else if d == 7 {
        seq!['s', 'e', 'v', 'e', 'n']
    } else if d == 8 {
        seq!['e', 'i', 'g', 'h', 't']
    } else {
        seq!['n', 'i', 'n', 'e']
    }
}

/// The ASCII digit character of the digit `d`, for `1 <= d <= 9`.
pub open spec fn digit_char(d: int) -> char {
    if d == 1 {
        '1'
    } else if d == 2 {
        '2'
    } else if d == 3 {
        '3'
    } else if d == 4 {
        '4'
    } else if d == 5 {
        '5'
    } else if d == 6 {
        '6'
    } else if d == 7 {
        '7'
    } else if d == 8 {
        '8'
    } else {
        '9'
    }
}

/// `w` occurs in `s` starting at position `i`.
pub open spec fn occurs_at(s: Seq<char>, i: int, w: Seq<char>) -> bool {
    0 <= i && i + w.len() <= s.len() && s.subrange(i, i + w.len()) == w
}

/// The digit of the first name among those of `d` to nine that starts at position
/// `i` of `s`, if any does.
pub open spec fn named_digit_from(s: Seq<char>, i: int, d: int) -> Option<char>
    decreases 10 - d,
{
    if 1 <= d <= 9 {
        if occurs_at(s, i, digit_name(d)) {
            Some(digit_char(d))
        } else {
            named_digit_from(s, i, d + 1)
        }
    } else {
        None
    }
}

/// The digit that position `i` of `s` stands for: the digit whose name starts
/// there, else the character itself if it is an ASCII digit.
pub open spec fn digit_at(s: Seq<char>, i: int) -> Option<char> {
    match named_digit_from(s, i, 1) {
        Some(c) => Some(c),
        None => if is_digit(s[i]) {
            Some(s[i])
        } else {
            None
        },
    }
}

/// The digits that the first `n` positions of `s` stand for, in order.
pub open spec fn spelled_digits_upto(s: Seq<char>, n: int) -> Seq<char>
    decreases n,
{
    if n <= 0 {
        Seq::empty()
    } else {
        match digit_at(s, n - 1) {
            Some(c) => spelled_digits_upto(s, n - 1).push(c),
            None => spelled_digits_upto(s, n - 1),
        }
    }
}

/// The digits that the positions of `s` stand for, left to right. Names may
/// overlap: every position is tried.
pub open spec fn spelled_digits(s: Seq<char>) -> Seq<char> {
    spelled_digits_upto(s, s.len() as int)
}

/// The names of the digits one to nine, each with its digit character.
fn digit_names() -> (r: Vec<(Vec<char>, char)>)
    ensures
        r.len() == 9,
        forall|k: int|
            0 <= k < 9 ==> (#[trigger] r[k]).0@ == digit_name(k + 1) && r[k].1 == digit_char(
                k + 1,
            ),
{
    let r = vec![
        (vec!['o', 'n', 'e'], '1'),
        (vec!['t', 'w', 'o'], '2'),
        (vec!['t', 'h', 'r', 'e', 'e'], '3'),
        (vec!['f', 'o', 'u', 'r'], '4'),
        (vec!['f', 'i', 'v', 'e'], '5'),
        (vec!['s', 'i', 'x'], '6'),
        (vec!['s', 'e', 'v', 'e', 'n'], '7'),
        (vec!['e', 'i', 'g', 'h', 't'], '8'),
        (vec!['n', 'i', 'n', 'e'], '9'),
    ];
    assert(r[0].0@ == digit_name(1));
    assert(r[1].0@ == digit_name(2));
    assert(r[2].0@ == digit_name(3));
    assert(r[3].0@ == digit_name(4));
    assert(r[4].0@ == digit_name(5));
    assert(r[5].0@ == digit_name(6));
    assert(r[6].0@ == digit_name(7));
    assert(r[7].0@ == digit_name(8));
    assert(r[8].0@ == digit_name(9));
    r
}

/// Whether `w` occurs in `s` starting at position `i`.
fn occurs_at_exec(s: &Vec<char>, i: usize, w: &Vec<char>) -> (r: bool)
    ensures
        r == occurs_at(s@, i as int, w@),
{
    if w.len() > s.len() || i > s.len() - w.len() {
        return false;
    }
    let mut j: usize = 0;
    while j < w.len()
        invariant
            i + w.len() <= s.len(),
            j <= w.len(),
            forall|k: int| 0 <= k < j ==> s[i + k] == w[k],
        decreases w.len() - j,
    {
        if s[i + j] != w[j] {
            assert(s@.subrange(i as int, i + w.len())[j as int] != w@[j as int]);
            return false;
        }
        j = j + 1;
    }
    assert(s@.subrange(i as int, i + w.len()) == w@);
    true
}

/// Keeps, for every position of `line` from left to right, the digit that a
/// name of a digit ("one" to "nine") starting there stands for, or else the
/// character there if it is an ASCII digit. Overlapping names all count.
pub fn part2_extractor(line: String) -> (r: String)
    ensures
        r@ == spelled_digits(line@),
{
    let chars = chars_of(line.as_str());
    let names = digit_names();
    let mut r = String::new();
    let mut i: usize = 0;
    while i < chars.len()
        invariant
            chars@ == line@,
            i <= chars@.len(),
            names.len() == 9,
            forall|k: int|
                0 <= k < 9 ==> (#[trigger] names[k]).0@ == digit_name(k + 1) && names[k].1
                    == digit_char(k + 1),
            r@ == spelled_digits_upto(line@, i as int),
        decreases chars.len() - i,
    {
        let mut found: Option<char> = None;
        let mut k: usize = 0;
        while k < 9
            invariant_except_break
                found is None,
            invariant
                chars@ == line@,
                i < chars@.len(),
                k <= 9,
                names.len() == 9,
                forall|m: int|
                    0 <= m < 9 ==> (#[trigger] names[m]).0@ == digit_name(m + 1) && names[m].1
                        == digit_char(m + 1),
                named_digit_from(line@, i as int, 1) == named_digit_from(line@, i as int, k + 1),
            ensures
                found is None ==> k == 9,
                found is Some ==> found == named_digit_from(line@, i as int, k + 1),
            decreases 9 - k,
        {
            assert(names[k as int].0@ == digit_name(k + 1));
            if occurs_at_exec(&chars, i, &names[k].0) {
                found = Some(names[k].1);
                assert(named_digit_from(line@, i as int, k + 1) == Some(digit_char(k + 1)));
                break;
            }
            k = k + 1;
        }
        assert(found is None ==> named_digit_from(line@, i as int, 10) is None);
        match found {
            Some(c) => push_char(&mut r, c),
            None => {
                let c = chars[i];
                if '0' <= c && c <= '9' {
                    push_char(&mut r, c);
                }
            },
        }
        i = i + 1;
    }
    r
}

/// The two ways of finding the digits of a line.
#[derive(Clone, Copy, Debug, PartialEq, Eq, Structural)]
pub enum Extractor {
    /// ASCII digits only.
    Digits,
    /// ASCII digits and the names "one" to "nine", overlapping names included.
    Words,
}

impl Extractor {
    /// The digits that this way finds in `line`.
    pub open spec fn digits_of(self, line: Seq<char>) -> Seq<char> {
        match self {
            Extractor::Digits => ascii_digits(line),
            Extractor::Words => spelled_digits(line),
        }
    }

    /// The digits that this way finds in `line`, in order.
    pub fn extract(&self, line: String) -> (r: String)
        ensures
            r@ == self.digits_of(line@),
    {
        match self {
            Extractor::Digits => part1_extractor(line),
            Extractor::Words => part2_extractor(line),
        }
    }
}

/// All characters of `s` are ASCII digits.
pub open spec fn all_digits(s: Seq<char>) -> bool {
    forall|i: int| 0 <= i < s.len() ==> is_digit(#[trigger] s[i])
}

proof fn lemma_ascii_digits_are_digits(s: Seq<char>)
    ensures
        all_digits(ascii_digits(s)),
    decreases s.len(),
{
    if s.len() > 0 {
        lemma_ascii_digits_are_digits(s.drop_last());
    }
}

proof fn lemma_named_digit_is_digit(s: Seq<char>, i: int, d: int)
    ensures
        named_digit_from(s, i, d) matches Some(c) ==> is_digit(c),
    decreases 10 - d,
{
    if 1 <= d <= 9 {
        lemma_named_digit_is_digit(s, i, d + 1);
    }
}

proof fn lemma_spelled_digits_are_digits(s: Seq<char>, n: int)
    ensures
        all_digits(spelled_digits_upto(s, n)),
    decreases n,
{
    if n > 0 {
        lemma_spelled_digits_are_digits(s, n - 1);
        lemma_named_digit_is_digit(s, n - 1, 1);
    }
}

/// Whichever way is used, only ASCII digits are found.
pub proof fn lemma_extracted_are_digits(e: Extractor, line: Seq<char>)
    ensures
        all_digits(e.digits_of(line)),
{
    match e {
        Extractor::Digits => lemma_ascii_digits_are_digits(line),
        Extractor::Words => lemma_spelled_digits_are_digits(line, line.len() as int),
    }
}

/// On a line made of ASCII digits only, the simple way finds the whole line.
pub proof fn lemma_all_digits_kept(line: Seq<char>)
    requires
        all_digits(line),
    ensures
        ascii_digits(line) == line,
    decreases line.len(),
{
    if line.len() > 0 {
        lemma_all_digits_kept(line.drop_last());
        assert(line.drop_last().push(line.last()) == line);
    }
}

} // verus!
