//! Integer fields: an optional sign followed by decimal digits.

use vstd::prelude::*;
use crate::text::{all_in, lemma_run_len, lemma_run_len_is, run_len, stands_at};

verus! {

/// Whether `c` is one of the decimal digits `0` to `9`.
pub open spec fn is_digit(c: char) -> bool {
    0x30 <= c as u32 <= 0x39
}

/// The class of decimal digits.
pub open spec fn digit() -> spec_fn(char) -> bool {
    |c: char| is_digit(c)
}

/// Whether `c` is a sign.
pub open spec fn is_sign(c: char) -> bool {
    c == '+' || c == '-'
}

/// The number that the digit `c` stands for.
pub open spec fn digit_value(c: char) -> int {
    c as u32 - 0x30
}

/// The digit that stands for `d`, a number from 0 to 9.
pub open spec fn digit_char(d: int) -> char {
    (0x30 + d) as char
}

/// The number that a sequence of digits denotes in base ten; 0 for the
/// empty sequence.
pub open spec fn digits_value(digits: Seq<char>) -> int
    decreases digits.len(),
{
    if digits.len() == 0 {
        0
    } else {
        10 * digits_value(digits.drop_last()) + digit_value(digits.last())
    }
}

/// The text of an integer field without its sign.
pub open spec fn unsigned_part(text: Seq<char>) -> Seq<char> {
    if text.len() > 0 && is_sign(text[0]) {
        text.skip(1)
    } else {
        text
    }
}

/// Whether `text` is an integer field: an optional sign, then one digit
/// or more, and nothing else.
pub open spec fn is_int_text(text: Seq<char>) -> bool {
    unsigned_part(text).len() > 0 && all_in(unsigned_part(text), digit())
}

/// The number that an integer field denotes.
pub open spec fn int_text_value(text: Seq<char>) -> int {
    if text.len() > 0 && text[0] == '-' {
        -digits_value(unsigned_part(text))
    } else {
        digits_value(unsigned_part(text))
    }
}

/// The longest start of `s` that is made of an optional sign and digits.
pub open spec fn int_prefix(s: Seq<char>) -> Seq<char> {
    if s.len() > 0 && is_sign(s[0]) {
        s.take(1 + run_len(s.skip(1), digit()) as int)
    } else {
        s.take(run_len(s, digit()) as int)
    }
}

/// Whether `n` can be held in an `i64`.
pub open spec fn fits_i64(n: int) -> bool {
    i64::MIN <= n <= i64::MAX
}

/// The decimal digits of `n`, without leading zeros.
pub open spec fn decimal(n: nat) -> Seq<char>
    decreases n,
{
    if n < 10 {
        seq![digit_char(n as int)]
    } else {
        decimal(n / 10).push(digit_char((n % 10) as int))
    }
}

/// The decimal digits of a number are an integer field that denotes it.
pub proof fn lemma_decimal(n: nat)
    ensures
        decimal(n).len() > 0,
        all_in(decimal(n), digit()),
        digits_value(decimal(n)) == n,
        is_int_text(decimal(n)),
        int_text_value(decimal(n)) == n,
    decreases n,
{
    let text = decimal(n);
    if n < 10 {
        assert(text.drop_last() =~= Seq::<char>::empty());
        assert(digits_value(text.drop_last()) == 0);
        assert(text.last() == digit_char(n as int));
    } else {
        lemma_decimal(n / 10);
        assert(text.drop_last() =~= decimal(n / 10));
        assert(text.last() == digit_char((n % 10) as int));
        assert forall|i: int| 0 <= i < text.len() implies digit()(#[trigger] text[i]) by {
            if i < text.len() - 1 {
                assert(text[i] == decimal(n / 10)[i]);
            }
        }
    }
    assert(digit()(text[0]));
    assert(unsigned_part(text) == text);
}

/// An integer field that is followed by something other than a digit is
/// the longest one at its place.
pub proof fn lemma_int_prefix_of_field(field: Seq<char>, rest: Seq<char>)
    requires
        is_int_text(field),
        rest.len() == 0 || !is_digit(rest[0]),
    ensures
        int_prefix(field + rest) == field,
{
    let s = field + rest;
    let digits = unsigned_part(field);
    let lead = field.len() - digits.len();
    assert(digit()(digits[0]));
    let tail = s.skip(lead);
    assert(tail.take(digits.len() as int) =~= digits);
    if rest.len() > 0 {
        assert(tail[digits.len() as int] == rest[0]);
    }
    lemma_run_len_is(tail, digit(), digits.len() as int);
    assert(s.take(field.len() as int) =~= field);
    assert(s[0] == field[0]);
    if lead == 0 {
        assert(tail =~= s);
    }
}

/// The longest integer text at a place stands at that place.
pub proof fn lemma_int_prefix_stands(s: Seq<char>, at: int)
    requires
        0 <= at <= s.len(),
    ensures
        stands_at(s, at, int_prefix(s.skip(at))),
{
    let tail = s.skip(at);
    let field = int_prefix(tail);
    if tail.len() > 0 && is_sign(tail[0]) {
        lemma_run_len(tail.skip(1), digit());
    } else {
        lemma_run_len(tail, digit());
    }
    assert(s.subrange(at, at + field.len()) =~= field);
}

/// Tests whether `c` is a decimal digit.
pub(crate) fn is_digit_char(c: char) -> (b: bool)
    ensures
        b == is_digit(c),
{
    let n: u32 = c as u32;
    0x30 <= n && n <= 0x39
}

/// Reads the integer field that starts at `at`.
///
/// The field is the longest run of an optional sign and digits found
/// there. Returns its number and the position after it, or `None` where
/// no digit stands there or the number cannot be held in an `i64`.
pub(crate) fn scan_int(text: &Vec<char>, at: usize) -> (r: Option<(i64, usize)>)
    requires
        at <= text.len(),
    ensures
        ({
            let field = int_prefix(text@.skip(at as int));
            match r {
                Some((value, end)) => {
                    &&& is_int_text(field)
                    &&& value == int_text_value(field)
                    &&& end == at + field.len()
                    &&& end <= text.len()
                },
                None => !(is_int_text(field) && fits_i64(int_text_value(field))),
            }
        }),
{
    let len = text.len();
    let mut negative = false;
    let mut start: usize = at;
    if at < len && (text[at] == '+' || text[at] == '-') {
        negative = text[at] == '-';
        start = at + 1;
    }
    let mut end: usize = start;
    let mut magnitude: u64 = 0;
    let mut too_large = false;
    while end < len && is_digit_char(text[end])
        invariant
            start <= end <= len,
            len == text.len(),
            all_in(text@.subrange(start as int, end as int), digit()),
            !too_large ==> magnitude == digits_value(text@.subrange(start as int, end as int)),
            !too_large ==> magnitude <= 0x8000_0000_0000_0000,
            too_large ==> digits_value(text@.subrange(start as int, end as int))
                > 0x8000_0000_0000_0000,
        decreases len - end,
    {
        let d: u64 = (text[end] as u32 - 0x30) as u64;
        proof {
            let before = text@.subrange(start as int, end as int);
            let after = text@.subrange(start as int, end + 1);
            assert(after.drop_last() =~= before);
            assert(after.last() == text@[end as int]);
            assert forall|i: int| 0 <= i < after.len() implies digit()(#[trigger] after[i]) by {
                if i < before.len() {
                    assert(after[i] == before[i]);
                }
            }
            assert(digits_value(after) == 10 * digits_value(before) + d);
        }
        if !too_large {
            if magnitude > 922_337_203_685_477_580 {
                too_large = true;
            } else {
                let next: u64 = magnitude * 10 + d;
                if next > 0x8000_0000_0000_0000 {
                    too_large = true;
                } else {
                    magnitude = next;
                }
            }
        }
        end += 1;
    }
    proof {
        let s = text@.skip(at as int);
        let tail = text@.skip(start as int);
        let digits = text@.subrange(start as int, end as int);
        assert(tail.take(end - start) =~= digits);
        lemma_run_len_is(tail, digit(), end - start);
        let field = int_prefix(s);
        if start > at {
            assert(s.skip(1) =~= tail);
            assert(field[0] == s[0]);
            assert(field.skip(1) =~= digits);
        } else {
            assert(s =~= tail);
            assert(field =~= digits);
            if field.len() > 0 {
                assert(digit()(digits[0]));
            }
        }
        assert(unsigned_part(field) == digits);
        assert(field.len() == end - at);
        assert(negative <==> field.len() > 0 && field[0] == '-');
    }
    if end == start || too_large {
        None
    } else if negative {
        if magnitude == 0x8000_0000_0000_0000 {
            Some((i64::MIN, end))
        } else {
            Some((-(magnitude as i64), end))
        }
    } else if magnitude == 0x8000_0000_0000_0000 {
        None
    } else {
        Some((magnitude as i64, end))
    }
}

} // verus!
