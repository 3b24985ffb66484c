//! The numeric key of a filename: the unsigned integer formed by
//! concatenating the string's decimal digits in their original order.
//! A string without digits has key zero, and so does one whose digit
//! string overflows `usize` when parsed.

use vstd::prelude::*;

verus! {

/// A decimal digit, `'0'` through `'9'`.
pub open spec fn is_decimal_digit(c: char) -> bool {
    48 <= c as u32 <= 57
}

/// The numeric value of a decimal digit character.
pub open spec fn digit_value(c: char) -> nat {
    (c as u32 - 48) as nat
}

/// The digit characters of `s`, in their original relative order.
pub open spec fn digits_of(s: Seq<char>) -> Seq<char> {
    s.filter(|c: char| is_decimal_digit(c))
}

/// The unsigned integer denoted by a string of decimal digits
/// (zero for the empty string).
pub open spec fn digits_as_nat(d: Seq<char>) -> nat
    decreases d.len(),
{
    if d.len() == 0 {
        0
    } else {
        digits_as_nat(d.drop_last()) * 10 + digit_value(d.last())
    }
}

/// The numeric key of a filename: its digits read as an unsigned integer,
/// falling back to zero when there are no digits or when the digit string
/// does not fit in `usize`.
pub open spec fn numeric_key(s: Seq<char>) -> nat {
    if digits_as_nat(digits_of(s)) <= usize::MAX as nat {
        digits_as_nat(digits_of(s))
    } else {
        0
    }
}

/// Extracts the decimal digits of `input` and parses them as an unsigned
/// integer; a string with no digits, or whose digit string overflows
/// `usize`, yields zero.
pub fn get_number_from_string(input: &str) -> (r: usize)
    ensures
        r as nat == numeric_key(input@),
{
    let n = input.unicode_len();
    let mut i: usize = 0;
    let mut acc: usize = 0;
    let mut overflowed: bool = false;
    while i < n
        invariant
            n == input@.len(),
            0 <= i <= n,
            !overflowed ==> acc as nat == digits_as_nat(digits_of(input@.take(i as int))),
            overflowed ==> digits_as_nat(digits_of(input@.take(i as int))) > usize::MAX as nat,
        decreases n - i,
    {
        let c = input.get_char(i);
        let u = c as u32;
        proof {
            lemma_digits_of_push(input@.take(i as int), c);
            assert(input@.take(i + 1) == input@.take(i as int).push(c));
        }
        if 48 <= u && u <= 57 {
            let d = (u - 48) as usize;
            proof {
                let ds = digits_of(input@.take(i as int));
                assert(digits_as_nat(ds.push(c)) == digits_as_nat(ds) * 10 + digit_value(c)) by {
                    assert(ds.push(c).drop_last() == ds);
                }
            }
            if !overflowed {
                match acc.checked_mul(10) {
                    Some(acc10) => match acc10.checked_add(d) {
                        Some(next) => {
                            acc = next;
                        },
                        None => {
                            overflowed = true;
                        },
                    },
                    None => {
                        proof {
                            let v = acc as nat * 10;
                            assert(v + digit_value(c) > usize::MAX as nat);
                        }
                        overflowed = true;
                    },
                }
            }
        }
        i = i + 1;
    }
    proof {
        assert(input@.take(n as int) == input@);
    }
    if overflowed {
        0
    } else {
        acc
    }
}

/// Appending a character extends the digit string exactly when the
/// character is a decimal digit.
pub proof fn lemma_digits_of_push(s: Seq<char>, c: char)
    ensures
        digits_of(s.push(c)) == if is_decimal_digit(c) {
            digits_of(s).push(c)
        } else {
            digits_of(s)
        },
{
    reveal(Seq::filter);
    assert(s.push(c).drop_last() == s);
}

} // verus!
