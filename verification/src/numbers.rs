//! Decimal rendering and parsing of barcodes and timestamps.

use vstd::prelude::*;

verus! {

/// The decimal digit character for `d` (meaningful for `0 <= d < 10`).
pub open spec fn dec_digit(d: int) -> char {
    if d == 0 {
        '0'
    } else if d == 1 {
        '1'
    } else if d == 2 {
        '2'
    } else if d == 3 {
        '3'
    } else if d == 4 {
        '4'
    } else if d == 5 {
        '5'
    } else if d == 6 {
        '6'
    } else if d == 7 {
        '7'
    } else if d == 8 {
        '8'
    } else {
        '9'
    }
}

/// The decimal rendering of a nonnegative integer, without sign or
/// leading zeros.
pub open spec fn dec_of(n: int) -> Seq<char>
    decreases n,
{
    if n < 10 {
        seq![dec_digit(n)]
    } else {
        dec_of(n / 10).push(dec_digit(n % 10))
    }
}

/// Is `c` an ASCII decimal digit?
pub open spec fn is_digit(c: char) -> bool {
    48 <= c as u32 <= 57
}

/// The value of a digit character (meaningful when `is_digit(c)`).
pub open spec fn digit_val(c: char) -> int {
    c as u32 - 48
}

/// Value of the digit run starting at `i`, folded onto `acc`; `None` when a
/// non-digit character appears before the end of the string.
pub open spec fn digits_val(s: Seq<char>, i: int, acc: nat) -> Option<nat>
    decreases s.len() - i,
{
    if i < 0 || i >= s.len() {
        Some(acc)
    } else if is_digit(s[i]) {
        digits_val(s, i + 1, (acc * 10 + digit_val(s[i])) as nat)
    } else {
        None
    }
}

/// What `str::parse::<u64>` accepts: an optional leading `+`, then one or
/// more decimal digits, valued within `u64`.
pub open spec fn parse_u64(s: Seq<char>) -> Option<u64> {
    let start: int = if s.len() > 0 && s[0] == '+' {
        1
    } else {
        0
    };
    if s.len() == start {
        None
    } else {
        match digits_val(s, start, 0) {
            Some(n) => if n <= u64::MAX {
                Some(n as u64)
            } else {
                None
            },
            None => None,
        }
    }
}

/// The folded value only grows as digits are consumed.
proof fn lemma_digits_val_mono(s: Seq<char>, i: int, acc: nat)
    ensures
        digits_val(s, i, acc) matches Some(n) ==> n >= acc,
    decreases s.len() - i,
{
    if 0 <= i < s.len() && is_digit(s[i]) {
        let acc2 = (acc * 10 + digit_val(s[i])) as nat;
        assert(acc2 >= acc) by (nonlinear_arith)
            requires
                acc2 == acc * 10 + digit_val(s[i]),
                digit_val(s[i]) >= 0,
        ;
        lemma_digits_val_mono(s, i + 1, acc2);
    }
}

/// Render a digit.
fn digit_char(d: u64) -> (c: char)
    requires
        d < 10,
    ensures
        c == dec_digit(d as int),
{
    if d == 0 {
        '0'
    } else if d == 1 {
        '1'
    } else if d == 2 {
        '2'
    } else if d == 3 {
        '3'
    } else if d == 4 {
        '4'
    } else if d == 5 {
        '5'
    } else if d == 6 {
        '6'
    } else if d == 7 {
        '7'
    } else if d == 8 {
        '8'
    } else {
        '9'
    }
}

/// Append the decimal rendering of `n` to `out`.
pub fn append_dec(out: &mut String, n: u64)
    ensures
        final(out)@ == old(out)@ + dec_of(n as int),
    decreases n,
{
    if n < 10 {
        crate::text::push_char(out, digit_char(n));
        proof {
            assert(old(out)@.push(dec_digit(n as int)) =~= old(out)@ + dec_of(n as int));
        }
    } else {
        append_dec(out, n / 10);
        crate::text::push_char(out, digit_char(n % 10));
        proof {
            assert((old(out)@ + dec_of(n as int / 10)).push(dec_digit(n as int % 10)) =~= old(
                out,
            )@ + dec_of(n as int));
        }
    }
}

/// Exec mirror of `is_digit`.
pub fn char_is_digit(c: char) -> (b: bool)
    ensures
        b == is_digit(c),
{
    let v = c as u32;
    48 <= v && v <= 57
}

/// Fold the digit run starting at `i` onto `acc`, within `u64`.
fn digits_val_u64(v: &Vec<char>, i: usize, acc: u64) -> (r: Option<u64>)
    requires
        i <= v@.len(),
    ensures
        r == match digits_val(v@, i as int, acc as nat) {
            Some(n) => if n <= u64::MAX {
                Some(n as u64)
            } else {
                None::<u64>
            },
            None => None::<u64>,
        },
    decreases v@.len() - i,
{
    if i == v.len() {
        Some(acc)
    } else {
        let c = v[i];
        if char_is_digit(c) {
            let d = (c as u32 as u64) - 48;
            if acc <= (u64::MAX - d) / 10 {
                proof {
                    assert(acc * 10 + d <= u64::MAX) by (nonlinear_arith)
                        requires
                            acc <= (u64::MAX - d) / 10,
                            d <= u64::MAX,
                    ;
                }
                digits_val_u64(v, i + 1, acc * 10 + d)
            } else {
                proof {
                    let acc2 = (acc as nat * 10 + digit_val(v@[i as int])) as nat;
                    assert(acc2 > u64::MAX) by (nonlinear_arith)
                        requires
                            acc2 == acc as nat * 10 + d,
                            acc > (u64::MAX - d) / 10,
                            d < 10,
                    ;
                    lemma_digits_val_mono(v@, i + 1, acc2);
                }
                None
            }
        } else {
            None
        }
    }
}

/// Parse a whole character sequence as a `u64`, accepting exactly what
/// `str::parse::<u64>` accepts.
pub fn parse_u64_chars(v: &Vec<char>) -> (r: Option<u64>)
    ensures
        r == parse_u64(v@),
{
    let start: usize = if v.len() > 0 && v[0] == '+' {
        1
    } else {
        0
    };
    if v.len() == start {
        None
    } else {
        digits_val_u64(v, start, 0)
    }
}

} // verus!
