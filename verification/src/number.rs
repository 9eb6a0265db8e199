//! Numbers as text: how a numeric field of an input row is read, and how a
//! number is written into a message.
//!
//! A numeric field is an optional `+` followed by one or more decimal digits,
//! or the prefix `0x` followed by an optional `+` and one or more hexadecimal
//! digits of either case. Nothing else may surround the digits: no spaces, no
//! `-`, no underscores. A field whose value exceeds the bound of the column is
//! no number of that column.

use vstd::prelude::*;

verus! {

/// The value of the byte `b` as a digit in the given radix: `0`-`9`, then the
/// letters of either case from ten on.
pub open spec fn digit_value(b: u8, radix: int) -> Option<int> {
    let d: int = if 0x30 <= b <= 0x39 {
        b - 0x30
    } else if 0x61 <= b <= 0x7a {
        b - 0x61 + 10
    } else if 0x41 <= b <= 0x5a {
        b - 0x41 + 10
    } else {
        36
    };
    if d < radix {
        Some(d)
    } else {
        None
    }
}

/// Whether every byte of `s` is a digit in the given radix.
pub open spec fn all_digits(s: Seq<u8>, radix: int) -> bool {
    forall|i: int| 0 <= i < s.len() ==> (#[trigger] digit_value(s[i], radix)) is Some
}

/// The number that the digits `s` denote, most significant digit first.
pub open spec fn digits_value(s: Seq<u8>, radix: int) -> int
    decreases s.len(),
{
    if s.len() == 0 {
        0
    } else {
        let last = match digit_value(s.last(), radix) {
            Some(d) => d,
            None => 0,
        };
        digits_value(s.drop_last(), radix) * radix + last
    }
}

/// The number written as one or more digits and nothing else.
pub open spec fn digits_number(s: Seq<u8>, radix: int) -> Option<int> {
    if s.len() > 0 && all_digits(s, radix) {
        Some(digits_value(s, radix))
    } else {
        None
    }
}

/// The number written as an optional `+` and digits.
pub open spec fn unsigned_number(s: Seq<u8>, radix: int) -> Option<int> {
    if s.len() > 0 && s[0] == 0x2b {
        digits_number(s.skip(1), radix)
    } else {
        digits_number(s, radix)
    }
}

/// Whether the field starts with `0x`.
pub open spec fn has_hex_prefix(field: Seq<u8>) -> bool {
    field.len() >= 2 && field[0] == 0x30 && field[1] == 0x78
}

/// The number that a field denotes, whatever its size.
pub open spec fn field_value(field: Seq<u8>) -> Option<int> {
    if has_hex_prefix(field) {
        unsigned_number(field.skip(2), 16)
    } else {
        unsigned_number(field, 10)
    }
}

/// Keeps a number that is at most `max`.
pub open spec fn at_most(value: Option<int>, max: u64) -> Option<u64> {
    match value {
        Some(v) if 0 <= v <= max => Some(v as u64),
        _ => None,
    }
}

/// The number that a field denotes in a column whose values are at most `max`.
#[verifier::opaque]
pub open spec fn field_number(field: Seq<u8>, max: u64) -> Option<u64> {
    at_most(field_value(field), max)
}

/// Digits never denote a negative number.
pub proof fn lemma_digits_value_nonnegative(s: Seq<u8>, radix: int)
    requires
        radix >= 1,
    ensures
        digits_value(s, radix) >= 0,
    decreases s.len(),
{
    if s.len() > 0 {
        lemma_digits_value_nonnegative(s.drop_last(), radix);
        assert(digits_value(s.drop_last(), radix) * radix >= 0) by (nonlinear_arith)
            requires
                digits_value(s.drop_last(), radix) >= 0,
                radix >= 1,
        ;
    }
}

/// Appending digits never makes a number smaller.
pub proof fn lemma_digits_value_grows(s: Seq<u8>, k: int, radix: int)
    requires
        radix >= 1,
        0 <= k <= s.len(),
    ensures
        digits_value(s.take(k), radix) <= digits_value(s, radix),
    decreases s.len(),
{
    if k == s.len() {
        assert(s.take(k) =~= s);
    } else {
        let front = s.drop_last();
        lemma_digits_value_grows(front, k, radix);
        assert(front.take(k) =~= s.take(k));
        lemma_digits_value_nonnegative(front, radix);
        assert(digits_value(front, radix) * radix >= digits_value(front, radix))
            by (nonlinear_arith)
            requires
                digits_value(front, radix) >= 0,
                radix >= 1,
        ;
    }
}

/// Reads one digit.
fn digit(b: u8, radix: u8) -> (d: Option<u8>)
    requires
        2 <= radix <= 36,
    ensures
        match d {
            Some(v) => digit_value(b, radix as int) == Some(v as int),
            None => digit_value(b, radix as int) is None,
        },
{
    let v: u8 = if 0x30 <= b && b <= 0x39 {
        b - 0x30
    } else if 0x61 <= b && b <= 0x7a {
        b - 0x61 + 10
    } else if 0x41 <= b && b <= 0x5a {
        b - 0x41 + 10
    } else {
        36
    };
    if v < radix {
        Some(v)
    } else {
        None
    }
}

/// Reads the digits that follow the first `start` bytes of `text`.
fn parse_digits(text: &[u8], start: usize, radix: u8, max: u64) -> (value: Option<u64>)
    requires
        start <= text.len(),
        2 <= radix <= 36,
    ensures
        value == at_most(digits_number(text@.skip(start as int), radix as int), max),
{
    let ghost digits = text@.skip(start as int);
    let mut acc: u64 = 0;
    let mut i: usize = start;
    while i < text.len()
        invariant
            start <= i <= text.len(),
            2 <= radix <= 36,
            digits == text@.skip(start as int),
            all_digits(digits.take(i - start), radix as int),
            acc == digits_value(digits.take(i - start), radix as int),
            acc <= max,
        decreases text.len() - i,
    {
        let ghost seen = digits.take(i - start);
        let ghost next = digits.take(i - start + 1);
        proof {
            assert(next.drop_last() =~= seen);
            assert(next.last() == text@[i as int]);
            assert(digits[i - start] == text@[i as int]);
        }
        match digit(text[i], radix) {
            None => {
                return None;
            },
            Some(d) => {
                assert(acc * radix + d <= u64::MAX * 36 + 36) by (nonlinear_arith)
                    requires
                        0 <= acc <= u64::MAX,
                        0 <= radix <= 36,
                        0 <= d <= 36,
                ;
                let wide: u128 = (acc as u128) * (radix as u128) + (d as u128);
                assert(wide == digits_value(next, radix as int));
                if wide > max as u128 {
                    proof {
                        if all_digits(digits, radix as int) {
                            lemma_digits_value_grows(digits, i - start + 1, radix as int);
                        }
                    }
                    return None;
                }
                assert forall|j: int| 0 <= j < next.len() implies (#[trigger] digit_value(
                    next[j],
                    radix as int,
                )) is Some by {
                    if j < seen.len() {
                        assert(next[j] == seen[j]);
                    }
                }
                acc = wide as u64;
                i += 1;
            },
        }
    }
    proof {
        assert(digits.take(i - start) =~= digits);
        lemma_digits_value_nonnegative(digits, radix as int);
    }
    if i == start {
        None
    } else {
        Some(acc)
    }
}

/// Reads a numeric field of a column whose values are at most `max`.
///
/// Returns the number that the field denotes, and `None` where the field is
/// not written as a number or denotes one above `max`.
pub fn parse_number(field: &[u8], max: u64) -> (value: Option<u64>)
    ensures
        value == field_number(field@, max),
        value matches Some(v) ==> v <= max,
{
    let hex = field.len() >= 2 && field[0] == 0x30 && field[1] == 0x78;
    let radix: u8 = if hex {
        16
    } else {
        10
    };
    let body: usize = if hex {
        2
    } else {
        0
    };
    let signed = body < field.len() && field[body] == 0x2b;
    let start: usize = if signed {
        body + 1
    } else {
        body
    };
    proof {
        reveal(field_number);
        let rest = field@.skip(body as int);
        assert(rest.len() > 0 ==> rest[0] == field@[body as int]);
        if signed {
            assert(rest.skip(1) =~= field@.skip(body + 1));
        }
        assert(field@.skip(0) =~= field@);
    }
    parse_digits(field, start, radix, max)
}

/// The decimal digits of `n`, most significant first, without leading zeros.
pub open spec fn decimal_text(n: nat) -> Seq<u8>
    decreases n,
{
    let last = (0x30 + n % 10) as u8;
    if n < 10 {
        seq![last]
    } else {
        decimal_text(n / 10).push(last)
    }
}

/// Appends the decimal digits of `n` to `out`.
pub fn write_decimal(n: u64, out: &mut Vec<u8>)
    ensures
        final(out)@ == old(out)@ + decimal_text(n as nat),
    decreases n,
{
    if n >= 10 {
        write_decimal(n / 10, out);
    }
    let last: u8 = 0x30 + (n % 10) as u8;
    out.push(last);
    proof {
        if n >= 10 {
            assert(final(out)@ =~= old(out)@ + decimal_text((n / 10) as nat).push(last));
        } else {
            assert(final(out)@ =~= old(out)@ + seq![last]);
        }
    }
}

} // verus!
