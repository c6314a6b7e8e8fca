//! Decimal numbers as the records write them.
//!
//! An unsigned number is an optional `+` and then one or more digits; a
//! signed number may begin with `-` instead. The specification functions give
//! such a text its mathematical value; the executable functions read it into
//! a machine integer and tell when it does not fit.

use vstd::prelude::*;
use vstd::arithmetic::div_mod::{lemma_add_mod_noop, lemma_mul_mod_noop_right};
use vstd::slice::slice_subrange;

verus! {

/// Whether `c` is one of the ten decimal digits.
pub open spec fn is_digit(c: char) -> bool {
    '0' <= c && c <= '9'
}

/// The number that a decimal digit stands for.
pub open spec fn digit_value(c: char) -> nat {
    if is_digit(c) {
        (c as u32 - '0' as u32) as nat
    } else {
        0
    }
}

/// The digit that stands for a number below ten.
pub open spec fn digit_char(d: int) -> char {
    if d == 0 {
        '0'
    } else if d == 1 {
        '1'
    } else if d == 2 {
        '2'
    } else if d == 3 {
        '3'
    } else if d == 4 {
        '4'
    } else if d == 5 {
        '5'
    } else if d == 6 {
        '6'
    } else if d == 7 {
        '7'
    } else if d == 8 {
        '8'
    } else {
        '9'
    }
}

/// The digits that write a number, without leading zeros.
pub open spec fn digits_of(n: nat) -> Seq<char>
    decreases n,
{
    if n < 10 {
        seq![digit_char(n as int)]
    } else {
        digits_of(n / 10).push(digit_char((n % 10) as int))
    }
}

/// The text that writes a number: its digits, behind a `-` where it is
/// negative.
pub open spec fn decimal(n: int) -> Seq<char> {
    if n < 0 {
        seq!['-'] + digits_of((-n) as nat)
    } else {
        digits_of(n as nat)
    }
}

/// Whether `s` holds digits only.
pub open spec fn all_digits(s: Seq<char>) -> bool {
    forall|i: int| 0 <= i < s.len() ==> is_digit(#[trigger] s[i])
}

/// The number that a run of digits writes, the empty run writing zero.
pub open spec fn digits_value(s: Seq<char>) -> nat
    decreases s.len(),
{
    if s.len() == 0 {
        0
    } else {
        10 * digits_value(s.drop_last()) + digit_value(s.last())
    }
}

/// The digits of an unsigned number: the text without a leading `+`.
pub open spec fn unsigned_digits(s: Seq<char>) -> Seq<char> {
    if s.len() > 0 && s[0] == '+' {
        s.skip(1)
    } else {
        s
    }
}

/// Whether `s` writes an unsigned number.
pub open spec fn is_unsigned(s: Seq<char>) -> bool {
    unsigned_digits(s).len() > 0 && all_digits(unsigned_digits(s))
}

/// The number that an unsigned text writes.
pub open spec fn unsigned_value(s: Seq<char>) -> nat {
    digits_value(unsigned_digits(s))
}

/// Whether `s` writes a signed number.
pub open spec fn is_signed(s: Seq<char>) -> bool {
    if s.len() > 0 && s[0] == '-' {
        s.len() > 1 && all_digits(s.skip(1))
    } else {
        is_unsigned(s)
    }
}

/// The number that a signed text writes.
pub open spec fn signed_value(s: Seq<char>) -> int {
    if s.len() > 0 && s[0] == '-' {
        -(digits_value(s.skip(1)) as int)
    } else {
        unsigned_value(s) as int
    }
}

/// Whether `s` writes an unsigned number no greater than `max`.
pub open spec fn unsigned_fits(s: Seq<char>, max: int) -> bool {
    is_unsigned(s) && unsigned_value(s) <= max
}

/// Whether `s` writes a signed number from `min` to `max`.
pub open spec fn signed_fits(s: Seq<char>, min: int, max: int) -> bool {
    is_signed(s) && min <= signed_value(s) <= max
}

/// A run of digits writes no less than any of its beginnings does.
pub proof fn lemma_digits_value_grows(s: Seq<char>, k: int)
    requires
        0 <= k <= s.len(),
    ensures
        digits_value(s.take(k)) <= digits_value(s),
    decreases s.len(),
{
    if k == s.len() {
        assert(s.take(k) =~= s);
    } else {
        assert(s.drop_last().take(k) =~= s.take(k));
        lemma_digits_value_grows(s.drop_last(), k);
    }
}

/// Appending a digit to a number and to its low 64 bits gives numbers with
/// the same low 64 bits.
proof fn lemma_wrapping_step(v: int, d: int)
    ensures
        (10 * (v % 0x1_0000_0000_0000_0000) + d) % 0x1_0000_0000_0000_0000 == (10 * v + d)
            % 0x1_0000_0000_0000_0000,
{
    let m = 0x1_0000_0000_0000_0000int;
    lemma_mul_mod_noop_right(10, v, m);
    lemma_add_mod_noop(10 * (v % m), d, m);
    lemma_add_mod_noop(10 * v, d, m);
}

/// The digit for a number below ten is a digit, and stands for that number.
pub proof fn lemma_digit_char(d: int)
    requires
        0 <= d <= 9,
    ensures
        is_digit(digit_char(d)),
        digit_value(digit_char(d)) == d,
{
}

/// The digits of a number are digits, and they write that number.
pub proof fn lemma_digits_of(n: nat)
    ensures
        digits_of(n).len() > 0,
        all_digits(digits_of(n)),
        digits_value(digits_of(n)) == n,
    decreases n,
{
    let s = digits_of(n);
    lemma_digit_char((n % 10) as int);
    assert(s.last() == digit_char((n % 10) as int));
    if n >= 10 {
        lemma_digits_of(n / 10);
        assert(s.drop_last() =~= digits_of(n / 10));
        assert forall|i: int| 0 <= i < s.len() implies is_digit(#[trigger] s[i]) by {
            if i < s.len() - 1 {
                assert(s[i] == digits_of(n / 10)[i]);
            }
        }
    } else {
        assert(s.drop_last() =~= Seq::<char>::empty());
        assert(digits_value(s.drop_last()) == 0);
    }
}

/// Writing a number and reading the text gives the number back.
pub proof fn lemma_decimal_round_trip(n: int)
    ensures
        is_signed(decimal(n)),
        signed_value(decimal(n)) == n,
{
    if n < 0 {
        lemma_digits_of((-n) as nat);
        assert(decimal(n).skip(1) =~= digits_of((-n) as nat));
    } else {
        lemma_digits_of(n as nat);
    }
}

/// The digit that stands for a number below ten.
pub fn digit_for(d: u8) -> (c: char)
    requires
        d <= 9,
    ensures
        c == digit_char(d as int),
{
    if d == 0 {
        '0'
    } else if d == 1 {
        '1'
    } else if d == 2 {
        '2'
    } else if d == 3 {
        '3'
    } else if d == 4 {
        '4'
    } else if d == 5 {
        '5'
    } else if d == 6 {
        '6'
    } else if d == 7 {
        '7'
    } else if d == 8 {
        '8'
    } else {
        '9'
    }
}

/// Appends the digits of `n` to `out`.
fn push_digits(out: &mut Vec<char>, n: u64)
    ensures
        final(out)@ == old(out)@ + digits_of(n as nat),
    decreases n,
{
    if n >= 10 {
        push_digits(out, n / 10);
    }
    out.push(digit_for((n % 10) as u8));
    proof {
        if n >= 10 {
            assert(final(out)@ =~= old(out)@ + digits_of(n as nat));
        } else {
            assert(final(out)@ =~= old(out)@ + digits_of(n as nat));
        }
    }
}

/// Appends the text that writes `n` to `out`.
pub fn push_decimal(out: &mut Vec<char>, n: i64)
    ensures
        final(out)@ == old(out)@ + decimal(n as int),
{
    if n < 0 {
        out.push('-');
        let magnitude: u64 = if n == i64::MIN {
            0x8000_0000_0000_0000
        } else {
            (-n) as u64
        };
        push_digits(out, magnitude);
        proof {
            assert(final(out)@ =~= old(out)@ + decimal(n as int));
        }
    } else {
        push_digits(out, n as u64);
    }
}

/// The value of a digit, if `c` is one.
pub fn digit_of(c: char) -> (r: Option<u8>)
    ensures
        r is Some <==> is_digit(c),
        r matches Some(d) ==> d == digit_value(c) && d <= 9,
{
    if '0' <= c && c <= '9' {
        Some((c as u32 - '0' as u32) as u8)
    } else {
        None
    }
}

/// Reads a run of digits that writes a number no greater than `max`.
pub fn parse_digits(text: &[char], max: u64) -> (r: Option<u64>)
    ensures
        r == (if text@.len() > 0 && all_digits(text@) && digits_value(text@) <= max {
            Some(digits_value(text@) as u64)
        } else {
            None
        }),
{
    let n = text.len();
    if n == 0 {
        return None;
    }
    let mut acc: u64 = 0;
    let mut i: usize = 0;
    while i < n
        invariant
            n == text@.len(),
            i <= n,
            all_digits(text@.take(i as int)),
            acc == digits_value(text@.take(i as int)),
            acc <= max,
        decreases n - i,
    {
        let ghost before = text@.take(i as int);
        let ghost after = text@.take(i + 1);
        proof {
            assert(after.drop_last() =~= before);
            assert(after.last() == text@[i as int]);
        }
        match digit_of(text[i]) {
            None => {
                return None;
            },
            Some(d) => {
                let next: u128 = acc as u128 * 10 + d as u128;
                if next > max as u128 {
                    proof {
                        lemma_digits_value_grows(text@, i + 1);
                    }
                    return None;
                }
                acc = next as u64;
                proof {
                    assert forall|j: int| 0 <= j < after.len() implies is_digit(
                        #[trigger] after[j],
                    ) by {
                        if j < i {
                            assert(after[j] == before[j]);
                        }
                    }
                }
            },
        }
        i += 1;
    }
    proof {
        assert(text@.take(n as int) =~= text@);
    }
    Some(acc)
}

/// Reads a run of digits of any length, keeping the low 64 bits of the
/// number that it writes.
pub fn parse_digits_wrapping(text: &[char]) -> (r: Option<u64>)
    ensures
        r == (if text@.len() > 0 && all_digits(text@) {
            Some((digits_value(text@) % 0x1_0000_0000_0000_0000) as u64)
        } else {
            None
        }),
{
    let n = text.len();
    if n == 0 {
        return None;
    }
    let mut acc: u64 = 0;
    let mut i: usize = 0;
    while i < n
        invariant
            n == text@.len(),
            i <= n,
            all_digits(text@.take(i as int)),
            acc == digits_value(text@.take(i as int)) % 0x1_0000_0000_0000_0000,
        decreases n - i,
    {
        let ghost before = text@.take(i as int);
        let ghost after = text@.take(i + 1);
        proof {
            assert(after.drop_last() =~= before);
            assert(after.last() == text@[i as int]);
        }
        match digit_of(text[i]) {
            None => {
                return None;
            },
            Some(d) => {
                let next: u128 = (acc as u128 * 10 + d as u128) % 0x1_0000_0000_0000_0000u128;
                proof {
                    lemma_wrapping_step(digits_value(before) as int, d as int);
                    assert forall|j: int| 0 <= j < after.len() implies is_digit(
                        #[trigger] after[j],
                    ) by {
                        if j < i {
                            assert(after[j] == before[j]);
                        }
                    }
                }
                acc = next as u64;
            },
        }
        i += 1;
    }
    proof {
        assert(text@.take(n as int) =~= text@);
    }
    Some(acc)
}

/// The digits of an unsigned number: `text` without a leading `+`.
fn after_plus(text: &[char]) -> (r: &[char])
    ensures
        r@ == unsigned_digits(text@),
{
    if text.len() > 0 && text[0] == '+' {
        proof {
            assert(text@.skip(1) =~= text@.subrange(1, text@.len() as int));
        }
        slice_subrange(text, 1, text.len())
    } else {
        text
    }
}

/// Reads an unsigned number that fits 64 bits.
pub fn parse_u64(text: &[char]) -> (r: Option<u64>)
    ensures
        r == (if unsigned_fits(text@, u64::MAX as int) {
            Some(unsigned_value(text@) as u64)
        } else {
            None
        }),
{
    parse_digits(after_plus(text), u64::MAX)
}

/// Reads an unsigned number that fits 32 bits.
pub fn parse_u32(text: &[char]) -> (r: Option<u32>)
    ensures
        r == (if unsigned_fits(text@, u32::MAX as int) {
            Some(unsigned_value(text@) as u32)
        } else {
            None
        }),
{
    match parse_digits(after_plus(text), 0xffff_ffff) {
        Some(v) => Some(v as u32),
        None => None,
    }
}

/// Reads an unsigned number of any size, keeping its low 64 bits.
pub fn parse_u64_wrapping(text: &[char]) -> (r: Option<u64>)
    ensures
        r == (if is_unsigned(text@) {
            Some((unsigned_value(text@) % 0x1_0000_0000_0000_0000) as u64)
        } else {
            None
        }),
{
    parse_digits_wrapping(after_plus(text))
}

/// Reads a signed number that fits 64 bits.
pub fn parse_i64(text: &[char]) -> (r: Option<i64>)
    ensures
        r == (if signed_fits(text@, i64::MIN as int, i64::MAX as int) {
            Some(signed_value(text@) as i64)
        } else {
            None
        }),
{
    if text.len() > 0 && text[0] == '-' {
        proof {
            assert(text@.skip(1) =~= text@.subrange(1, text@.len() as int));
        }
        let digits = slice_subrange(text, 1, text.len());
        match parse_digits(digits, 0x8000_0000_0000_0000) {
            Some(m) => {
                if m == 0x8000_0000_0000_0000 {
                    Some(i64::MIN)
                } else {
                    Some(-(m as i64))
                }
            },
            None => None,
        }
    } else {
        match parse_digits(after_plus(text), 0x7fff_ffff_ffff_ffff) {
            Some(m) => Some(m as i64),
            None => None,
        }
    }
}

/// Reads a signed number that fits 32 bits.
pub fn parse_i32(text: &[char]) -> (r: Option<i32>)
    ensures
        r == (if signed_fits(text@, i32::MIN as int, i32::MAX as int) {
            Some(signed_value(text@) as i32)
        } else {
            None
        }),
{
    match parse_i64(text) {
        Some(v) => {
            if -0x8000_0000 <= v && v <= 0x7fff_ffff {
                Some(v as i32)
            } else {
                None
            }
        },
        None => None,
    }
}

} // verus!
