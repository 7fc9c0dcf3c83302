//! Decimal numerals as bytes: what they stand for, how they are read and how
//! they are written.

use vstd::prelude::*;
use vstd::string::*;
use vstd::utf8::*;
use crate::text::push_str;

verus! {

/// The byte of the digit `0`.
pub const ZERO: u8 = 0x30;

/// The byte of the digit `9`.
pub const NINE: u8 = 0x39;

/// The byte of the plus sign.
pub const PLUS: u8 = 0x2b;

/// The byte of the minus sign.
pub const MINUS: u8 = 0x2d;

/// Whether `b` is an ASCII decimal digit.
pub open spec fn is_digit(b: u8) -> bool {
    ZERO <= b <= NINE
}

/// Whether every byte of `s` is a decimal digit.
pub open spec fn all_digits(s: Seq<u8>) -> bool {
    forall|i: int| 0 <= i < s.len() ==> is_digit(#[trigger] s[i])
}

/// The number that a run of decimal digits stands for; leading zeros count
/// for nothing.
pub open spec fn digits_value(s: Seq<u8>) -> nat
    decreases s.len(),
{
    if s.len() == 0 {
        0
    } else {
        10 * digits_value(s.drop_last()) + (s.last() - ZERO) as nat
    }
}

/// What a numeral without a minus sign stands for: an optional `+`, then at
/// least one decimal digit and nothing else.
pub open spec fn parse_unsigned(s: Seq<u8>) -> Option<nat> {
    let body = if s.len() > 0 && s[0] == PLUS {
        s.drop_first()
    } else {
        s
    };
    if body.len() > 0 && all_digits(body) {
        Some(digits_value(body))
    } else {
        None
    }
}

/// What a numeral stands for: an optional `+` or `-`, then at least one
/// decimal digit and nothing else.
pub open spec fn parse_signed(s: Seq<u8>) -> Option<int> {
    if s.len() > 0 && s[0] == MINUS {
        let body = s.drop_first();
        if body.len() > 0 && all_digits(body) {
            Some(-(digits_value(body) as int))
        } else {
            None
        }
    } else {
        match parse_unsigned(s) {
            Some(v) => Some(v as int),
            None => None,
        }
    }
}

/// The numeral as a 32-bit signed integer, where it is one and fits.
pub open spec fn parse_i32_spec(s: Seq<u8>) -> Option<i32> {
    match parse_signed(s) {
        Some(v) => if i32::MIN <= v <= i32::MAX {
            Some(v as i32)
        } else {
            None
        },
        None => None,
    }
}

/// The numeral as a byte, where it is one without a minus sign and fits.
pub open spec fn parse_u8_spec(s: Seq<u8>) -> Option<u8> {
    match parse_unsigned(s) {
        Some(v) => if v <= u8::MAX {
            Some(v as u8)
        } else {
            None
        },
        None => None,
    }
}

/// More digits never make a smaller number.
pub proof fn lemma_digits_value_grows(s: Seq<u8>, k: int)
    requires
        0 <= k <= s.len(),
    ensures
        digits_value(s.take(k)) <= digits_value(s),
    decreases s.len() - k,
{
    if k == s.len() {
        assert(s.take(k) =~= s);
    } else {
        lemma_digits_value_grows(s, k + 1);
        assert(s.take(k + 1).drop_last() =~= s.take(k));
    }
}

/// Reads `bytes` from `from` on as a run of decimal digits that stands for a
/// number up to `limit`.
fn read_digits(bytes: &[u8], from: usize, limit: u64) -> (value: Option<u64>)
    requires
        from <= bytes@.len(),
        limit <= u64::MAX / 20,
    ensures
        ({
            let body = bytes@.skip(from as int);
            match value {
                Some(v) => body.len() > 0 && all_digits(body) && v == digits_value(body) && v
                    <= limit,
                None => !(body.len() > 0 && all_digits(body) && digits_value(body) <= limit),
            }
        }),
{
    let ghost body = bytes@.skip(from as int);
    if from == bytes.len() {
        return None;
    }
    let mut acc: u64 = 0;
    let mut i: usize = from;
    while i < bytes.len()
        invariant
            from <= i <= bytes@.len(),
            body == bytes@.skip(from as int),
            limit <= u64::MAX / 20,
            acc <= limit,
            acc == digits_value(body.take(i - from)),
            all_digits(body.take(i - from)),
        decreases bytes@.len() - i,
    {
        let b = bytes[i];
        let ghost upto = body.take(i - from + 1);
        assert(upto.drop_last() =~= body.take(i - from));
        if b < ZERO || b > NINE {
            assert(!is_digit(body[i - from]));
            return None;
        }
        let next: u64 = acc * 10 + (b - ZERO) as u64;
        if next > limit {
            proof {
                lemma_digits_value_grows(body, i - from + 1);
            }
            return None;
        }
        acc = next;
        i += 1;
    }
    assert(body.take(i - from) =~= body);
    Some(acc)
}

/// Reads a byte as Rust reads a `u8`: an optional `+`, then decimal digits
/// that stand for a number up to 255.
pub fn read_u8(s: &str) -> (value: Option<u8>)
    ensures
        value == parse_u8_spec(s.spec_bytes()),
{
    let bytes = s.as_bytes();
    let from: usize = if bytes.len() > 0 && bytes[0] == PLUS {
        1
    } else {
        0
    };
    assert(bytes@.skip(0) =~= bytes@);
    match read_digits(bytes, from, 255) {
        Some(v) => Some(v as u8),
        None => None,
    }
}

/// Reads an integer as Rust reads an `i32`: an optional sign, then decimal
/// digits that stand for a number of that range.
pub fn read_i32(s: &str) -> (value: Option<i32>)
    ensures
        value == parse_i32_spec(s.spec_bytes()),
{
    let bytes = s.as_bytes();
    assert(bytes@.skip(0) =~= bytes@);
    if bytes.len() > 0 && bytes[0] == MINUS {
        match read_digits(bytes, 1, 2147483648) {
            Some(v) => {
                if v == 2147483648 {
                    Some(i32::MIN)
                } else {
                    Some(-(v as i32))
                }
            },
            None => None,
        }
    } else {
        let from: usize = if bytes.len() > 0 && bytes[0] == PLUS {
            1
        } else {
            0
        };
        match read_digits(bytes, from, 2147483647) {
            Some(v) => Some(v as i32),
            None => None,
        }
    }
}

/// The decimal numeral of `n`, without leading zeros.
pub open spec fn decimal(n: nat) -> Seq<u8>
    decreases n,
{
    if n < 10 {
        seq![(ZERO + n) as u8]
    } else {
        decimal(n / 10).push((ZERO + n % 10) as u8)
    }
}

/// The decimal numeral of an integer, with a minus sign where it is negative.
pub open spec fn signed_decimal(n: int) -> Seq<u8> {
    if n < 0 {
        seq![MINUS] + decimal((-n) as nat)
    } else {
        decimal(n as nat)
    }
}

/// A numeral is never empty and holds digits only.
pub proof fn lemma_decimal_digits(n: nat)
    ensures
        decimal(n).len() > 0,
        all_digits(decimal(n)),
    decreases n,
{
    if n >= 10 {
        lemma_decimal_digits(n / 10);
    }
}

/// The numeral of a 32-bit integer has at most a sign and ten digits.
pub proof fn lemma_signed_decimal_short(n: int)
    requires
        i32::MIN <= n <= i32::MAX,
    ensures
        0 < signed_decimal(n).len() <= 11,
{
    let magnitude: nat = if n < 0 {
        (-n) as nat
    } else {
        n as nat
    };
    assert(decimal(magnitude).len() <= 10) by {
        reveal_with_fuel(decimal, 11);
    }
}

/// The one-character string of a digit.
fn digit_str(d: u8) -> (s: &'static str)
    requires
        d < 10,
    ensures
        s.spec_bytes() == seq![(ZERO + d) as u8],
{
    let s = match d {
        0 => "0",
        1 => "1",
        2 => "2",
        3 => "3",
        4 => "4",
        5 => "5",
        6 => "6",
        7 => "7",
        8 => "8",
        _ => "9",
    };
    proof {
        reveal_strlit("0");
        reveal_strlit("1");
        reveal_strlit("2");
        reveal_strlit("3");
        reveal_strlit("4");
        reveal_strlit("5");
        reveal_strlit("6");
        reveal_strlit("7");
        reveal_strlit("8");
        reveal_strlit("9");
        is_ascii_chars_encode_utf8(s@);
    }
    s
}

/// Appends the decimal numeral of `n` to `out`.
pub fn push_decimal(out: &mut String, n: u64)
    ensures
        encode_utf8(final(out)@) == encode_utf8(old(out)@) + decimal(n as nat),
    decreases n,
{
    if n >= 10 {
        push_decimal(out, n / 10);
    }
    push_str(out, digit_str((n % 10) as u8));
}

/// Appends the decimal numeral of `n` to `out`, with a minus sign where `n` is
/// negative.
pub fn push_signed_decimal(out: &mut String, n: i32)
    ensures
        encode_utf8(final(out)@) == encode_utf8(old(out)@) + signed_decimal(n as int),
{
    if n < 0 {
        let s = "-";
        proof {
            reveal_strlit("-");
            is_ascii_chars_encode_utf8(s@);
        }
        push_str(out, s);
        let magnitude: u64 = (-(n as i64)) as u64;
        push_decimal(out, magnitude);
    } else {
        push_decimal(out, n as u64);
    }
}

} // verus!
