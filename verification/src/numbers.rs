//! Numbers written as text: hexadecimal `u64` and decimal `i32`.

use vstd::prelude::*;
use crate::lexer::{is_digit, is_hex_digit};
use crate::text::to_chars;

verus! {

/// The value of a digit: `0` to `9` for decimal digits, `10` to `15` for the
/// letters `a` to `f` in either case.
pub open spec fn digit_value(c: char) -> int {
    if '0' <= c <= '9' {
        c as int - '0' as int
    } else if 'a' <= c <= 'f' {
        c as int - 'a' as int + 10
    } else {
        c as int - 'A' as int + 10
    }
}

/// The number that `digits` writes in base `radix`, most significant digit
/// first.
pub open spec fn number_value(digits: Seq<char>, radix: int) -> int
    decreases digits.len(),
{
    if digits.len() == 0 {
        0
    } else {
        number_value(digits.drop_last(), radix) * radix + digit_value(digits.last())
    }
}

/// Whether `digits` holds hexadecimal digits only.
pub open spec fn all_hex_digits(digits: Seq<char>) -> bool {
    forall|i: int| 0 <= i < digits.len() ==> is_hex_digit(#[trigger] digits[i])
}

/// Whether `digits` holds decimal digits only.
pub open spec fn all_digits(digits: Seq<char>) -> bool {
    forall|i: int| 0 <= i < digits.len() ==> is_digit(#[trigger] digits[i])
}

/// `text` without a leading `0x`, if it has one.
pub open spec fn without_hex_prefix(text: Seq<char>) -> Seq<char> {
    if text.len() >= 2 && text[0] == '0' && text[1] == 'x' {
        text.subrange(2, text.len() as int)
    } else {
        text
    }
}

/// `text` without a leading `+`, if it has one.
pub open spec fn without_plus(text: Seq<char>) -> Seq<char> {
    if text.len() >= 1 && text[0] == '+' {
        text.subrange(1, text.len() as int)
    } else {
        text
    }
}

/// The digits of a hexadecimal number: what is left of `text` after an
/// optional `0x` and then an optional `+`.
pub open spec fn hex_digits_of(text: Seq<char>) -> Seq<char> {
    without_plus(without_hex_prefix(text))
}

/// The `u64` that `text` writes in hexadecimal: an optional `0x`, an
/// optional `+`, then one or more hex digits whose value fits in 64 bits.
pub open spec fn spec_parse_hex_u64(text: Seq<char>) -> Option<u64> {
    let digits = hex_digits_of(text);
    if digits.len() > 0 && all_hex_digits(digits) && number_value(digits, 16) <= u64::MAX {
        Some(number_value(digits, 16) as u64)
    } else {
        None
    }
}

/// Whether a decimal number starts with a minus sign.
pub open spec fn is_negative(text: Seq<char>) -> bool {
    text.len() >= 1 && text[0] == '-'
}

/// The digits of a decimal number: what is left of `text` after an optional
/// sign.
pub open spec fn dec_digits_of(text: Seq<char>) -> Seq<char> {
    if text.len() >= 1 && (text[0] == '+' || text[0] == '-') {
        text.subrange(1, text.len() as int)
    } else {
        text
    }
}

/// The signed value of a decimal number with an optional sign.
pub open spec fn signed_value(text: Seq<char>) -> int {
    if is_negative(text) {
        -number_value(dec_digits_of(text), 10)
    } else {
        number_value(dec_digits_of(text), 10)
    }
}

/// The `i32` that `text` writes in decimal: an optional `+` or `-`, then one
/// or more decimal digits whose signed value fits in 32 bits.
pub open spec fn spec_parse_i32(text: Seq<char>) -> Option<i32> {
    let digits = dec_digits_of(text);
    if digits.len() > 0 && all_digits(digits) && i32::MIN <= signed_value(text) <= i32::MAX {
        Some(signed_value(text) as i32)
    } else {
        None
    }
}

/// A number is at least the number that any prefix of its digits writes.
pub proof fn lemma_prefix_value(digits: Seq<char>, k: int, radix: int)
    requires
        0 <= k <= digits.len(),
        radix >= 1,
        forall|i: int| 0 <= i < digits.len() ==> is_hex_digit(#[trigger] digits[i]),
    ensures
        0 <= number_value(digits.take(k), radix) <= number_value(digits, radix),
    decreases digits.len() - k,
{
    lemma_value_nonnegative(digits.take(k), radix);
    if k < digits.len() {
        let longer = digits.take(k + 1);
        assert(longer.drop_last() =~= digits.take(k));
        assert(longer.last() == digits[k]);
        assert(number_value(longer, radix) >= number_value(digits.take(k), radix)) by (nonlinear_arith)
            requires
                number_value(longer, radix) == number_value(digits.take(k), radix) * radix
                    + digit_value(digits[k]),
                radix >= 1,
                number_value(digits.take(k), radix) >= 0,
                digit_value(digits[k]) >= 0,
        ;
        lemma_prefix_value(digits, k + 1, radix);
    } else {
        assert(digits.take(k) =~= digits);
    }
}

/// A number written with digits is not negative.
pub proof fn lemma_value_nonnegative(digits: Seq<char>, radix: int)
    requires
        radix >= 1,
        forall|i: int| 0 <= i < digits.len() ==> is_hex_digit(#[trigger] digits[i]),
    ensures
        0 <= number_value(digits, radix),
    decreases digits.len(),
{
    if digits.len() > 0 {
        lemma_value_nonnegative(digits.drop_last(), radix);
        assert(is_hex_digit(digits[digits.len() - 1]));
        assert(number_value(digits.drop_last(), radix) * radix >= 0) by (nonlinear_arith)
            requires
                number_value(digits.drop_last(), radix) >= 0,
                radix >= 1,
        ;
    }
}

/// The value of the hex digit `c`.
fn hex_digit(c: char) -> (r: Option<u8>)
    ensures
        r.is_some() == is_hex_digit(c),
        r.is_some() ==> r.unwrap() == digit_value(c) && r.unwrap() < 16,
        r.is_some() && is_digit(c) ==> r.unwrap() < 10,
{
    if '0' <= c && c <= '9' {
        Some((c as u32 - '0' as u32) as u8)
    } else if 'a' <= c && c <= 'f' {
        Some((c as u32 - 'a' as u32 + 10) as u8)
    } else if 'A' <= c && c <= 'F' {
        Some((c as u32 - 'A' as u32 + 10) as u8)
    } else {
        None
    }
}

/// The number that `chars[from..]` writes in base `radix` (10 or 16), where it
/// consists of one or more digits of that base and the number is at most
/// `limit`.
fn digits_value(chars: &Vec<char>, from: usize, radix: u64, limit: u64) -> (r: Option<u64>)
    requires
        from <= chars@.len(),
        radix == 10 || radix == 16,
    ensures
        ({
            let digits = chars@.subrange(from as int, chars@.len() as int);
            let valid = if radix == 10 {
                all_digits(digits)
            } else {
                all_hex_digits(digits)
            };
            &&& r.is_some() == (digits.len() > 0 && valid && number_value(digits, radix as int)
                <= limit)
            &&& r.is_some() ==> r.unwrap() == number_value(digits, radix as int)
        }),
{
    let n = chars.len();
    let ghost digits = chars@.subrange(from as int, n as int);
    if from == n {
        return None;
    }
    let mut acc: u64 = 0;
    let mut i: usize = from;
    while i < n
        invariant
            from <= i <= n == chars@.len(),
            radix == 10 || radix == 16,
            digits == chars@.subrange(from as int, n as int),
            forall|j: int| 0 <= j < i - from ==> is_hex_digit(#[trigger] digits[j]),
            radix == 10 ==> forall|j: int| 0 <= j < i - from ==> is_digit(#[trigger] digits[j]),
            acc == number_value(digits.take(i - from), radix as int),
            acc <= limit,
        decreases n - i,
    {
        let c = chars[i];
        assert(digits[i - from] == c);
        let d = match hex_digit(c) {
            Some(d) => d,
            None => {
                return None;
            },
        };
        if radix == 10 && d >= 10 {
            return None;
        }
        let ghost longer = digits.take(i - from + 1);
        proof {
            assert(longer.drop_last() =~= digits.take(i - from));
            assert(longer.last() == c);
        }
        let next = match acc.checked_mul(radix) {
            Some(m) => m.checked_add(d as u64),
            None => None,
        };
        let ok = match next {
            Some(v) => v <= limit,
            None => false,
        };
        if !ok {
            proof {
                assert(number_value(longer, radix as int) > limit);
                if exists|j: int| 0 <= j < digits.len() && !is_hex_digit(#[trigger] digits[j]) {
                } else {
                    lemma_prefix_value(digits, i - from + 1, radix as int);
                }
            }
            return None;
        }
        acc = next.unwrap();
        i += 1;
    }
    proof {
        assert(digits.take(n - from) =~= digits);
    }
    Some(acc)
}

/// Reads `value` as a hexadecimal `u64`: an optional `0x`, an optional `+`,
/// then one or more hex digits. `None` where the text has another shape or
/// the number does not fit in 64 bits.
pub fn parse_hex_u64(value: &str) -> (r: Option<u64>)
    ensures
        r == spec_parse_hex_u64(value@),
{
    let chars = to_chars(value);
    let n = chars.len();
    let mut from: usize = 0;
    if n >= 2 && chars[0] == '0' && chars[1] == 'x' {
        from = 2;
    }
    proof {
        assert(chars@.subrange(from as int, n as int) =~= without_hex_prefix(value@));
    }
    if n - from >= 1 && chars[from] == '+' {
        proof {
            assert(chars@.subrange(from + 1, n as int) =~= hex_digits_of(value@));
        }
        from = from + 1;
    } else {
        proof {
            assert(chars@.subrange(from as int, n as int) =~= hex_digits_of(value@));
        }
    }
    digits_value(&chars, from, 16, u64::MAX)
}

/// Reads `value` as a decimal `i32`: an optional sign, then one or more
/// decimal digits. `None` where the text has another shape or the number
/// does not fit in 32 bits.
pub fn parse_i32(value: &str) -> (r: Option<i32>)
    ensures
        r == spec_parse_i32(value@),
{
    let chars = to_chars(value);
    let n = chars.len();
    let negative = n >= 1 && chars[0] == '-';
    let from: usize = if n >= 1 && (chars[0] == '+' || chars[0] == '-') {
        1
    } else {
        0
    };
    proof {
        assert(chars@.subrange(from as int, n as int) =~= dec_digits_of(value@));
    }
    let limit: u64 = if negative {
        2147483648
    } else {
        2147483647
    };
    match digits_value(&chars, from, 10, limit) {
        Some(v) => {
            if negative {
                Some((0 - (v as i64)) as i32)
            } else {
                Some(v as i32)
            }
        },
        None => {
            proof {
                let digits = dec_digits_of(value@);
                if digits.len() > 0 && all_digits(digits) {
                    assert forall|i: int| 0 <= i < digits.len() implies is_hex_digit(
                        #[trigger] digits[i],
                    ) by {
                        assert(is_digit(digits[i]));
                    }
                    lemma_value_nonnegative(digits, 10);
                }
            }
            None
        },
    }
}

/// `text` without any leading `0x`, however often it is repeated.
pub open spec fn without_hex_prefixes(text: Seq<char>) -> Seq<char>
    decreases text.len(),
{
    if text.len() >= 2 && text[0] == '0' && text[1] == 'x' {
        without_hex_prefixes(text.subrange(2, text.len() as int))
    } else {
        text
    }
}

/// The size that `text` writes in hexadecimal, for sorting: any number of
/// leading `0x`, an optional `+`, then hex digits. Text of another shape,
/// or a number that does not fit in 64 bits, counts as 0.
pub open spec fn spec_hex_size(text: Seq<char>) -> u64 {
    let digits = without_plus(without_hex_prefixes(text));
    if digits.len() > 0 && all_hex_digits(digits) && number_value(digits, 16) <= u64::MAX {
        number_value(digits, 16) as u64
    } else {
        0
    }
}

/// The size that `value` writes in hexadecimal, or 0 where it writes none.
pub fn hex_size(value: &str) -> (r: u64)
    ensures
        r == spec_hex_size(value@),
{
    let chars = to_chars(value);
    let n = chars.len();
    let mut from: usize = 0;
    assert(chars@.subrange(0, n as int) =~= value@);
    while n - from >= 2 && chars[from] == '0' && chars[from + 1] == 'x'
        invariant
            from <= n == chars@.len(),
            without_hex_prefixes(value@) == without_hex_prefixes(
                chars@.subrange(from as int, n as int),
            ),
        decreases n - from,
    {
        assert(chars@.subrange(from as int, n as int).subrange(2, n - from) =~= chars@.subrange(
            from + 2,
            n as int,
        ));
        from += 2;
    }
    let ghost body = chars@.subrange(from as int, n as int);
    assert(without_hex_prefixes(value@) == body);
    if n - from >= 1 && chars[from] == '+' {
        assert(chars@.subrange(from + 1, n as int) =~= without_plus(body));
        from = from + 1;
    } else {
        assert(chars@.subrange(from as int, n as int) =~= without_plus(body));
    }
    match digits_value(&chars, from, 16, u64::MAX) {
        Some(v) => v,
        None => 0,
    }
}

} // verus!
