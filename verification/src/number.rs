//! Reading the whole part of a decimal number from text, for number fields.
//!
//! The texts are those of a floating-point literal: an optional sign, then
//! `inf`, `infinity` or `nan` in any case, or digits with an optional point
//! and an optional exponent. The value is taken exactly, not rounded to a
//! float.

use crate::stratum::{digits_value, is_digit};
use vstd::prelude::*;
use vstd::string::*;

verus! {

/// Whether a text starts with a sign.
pub open spec fn has_sign(text: Seq<char>) -> bool {
    text.len() > 0 && (text[0] == '+' || text[0] == '-')
}

/// A text without its sign.
pub open spec fn without_sign(text: Seq<char>) -> Seq<char> {
    if has_sign(text) {
        text.subrange(1, text.len() as int)
    } else {
        text
    }
}

/// The code of a character, that of the small letter for a capital letter.
pub open spec fn lower_code(c: char) -> int {
    if 65 <= c as int <= 90 {
        c as int + 32
    } else {
        c as int
    }
}

/// Whether `s` is `word`, written in any case; `word` is in small letters.
pub open spec fn is_word(s: Seq<char>, word: Seq<char>) -> bool {
    s.len() == word.len() && forall|i: int| 0 <= i < s.len() ==> lower_code(s[i]) == word[i] as int
}

/// The number of digits that follow one another in `s` from position `from` on.
pub open spec fn digit_run(s: Seq<char>, from: int) -> nat
    decreases s.len() - from,
{
    if 0 <= from < s.len() && is_digit(s[from]) {
        1 + digit_run(s, from + 1)
    } else {
        0
    }
}

/// Ten to the power `k`.
pub open spec fn pow10(k: nat) -> nat
    decreases k,
{
    if k == 0 {
        1
    } else {
        10 * pow10((k - 1) as nat)
    }
}

/// The whole part of the number whose digits are `digits`, with the point
/// after the first `point` of them: the digits before the point, filled up
/// with zeros where the point lies beyond the last digit.
pub open spec fn whole_part(digits: Seq<char>, point: int) -> nat {
    if point <= 0 {
        0
    } else if point <= digits.len() {
        digits_value(digits.subrange(0, point))
    } else {
        digits_value(digits) * pow10((point - digits.len()) as nat)
    }
}

/// The exponent that follows the digits of a number in `body` at `from`:
/// `e` or `E`, an optional sign and at least one digit up to the end.
pub open spec fn exponent_of(body: Seq<char>, from: int) -> Option<int> {
    let sign_at = from + 1;
    let signed = sign_at < body.len() && (body[sign_at] == '+' || body[sign_at] == '-');
    let digits_from = if signed {
        sign_at + 1
    } else {
        sign_at
    };
    let size = digits_value(body.subrange(digits_from, body.len() as int)) as int;
    if body[from] != 'e' && body[from] != 'E' {
        None
    } else if digit_run(body, digits_from) == 0 || digits_from + digit_run(body, digits_from)
        != body.len() {
        None
    } else if signed && body[sign_at] == '-' {
        Some(-size)
    } else {
        Some(size)
    }
}

/// The digits of a decimal number and the place of its point among them,
/// read from `body`: digits, then optionally a point and more digits, with
/// at least one digit in all; then optionally an exponent, which moves the
/// point.
pub open spec fn decimal_of(body: Seq<char>) -> Option<(Seq<char>, int)> {
    let whole = digit_run(body, 0) as int;
    let pointed = whole < body.len() && body[whole] == '.';
    let fraction_from = if pointed {
        whole + 1
    } else {
        whole
    };
    let fraction = digit_run(body, fraction_from) as int;
    let mantissa_end = fraction_from + fraction;
    let digits = body.subrange(0, whole) + body.subrange(fraction_from, mantissa_end);
    if whole + fraction == 0 {
        None
    } else if mantissa_end == body.len() {
        Some((digits, whole))
    } else {
        match exponent_of(body, mantissa_end) {
            None => None,
            Some(exponent) => Some((digits, whole + exponent)),
        }
    }
}

/// The number that a text denotes for a number field: the whole part of
/// the decimal number, at most 255, and zero for a negative number. Infinity
/// counts as the largest value and `nan` as zero.
pub open spec fn number_of(text: Seq<char>) -> Option<u8> {
    let body = without_sign(text);
    let negative = has_sign(text) && text[0] == '-';
    if is_word(body, "inf"@) || is_word(body, "infinity"@) {
        Some(
            if negative {
                0u8
            } else {
                255u8
            },
        )
    } else if is_word(body, "nan"@) {
        Some(0u8)
    } else {
        match decimal_of(body) {
            None => None,
            Some((digits, point)) => Some(
                if negative {
                    0u8
                } else if whole_part(digits, point) > 255 {
                    255u8
                } else {
                    whole_part(digits, point) as u8
                },
            ),
        }
    }
}

/// A value, or 256 for every value above 255.
pub open spec fn capped(value: nat) -> nat {
    if value > 255 {
        256
    } else {
        value
    }
}

proof fn lemma_digit_run(s: Seq<char>, from: int, end: int)
    requires
        0 <= from <= end <= s.len(),
        forall|j: int| from <= j < end ==> is_digit(s[j]),
        end == s.len() || !is_digit(s[end]),
    ensures
        digit_run(s, from) == end - from,
    decreases end - from,
{
    if from < end {
        lemma_digit_run(s, from + 1, end);
    }
}

proof fn lemma_pow10_grows(k: nat, more: nat)
    requires
        k <= more,
    ensures
        1 <= pow10(k) <= pow10(more),
    decreases more,
{
    if more > 0 {
        if k < more {
            lemma_pow10_grows(k, (more - 1) as nat);
        } else {
            lemma_pow10_grows((k - 1) as nat, (more - 1) as nat);
        }
    }
}

fn same_word(s: &str, word: &str) -> (r: bool)
    ensures
        r == is_word(s@, word@),
{
    let n = s.unicode_len();
    if n != word.unicode_len() {
        return false;
    }
    let mut i: usize = 0;
    while i < n
        invariant
            i <= n,
            n == s@.len(),
            n == word@.len(),
            forall|j: int| 0 <= j < i ==> lower_code(s@[j]) == word@[j] as int,
        decreases n - i,
    {
        let code: u32 = s.get_char(i) as u32;
        let low: u32 = if code >= 65 && code <= 90 {
            code + 32
        } else {
            code
        };
        if low != word.get_char(i) as u32 {
            assert(lower_code(s@[i as int]) != word@[i as int] as int);
            return false;
        }
        i += 1;
    }
    true
}

/// The end of the digits that follow one another in `s` from `from` on.
fn scan_digits(s: &str, len: usize, from: usize) -> (end: usize)
    requires
        len == s@.len(),
        from <= len,
    ensures
        from <= end <= len,
        end - from == digit_run(s@, from as int),
        forall|j: int| from <= j < end ==> is_digit(s@[j]),
        end == len || !is_digit(s@[end as int]),
{
    let mut i: usize = from;
    let mut more = true;
    while i < len && more
        invariant
            from <= i <= len,
            len == s@.len(),
            forall|j: int| from <= j < i ==> is_digit(s@[j]),
            !more ==> i < len && !is_digit(s@[i as int]),
        decreases
                len - i + if more {
                    1int
                } else {
                    0int
                },
    {
        let code: u32 = s.get_char(i) as u32;
        if code >= 48 && code <= 57 {
            i += 1;
        } else {
            more = false;
        }
    }
    proof {
        lemma_digit_run(s@, from as int, i as int);
    }
    i
}

/// The value of the digits of `s` from `from` to `end`, capped at `cap`.
fn capped_value(s: &str, from: usize, end: usize, cap: u128) -> (r: u128)
    requires
        from <= end <= s@.len(),
        forall|j: int| from <= j < end ==> is_digit(s@[j]),
        cap <= 0x1_0000_0000_0000_0000_0000,
    ensures
        r == if digits_value(s@.subrange(from as int, end as int)) > cap {
            cap as nat
        } else {
            digits_value(s@.subrange(from as int, end as int))
        },
{
    let ghost digits = s@.subrange(from as int, end as int);
    let mut value: u128 = 0;
    let mut i: usize = from;
    assert(digits.subrange(0, 0) =~= Seq::<char>::empty());
    while i < end
        invariant
            from <= i <= end,
            end <= s@.len(),
            digits == s@.subrange(from as int, end as int),
            forall|j: int| from <= j < end ==> is_digit(s@[j]),
            cap <= 0x1_0000_0000_0000_0000_0000,
            value <= cap,
            value == if digits_value(digits.subrange(0, i - from)) > cap {
                cap as nat
            } else {
                digits_value(digits.subrange(0, i - from))
            },
        decreases end - i,
    {
        let c: char = s.get_char(i);
        let code: u32 = c as u32;
        assert(is_digit(s@[i as int]));
        let ghost longer = digits.subrange(0, i - from + 1);
        assert(longer.drop_last() =~= digits.subrange(0, i - from));
        assert(longer.last() == c);
        let next: u128 = value * 10 + (code - 48) as u128;
        value = if next > cap {
            cap
        } else {
            next
        };
        i += 1;
    }
    assert(digits.subrange(0, end - from) =~= digits);
    value
}


proof fn lemma_capped_step(value: nat, digit: nat)
    requires
        digit <= 9,
    ensures
        capped(value * 10 + digit) == capped(capped(value) * 10 + digit),
{
}

proof fn lemma_far_point(digits: Seq<char>, near: int, far: int)
    requires
        digits.len() + 3 <= near <= far,
    ensures
        capped(whole_part(digits, near)) == capped(whole_part(digits, far)),
{
    let value = digits_value(digits) as int;
    let k1 = (near - digits.len()) as nat;
    let k2 = (far - digits.len()) as nat;
    lemma_pow10_grows(3, k1);
    lemma_pow10_grows(3, k2);
    assert(pow10(3) == 1000) by {
        assert(pow10(0) == 1);
        assert(pow10(1) == 10);
        assert(pow10(2) == 100);
    }
    if value > 0 {
        assert(value * pow10(k1) >= 1000 && value * pow10(k2) >= 1000) by (nonlinear_arith)
            requires
                value >= 1,
                pow10(k1) >= 1000,
                pow10(k2) >= 1000,
        ;
    } else {
        assert(value * pow10(k1) == 0 && value * pow10(k2) == 0) by (nonlinear_arith)
            requires
                value == 0,
        ;
    }
}

/// The furthest that an exponent is followed: beyond it every number is
/// zero or above the largest value.
pub const EXPONENT_CAP: u128 = 0x2_0000_0000_0000_0000;

/// The whole part, capped, of the number whose digits stand in `body` from
/// the start to `whole` and from `fraction_from` to `mantissa_end`, with
/// the point after the first `point` of them.
fn capped_whole_part(
    body: &str,
    whole: usize,
    fraction_from: usize,
    mantissa_end: usize,
    point: i128,
) -> (r: u128)
    requires
        whole <= fraction_from <= mantissa_end <= body@.len(),
        forall|j: int| 0 <= j < whole ==> is_digit(body@[j]),
        forall|j: int| fraction_from <= j < mantissa_end ==> is_digit(body@[j]),
    ensures
        r == capped(
            whole_part(
                body@.subrange(0, whole as int) + body@.subrange(
                    fraction_from as int,
                    mantissa_end as int,
                ),
                point as int,
            ),
        ),
{
    let ghost digits = body@.subrange(0, whole as int) + body@.subrange(
        fraction_from as int,
        mantissa_end as int,
    );
    if point <= 0 {
        return 0;
    }
    let count: usize = whole + (mantissa_end - fraction_from);
    let take: usize = if point >= count as i128 {
        count
    } else {
        point as usize
    };
    let mut value: u128 = 0;
    let mut j: usize = 0;
    assert(digits.subrange(0, 0) =~= Seq::<char>::empty());
    while j < take
        invariant
            j <= take <= count,
            count == digits.len(),
            count == whole + (mantissa_end - fraction_from),
            whole <= fraction_from <= mantissa_end <= body@.len(),
            digits == body@.subrange(0, whole as int) + body@.subrange(
                fraction_from as int,
                mantissa_end as int,
            ),
            forall|k: int| 0 <= k < whole ==> is_digit(body@[k]),
            forall|k: int| fraction_from <= k < mantissa_end ==> is_digit(body@[k]),
            value <= 256,
            value == capped(digits_value(digits.subrange(0, j as int))),
        decreases take - j,
    {
        let at: usize = if j < whole {
            j
        } else {
            fraction_from + (j - whole)
        };
        let c: char = body.get_char(at);
        let code: u32 = c as u32;
        assert(digits[j as int] == c);
        assert(is_digit(body@[at as int]));
        let ghost shorter = digits.subrange(0, j as int);
        let ghost longer = digits.subrange(0, j + 1);
        assert(longer.drop_last() =~= shorter);
        assert(longer.last() == c);
        proof {
            lemma_capped_step(digits_value(shorter), (code - 48) as nat);
        }
        let next: u128 = value * 10 + (code - 48) as u128;
        value = if next > 255 {
            256
        } else {
            next
        };
        j += 1;
    }
    if point <= count as i128 {
        return value;
    }
    assert(digits.subrange(0, count as int) =~= digits);
    let gap: i128 = point - count as i128;
    let extra: usize = if gap > 3 {
        3
    } else {
        gap as usize
    };
    let ghost all = digits_value(digits);
    let mut k: usize = 0;
    assert(all * pow10(0) == all) by (nonlinear_arith)
        requires
            pow10(0) == 1,
    ;
    while k < extra
        invariant
            k <= extra <= 3,
            value <= 256,
            value == capped(all * pow10(k as nat)),
        decreases extra - k,
    {
        proof {
            assert(pow10((k + 1) as nat) == 10 * pow10(k as nat));
            assert(all * pow10((k + 1) as nat) == (all * pow10(k as nat)) * 10) by (nonlinear_arith)
                requires
                    pow10((k + 1) as nat) == 10 * pow10(k as nat),
            ;
            lemma_capped_step(all * pow10(k as nat), 0);
        }
        let next: u128 = value * 10;
        value = if next > 255 {
            256
        } else {
            next
        };
        k += 1;
    }
    proof {
        if gap > 3 {
            lemma_far_point(digits, count + 3, point as int);
        }
    }
    value
}

/// Where the digits of a number stand in a text, and where its point lies.
struct Reading {
    /// The end of the digits before the point, which start the text.
    whole: usize,
    /// The start of the digits after the point.
    fraction_from: usize,
    /// The end of the digits after the point.
    mantissa_end: usize,
    /// The number of digits before the point, once the exponent has moved
    /// it; an exponent beyond the cap counts as the cap.
    point: i128,
}

/// An exponent as it was read.
struct Exponent {
    /// Whether the exponent has a minus sign.
    negative: bool,
    /// The size of the exponent; a size beyond the cap counts as the cap.
    size: u128,
}

/// Reads an exponent that starts at `from`.
fn read_exponent(body: &str, len: usize, from: usize) -> (r: Option<Exponent>)
    requires
        len == body@.len(),
        from < len,
    ensures
        match exponent_of(body@, from as int) {
            None => r is None,
            Some(exponent) => {
                &&& r is Some
                &&& r->0.negative ==> exponent <= 0 && r->0.size == if -exponent > EXPONENT_CAP {
                    EXPONENT_CAP as int
                } else {
                    -exponent
                }
                &&& !r->0.negative ==> exponent >= 0 && r->0.size == if exponent > EXPONENT_CAP {
                    EXPONENT_CAP as int
                } else {
                    exponent
                }
            },
        },
{
    let mark = body.get_char(from);
    if mark != 'e' && mark != 'E' {
        return None;
    }
    let sign_at: usize = from + 1;
    let mut negative = false;
    let mut digits_from: usize = sign_at;
    if sign_at < len {
        let c = body.get_char(sign_at);
        if c == '-' {
            negative = true;
            digits_from = sign_at + 1;
        } else if c == '+' {
            digits_from = sign_at + 1;
        }
    }
    let end = scan_digits(body, len, digits_from);
    if end == digits_from || end != len {
        return None;
    }
    Some(Exponent { negative, size: capped_value(body, digits_from, len, EXPONENT_CAP) })
}

/// Reads the digits of a decimal number and the place of its point.
fn read_decimal(body: &str) -> (r: Option<Reading>)
    ensures
        match decimal_of(body@) {
            None => r is None,
            Some((digits, point)) => {
                &&& r is Some
                &&& r->0.whole <= r->0.fraction_from <= r->0.mantissa_end <= body@.len()
                &&& digits == body@.subrange(0, r->0.whole as int) + body@.subrange(
                    r->0.fraction_from as int,
                    r->0.mantissa_end as int,
                )
                &&& forall|j: int| 0 <= j < r->0.whole ==> is_digit(body@[j])
                &&& forall|j: int|
                    r->0.fraction_from <= j < r->0.mantissa_end ==> is_digit(body@[j])
                &&& capped(whole_part(digits, r->0.point as int)) == capped(
                    whole_part(digits, point),
                )
            },
        },
{
    let len = body.unicode_len();
    let whole = scan_digits(body, len, 0);
    let pointed = whole < len && body.get_char(whole) == '.';
    let fraction_from: usize = if pointed {
        whole + 1
    } else {
        whole
    };
    let mantissa_end = scan_digits(body, len, fraction_from);
    if whole + (mantissa_end - fraction_from) == 0 {
        return None;
    }
    let ghost digits = body@.subrange(0, whole as int) + body@.subrange(
        fraction_from as int,
        mantissa_end as int,
    );
    if mantissa_end == len {
        return Some(Reading { whole, fraction_from, mantissa_end, point: whole as i128 });
    }
    match read_exponent(body, len, mantissa_end) {
        None => None,
        Some(read) => {
            let ghost exponent = exponent_of(body@, mantissa_end as int)->0;
            let point: i128 = if read.negative {
                whole as i128 - read.size as i128
            } else {
                whole as i128 + read.size as i128
            };
            proof {
                if !read.negative && exponent > EXPONENT_CAP {
                    lemma_far_point(digits, point as int, whole + exponent);
                }
            }
            Some(Reading { whole, fraction_from, mantissa_end, point })
        },
    }
}

/// Reads the value of a number field.
pub fn parse_number(text: &str) -> (r: Option<u8>)
    ensures
        r == number_of(text@),
{
    let n = text.unicode_len();
    let mut negative = false;
    let mut first: usize = 0;
    if n > 0 {
        let sign = text.get_char(0);
        if sign == '-' {
            negative = true;
            first = 1;
        } else if sign == '+' {
            first = 1;
        }
    }
    let body = text.substring_char(first, n);
    assert(body@ =~= without_sign(text@));
    if same_word(body, "inf") || same_word(body, "infinity") {
        return Some(
            if negative {
                0
            } else {
                255
            },
        );
    }
    if same_word(body, "nan") {
        return Some(0);
    }
    match read_decimal(body) {
        None => None,
        Some(reading) => {
            if negative {
                return Some(0);
            }
            let value = capped_whole_part(
                body,
                reading.whole,
                reading.fraction_from,
                reading.mantissa_end,
                reading.point,
            );
            Some(
                if value > 255 {
                    255
                } else {
                    value as u8
                },
            )
        },
    }
}

} // verus!
