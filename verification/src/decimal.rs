//! Decimal integer text: the grammar of the numbers carried by request
//! parameters and configuration values, and bounded parsers for it.
//!
//! A number is an optional sign followed by one or more ASCII digits. A
//! leading `+` is always accepted; a leading `-` only where the target type
//! is signed. Nothing else may surround the digits.

use vstd::prelude::*;
use vstd::string::*;

verus! {

/// Why a piece of text does not denote a number of the wanted type.
#[derive(Clone, Copy, Debug, PartialEq, Eq, Structural)]
pub enum NumberError {
    /// The text is not an optional sign followed by at least one digit.
    Malformed,
    /// The text is a number, but one that the target type cannot hold.
    OutOfRange,
}

/// Whether `c` is one of the ten ASCII digits.
pub open spec fn is_digit(c: char) -> bool {
    '0' <= c && c <= '9'
}

/// The value of the digit `c`.
pub open spec fn digit_value(c: char) -> int {
    c as int - '0' as int
}

/// Whether every character of `s` is a digit.
pub open spec fn all_digits(s: Seq<char>) -> bool {
    forall|i: int| 0 <= i < s.len() ==> is_digit(#[trigger] s[i])
}

/// The number that a run of digits denotes, most significant digit first.
pub open spec fn digits_value(s: Seq<char>) -> int
    decreases s.len(),
{
    if s.len() == 0 {
        0
    } else {
        10 * digits_value(s.drop_last()) + digit_value(s.last())
    }
}

/// Whether `s` opens with a sign that a target of the given signedness accepts.
pub open spec fn has_sign(s: Seq<char>, signed: bool) -> bool {
    s.len() > 0 && (s[0] == '+' || (signed && s[0] == '-'))
}

/// Whether `s` opens with an accepted minus sign.
pub open spec fn is_negative(s: Seq<char>, signed: bool) -> bool {
    signed && s.len() > 0 && s[0] == '-'
}

/// What follows the sign, or all of `s` where it has none.
pub open spec fn magnitude_text(s: Seq<char>, signed: bool) -> Seq<char> {
    if has_sign(s, signed) {
        s.subrange(1, s.len() as int)
    } else {
        s
    }
}

/// Whether `s` is an optional sign followed by one or more digits.
pub open spec fn well_formed(s: Seq<char>, signed: bool) -> bool {
    magnitude_text(s, signed).len() > 0 && all_digits(magnitude_text(s, signed))
}

/// The number that well-formed text denotes.
pub open spec fn number_value(s: Seq<char>, signed: bool) -> int {
    if is_negative(s, signed) {
        -digits_value(magnitude_text(s, signed))
    } else {
        digits_value(magnitude_text(s, signed))
    }
}

/// The signed 8-bit integer that `s` denotes.
pub open spec fn i8_of_text(s: Seq<char>) -> Result<i8, NumberError> {
    if !well_formed(s, true) {
        Err(NumberError::Malformed)
    } else if -128 <= number_value(s, true) <= 127 {
        Ok(number_value(s, true) as i8)
    } else {
        Err(NumberError::OutOfRange)
    }
}

/// The unsigned 16-bit integer that `s` denotes.
pub open spec fn u16_of_text(s: Seq<char>) -> Result<u16, NumberError> {
    if !well_formed(s, false) {
        Err(NumberError::Malformed)
    } else if number_value(s, false) <= 65535 {
        Ok(number_value(s, false) as u16)
    } else {
        Err(NumberError::OutOfRange)
    }
}

/// The character that writes the digit `d`.
pub open spec fn digit_char(d: int) -> char {
    (d + '0' as int) as char
}

/// The digits of `n`, most significant first and without leading zeros.
pub open spec fn digits_of(n: nat) -> Seq<char>
    decreases n,
{
    if n < 10 {
        seq![digit_char(n as int)]
    } else {
        digits_of(n / 10).push(digit_char((n % 10) as int))
    }
}

/// The usual decimal writing of `n`: a minus sign where it is negative, then
/// its digits.
pub open spec fn decimal_text(n: int) -> Seq<char> {
    if n < 0 {
        seq!['-'] + digits_of((-n) as nat)
    } else {
        digits_of(n as nat)
    }
}

/// A run of digits denotes a natural number.
pub proof fn lemma_digits_value_nonnegative(s: Seq<char>)
    requires
        all_digits(s),
    ensures
        digits_value(s) >= 0,
    decreases s.len(),
{
    if s.len() > 0 {
        lemma_digits_value_nonnegative(s.drop_last());
    }
}

/// The digits of a natural number are digits, at least one, and denote it.
pub proof fn lemma_digits_of_denotes(n: nat)
    ensures
        digits_of(n).len() > 0,
        all_digits(digits_of(n)),
        digits_value(digits_of(n)) == n,
    decreases n,
{
    if n < 10 {
        let s = digits_of(n);
        assert(s.drop_last().len() == 0);
        assert(digits_value(s) == 10 * digits_value(s.drop_last()) + digit_value(s.last()));
    } else {
        lemma_digits_of_denotes(n / 10);
        let s = digits_of(n);
        assert(s.drop_last() == digits_of(n / 10));
        assert(digit_value(s.last()) == n % 10);
    }
}

/// The decimal writing of an integer is a number, and denotes that integer,
/// for a signed target always and for an unsigned one where the integer is
/// not negative.
pub proof fn lemma_decimal_text_denotes(n: int, signed: bool)
    requires
        signed || n >= 0,
    ensures
        well_formed(decimal_text(n), signed),
        number_value(decimal_text(n), signed) == n,
{
    if n < 0 {
        let d = digits_of((-n) as nat);
        lemma_digits_of_denotes((-n) as nat);
        assert(decimal_text(n)[0] == '-');
        assert(magnitude_text(decimal_text(n), signed) == d);
    } else {
        let d = digits_of(n as nat);
        lemma_digits_of_denotes(n as nat);
        assert(is_digit(d[0]));
        assert(magnitude_text(decimal_text(n), signed) == d);
    }
}

/// A negative integer's decimal writing is no number for an unsigned target.
pub proof fn lemma_negative_is_malformed_unsigned(n: int)
    requires
        n < 0,
    ensures
        !well_formed(decimal_text(n), false),
{
    let s = decimal_text(n);
    assert(s[0] == '-');
    assert(magnitude_text(s, false) == s);
    assert(!is_digit(s[0]));
}

/// Every signed 8-bit integer is read back from its decimal writing.
pub proof fn lemma_i8_round_trip(v: i8)
    ensures
        i8_of_text(decimal_text(v as int)) == Ok::<i8, NumberError>(v),
{
    lemma_decimal_text_denotes(v as int, true);
}

/// The decimal writing of an integer below -128 or above 127 is rejected as
/// out of range for a signed 8-bit integer.
pub proof fn lemma_i8_out_of_range(n: int)
    requires
        n < -128 || n > 127,
    ensures
        i8_of_text(decimal_text(n)) == Err::<i8, NumberError>(NumberError::OutOfRange),
{
    lemma_decimal_text_denotes(n, true);
}

/// Every unsigned 16-bit integer is read back from its decimal writing.
pub proof fn lemma_u16_round_trip(v: u16)
    ensures
        u16_of_text(decimal_text(v as int)) == Ok::<u16, NumberError>(v),
{
    lemma_decimal_text_denotes(v as int, false);
}

/// The decimal writing of an integer above 65535 is rejected as out of range
/// for an unsigned 16-bit integer, and that of a negative one as malformed.
pub proof fn lemma_u16_rejected(n: int)
    requires
        n < 0 || n > 65535,
    ensures
        n > 65535 ==> u16_of_text(decimal_text(n)) == Err::<u16, NumberError>(
            NumberError::OutOfRange,
        ),
        n < 0 ==> u16_of_text(decimal_text(n)) == Err::<u16, NumberError>(NumberError::Malformed),
{
    if n < 0 {
        lemma_negative_is_malformed_unsigned(n);
    } else {
        lemma_decimal_text_denotes(n, false);
    }
}

/// Text with a character outside ASCII is not a number.
proof fn lemma_non_ascii_is_malformed(s: Seq<char>, signed: bool)
    requires
        !vstd::utf8::is_ascii_chars(s),
    ensures
        !well_formed(s, signed),
{
    let i = choose|i: int| 0 <= i < s.len() && !('\0' <= #[trigger] s[i] <= '\u{7f}');
    let m = magnitude_text(s, signed);
    if has_sign(s, signed) {
        assert(i >= 1);
        assert(m[i - 1] == s[i]);
    } else {
        assert(m[i] == s[i]);
    }
}

/// The byte that encodes `+`.
const PLUS: u8 = 43;

/// The byte that encodes `-`.
const MINUS: u8 = 45;

/// The byte that encodes the digit `0`.
const DIGIT_ZERO: u8 = 48;

/// The byte that encodes the digit `9`.
const DIGIT_NINE: u8 = 57;

/// Reads the sign and the digits of `text`. The magnitude is exact up to
/// `limit` and stays at `limit` for every larger number.
fn scan(text: &str, signed: bool, limit: u32) -> (r: Option<(bool, u32)>)
    requires
        limit <= 400_000_000,
    ensures
        r is Some <==> well_formed(text@, signed),
        r matches Some((negative, magnitude)) ==> {
            &&& negative == is_negative(text@, signed)
            &&& magnitude <= limit
            &&& digits_value(magnitude_text(text@, signed)) <= limit ==> magnitude
                == digits_value(magnitude_text(text@, signed))
            &&& digits_value(magnitude_text(text@, signed)) > limit ==> magnitude == limit
        },
{
    if !text.is_ascii() {
        proof {
            lemma_non_ascii_is_malformed(text@, signed);
        }
        return None;
    }
    let bytes = text.as_bytes();
    proof {
        is_ascii_spec_bytes(text);
    }
    let n = bytes.len();
    if n == 0 {
        return None;
    }
    let first = bytes[0];
    let negative = signed && first == MINUS;
    let start: usize = if first == PLUS || negative {
        1
    } else {
        0
    };
    let ghost digits = magnitude_text(text@, signed);
    assert(digits == text@.subrange(start as int, n as int));
    if start == n {
        return None;
    }
    let mut i: usize = start;
    let mut magnitude: u32 = 0;
    while i < n
        invariant
            start <= i <= n,
            n == text@.len(),
            n == bytes@.len(),
            limit <= 400_000_000,
            forall|k: int| 0 <= k < n ==> bytes@[k] == text@[k] as u8,
            vstd::utf8::is_ascii_chars(text@),
            digits == magnitude_text(text@, signed),
            digits == text@.subrange(start as int, n as int),
            all_digits(text@.subrange(start as int, i as int)),
            magnitude <= limit,
            digits_value(text@.subrange(start as int, i as int)) <= limit ==> magnitude
                == digits_value(text@.subrange(start as int, i as int)),
            digits_value(text@.subrange(start as int, i as int)) > limit ==> magnitude == limit,
        decreases n - i,
    {
        let b = bytes[i];
        let ghost c = text@[i as int];
        if b < DIGIT_ZERO || b > DIGIT_NINE {
            assert(digits[i - start] == c);
            return None;
        }
        let digit: u32 = (b - DIGIT_ZERO) as u32;
        proof {
            let before = text@.subrange(start as int, i as int);
            let after = text@.subrange(start as int, i + 1);
            assert(after.drop_last() == before);
            lemma_digits_value_nonnegative(before);
            assert(digits_value(after) == 10 * digits_value(before) + digit);
        }
        if magnitude < limit {
            let widened: u32 = magnitude * 10 + digit;
            magnitude = if widened > limit {
                limit
            } else {
                widened
            };
        }
        i += 1;
    }
    assert(text@.subrange(start as int, i as int) == digits);
    Some((negative, magnitude))
}

/// Parses a signed 8-bit integer from its decimal text.
pub fn parse_i8(text: &str) -> (r: Result<i8, NumberError>)
    ensures
        r == i8_of_text(text@),
{
    match scan(text, true, 200) {
        None => Err(NumberError::Malformed),
        Some((negative, magnitude)) => {
            if negative {
                if magnitude <= 128 {
                    let below: i32 = 0 - (magnitude as i32);
                    Ok(below as i8)
                } else {
                    Err(NumberError::OutOfRange)
                }
            } else if magnitude <= 127 {
                Ok(magnitude as i8)
            } else {
                Err(NumberError::OutOfRange)
            }
        },
    }
}

/// Parses an unsigned 16-bit integer from its decimal text.
pub fn parse_u16(text: &str) -> (r: Result<u16, NumberError>)
    ensures
        r == u16_of_text(text@),
{
    match scan(text, false, 70_000) {
        None => Err(NumberError::Malformed),
        Some((_, magnitude)) => {
            if magnitude <= 65535 {
                Ok(magnitude as u16)
            } else {
                Err(NumberError::OutOfRange)
            }
        },
    }
}

} // verus!
