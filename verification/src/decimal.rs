//! The decimal text in which big integers cross the boundary: an optional
//! sign, then one digit or more, closed by a zero byte. Text sidesteps every
//! question of byte order and word size between the two sides.

use vstd::prelude::*;
use num_bigint_dig::BigUint;
use crate::bigint::{be_value, is_canonical, small_value, BigInteger};
use crate::error::BridgeError;

verus! {

/// The byte that closes a text.
pub const NUL: u8 = 0;

/// The byte `+`.
pub const PLUS: u8 = 43;

/// The byte `-`.
pub const MINUS: u8 = 45;

/// The byte `0`.
pub const DIGIT_ZERO: u8 = 48;

/// The byte `9`.
pub const DIGIT_NINE: u8 = 57;

/// Whether a byte is one of `0` to `9`.
pub open spec fn is_digit(byte: u8) -> bool {
    DIGIT_ZERO <= byte <= DIGIT_NINE
}

/// Whether every byte is a digit.
pub open spec fn all_digits(bytes: Seq<u8>) -> bool {
    forall|i: int| 0 <= i < bytes.len() ==> is_digit(#[trigger] bytes[i])
}

/// The digits of a number in base 10, without leading zeros; `0` for zero.
pub open spec fn decimal_digits(n: nat) -> Seq<u8>
    decreases n,
{
    if n < 10 {
        seq![(DIGIT_ZERO + n) as u8]
    } else {
        decimal_digits(n / 10).push((DIGIT_ZERO + n % 10) as u8)
    }
}

/// The number that digits in base 10 stand for.
pub open spec fn decimal_value(digits: Seq<u8>) -> nat
    decreases digits.len(),
{
    if digits.len() == 0 {
        0
    } else {
        decimal_value(digits.drop_last()) * 10 + (digits.last() - DIGIT_ZERO) as nat
    }
}

/// The text of an integer: `-` where it is below zero, then its digits.
pub open spec fn decimal_text(value: int) -> Seq<u8> {
    if value < 0 {
        seq![MINUS] + decimal_digits((-value) as nat)
    } else {
        decimal_digits(value as nat)
    }
}

/// Whether a text starts with a sign.
pub open spec fn has_sign(text: Seq<u8>) -> bool {
    text.len() > 0 && (text[0] == PLUS || text[0] == MINUS)
}

/// The text without its sign.
pub open spec fn unsigned_part(text: Seq<u8>) -> Seq<u8> {
    if has_sign(text) {
        text.skip(1)
    } else {
        text
    }
}

/// Whether a text is an optional sign followed by one digit or more, and
/// nothing else.
pub open spec fn well_formed(text: Seq<u8>) -> bool {
    unsigned_part(text).len() > 0 && all_digits(unsigned_part(text))
}

/// The integer that a well-formed text stands for.
pub open spec fn text_value(text: Seq<u8>) -> int {
    if text.len() > 0 && text[0] == MINUS {
        -(decimal_value(unsigned_part(text)) as int)
    } else {
        decimal_value(unsigned_part(text)) as int
    }
}

/// The index of the first zero byte, or the length where there is none.
pub open spec fn first_zero(buffer: Seq<u8>) -> nat
    decreases buffer.len(),
{
    if buffer.len() == 0 || buffer[0] == NUL {
        0
    } else {
        1 + first_zero(buffer.skip(1))
    }
}

/// The integer in a buffer of text. The text ends at the first zero byte,
/// which has to be among the first `max_scan` bytes of the buffer.
pub open spec fn parsed(buffer: Seq<u8>, max_scan: nat) -> Result<int, BridgeError> {
    let end = first_zero(buffer);
    if end < buffer.len() && end < max_scan && well_formed(buffer.take(end as int)) {
        Ok(text_value(buffer.take(end as int)))
    } else {
        Err(BridgeError::MalformedInteger)
    }
}

/// The buffer in which an integer crosses the boundary: its text and the
/// closing zero byte.
pub open spec fn terminated_text(value: int) -> Seq<u8> {
    decimal_text(value).push(NUL)
}

/// What the decoder hands back, over mathematical values.
pub open spec fn parsed_view(res: Result<BigInteger, BridgeError>) -> Result<int, BridgeError> {
    match res {
        Ok(x) => Ok(x@),
        Err(e) => Err(e),
    }
}

/// `first_zero` is where the first zero byte is: no byte before it is zero,
/// and the byte at it is, unless it is the length.
pub proof fn lemma_first_zero(buffer: Seq<u8>)
    ensures
        first_zero(buffer) <= buffer.len(),
        forall|i: int| 0 <= i < first_zero(buffer) ==> #[trigger] buffer[i] != NUL,
        first_zero(buffer) < buffer.len() ==> buffer[first_zero(buffer) as int] == NUL,
    decreases buffer.len(),
{
    if buffer.len() == 0 || buffer[0] == NUL {
    } else {
        let rest = buffer.skip(1);
        lemma_first_zero(rest);
        assert forall|i: int| 0 <= i < first_zero(buffer) implies #[trigger] buffer[i] != NUL by {
            if i > 0 {
                assert(rest[i - 1] == buffer[i]);
            }
        }
        if first_zero(buffer) < buffer.len() {
            assert(rest[first_zero(rest) as int] == buffer[first_zero(buffer) as int]);
        }
    }
}

/// An index with a zero byte and none before it is `first_zero`.
pub proof fn lemma_first_zero_at(buffer: Seq<u8>, end: int)
    requires
        0 <= end <= buffer.len(),
        forall|i: int| 0 <= i < end ==> #[trigger] buffer[i] != NUL,
        end < buffer.len() ==> buffer[end] == NUL,
    ensures
        first_zero(buffer) == end,
{
    lemma_first_zero(buffer);
    let found = first_zero(buffer) as int;
    if found < end {
        assert(buffer[found] != NUL);
    } else if found > end {
        assert(buffer[end] != NUL);
    }
}

/// The digits of a number are digits, at least one, and stand for the
/// number; they start with `0` for zero alone.
pub proof fn lemma_decimal_digits(n: nat)
    ensures
        decimal_digits(n).len() > 0,
        all_digits(decimal_digits(n)),
        decimal_value(decimal_digits(n)) == n,
        n == 0 <==> decimal_digits(n) == seq![DIGIT_ZERO],
        n > 0 ==> decimal_digits(n)[0] != DIGIT_ZERO,
    decreases n,
{
    if n < 10 {
        let digits = decimal_digits(n);
        assert(digits.drop_last() =~= Seq::<u8>::empty());
        assert(decimal_value(digits.drop_last()) == 0);
        assert(digits.last() == (DIGIT_ZERO + n) as u8);
        if n == 0 {
            assert(digits =~= seq![DIGIT_ZERO]);
        } else {
            assert(digits[0] != seq![DIGIT_ZERO][0]);
        }
    } else {
        let head = decimal_digits(n / 10);
        let digits = decimal_digits(n);
        lemma_decimal_digits(n / 10);
        assert(digits.drop_last() =~= head);
        assert(digits.last() == (DIGIT_ZERO + n % 10) as u8);
        assert(digits[0] == head[0]);
        assert(digits.len() >= 2);
        assert(seq![DIGIT_ZERO].len() == 1);
    }
}

/// Reading the text that was written for an integer gives the integer back,
/// provided the scan is allowed to reach the closing byte.
pub proof fn lemma_parse_text(value: int, max_scan: nat)
    requires
        decimal_text(value).len() < max_scan,
    ensures
        parsed(terminated_text(value), max_scan) == Ok::<int, BridgeError>(value),
{
    let text = decimal_text(value);
    let buffer = terminated_text(value);
    let magnitude: nat = if value < 0 {
        (-value) as nat
    } else {
        value as nat
    };
    lemma_decimal_digits(magnitude);
    let digits = decimal_digits(magnitude);
    assert(is_digit(digits[0]));
    if value < 0 {
        assert(text[0] == MINUS);
        assert(has_sign(text));
        assert(unsigned_part(text) =~= digits);
    } else {
        assert(text == digits);
        assert(!has_sign(text));
        assert(unsigned_part(text) == digits);
    }
    assert forall|i: int| 0 <= i < text.len() implies #[trigger] buffer[i] != NUL by {
        if value < 0 {
            if i > 0 {
                assert(text[i] == digits[i - 1]);
                assert(is_digit(digits[i - 1]));
            }
        } else {
            assert(is_digit(digits[i]));
        }
    }
    lemma_first_zero_at(buffer, text.len() as int);
    assert(buffer.take(text.len() as int) =~= text);
}

/// The decimal digits of a magnitude.
///
/// Trusted: the body makes a `BigUint` of the bytes with
/// `BigUint::from_bytes_be`, which reads them as a number in big-endian
/// order, and formats it with its `Display`, which writes the number in
/// base 10 without sign, padding or leading zeros, and `0` for zero.
#[verifier::external_body]
fn magnitude_to_decimal(magnitude: &[u8]) -> (digits: Vec<u8>)
    ensures
        digits@ == decimal_digits(be_value(magnitude@)),
{
    BigUint::from_bytes_be(magnitude).to_string().into_bytes()
}

/// The magnitude that decimal digits stand for.
///
/// Trusted: the body reads the digits with `BigUint::parse_bytes`, which on
/// digits below the radix alone, and at least one, gives the number they
/// stand for in that radix, and takes its bytes with `BigUint::to_bytes_be`,
/// most significant first and no more of them than the number needs.
#[verifier::external_body]
fn decimal_to_magnitude(digits: &[u8], radix: u32) -> (magnitude: Option<Vec<u8>>)
    requires
        radix == 10,
        digits@.len() > 0,
        all_digits(digits@),
    ensures
        magnitude is Some,
        be_value(magnitude.unwrap()@) == decimal_value(digits@),
        is_canonical(magnitude.unwrap()@),
{
    match BigUint::parse_bytes(digits, radix) {
        Some(number) => Some(number.to_bytes_be()),
        None => None,
    }
}

/// Writes an integer as decimal text, closed by a zero byte.
pub fn encode_big_integer(value: &BigInteger) -> (buffer: Vec<u8>)
    ensures
        buffer@ == terminated_text(value@),
{
    let digits = magnitude_to_decimal(value.magnitude.as_slice());
    proof {
        lemma_decimal_digits(be_value(value.magnitude@));
    }
    let is_zero = digits.len() == 1 && digits[0] == DIGIT_ZERO;
    assert(is_zero <==> be_value(value.magnitude@) == 0) by {
        if is_zero {
            assert(digits@ =~= seq![DIGIT_ZERO]);
        }
    }
    let mut buffer: Vec<u8> = Vec::new();
    if value.negative && !is_zero {
        buffer.push(MINUS);
    }
    let ghost sign = buffer@;
    let mut i: usize = 0;
    while i < digits.len()
        invariant
            i <= digits.len(),
            buffer@ == sign + digits@.take(i as int),
        decreases digits.len() - i,
    {
        buffer.push(digits[i]);
        i += 1;
    }
    assert(digits@.take(digits.len() as int) =~= digits@);
    assert(buffer@ =~= decimal_text(value@));
    buffer.push(NUL);
    buffer
}

/// Reads an integer from a buffer of decimal text. The text ends at the
/// first zero byte, and no more than `max_scan` bytes are looked at to find
/// it. Fails with `MalformedInteger` when no zero byte is among them, when
/// the text has no digit, or when it has anything but digits after an
/// optional sign.
pub fn decode_big_integer(buffer: &[u8], max_scan: usize) -> (res: Result<BigInteger, BridgeError>)
    ensures
        parsed_view(res) == parsed(buffer@, max_scan as nat),
        res matches Ok(value) ==> value.is_normal(),
{
    let mut end: usize = 0;
    while end < buffer.len() && end < max_scan && buffer[end] != NUL
        invariant
            end <= buffer@.len(),
            end <= max_scan,
            forall|i: int| 0 <= i < end ==> #[trigger] buffer@[i] != NUL,
        decreases buffer.len() - end,
    {
        end += 1;
    }
    if end >= buffer.len() || end >= max_scan {
        proof {
            lemma_first_zero(buffer@);
            if first_zero(buffer@) < end {
                assert(buffer@[first_zero(buffer@) as int] != NUL);
            }
        }
        return Err(BridgeError::MalformedInteger);
    }
    proof {
        lemma_first_zero_at(buffer@, end as int);
    }
    let ghost text = buffer@.take(end as int);
    let signed = end > 0 && (buffer[0] == PLUS || buffer[0] == MINUS);
    let negative = end > 0 && buffer[0] == MINUS;
    let start: usize = if signed {
        1
    } else {
        0
    };
    assert(signed == has_sign(text));
    assert(unsigned_part(text) =~= buffer@.subrange(start as int, end as int));
    if start == end {
        return Err(BridgeError::MalformedInteger);
    }
    let mut i: usize = start;
    while i < end
        invariant
            start <= i <= end <= buffer@.len(),
            first_zero(buffer@) == end,
            text == buffer@.take(end as int),
            unsigned_part(text) == buffer@.subrange(start as int, end as int),
            forall|j: int| start <= j < i ==> is_digit(#[trigger] buffer@[j]),
        decreases end - i,
    {
        let byte = buffer[i];
        if byte < DIGIT_ZERO || byte > DIGIT_NINE {
            assert(!is_digit(unsigned_part(text)[i - start]));
            return Err(BridgeError::MalformedInteger);
        }
        i += 1;
    }
    let digits = &buffer[start..end];
    assert(digits@ == unsigned_part(text));
    match decimal_to_magnitude(digits, 10) {
        Some(magnitude) => {
            let is_zero = match small_value(magnitude.as_slice()) {
                Some(v) => v == 0,
                None => false,
            };
            Ok(BigInteger { negative: negative && !is_zero, magnitude })
        },
        None => Err(BridgeError::MalformedInteger),
    }
}

} // verus!
