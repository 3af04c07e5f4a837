//! Length-prefixed names: a decimal byte count, an optional sign marker, and
//! that many bytes taken as they are.

use vstd::prelude::*;
use vstd::string::*;
use vstd::utf8::*;
use crate::config::DemanglingConfig;
use crate::error::{failed, fail_at, ErrorKind, Failure, ParsingResult};
use crate::text::{
    after, before, byte_len, first_byte, lemma_boundary_after_ascii,
    lemma_boundary_after_ascii_run, lemma_boundary_compose,
};

verus! {

broadcast use {encode_utf8_valid_utf8, encode_utf8_decode_utf8};

/// The byte that may stand between a length and its payload.
pub const SIGN_MARKER: u8 = 0x2d;

/// The decimal digits, `0` to `9`.
pub open spec fn is_digit(byte: u8) -> bool {
    0x30 <= byte <= 0x39
}

/// How many decimal digits open `bytes`.
pub open spec fn digit_run(bytes: Seq<u8>) -> nat
    decreases bytes.len(),
{
    if bytes.len() > 0 && is_digit(bytes[0]) {
        1 + digit_run(bytes.skip(1))
    } else {
        0
    }
}

/// The number that a row of decimal digits writes.
pub open spec fn decimal_value(digits: Seq<u8>) -> nat
    decreases digits.len(),
{
    if digits.len() == 0 {
        0
    } else {
        10 * decimal_value(digits.drop_last()) + (digits.last() - 0x30) as nat
    }
}

/// Where the payload of a name begins: behind the digits, and behind the
/// sign marker if one follows them.
pub open spec fn payload_start(bytes: Seq<u8>) -> nat {
    let digits = digit_run(bytes);
    if digits < bytes.len() && bytes[digits as int] == SIGN_MARKER {
        digits + 1
    } else {
        digits
    }
}

/// A name at the front of `bytes`: the bytes it takes up and its payload.
///
/// The length is the whole run of leading digits. The payload is that many
/// bytes behind the digits and the sign marker, and has to end with a whole
/// character.
pub open spec fn parse_name(bytes: Seq<u8>) -> Result<(nat, Seq<char>), Failure> {
    let digits = digit_run(bytes);
    let length = decimal_value(bytes.take(digits as int));
    let start = payload_start(bytes);
    let end = start + length;
    if digits == 0 || length > usize::MAX {
        fail_at(ErrorKind::InvalidNameLength, bytes)
    } else if end > bytes.len() {
        fail_at(ErrorKind::TruncatedInput, bytes)
    } else if !is_char_boundary(bytes, end as int) {
        fail_at(ErrorKind::InvalidNameLength, bytes)
    } else {
        Ok((end, decode_utf8(bytes.subrange(start as int, end as int))))
    }
}

/// The digit run is the first place that holds no digit.
pub proof fn lemma_digit_run(bytes: Seq<u8>, count: nat)
    requires
        count <= bytes.len(),
        forall|i: int| 0 <= i < count ==> is_digit(#[trigger] bytes[i]),
        count == bytes.len() || !is_digit(bytes[count as int]),
    ensures
        digit_run(bytes) == count,
    decreases count,
{
    if count > 0 {
        let rest = bytes.skip(1);
        assert forall|i: int| 0 <= i < count - 1 implies is_digit(#[trigger] rest[i]) by {
            assert(rest[i] == bytes[i + 1]);
        }
        lemma_digit_run(rest, (count - 1) as nat);
    }
}

/// Every byte of the digit run is a digit, and the run ends at the first
/// byte that is none.
pub proof fn lemma_digit_run_holds_digits(bytes: Seq<u8>)
    ensures
        digit_run(bytes) <= bytes.len(),
        forall|i: int| 0 <= i < digit_run(bytes) ==> is_digit(#[trigger] bytes[i]),
        digit_run(bytes) == bytes.len() || !is_digit(bytes[digit_run(bytes) as int]),
    decreases bytes.len(),
{
    if bytes.len() > 0 && is_digit(bytes[0]) {
        let rest = bytes.skip(1);
        lemma_digit_run_holds_digits(rest);
        assert forall|i: int| 0 <= i < digit_run(bytes) implies is_digit(#[trigger] bytes[i]) by {
            if i > 0 {
                assert(bytes[i] == rest[i - 1]);
            }
        }
    }
}

/// A row of digits writes no less than any of its front parts.
pub proof fn lemma_decimal_value_grows(digits: Seq<u8>, count: int)
    requires
        0 <= count <= digits.len(),
    ensures
        decimal_value(digits.take(count)) <= decimal_value(digits),
    decreases digits.len() - count,
{
    if count < digits.len() {
        lemma_decimal_value_grows(digits, count + 1);
        assert(digits.take(count + 1).drop_last() == digits.take(count));
    } else {
        assert(digits.take(count) == digits);
    }
}

/// The number of decimal digits at the front of `input`.
pub fn number(input: &str) -> (count: usize)
    ensures
        count == digit_run(input.spec_bytes()),
{
    let bytes = input.as_bytes();
    let mut count: usize = 0;
    while count < bytes.len() && 0x30 <= bytes[count] && bytes[count] <= 0x39
        invariant
            count <= bytes@.len(),
            forall|i: int| 0 <= i < count ==> is_digit(#[trigger] bytes@[i]),
        decreases bytes@.len() - count,
    {
        count += 1;
    }
    proof {
        lemma_digit_run(bytes@, count as nat);
    }
    count
}

/// The number that the digits `digits` write, unless it is more than a
/// machine word holds.
pub fn length_of(digits: &str) -> (length: Option<usize>)
    requires
        forall|i: int| 0 <= i < digits.spec_bytes().len() ==> is_digit(#[trigger] digits.spec_bytes()[i]),
    ensures
        length == (if decimal_value(digits.spec_bytes()) <= usize::MAX {
            Some(decimal_value(digits.spec_bytes()) as usize)
        } else {
            None
        }),
{
    let bytes = digits.as_bytes();
    let mut value: usize = 0;
    let mut done: usize = 0;
    while done < bytes.len()
        invariant
            done <= bytes@.len(),
            bytes@ == digits.spec_bytes(),
            forall|i: int| 0 <= i < bytes@.len() ==> is_digit(#[trigger] bytes@[i]),
            value == decimal_value(bytes@.take(done as int)),
        decreases bytes@.len() - done,
    {
        let digit: usize = (bytes[done] - 0x30) as usize;
        proof {
            let longer = bytes@.take(done + 1);
            assert(longer.drop_last() == bytes@.take(done as int));
            assert(longer.last() == bytes@[done as int]);
            assert(decimal_value(longer) == 10 * value + digit);
            lemma_decimal_value_grows(bytes@, done + 1);
        }
        let next = match value.checked_mul(10) {
            Some(tens) => tens.checked_add(digit),
            None => None,
        };
        match next {
            Some(next) => {
                value = next;
            },
            None => {
                return None;
            },
        }
        done += 1;
    }
    proof {
        assert(bytes@.take(done as int) == bytes@);
    }
    Some(value)
}

/// Decodes the name at the front of `input`: how many bytes it takes up, and
/// its payload.
///
/// A sign marker between length and payload is consumed and is no part of the
/// payload. No option changes how a name is read.
pub fn name(input: &str, _config: &DemanglingConfig) -> (res: ParsingResult<(usize, String)>)
    ensures
        match parse_name(input.spec_bytes()) {
            Ok((consumed, payload)) => res matches Ok((count, text)) && count == consumed && text@
                == payload,
            Err(failure) => res matches Err(message) && message@ == failure.message(),
        },
        res matches Ok((count, _)) ==> 0 < count <= input.spec_bytes().len() && is_char_boundary(
            input.spec_bytes(),
            count as int,
        ),
{
    let ghost bytes = input.spec_bytes();
    let total = byte_len(input);
    let digits = number(input);
    if digits == 0 {
        return failed(ErrorKind::InvalidNameLength, input);
    }
    proof {
        lemma_digit_run_holds_digits(bytes);
        lemma_boundary_after_ascii_run(bytes, digits as int);
    }
    let rest = after(input, digits);
    let length = match length_of(before(input, digits)) {
        Some(length) => length,
        None => {
            return failed(ErrorKind::InvalidNameLength, input);
        },
    };
    let marked = first_byte(rest) == Some(SIGN_MARKER);
    assert(marked ==> digits < total);
    let tail = if marked {
        proof {
            lemma_boundary_after_ascii(rest.spec_bytes());
        }
        after(rest, 1)
    } else {
        rest
    };
    let start: usize = if marked {
        digits + 1
    } else {
        digits
    };
    assert(start == payload_start(bytes));
    assert(tail.spec_bytes() == bytes.skip(start as int));
    if length > total - start {
        return failed(ErrorKind::TruncatedInput, input);
    }
    proof {
        if marked {
            lemma_boundary_compose(bytes, digits as int, 1);
        }
        valid_utf8_split(bytes, start as int);
        if is_char_boundary(tail.spec_bytes(), length as int) {
            lemma_boundary_compose(bytes, start as int, length as int);
        }
        if is_char_boundary(bytes, start + length) {
            if start + length < bytes.len() {
                is_char_boundary_iff_not_is_continuation_byte(bytes, start + length);
                is_char_boundary_iff_not_is_continuation_byte(tail.spec_bytes(), length as int);
            } else {
                is_char_boundary_start_end_of_seq(tail.spec_bytes());
            }
        }
    }
    if !tail.is_char_boundary(length) {
        return failed(ErrorKind::InvalidNameLength, input);
    }
    let payload = before(tail, length);
    proof {
        assert(tail.spec_bytes().take(length as int) == bytes.subrange(
            start as int,
            start + length,
        ));
    }
    Ok((start + length, String::from_str(payload)))
}

} // verus!
