//! How far a production reads: no further than the bytes it takes up and,
//! where it ends with a name, the one byte behind them. What follows an
//! identifier part can therefore be exchanged without changing what the part
//! says.

use vstd::prelude::*;
use vstd::utf8::*;
use crate::grammar::{
    lemma_type_list_width, parse_c_array, parse_nullable, parse_nullable_array, parse_type,
    parse_type_list,
};
use crate::names::{
    digit_run, is_digit, lemma_digit_run, lemma_digit_run_holds_digits, parse_name,
    payload_start, SIGN_MARKER,
};
use crate::text::{
    lemma_boundary_after_ascii, lemma_boundary_after_ascii_run, lemma_boundary_after_valid_prefix,
    lemma_boundary_compose,
};

verus! {

/// Whether bytes that follow a name leave its reading alone: they open with
/// neither a digit nor the sign marker, which would be read as part of a
/// name's prefix.
pub open spec fn leaves_names_alone(tail: Seq<u8>) -> bool {
    tail.len() == 0 || !(is_digit(tail[0]) || tail[0] == SIGN_MARKER)
}

/// Whether what was read from `bytes` stays as it is when `tail` follows:
/// the reading ended in front of the last byte, or the tail leaves names
/// alone.
pub open spec fn stands_before(bytes: Seq<u8>, used: nat, tail: Seq<u8>) -> bool {
    used < bytes.len() || leaves_names_alone(tail)
}

/// A text that is followed by another can be cut at a character boundary:
/// both what is left of the text and what is left with the follower are
/// UTF-8 again.
pub proof fn lemma_cut(bytes: Seq<u8>, tail: Seq<u8>, at: int)
    requires
        valid_utf8(bytes),
        valid_utf8(bytes + tail),
        is_char_boundary(bytes, at),
    ensures
        0 <= at <= bytes.len(),
        valid_utf8(bytes.skip(at)),
        valid_utf8(bytes.skip(at) + tail),
        (bytes + tail).skip(at) == bytes.skip(at) + tail,
        is_char_boundary(bytes + tail, at),
{
    valid_utf8_split(bytes, at);
    assert((bytes + tail).take(at) == bytes.take(at));
    lemma_boundary_after_valid_prefix(bytes + tail, at);
    valid_utf8_split(bytes + tail, at);
    assert((bytes + tail).skip(at) == bytes.skip(at) + tail);
}

/// The run of digits at the front of a text is the same with a follower,
/// where it ends inside the text or the follower opens with no digit.
pub proof fn lemma_digit_run_extends(bytes: Seq<u8>, tail: Seq<u8>)
    requires
        digit_run(bytes) < bytes.len() || tail.len() == 0 || !is_digit(tail[0]),
    ensures
        digit_run(bytes + tail) == digit_run(bytes),
        (bytes + tail).take(digit_run(bytes) as int) == bytes.take(digit_run(bytes) as int),
{
    let count = digit_run(bytes);
    lemma_digit_run_holds_digits(bytes);
    assert forall|i: int| 0 <= i < count implies is_digit(#[trigger] (bytes + tail)[i]) by {
        assert((bytes + tail)[i] == bytes[i]);
    }
    if count < bytes.len() {
        assert((bytes + tail)[count as int] == bytes[count as int]);
    } else if tail.len() > 0 {
        assert((bytes + tail)[count as int] == tail[0]);
    }
    lemma_digit_run(bytes + tail, count);
    assert((bytes + tail).take(count as int) == bytes.take(count as int));
}

/// A name reads no further than the byte behind it.
pub proof fn lemma_name_extends(bytes: Seq<u8>, tail: Seq<u8>)
    requires
        valid_utf8(bytes),
        valid_utf8(bytes + tail),
    ensures
        parse_name(bytes) matches Ok((used, name)) ==> 0 < used <= bytes.len()
            && is_char_boundary(bytes, used as int) && (stands_before(bytes, used, tail)
            ==> parse_name(bytes + tail) == parse_name(bytes)),
{
    if let Ok((used, name)) = parse_name(bytes) {
        lemma_digit_run_holds_digits(bytes);
        if stands_before(bytes, used, tail) {
            let whole = bytes + tail;
            let digits = digit_run(bytes);
            let start = payload_start(bytes);
            lemma_digit_run_extends(bytes, tail);
            if digits < bytes.len() {
                assert(whole[digits as int] == bytes[digits as int]);
            } else if tail.len() > 0 {
                assert(whole[digits as int] == tail[0]);
            }
            assert(payload_start(whole) == start);
            lemma_cut(bytes, tail, used as int);
            assert(whole.subrange(start as int, used as int) == bytes.subrange(
                start as int,
                used as int,
            ));
        }
    }
}

/// A type reads no further than the byte behind it, and ends with a whole
/// character.
pub proof fn lemma_type_extends(bytes: Seq<u8>, depth: nat, tail: Seq<u8>)
    requires
        valid_utf8(bytes),
        valid_utf8(bytes + tail),
    ensures
        parse_type(bytes, depth) matches Ok((used, _)) ==> 0 < used <= bytes.len()
            && is_char_boundary(bytes, used as int) && (stands_before(bytes, used, tail)
            ==> parse_type(bytes + tail, depth) == parse_type(bytes, depth)),
    decreases bytes.len(), 0nat,
{
    if let Ok((used, _)) = parse_type(bytes, depth) {
        let whole = bytes + tail;
        let tag = bytes[0];
        let rest = bytes.skip(1);
        assert(whole[0] == tag);
        lemma_boundary_after_ascii(bytes);
        lemma_cut(bytes, tail, 1);
        if tag == 'R' as u8 {
            assert((rest + tail)[0] == rest[0]);
            lemma_boundary_after_ascii(rest);
            lemma_boundary_compose(bytes, 1, 1);
        } else if tag == 'L' as u8 {
            lemma_nullable_extends(rest, depth, tail);
            lemma_boundary_compose(bytes, 1, used - 1);
        } else if tag == 'A' as u8 {
            lemma_array_extends(rest, (depth - 1) as nat, tail);
            lemma_boundary_compose(bytes, 1, used - 1);
        } else if tag == 'X' as u8 {
            lemma_name_extends(rest, tail);
            lemma_boundary_compose(bytes, 1, used - 1);
        }
    }
}

/// A nullable type reads no further than the byte behind it, and ends with a
/// whole character.
pub proof fn lemma_nullable_extends(bytes: Seq<u8>, depth: nat, tail: Seq<u8>)
    requires
        valid_utf8(bytes),
        valid_utf8(bytes + tail),
    ensures
        parse_nullable(bytes, depth) matches Ok((used, _)) ==> 0 < used <= bytes.len()
            && is_char_boundary(bytes, used as int) && (stands_before(bytes, used, tail)
            ==> parse_nullable(bytes + tail, depth) == parse_nullable(bytes, depth)),
    decreases bytes.len(), 0nat,
{
    if let Ok((used, _)) = parse_nullable(bytes, depth) {
        let whole = bytes + tail;
        let tag = bytes[0];
        let rest = bytes.skip(1);
        assert(whole[0] == tag);
        if tag == 'A' as u8 {
            lemma_boundary_after_ascii(bytes);
            lemma_cut(bytes, tail, 1);
            lemma_nullable_array_extends(rest, (depth - 1) as nat, tail);
            lemma_boundary_compose(bytes, 1, used - 1);
        } else if tag == 'X' as u8 {
            lemma_boundary_after_ascii(bytes);
            lemma_cut(bytes, tail, 1);
            lemma_name_extends(rest, tail);
            lemma_boundary_compose(bytes, 1, used - 1);
        } else {
            lemma_name_extends(bytes, tail);
        }
    }
}

/// A C array reads no further than its closing mark.
pub proof fn lemma_array_extends(bytes: Seq<u8>, depth: nat, tail: Seq<u8>)
    requires
        valid_utf8(bytes),
        valid_utf8(bytes + tail),
    ensures
        parse_c_array(bytes, depth) matches Ok((used, _)) ==> 0 < used <= bytes.len()
            && is_char_boundary(bytes, used as int) && parse_c_array(bytes + tail, depth)
            == parse_c_array(bytes, depth),
    decreases bytes.len(), 1nat,
{
    if parse_c_array(bytes, depth) is Ok {
        let used = parse_type(bytes, depth)->Ok_0.0;
        let behind = bytes.skip(used as int);
        let digits = digit_run(behind);
        lemma_type_extends(bytes, depth, tail);
        lemma_cut(bytes, tail, used as int);
        lemma_digit_run_holds_digits(behind);
        lemma_digit_run_extends(behind, tail);
        lemma_boundary_after_ascii_run(behind, (digits + 1) as int);
        lemma_boundary_compose(bytes, used as int, (digits + 1) as int);
        assert((behind + tail).skip(digits as int) == behind.skip(digits as int) + tail);
        assert((behind.skip(digits as int) + tail)[0] == behind.skip(digits as int)[0]);
    }
}

/// A nullable array reads no further than its closing mark.
pub proof fn lemma_nullable_array_extends(bytes: Seq<u8>, depth: nat, tail: Seq<u8>)
    requires
        valid_utf8(bytes),
        valid_utf8(bytes + tail),
    ensures
        parse_nullable_array(bytes, depth) matches Ok((used, _)) ==> 0 < used <= bytes.len()
            && is_char_boundary(bytes, used as int) && parse_nullable_array(bytes + tail, depth)
            == parse_nullable_array(bytes, depth),
    decreases bytes.len(), 1nat,
{
    if parse_nullable_array(bytes, depth) is Ok {
        let used = parse_type(bytes, depth)->Ok_0.0;
        let behind = bytes.skip(used as int);
        lemma_type_extends(bytes, depth, tail);
        lemma_cut(bytes, tail, used as int);
        lemma_boundary_after_ascii(behind);
        lemma_boundary_compose(bytes, used as int, 1);
        assert((behind + tail)[0] == behind[0]);
    }
}

/// A list of types reads no further than its terminator: whatever follows
/// the terminator, the list is the same.
pub proof fn lemma_type_list_extends(bytes: Seq<u8>, depth: nat, tail: Seq<u8>)
    requires
        valid_utf8(bytes),
        valid_utf8(bytes + tail),
    ensures
        parse_type_list(bytes, depth) is Ok ==> parse_type_list(bytes + tail, depth)
            == parse_type_list(bytes, depth),
    decreases bytes.len(),
{
    if parse_type_list(bytes, depth) is Ok {
        assert((bytes + tail)[0] == bytes[0]);
        if !(bytes[0] == 'E' as u8) {
            let used = parse_type(bytes, depth)->Ok_0.0;
            lemma_type_extends(bytes, depth, tail);
            lemma_type_list_width(bytes.skip(used as int), depth);
            lemma_cut(bytes, tail, used as int);
            lemma_type_list_extends(bytes.skip(used as int), depth, tail);
        }
    }
}

} // verus!
