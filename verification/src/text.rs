//! Text as bytes: the facts about UTF-8 that slicing a `&str` by byte
//! offsets rests on, and the few string operations built on them.

use vstd::prelude::*;
use vstd::string::*;
use vstd::utf8::*;

verus! {

/// A byte below 0x80 stands for one character by itself.
pub open spec fn is_ascii_byte(byte: u8) -> bool {
    byte < 0x80
}

/// A character boundary lies inside the text it is a boundary of.
pub proof fn lemma_boundary_in_range(bytes: Seq<u8>, index: int)
    requires
        valid_utf8(bytes),
        is_char_boundary(bytes, index),
    ensures
        0 <= index <= bytes.len(),
{
}

/// An ASCII byte at the front of a text ends at a character boundary.
pub proof fn lemma_boundary_after_ascii(bytes: Seq<u8>)
    requires
        valid_utf8(bytes),
        bytes.len() > 0,
        is_ascii_byte(bytes[0]),
    ensures
        is_char_boundary(bytes, 1),
{
    reveal_with_fuel(is_char_boundary, 2);
}

/// A boundary of what follows a boundary is a boundary of the whole text.
pub proof fn lemma_boundary_compose(bytes: Seq<u8>, first: int, second: int)
    requires
        valid_utf8(bytes),
        is_char_boundary(bytes, first),
        is_char_boundary(bytes.skip(first), second),
    ensures
        valid_utf8(bytes.skip(first)),
        0 <= first <= first + second <= bytes.len(),
        is_char_boundary(bytes, first + second),
{
    let rest = bytes.skip(first);
    lemma_boundary_in_range(bytes, first);
    valid_utf8_split(bytes, first);
    lemma_boundary_in_range(rest, second);
    if first + second == bytes.len() {
        is_char_boundary_start_end_of_seq(bytes);
    } else if second == 0 {
    } else {
        is_char_boundary_iff_not_is_continuation_byte(rest, second);
        is_char_boundary_iff_not_is_continuation_byte(bytes, first + second);
    }
}

/// A run of ASCII bytes at the front of a text ends at a character boundary.
pub proof fn lemma_boundary_after_ascii_run(bytes: Seq<u8>, count: int)
    requires
        valid_utf8(bytes),
        0 <= count <= bytes.len(),
        forall|i: int| 0 <= i < count ==> is_ascii_byte(#[trigger] bytes[i]),
    ensures
        is_char_boundary(bytes, count),
    decreases count,
{
    if count > 0 {
        lemma_boundary_after_ascii_run(bytes, count - 1);
        valid_utf8_split(bytes, count - 1);
        lemma_boundary_after_ascii(bytes.skip(count - 1));
        lemma_boundary_compose(bytes, count - 1, 1);
    }
}

/// Where a text's front part is UTF-8 of its own, the part ends at a
/// character boundary of the text.
pub proof fn lemma_boundary_after_valid_prefix(bytes: Seq<u8>, count: int)
    requires
        valid_utf8(bytes),
        0 <= count <= bytes.len(),
        valid_utf8(bytes.take(count)),
    ensures
        is_char_boundary(bytes, count),
    decreases bytes.len(),
{
    if count > 0 {
        let front = bytes.take(count);
        let width = length_of_first_scalar(bytes);
        assert(front[0] == bytes[0]);
        assert(length_of_first_scalar(front) == width);
        assert(pop_first_scalar(front) == pop_first_scalar(bytes).take(count - width));
        lemma_boundary_after_valid_prefix(pop_first_scalar(bytes), count - width);
    }
}

/// Encoding goes through concatenation.
pub proof fn lemma_encode_concat(first: Seq<char>, second: Seq<char>)
    ensures
        encode_utf8(first + second) == encode_utf8(first) + encode_utf8(second),
    decreases first.len(),
{
    if first.len() == 0 {
        assert(first + second == second);
    } else {
        assert((first + second).drop_first() == first.drop_first() + second);
        lemma_encode_concat(first.drop_first(), second);
    }
}

/// Two texts are the same characters exactly when they are the same bytes.
pub proof fn lemma_same_bytes_same_text(first: Seq<char>, second: Seq<char>)
    ensures
        (encode_utf8(first) == encode_utf8(second)) <==> (first == second),
{
    encode_utf8_decode_utf8(first);
    encode_utf8_decode_utf8(second);
}

/// One text opens another exactly when its bytes open the other's bytes;
/// what follows it is then the decoding of the bytes that follow.
pub proof fn lemma_prefix_by_bytes(text: Seq<char>, prefix: Seq<char>)
    ensures
        prefix.is_prefix_of(text) <==> encode_utf8(prefix).is_prefix_of(encode_utf8(text)),
        prefix.is_prefix_of(text) ==> is_char_boundary(
            encode_utf8(text),
            encode_utf8(prefix).len() as int,
        ) && text.skip(prefix.len() as int) == decode_utf8(
            encode_utf8(text).skip(encode_utf8(prefix).len() as int),
        ),
{
    let bytes = encode_utf8(text);
    let front = encode_utf8(prefix);
    encode_utf8_valid_utf8(text);
    encode_utf8_valid_utf8(prefix);
    encode_utf8_decode_utf8(text);
    encode_utf8_decode_utf8(prefix);
    if prefix.is_prefix_of(text) {
        let rest = text.skip(prefix.len() as int);
        assert(text == prefix + rest);
        lemma_encode_concat(prefix, rest);
        assert(bytes.skip(front.len() as int) == encode_utf8(rest));
        assert(bytes.take(front.len() as int) == front);
        lemma_boundary_after_valid_prefix(bytes, front.len() as int);
        encode_utf8_decode_utf8(rest);
    }
    if front.is_prefix_of(bytes) {
        let cut = front.len() as int;
        assert(bytes.take(cut) == front);
        lemma_boundary_after_valid_prefix(bytes, cut);
        decode_utf8_split(bytes, cut);
        assert(text == prefix + decode_utf8(bytes.skip(cut)));
        assert(text.subrange(0, prefix.len() as int) == prefix);
    }
}

/// The number of bytes in a text.
pub fn byte_len(input: &str) -> (len: usize)
    ensures
        len == input.spec_bytes().len(),
{
    input.as_bytes().len()
}

/// The first byte of a text, if it has one.
pub fn first_byte(input: &str) -> (first: Option<u8>)
    ensures
        first == (if input.spec_bytes().len() == 0 {
            None
        } else {
            Some(input.spec_bytes()[0])
        }),
{
    let bytes = input.as_bytes();
    if bytes.len() == 0 {
        None
    } else {
        Some(bytes[0])
    }
}

/// The text after its first `count` bytes.
pub fn after<'a>(input: &'a str, count: usize) -> (rest: &'a str)
    requires
        is_char_boundary(input.spec_bytes(), count as int),
    ensures
        rest.spec_bytes() == input.spec_bytes().skip(count as int),
        rest@ == decode_utf8(input.spec_bytes().skip(count as int)),
{
    let (_, rest) = input.split_at(count);
    proof {
        encode_utf8_decode_utf8(rest@);
    }
    rest
}

/// The first `count` bytes of the text.
pub fn before<'a>(input: &'a str, count: usize) -> (front: &'a str)
    requires
        is_char_boundary(input.spec_bytes(), count as int),
    ensures
        front.spec_bytes() == input.spec_bytes().take(count as int),
        front@ == decode_utf8(input.spec_bytes().take(count as int)),
{
    let (front, _) = input.split_at(count);
    proof {
        encode_utf8_decode_utf8(front@);
    }
    front
}

/// Whether `text` opens with `prefix`.
pub fn starts_with(text: &str, prefix: &str) -> (yes: bool)
    ensures
        yes == prefix@.is_prefix_of(text@),
{
    let bytes = text.as_bytes();
    let front = prefix.as_bytes();
    proof {
        lemma_prefix_by_bytes(text@, prefix@);
    }
    if front.len() > bytes.len() {
        return false;
    }
    let mut checked: usize = 0;
    while checked < front.len()
        invariant
            checked <= front@.len() <= bytes@.len(),
            prefix@.is_prefix_of(text@) <==> front@.is_prefix_of(bytes@),
            bytes@.take(checked as int) == front@.take(checked as int),
        decreases front@.len() - checked,
    {
        if bytes[checked] != front[checked] {
            proof {
                if front@.is_prefix_of(bytes@) {
                    assert(bytes@.subrange(0, front@.len() as int)[checked as int]
                        == front@[checked as int]);
                }
            }
            return false;
        }
        proof {
            assert(bytes@.take(checked + 1) == bytes@.take(checked as int).push(
                bytes@[checked as int],
            ));
            assert(front@.take(checked + 1) == front@.take(checked as int).push(
                front@[checked as int],
            ));
        }
        checked += 1;
    }
    proof {
        assert(front@.take(checked as int) == front@);
    }
    true
}

/// Whether two texts are the same.
pub fn same_text(first: &str, second: &str) -> (same: bool)
    ensures
        same == (first@ == second@),
{
    let same = byte_len(first) == byte_len(second) && starts_with(first, second);
    proof {
        lemma_same_bytes_same_text(first@, second@);
        lemma_prefix_by_bytes(first@, second@);
        if same {
            assert(first.spec_bytes().take(second.spec_bytes().len() as int)
                == first.spec_bytes());
        }
    }
    same
}

/// The text behind the prefix that it opens with.
pub fn without_prefix<'a>(text: &'a str, prefix: &str) -> (rest: &'a str)
    requires
        prefix@.is_prefix_of(text@),
    ensures
        rest@ == text@.skip(prefix@.len() as int),
{
    proof {
        lemma_prefix_by_bytes(text@, prefix@);
    }
    after(text, byte_len(prefix))
}

/// The texts of a list.
pub open spec fn texts_of(parts: Seq<String>) -> Seq<Seq<char>> {
    Seq::new(parts.len(), |i: int| parts[i]@)
}

/// The parts in their order, with the separator between each two.
pub open spec fn joined(parts: Seq<Seq<char>>, separator: Seq<char>) -> Seq<char>
    decreases parts.len(),
{
    if parts.len() == 0 {
        Seq::empty()
    } else if parts.len() == 1 {
        parts[0]
    } else {
        joined(parts.drop_last(), separator) + separator + parts.last()
    }
}

/// The first `count` parts in their order, with the separator between each
/// two.
pub fn join(parts: &Vec<String>, count: usize, separator: &str) -> (text: String)
    requires
        count <= parts@.len(),
    ensures
        text@ == joined(texts_of(parts@).take(count as int), separator@),
{
    let mut text = String::new();
    let mut done: usize = 0;
    while done < count
        invariant
            done <= count <= parts@.len(),
            text@ == joined(texts_of(parts@).take(done as int), separator@),
        decreases count - done,
    {
        if done > 0 {
            text.append(separator);
        }
        text.append(parts[done].as_str());
        proof {
            let longer = texts_of(parts@).take(done + 1);
            assert(longer.drop_last() == texts_of(parts@).take(done as int));
            assert(longer.last() == parts@[done as int]@);
            if done == 0 {
                assert(text@ == longer[0]);
            }
        }
        done += 1;
    }
    text
}

} // verus!
