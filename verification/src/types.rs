//! Decoding of type references, and the name-collapsing rules that decide
//! how a decoded type is shown.

use vstd::prelude::*;
use vstd::string::*;
use vstd::utf8::*;
use crate::config::DemanglingConfig;
use crate::error::{failed, ErrorKind, Failure, ParsingResult};
use crate::grammar::{
    lemma_nullable_shown, parse_c_array, parse_c_pointer, parse_exact_class, parse_nullable,
    parse_nullable_array, parse_type, parse_type_list, MAX_NESTING,
};
use crate::names::{lemma_digit_run_holds_digits, name, number};
use crate::syntax::{
    class_text, nullable_text, primitive_kind, root_name, type_text, type_texts, PrimitiveKind,
    TypeName,
};
use crate::text::{
    after, byte_len, first_byte, is_ascii_byte, lemma_boundary_after_ascii,
    lemma_boundary_after_ascii_run, lemma_boundary_compose, same_text, starts_with, texts_of,
    without_prefix,
};

verus! {

broadcast use {encode_utf8_valid_utf8, encode_utf8_decode_utf8};

/// The kind that a tag byte stands for.
pub fn primitive_of(tag: u8) -> (kind: Option<PrimitiveKind>)
    ensures
        kind == primitive_kind(tag),
{
    if tag == 'z' as u8 {
        Some(PrimitiveKind::Boolean)
    } else if tag == 'c' as u8 {
        Some(PrimitiveKind::Char)
    } else if tag == 'f' as u8 {
        Some(PrimitiveKind::Float)
    } else if tag == 'd' as u8 {
        Some(PrimitiveKind::Double)
    } else if tag == 'u' as u8 {
        Some(PrimitiveKind::Unit)
    } else if tag == 'l' as u8 {
        Some(PrimitiveKind::Null)
    } else if tag == 'n' as u8 {
        Some(PrimitiveKind::Nothing)
    } else if tag == 'b' as u8 {
        Some(PrimitiveKind::Byte)
    } else if tag == 's' as u8 {
        Some(PrimitiveKind::Short)
    } else if tag == 'i' as u8 {
        Some(PrimitiveKind::Int)
    } else if tag == 'j' as u8 {
        Some(PrimitiveKind::Long)
    } else {
        None
    }
}

/// The name of a library type as it is shown: bare when names are
/// collapsed, with the library in front of it when they are not.
pub fn scala_root_name(name: &str, config: &DemanglingConfig) -> (shown: String)
    ensures
        shown@ == root_name(name@, config.collapse_scala_names),
{
    if !config.collapse_scala_names {
        let mut shown = String::from_str("scala.");
        shown.append(name);
        shown
    } else {
        String::from_str(name)
    }
}

/// A class name as it is shown: in its short form when names are collapsed,
/// as it is when they are not.
pub fn common_type_name(name: String, config: &DemanglingConfig) -> (shown: String)
    ensures
        shown@ == class_text(name@, config.collapse_scala_names),
{
    if !config.collapse_scala_names {
        name
    } else if same_text(name.as_str(), "java.lang.Object") {
        String::from_str("Object")
    } else if same_text(name.as_str(), "java.lang.String") {
        String::from_str("String")
    } else if same_text(name.as_str(), "java.lang.Throwable") {
        String::from_str("Throwable")
    } else if starts_with(name.as_str(), "scala.collection.immutable.") {
        String::from_str(without_prefix(name.as_str(), "scala.collection.immutable."))
    } else {
        name
    }
}

/// Counts the byte of a tag in with what was decoded behind it.
fn with_tag(input: &str, tagged: ParsingResult<(usize, String)>) -> (res: ParsingResult<
    (usize, String),
>)
    requires
        input.spec_bytes().len() > 0,
        is_ascii_byte(input.spec_bytes()[0]),
        tagged matches Ok((used, _)) ==> used < input.spec_bytes().len() && is_char_boundary(
            input.spec_bytes().skip(1),
            used as int,
        ),
    ensures
        match tagged {
            Ok((used, text)) => res matches Ok((count, shown)) && count == 1 + used && shown
                == text,
            Err(message) => res == Err::<(usize, String), _>(message),
        },
        res matches Ok((count, _)) ==> 0 < count <= input.spec_bytes().len() && is_char_boundary(
            input.spec_bytes(),
            count as int,
        ),
{
    let total = byte_len(input);
    match tagged {
        Ok((used, text)) => {
            proof {
                lemma_boundary_after_ascii(input.spec_bytes());
                lemma_boundary_compose(input.spec_bytes(), 1, used as int);
            }
            Ok((1 + used, text))
        },
        Err(message) => Err(message),
    }
}

/// Decodes what follows the tag `R` of a C pointer: its closing mark.
pub fn c_pointer_name(input: &str) -> (res: ParsingResult<(usize, String)>)
    ensures
        match parse_c_pointer(input.spec_bytes()) {
            Ok((used, parsed)) => res matches Ok((count, text)) && count == used && forall|
                collapse: bool,
            | text@ == #[trigger] type_text(parsed, collapse),
            Err(failure) => res matches Err(message) && message@ == failure.message(),
        },
        res matches Ok((count, _)) ==> 0 < count <= input.spec_bytes().len() && is_char_boundary(
            input.spec_bytes(),
            count as int,
        ),
{
    match first_byte(input) {
        None => failed(ErrorKind::TruncatedInput, input),
        Some(mark) => if mark == '_' as u8 {
            proof {
                lemma_boundary_after_ascii(input.spec_bytes());
            }
            Ok((1, String::from_str("<c pointer>")))
        } else {
            failed(ErrorKind::MalformedCPointer, input)
        },
    }
}

/// Decodes what follows the tag `A` of a C array, and shows the array under
/// `config`: the type of the elements, their count or none, and the closing
/// mark. The elements may open `depth` levels of nesting.
pub(crate) fn c_array_within(input: &str, config: &DemanglingConfig, depth: usize) -> (res:
    ParsingResult<(usize, String)>)
    ensures
        match parse_c_array(input.spec_bytes(), depth as nat) {
            Ok((used, parsed)) => res matches Ok((count, text)) && count == used && text@
                == type_text(parsed, config.collapse_scala_names),
            Err(failure) => res matches Err(message) && message@ == failure.message(),
        },
        res matches Ok((count, _)) ==> 0 < count <= input.spec_bytes().len() && is_char_boundary(
            input.spec_bytes(),
            count as int,
        ),
    decreases input.spec_bytes().len(), 1nat,
{
    let ghost bytes = input.spec_bytes();
    let total = byte_len(input);
    let (used, element) = match type_within(input, config, depth) {
        Ok(found) => found,
        Err(message) => {
            return Err(message);
        },
    };
    let behind = after(input, used);
    let digits = number(behind);
    proof {
        valid_utf8_split(bytes, used as int);
        lemma_digit_run_holds_digits(behind.spec_bytes());
        lemma_boundary_after_ascii_run(behind.spec_bytes(), digits as int);
    }
    let end = after(behind, digits);
    match first_byte(end) {
        None => failed(ErrorKind::TruncatedInput, end),
        Some(mark) => if mark == '_' as u8 {
            proof {
                valid_utf8_split(behind.spec_bytes(), digits as int);
                lemma_boundary_after_ascii(end.spec_bytes());
                lemma_boundary_compose(behind.spec_bytes(), digits as int, 1);
                lemma_boundary_compose(bytes, used as int, digits + 1);
            }
            let mut text = String::from_str("CArray[");
            text.append(element.as_str());
            text.append("]");
            Ok((used + digits + 1, text))
        } else {
            failed(ErrorKind::UnknownTypeTag, end)
        },
    }
}

/// Decodes what follows the tag `X` of an exact class: its name, which is
/// shown as it is written.
pub fn exact_class_name(input: &str, config: &DemanglingConfig) -> (res: ParsingResult<
    (usize, String),
>)
    ensures
        match parse_exact_class(input.spec_bytes()) {
            Ok((used, parsed)) => res matches Ok((count, text)) && count == used && text@
                == type_text(parsed, config.collapse_scala_names),
            Err(failure) => res matches Err(message) && message@ == failure.message(),
        },
        res matches Ok((count, _)) ==> 0 < count <= input.spec_bytes().len() && is_char_boundary(
            input.spec_bytes(),
            count as int,
        ),
{
    name(input, config)
}

/// Decodes the type at the front of `input`: how many bytes it takes up, and
/// the type as it is shown under `config`. An identifier may nest
/// [`MAX_NESTING`] deep.
pub fn decode_type_name(input: &str, config: &DemanglingConfig) -> (res: ParsingResult<
    (usize, String),
>)
    ensures
        match parse_type(input.spec_bytes(), MAX_NESTING as nat) {
            Ok((used, parsed)) => res matches Ok((count, text)) && count == used && text@
                == type_text(parsed, config.collapse_scala_names),
            Err(failure) => res matches Err(message) && message@ == failure.message(),
        },
        res matches Ok((count, _)) ==> 0 < count <= input.spec_bytes().len() && is_char_boundary(
            input.spec_bytes(),
            count as int,
        ),
{
    type_within(input, config, MAX_NESTING)
}

/// Decodes the type at the front of `input`, which may open `depth` levels
/// of nesting.
pub(crate) fn type_within(input: &str, config: &DemanglingConfig, depth: usize) -> (res:
    ParsingResult<(usize, String)>)
    ensures
        match parse_type(input.spec_bytes(), depth as nat) {
            Ok((used, parsed)) => res matches Ok((count, text)) && count == used && text@
                == type_text(parsed, config.collapse_scala_names),
            Err(failure) => res matches Err(message) && message@ == failure.message(),
        },
        res matches Ok((count, _)) ==> 0 < count <= input.spec_bytes().len() && is_char_boundary(
            input.spec_bytes(),
            count as int,
        ),
    decreases input.spec_bytes().len(), 0nat,
{
    let tag = match first_byte(input) {
        Some(tag) => tag,
        None => {
            return failed(ErrorKind::TruncatedInput, input);
        },
    };
    if tag == 'v' as u8 {
        proof {
            lemma_boundary_after_ascii(input.spec_bytes());
        }
        return Ok((1, String::from_str("<c vararg>")));
    }
    if let Some(kind) = primitive_of(tag) {
        proof {
            lemma_boundary_after_ascii(input.spec_bytes());
        }
        return Ok((1, scala_root_name(kind.name(), config)));
    }
    if !(tag == 'R' as u8 || tag == 'L' as u8 || tag == 'A' as u8 || tag == 'X' as u8) {
        return failed(ErrorKind::UnknownTypeTag, input);
    }
    proof {
        lemma_boundary_after_ascii(input.spec_bytes());
    }
    let rest = after(input, 1);
    if tag == 'R' as u8 {
        with_tag(input, c_pointer_name(rest))
    } else if tag == 'L' as u8 {
        proof {
            lemma_nullable_shown(rest.spec_bytes(), depth as nat, config.collapse_scala_names);
        }
        match with_tag(input, nullable_within(rest, config, depth)) {
            Ok((used, read)) => Ok((used, common_type_name(read, config))),
            Err(message) => Err(message),
        }
    } else if tag == 'A' as u8 {
        if depth == 0 {
            return failed(ErrorKind::NestingTooDeep, input);
        }
        with_tag(input, c_array_within(rest, config, depth - 1))
    } else {
        with_tag(input, exact_class_name(rest, config))
    }
}

/// Decodes what follows the tag `A` of a nullable array, and shows the array
/// under `config`: the type of the elements and the closing mark. The
/// elements may open `depth` levels of nesting.
pub(crate) fn nullable_array_within(input: &str, config: &DemanglingConfig, depth: usize) -> (res:
    ParsingResult<(usize, String)>)
    ensures
        match parse_nullable_array(input.spec_bytes(), depth as nat) {
            Ok((used, parsed)) => res matches Ok((count, text)) && count == used && text@
                == type_text(parsed, config.collapse_scala_names),
            Err(failure) => res matches Err(message) && message@ == failure.message(),
        },
        res matches Ok((count, _)) ==> 0 < count <= input.spec_bytes().len() && is_char_boundary(
            input.spec_bytes(),
            count as int,
        ),
    decreases input.spec_bytes().len(), 1nat,
{
    let ghost bytes = input.spec_bytes();
    let total = byte_len(input);
    let (used, element) = match type_within(input, config, depth) {
        Ok(found) => found,
        Err(message) => {
            return Err(message);
        },
    };
    let end = after(input, used);
    match first_byte(end) {
        None => failed(ErrorKind::TruncatedInput, end),
        Some(mark) => if mark == '_' as u8 {
            proof {
                valid_utf8_split(bytes, used as int);
                lemma_boundary_after_ascii(end.spec_bytes());
                lemma_boundary_compose(bytes, used as int, 1);
            }
            let mut text = String::from_str("Array[");
            text.append(element.as_str());
            text.append("]");
            Ok((used + 1, text))
        } else {
            failed(ErrorKind::UnknownNullableTag, end)
        },
    }
}

/// Decodes the nullable type at the front of `input`, which is what follows
/// the tag `L`: how many bytes it takes up, and what was read. A class is
/// handed back by its name as it is written, an array as it is shown under
/// `config`. An identifier may nest [`MAX_NESTING`] deep.
pub fn nullable_type_name(input: &str, config: &DemanglingConfig) -> (res: ParsingResult<
    (usize, String),
>)
    ensures
        match parse_nullable(input.spec_bytes(), MAX_NESTING as nat) {
            Ok((used, parsed)) => res matches Ok((count, text)) && count == used && text@
                == nullable_text(parsed, config.collapse_scala_names),
            Err(failure) => res matches Err(message) && message@ == failure.message(),
        },
        res matches Ok((count, _)) ==> 0 < count <= input.spec_bytes().len() && is_char_boundary(
            input.spec_bytes(),
            count as int,
        ),
{
    nullable_within(input, config, MAX_NESTING)
}

/// Decodes the nullable type at the front of `input`, which may open `depth`
/// levels of nesting.
pub(crate) fn nullable_within(input: &str, config: &DemanglingConfig, depth: usize) -> (res:
    ParsingResult<(usize, String)>)
    ensures
        match parse_nullable(input.spec_bytes(), depth as nat) {
            Ok((used, parsed)) => res matches Ok((count, text)) && count == used && text@
                == nullable_text(parsed, config.collapse_scala_names),
            Err(failure) => res matches Err(message) && message@ == failure.message(),
        },
        res matches Ok((count, _)) ==> 0 < count <= input.spec_bytes().len() && is_char_boundary(
            input.spec_bytes(),
            count as int,
        ),
    decreases input.spec_bytes().len(), 0nat,
{
    let tag = match first_byte(input) {
        Some(tag) => tag,
        None => {
            return failed(ErrorKind::TruncatedInput, input);
        },
    };
    if tag == 'A' as u8 {
        if depth == 0 {
            return failed(ErrorKind::NestingTooDeep, input);
        }
        proof {
            lemma_boundary_after_ascii(input.spec_bytes());
        }
        with_tag(input, nullable_array_within(after(input, 1), config, depth - 1))
    } else if tag == 'X' as u8 {
        proof {
            lemma_boundary_after_ascii(input.spec_bytes());
        }
        with_tag(input, name(after(input, 1), config))
    } else if 0x30 <= tag && tag <= 0x39 {
        name(input, config)
    } else {
        failed(ErrorKind::UnknownNullableTag, input)
    }
}

/// What a type list comes to when the types `done`, which took up `used`
/// bytes, stand in front of the list `rest`.
pub open spec fn behind_types(
    used: nat,
    done: Seq<TypeName>,
    rest: Result<(nat, Seq<TypeName>), Failure>,
) -> Result<(nat, Seq<TypeName>), Failure> {
    match rest {
        Ok((more, others)) => Ok((used + more, done + others)),
        Err(failure) => Err(failure),
    }
}

/// One more type read off the front of a list that does not end yet leaves
/// the list what it was: the type goes over to the types in front of it.
pub proof fn lemma_type_read(used: nat, done: Seq<TypeName>, rest: Seq<u8>, depth: nat)
    requires
        !(rest.len() > 0 && rest[0] == 'E' as u8),
    ensures
        match parse_type(rest, depth) {
            Ok((more, parsed)) => behind_types(used, done, parse_type_list(rest, depth))
                == behind_types(
                used + more,
                done.push(parsed),
                parse_type_list(rest.skip(more as int), depth),
            ),
            Err(failure) => parse_type_list(rest, depth) == Err::<(nat, Seq<TypeName>), _>(
                failure,
            ),
        },
{
    if let Ok((more, parsed)) = parse_type(rest, depth) {
        if let Ok((_, others)) = parse_type_list(rest.skip(more as int), depth) {
            assert(done + (seq![parsed] + others) == done.push(parsed) + others);
        }
    }
}

/// One more text behind the texts of some types is the texts of those types
/// and one more.
pub proof fn lemma_text_pushed(
    texts: Seq<String>,
    text: String,
    done: Seq<TypeName>,
    parsed: TypeName,
    collapse: bool,
)
    requires
        texts_of(texts) == type_texts(done, collapse),
        text@ == type_text(parsed, collapse),
    ensures
        texts_of(texts.push(text)) == type_texts(done.push(parsed), collapse),
{
    assert(texts_of(texts).len() == texts.len());
    assert(type_texts(done, collapse).len() == done.len());
    assert forall|i: int| 0 <= i < texts.len() + 1 implies texts_of(texts.push(text))[i]
        == type_texts(done.push(parsed), collapse)[i] by {
        if i < texts.len() {
            assert(texts_of(texts)[i] == type_texts(done, collapse)[i]);
        }
    }
}

/// Decodes the types at the front of `input`, up to the terminator `E`: how
/// many bytes they take up, the terminator not counted, and the types in
/// their order, each as it is shown under `config`. An identifier may nest
/// [`MAX_NESTING`] deep.
pub fn read_type_names(input: &str, config: &DemanglingConfig) -> (res: ParsingResult<
    (usize, Vec<String>),
>)
    ensures
        match parse_type_list(input.spec_bytes(), MAX_NESTING as nat) {
            Ok((used, types)) => res matches Ok((count, texts)) && count == used && texts_of(
                texts@,
            ) == type_texts(types, config.collapse_scala_names),
            Err(failure) => res matches Err(message) && message@ == failure.message(),
        },
        res matches Ok((count, _)) ==> count < input.spec_bytes().len() && input.spec_bytes()[count as int]
            == 'E' as u8 && is_char_boundary(input.spec_bytes(), count as int),
{
    type_names_within(input, config, MAX_NESTING)
}

/// Decodes the types at the front of `input`, up to the terminator `E`. Each
/// may open `depth` levels of nesting.
pub(crate) fn type_names_within(input: &str, config: &DemanglingConfig, depth: usize) -> (res:
    ParsingResult<(usize, Vec<String>)>)
    ensures
        match parse_type_list(input.spec_bytes(), depth as nat) {
            Ok((used, types)) => res matches Ok((count, texts)) && count == used && texts_of(
                texts@,
            ) == type_texts(types, config.collapse_scala_names),
            Err(failure) => res matches Err(message) && message@ == failure.message(),
        },
        res matches Ok((count, _)) ==> count < input.spec_bytes().len() && input.spec_bytes()[count as int]
            == 'E' as u8 && is_char_boundary(input.spec_bytes(), count as int),
{
    let ghost bytes = input.spec_bytes();
    let ghost collapse = config.collapse_scala_names;
    let ghost levels = depth as nat;
    let total = byte_len(input);
    let mut pos: usize = 0;
    let mut result: Vec<String> = Vec::new();
    let mut rest = input;
    let ghost mut done: Seq<TypeName> = Seq::empty();
    proof {
        assert(bytes.skip(0) == bytes);
        if let Ok((_, others)) = parse_type_list(bytes, levels) {
            assert(done + others == others);
        }
    }
    loop
        invariant
            bytes == input.spec_bytes(),
            collapse == config.collapse_scala_names,
            levels == depth,
            pos <= total == bytes.len(),
            is_char_boundary(bytes, pos as int),
            rest.spec_bytes() == bytes.skip(pos as int),
            parse_type_list(bytes, levels) == behind_types(
                pos as nat,
                done,
                parse_type_list(rest.spec_bytes(), levels),
            ),
            texts_of(result@) == type_texts(done, collapse),
        decreases total - pos,
    {
        if first_byte(rest) == Some('E' as u8) {
            proof {
                assert(done + Seq::<TypeName>::empty() == done);
            }
            return Ok((pos, result));
        }
        proof {
            lemma_type_read(pos as nat, done, rest.spec_bytes(), levels);
        }
        match type_within(rest, config, depth) {
            Ok((used, text)) => {
                proof {
                    let parsed = parse_type(rest.spec_bytes(), levels)->Ok_0.1;
                    lemma_boundary_compose(bytes, pos as int, used as int);
                    assert(rest.spec_bytes().skip(used as int) == bytes.skip(pos + used));
                    lemma_text_pushed(result@, text, done, parsed, collapse);
                    done = done.push(parsed);
                }
                result.push(text);
                rest = after(rest, used);
                pos = pos + used;
            },
            Err(message) => {
                return Err(message);
            },
        }
    }
}

} // verus!
