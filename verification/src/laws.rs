//! What holds of the grammar and of the texts for every identifier.

use vstd::prelude::*;
use vstd::utf8::*;
use crate::error::{said, ErrorKind, Failure, ParsingResult};
use crate::extent::{lemma_type_extends, lemma_type_list_extends};
use crate::grammar::{
    demangled, has_scheme_prefix, lemma_callable_width, outcome, parse_callable,
    parse_identifier, parse_method, parse_scope, parse_signature, parse_type, parse_type_list,
};
use crate::names::{
    decimal_value, is_digit, lemma_digit_run, parse_name, payload_start, SIGN_MARKER,
};
use crate::syntax::{
    definition_text, scope_prefix, short_form, signature_text, type_text, type_texts, Definition,
    Signature, TypeName, Visibility,
};
use crate::text::{joined, lemma_boundary_after_valid_prefix, lemma_encode_concat};

verus! {

/// The character that writes a digit.
pub open spec fn digit_char(digit: nat) -> char {
    ((0x30 + digit) as u8) as char
}

/// A number as it is written in decimal digits.
pub open spec fn decimal_text(number: nat) -> Seq<char>
    decreases number,
{
    if number < 10 {
        seq![digit_char(number)]
    } else {
        decimal_text(number / 10).push(digit_char(number % 10))
    }
}

/// The decimal writing of a number is made of digits, one byte each, and
/// writes that number.
pub proof fn lemma_decimal_text(number: nat)
    ensures
        is_ascii_chars(decimal_text(number)),
        encode_utf8(decimal_text(number)).len() == decimal_text(number).len() > 0,
        forall|i: int|
            0 <= i < decimal_text(number).len() ==> is_digit(
                #[trigger] encode_utf8(decimal_text(number))[i],
            ),
        decimal_value(encode_utf8(decimal_text(number))) == number,
    decreases number,
{
    let text = decimal_text(number);
    if number < 10 {
        assert(text[0] == digit_char(number));
        assert(is_ascii_chars(text));
        is_ascii_chars_encode_utf8(text);
        let bytes = encode_utf8(text);
        assert(bytes[0] == text[0] as u8);
        assert(bytes.drop_last().len() == 0);
        assert(decimal_value(bytes.drop_last()) == 0);
    } else {
        let front = decimal_text(number / 10);
        lemma_decimal_text(number / 10);
        is_ascii_chars_encode_utf8(front);
        assert forall|i: int| 0 <= i < text.len() implies '\0' <= #[trigger] text[i]
            <= '\u{7f}' by {
            if i < front.len() {
                assert(text[i] == front[i]);
            }
        }
        is_ascii_chars_encode_utf8(text);
        let bytes = encode_utf8(text);
        assert(bytes.drop_last() == encode_utf8(front)) by {
            assert forall|i: int| 0 <= i < front.len() implies bytes.drop_last()[i]
                == encode_utf8(front)[i] by {
                assert(bytes[i] == text[i] as u8);
                assert(encode_utf8(front)[i] == front[i] as u8);
            }
        }
        assert(bytes.last() == text[text.len() - 1] as u8);
        assert forall|i: int| 0 <= i < text.len() implies is_digit(#[trigger] bytes[i]) by {
            if i < front.len() {
                assert(bytes[i] == bytes.drop_last()[i]);
            }
        }
    }
}

/// The character of the sign marker.
pub open spec fn sign_char() -> char {
    SIGN_MARKER as char
}

/// A name round-trips: the length of a payload in decimal digits, a sign
/// marker or none, and the payload, whatever follows them, decode to the
/// payload, and take up the digits, the marker and the payload.
///
/// Without the marker the payload, or where it is empty what follows it, must
/// open with neither a digit nor the marker: either would be read as part of
/// the prefix.
pub proof fn lemma_name_round_trip(payload: Seq<char>, marked: bool, tail: Seq<char>)
    requires
        encode_utf8(payload).len() <= usize::MAX,
        !marked ==> (payload + tail).len() == 0 || !(is_digit(encode_utf8(payload + tail)[0])
            || encode_utf8(payload + tail)[0] == SIGN_MARKER),
    ensures
        ({
            let length = encode_utf8(payload).len();
            let prefix = if marked {
                decimal_text(length).push(sign_char())
            } else {
                decimal_text(length)
            };
            parse_name(encode_utf8(prefix + payload + tail)) == Ok::<_, Failure>(
                (prefix.len() + length, payload),
            )
        }),
{
    let length = encode_utf8(payload).len();
    let digits = decimal_text(length);
    let prefix = if marked {
        digits.push(sign_char())
    } else {
        digits
    };
    let rest = payload + tail;
    let bytes = encode_utf8(prefix + payload + tail);
    lemma_decimal_text(length);
    assert(prefix + payload + tail == prefix + rest);
    lemma_encode_concat(prefix, rest);
    lemma_encode_concat(payload, tail);
    assert forall|i: int| 0 <= i < prefix.len() implies '\0' <= #[trigger] prefix[i]
        <= '\u{7f}' by {
        if i < digits.len() {
            assert(prefix[i] == digits[i]);
        }
    }
    is_ascii_chars_encode_utf8(prefix);
    is_ascii_chars_encode_utf8(digits);
    let front = encode_utf8(prefix);
    assert(bytes == front + encode_utf8(payload) + encode_utf8(tail));
    // the digit run is the decimal text
    assert forall|i: int| 0 <= i < digits.len() implies is_digit(#[trigger] bytes[i]) by {
        assert(bytes[i] == front[i]);
        assert(front[i] == prefix[i] as u8);
        assert(encode_utf8(digits)[i] == digits[i] as u8);
    }
    if marked {
        assert(bytes[digits.len() as int] == front[digits.len() as int]);
        assert(front[digits.len() as int] == SIGN_MARKER);
    } else if rest.len() > 0 {
        encode_utf8_first_scalar(rest);
        assert(bytes[digits.len() as int] == encode_utf8(rest)[0]);
    } else {
        assert(encode_utf8(rest).len() == 0);
    }
    lemma_digit_run(bytes, digits.len());
    assert(bytes.take(digits.len() as int) == encode_utf8(digits)) by {
        assert forall|i: int| 0 <= i < digits.len() implies bytes.take(digits.len() as int)[i]
            == encode_utf8(digits)[i] by {
            assert(bytes[i] == front[i]);
            assert(front[i] == prefix[i] as u8);
            assert(encode_utf8(digits)[i] == digits[i] as u8);
        }
    }
    assert(payload_start(bytes) == prefix.len());
    let end = prefix.len() + length;
    // the payload ends with a whole character
    encode_utf8_valid_utf8(prefix + payload + tail);
    assert(bytes.take(end as int) == encode_utf8(prefix + payload)) by {
        lemma_encode_concat(prefix, payload);
    }
    encode_utf8_valid_utf8(prefix + payload);
    lemma_boundary_after_valid_prefix(bytes, end as int);
    assert(bytes.subrange(prefix.len() as int, end as int) == encode_utf8(payload));
    encode_utf8_decode_utf8(payload);
}

/// An identifier that does not open with the scheme marker is refused for
/// that, whatever else it holds.
pub proof fn lemma_scheme_prefix_comes_first(bytes: Seq<u8>, collapse: bool)
    requires
        !has_scheme_prefix(bytes),
    ensures
        demangled(bytes, collapse) == Err::<Seq<char>, _>(
            Failure { kind: ErrorKind::MissingSchemePrefix, rest: decode_utf8(bytes) },
        ),
{
}

/// Decoding is repeatable: whatever is handed back for an identifier, with
/// names collapsed or not, is handed back every time.
pub proof fn lemma_decoding_is_repeatable(
    first: ParsingResult<String>,
    second: ParsingResult<String>,
    bytes: Seq<u8>,
    collapse: bool,
)
    requires
        said(first) == outcome(bytes, collapse),
        said(second) == outcome(bytes, collapse),
    ensures
        said(first) == said(second),
{
}

/// Collapsing names changes how a definition is shown, never which
/// definition it is: with names collapsed and with names in full, decoding
/// fails on the same identifiers with the same failure, and where it does not
/// fail it shows one and the same tree.
pub proof fn lemma_collapsing_keeps_the_tree(bytes: Seq<u8>)
    ensures
        match parse_identifier(bytes) {
            Ok(tree) => demangled(bytes, true) == Ok::<_, Failure>(definition_text(tree, true))
                && demangled(bytes, false) == Ok::<_, Failure>(definition_text(tree, false)),
            Err(failure) => demangled(bytes, true) == Err::<Seq<char>, _>(failure) && demangled(
                bytes,
                false,
            ) == Err::<Seq<char>, _>(failure),
        },
{
}

/// Whether a type is shown the same with names collapsed and with names in
/// full: it holds no primitive kind and no class that has a short form of
/// its own.
pub open spec fn shown_alike(shown: TypeName) -> bool
    decreases shown,
{
    match shown {
        TypeName::Primitive(_) => false,
        TypeName::CVararg => true,
        TypeName::CPointer => true,
        TypeName::CArray(element, _) => shown_alike(*element),
        TypeName::NullableClass(name) => short_form(name) == name,
        TypeName::NullableArray(element) => shown_alike(*element),
        TypeName::ExactClass(_) => true,
        TypeName::Class(name) => short_form(name) == name,
    }
}

/// Collapsing names touches primitive kinds and classes with a short form,
/// and nothing else of a type.
pub proof fn lemma_collapsing_touches_names_only(shown: TypeName)
    requires
        shown_alike(shown),
    ensures
        type_text(shown, true) == type_text(shown, false),
    decreases shown,
{
    match shown {
        TypeName::CArray(element, _) => lemma_collapsing_touches_names_only(*element),
        TypeName::NullableArray(element) => lemma_collapsing_touches_names_only(*element),
        _ => {},
    }
}

/// Whether every type of a list is shown the same with names collapsed and
/// with names in full.
pub open spec fn types_shown_alike(types: Seq<TypeName>) -> bool {
    forall|i: int| 0 <= i < types.len() ==> shown_alike(#[trigger] types[i])
}

/// Whether a scope is shown the same with names collapsed and with names in
/// full.
pub open spec fn scope_shown_alike(scope: Visibility) -> bool
    decreases scope,
{
    match scope {
        Visibility::Public => true,
        Visibility::PublicStatic => true,
        Visibility::Private(owner) => definition_shown_alike(*owner),
        Visibility::PrivateStatic(owner) => definition_shown_alike(*owner),
    }
}

/// Whether a signature is shown the same with names collapsed and with names
/// in full.
pub open spec fn signature_shown_alike(signature: Signature) -> bool
    decreases signature,
{
    match signature {
        Signature::Field { scope, .. } => scope_shown_alike(scope),
        Signature::Constructor { params } => types_shown_alike(params),
        Signature::Method { params, result, scope, .. } => types_shown_alike(params)
            && shown_alike(result) && scope_shown_alike(scope),
        Signature::Proxy { params, result, .. } => types_shown_alike(params) && shown_alike(
            result,
        ),
        Signature::CExternOrGenerated { .. } => true,
        Signature::Duplicate { params, result, .. } => types_shown_alike(params) && shown_alike(
            result,
        ),
        Signature::StaticInit => true,
    }
}

/// Whether a definition is shown the same with names collapsed and with
/// names in full: nowhere in it stands a primitive kind or a class that has a
/// short form of its own.
pub open spec fn definition_shown_alike(definition: Definition) -> bool
    decreases definition,
{
    match definition {
        Definition::TopLevel { .. } => true,
        Definition::Member { signature, .. } => signature_shown_alike(signature),
    }
}

/// Collapsing names touches primitive kinds and classes with a short form,
/// and nothing else of a list of types.
pub proof fn lemma_collapsing_touches_names_only_in_lists(types: Seq<TypeName>)
    requires
        types_shown_alike(types),
    ensures
        type_texts(types, true) == type_texts(types, false),
{
    assert forall|i: int| 0 <= i < types.len() implies type_texts(types, true)[i] == type_texts(
        types,
        false,
    )[i] by {
        lemma_collapsing_touches_names_only(types[i]);
    }
}

/// Collapsing names touches primitive kinds and classes with a short form,
/// and nothing else of a scope.
pub proof fn lemma_collapsing_touches_names_only_in_scopes(scope: Visibility)
    requires
        scope_shown_alike(scope),
    ensures
        scope_prefix(scope, true) == scope_prefix(scope, false),
    decreases scope,
{
    match scope {
        Visibility::Private(owner) => lemma_collapsing_touches_names_only_in_definitions(*owner),
        Visibility::PrivateStatic(owner) => lemma_collapsing_touches_names_only_in_definitions(
            *owner,
        ),
        _ => {},
    }
}

/// Collapsing names touches primitive kinds and classes with a short form,
/// and nothing else of a signature.
pub proof fn lemma_collapsing_touches_names_only_in_signatures(signature: Signature)
    requires
        signature_shown_alike(signature),
    ensures
        signature_text(signature, true) == signature_text(signature, false),
    decreases signature,
{
    match signature {
        Signature::Field { scope, .. } => {
            lemma_collapsing_touches_names_only_in_scopes(scope);
        },
        Signature::Constructor { params } => {
            lemma_collapsing_touches_names_only_in_lists(params);
        },
        Signature::Method { params, result, scope, .. } => {
            lemma_collapsing_touches_names_only_in_lists(params);
            lemma_collapsing_touches_names_only(result);
            lemma_collapsing_touches_names_only_in_scopes(scope);
        },
        Signature::Proxy { params, result, .. } => {
            lemma_collapsing_touches_names_only_in_lists(params);
            lemma_collapsing_touches_names_only(result);
        },
        Signature::Duplicate { params, result, .. } => {
            lemma_collapsing_touches_names_only_in_lists(params);
            lemma_collapsing_touches_names_only(result);
        },
        _ => {},
    }
}

/// Collapsing names touches primitive kinds and classes with a short form,
/// and nothing else of a definition.
pub proof fn lemma_collapsing_touches_names_only_in_definitions(definition: Definition)
    requires
        definition_shown_alike(definition),
    ensures
        definition_text(definition, true) == definition_text(definition, false),
    decreases definition,
{
    match definition {
        Definition::Member { signature, .. } => {
            lemma_collapsing_touches_names_only_in_signatures(signature);
        },
        _ => {},
    }
}

/// A list of types is shown as one text for each type, in the order of the
/// list, with names collapsed or not.
pub proof fn lemma_collapsing_keeps_the_count(types: Seq<TypeName>, collapse: bool)
    ensures
        type_texts(types, collapse).len() == types.len(),
        forall|i: int|
            0 <= i < types.len() ==> #[trigger] type_texts(types, collapse)[i] == type_text(
                types[i],
                collapse,
            ),
{
}

/// How many times the separator was put between the parts of a joined text:
/// once less than there are parts.
pub proof fn lemma_joined_length(parts: Seq<Seq<char>>, separator: Seq<char>)
    ensures
        joined(parts, separator).len() == total_length(parts) + (if parts.len() == 0 {
            0
        } else {
            (parts.len() - 1) * separator.len()
        }),
    decreases parts.len(),
{
    if parts.len() == 1 {
        assert(total_length(parts.drop_last()) == 0);
        assert(0 * separator.len() == 0);
    } else if parts.len() > 1 {
        let count = parts.len() as int;
        let width = separator.len() as int;
        lemma_joined_length(parts.drop_last(), separator);
        assert(parts.drop_last().len() == count - 1);
        assert((count - 2) * width + width == (count - 1) * width) by (nonlinear_arith);
    }
}

/// The lengths of the parts, added up.
pub open spec fn total_length(parts: Seq<Seq<char>>) -> nat
    decreases parts.len(),
{
    if parts.len() == 0 {
        0
    } else {
        total_length(parts.drop_last()) + parts.last().len()
    }
}

/// A method with parameters is shown as its name behind the scope prefix,
/// then every parameter, in order and with one comma between each two,
/// between parentheses, then a colon, a blank and the result. A method
/// without parameters is shown without the parentheses.
pub proof fn lemma_method_text(
    name: Seq<char>,
    params: Seq<TypeName>,
    result: TypeName,
    scope: Visibility,
    collapse: bool,
)
    ensures
        signature_text(Signature::Method { name, params, result, scope }, collapse) == (if params.len()
            == 0 {
            scope_prefix(scope, collapse) + name + ": "@ + type_text(result, collapse)
        } else {
            scope_prefix(scope, collapse) + name + "("@ + joined(
                type_texts(params, collapse),
                ","@,
            ) + "): "@ + type_text(result, collapse)
        }),
        type_texts(params, collapse).len() == params.len(),
{
}

/// The types behind the name of a method are its parameters, in their
/// order, and behind them its result.
pub proof fn lemma_method_types(bytes: Seq<u8>, depth: nat)
    ensures
        match parse_method(bytes, depth) {
            Ok(Signature::Method { name, params, result, scope }) => parse_callable(bytes, depth)
                matches Ok((_, named, types)) && named == name && types == params.push(result),
            Ok(_) => false,
            Err(_) => true,
        },
{
    if let Ok((used, named, types)) = parse_callable(bytes, depth) {
        lemma_callable_width(bytes, depth);
        assert(types == types.drop_last().push(types.last()));
    }
}

/// A public method as it is written: the tag `D`, the name behind its length,
/// the types as they are written, the terminator `E` and the scope `O`.
pub open spec fn method_written(name: Seq<char>, types_written: Seq<char>) -> Seq<char> {
    seq!['D'] + (decimal_text(encode_utf8(name).len()) + name + (types_written + seq!['E', 'O']))
}

/// The text of one character that is written in one byte is that byte.
proof fn lemma_one_byte(written: char)
    requires
        written <= '\u{7f}',
    ensures
        encode_utf8(seq![written]) == seq![written as u8],
{
    assert(is_ascii_chars(seq![written]));
    is_ascii_chars_encode_utf8(seq![written]);
    assert(encode_utf8(seq![written])[0] == seq![written][0] as u8);
}

/// A public method that is written with a name and a list of types is shown
/// with exactly those types: all but the last between parentheses behind the
/// name, in the order in which they are written and with one comma between
/// each two, and the last behind a colon and a blank. Where only one type is
/// written, there are no parentheses.
///
/// The name must open with neither a digit nor the sign marker, which would
/// be read as part of its length.
pub proof fn lemma_method_shown_as_written(
    name: Seq<char>,
    types_written: Seq<char>,
    types: Seq<TypeName>,
    depth: nat,
    collapse: bool,
)
    requires
        0 < encode_utf8(name).len() <= usize::MAX,
        !(is_digit(encode_utf8(name)[0]) || encode_utf8(name)[0] == SIGN_MARKER),
        parse_type_list(encode_utf8(types_written + seq!['E']), depth) == Ok::<_, Failure>(
            (encode_utf8(types_written).len(), types),
        ),
        types.len() > 0,
    ensures
        parse_signature(encode_utf8(method_written(name, types_written)), depth) matches Ok(
            shown,
        ) && signature_text(shown, collapse) == (if types.len() == 1 {
            name + ": "@ + type_text(types[0], collapse)
        } else {
            name + "("@ + joined(type_texts(types.drop_last(), collapse), ","@) + "): "@
                + type_text(types.last(), collapse)
        }),
{
    let length = encode_utf8(name).len();
    let digits = decimal_text(length);
    let list_text = types_written + seq!['E'];
    let behind_name = types_written + seq!['E', 'O'];
    let inner = digits + name + behind_name;
    let bytes = encode_utf8(method_written(name, types_written));
    let rest = encode_utf8(inner);
    let list = encode_utf8(list_text);
    let scope = encode_utf8(seq!['O']);
    // the tag
    lemma_one_byte('D');
    lemma_encode_concat(seq!['D'], inner);
    assert(bytes[0] == 'D' as u8);
    assert(bytes.skip(1) == rest);
    // the name
    lemma_encode_concat(name, behind_name);
    assert(encode_utf8(name + behind_name)[0] == encode_utf8(name)[0]);
    lemma_name_round_trip(name, false, behind_name);
    lemma_decimal_text(length);
    lemma_encode_concat(digits + name, behind_name);
    lemma_encode_concat(digits, name);
    let used = digits.len() + length;
    assert(rest.skip(used as int) == encode_utf8(behind_name));
    // the types
    assert(behind_name == list_text + seq!['O']);
    lemma_encode_concat(list_text, seq!['O']);
    lemma_encode_concat(types_written, seq!['E']);
    lemma_one_byte('E');
    lemma_one_byte('O');
    encode_utf8_valid_utf8(list_text);
    encode_utf8_valid_utf8(behind_name);
    lemma_type_list_extends(list, depth, scope);
    let listed = encode_utf8(types_written).len();
    assert(parse_callable(rest, depth) == Ok::<_, Failure>((used + listed + 1, name, types)));
    // the scope
    assert(rest.skip((used + listed + 1) as int) == scope) by {
        assert(encode_utf8(behind_name).skip((listed + 1) as int) == scope);
        assert(rest.skip(used as int).skip((listed + 1) as int) == rest.skip(
            (used + listed + 1) as int,
        ));
    }
    assert(scope[0] == 'O' as u8);
    assert(parse_scope(scope, depth) == Ok::<_, Failure>(Visibility::Public));
    let shown = Signature::Method {
        name,
        params: types.drop_last(),
        result: types.last(),
        scope: Visibility::Public,
    };
    assert(parse_method(rest, depth) == Ok::<_, Failure>(shown));
    assert(parse_signature(bytes, depth) == Ok::<_, Failure>(shown));
    assert(Seq::<char>::empty() + name == name);
}

/// A public method that is written with a name and one type is shown as the
/// name, a colon, a blank and that type, and nothing else: the type is its
/// result, and no parentheses are put.
pub proof fn lemma_method_without_parameters_shown_as_written(
    name: Seq<char>,
    type_written: Seq<char>,
    result: TypeName,
    depth: nat,
    collapse: bool,
)
    requires
        0 < encode_utf8(name).len() <= usize::MAX,
        !(is_digit(encode_utf8(name)[0]) || encode_utf8(name)[0] == SIGN_MARKER),
        parse_type(encode_utf8(type_written), depth) == Ok::<_, Failure>(
            (encode_utf8(type_written).len(), result),
        ),
    ensures
        parse_signature(encode_utf8(method_written(name, type_written)), depth) matches Ok(
            shown,
        ) && signature_text(shown, collapse) == name + ": "@ + type_text(result, collapse),
{
    let alone = encode_utf8(type_written);
    let terminator = encode_utf8(seq!['E']);
    lemma_one_byte('E');
    lemma_encode_concat(type_written, seq!['E']);
    encode_utf8_valid_utf8(type_written);
    encode_utf8_valid_utf8(type_written + seq!['E']);
    lemma_type_extends(alone, depth, terminator);
    let list = alone + terminator;
    assert(list[0] == alone[0]);
    assert(list.skip(alone.len() as int) == terminator);
    assert(parse_type_list(terminator, depth) == Ok::<_, Failure>((0nat, Seq::<TypeName>::empty())));
    assert(seq![result] + Seq::<TypeName>::empty() == seq![result]);
    assert(parse_type_list(list, depth) == Ok::<_, Failure>((alone.len(), seq![result])));
    lemma_method_shown_as_written(name, type_written, seq![result], depth, collapse);
}

} // verus!
