//! The grammar of mangled identifiers, as functions from the bytes of an
//! identifier to the tree that they write down.
//!
//! Every production reads the front of the bytes it is given. A production
//! that may be followed by more says how many bytes it took up. Whatever
//! follows a finished definition is not looked at.
//!
//! Arrays and private scopes nest. Every production that may hold one takes
//! the number of levels it may still open; an array or a private scope where
//! none is left is a violation. A whole identifier may open [`MAX_NESTING`].
//!
//! ```text
//! identifier ::= _S definition
//! definition ::= T name | M name signature
//! signature  ::= F name scope | R type* E | D name type+ E scope
//!              | P name type+ E | K name type+ E | C name | G name | I
//! scope      ::= O | o | P definition | p definition
//! type       ::= v | z | c | f | d | u | l | n | b | s | i | j
//!              | R _ | L nullable | A type digit* _ | X name
//! nullable   ::= A type _ | X name | name
//! name       ::= digit+ -? payload
//! ```

use vstd::prelude::*;
use vstd::utf8::*;
use crate::error::{fail_at, ErrorKind, Failure};
use crate::names::{
    decimal_value, digit_run, is_digit, lemma_digit_run_holds_digits, parse_name,
};
use crate::syntax::{
    class_text, definition_text, lemma_array_text_has_no_short_form, nullable_text,
    primitive_kind, type_text, Definition, Signature, TypeName, Visibility,
};

verus! {

/// How deep an identifier may nest: arrays in arrays and private scopes in
/// private scopes, counted together along one path. An identifier that nests
/// deeper is refused.
pub const MAX_NESTING: usize = 128;

/// A type at the front of `bytes`: the bytes it takes up and the type.
pub open spec fn parse_type(bytes: Seq<u8>, depth: nat) -> Result<(nat, TypeName), Failure>
    decreases bytes.len(), 0nat,
{
    if bytes.len() == 0 {
        fail_at(ErrorKind::TruncatedInput, bytes)
    } else {
        let tag = bytes[0];
        let rest = bytes.skip(1);
        if tag == 'v' as u8 {
            Ok((1, TypeName::CVararg))
        } else if let Some(kind) = primitive_kind(tag) {
            Ok((1, TypeName::Primitive(kind)))
        } else if tag == 'R' as u8 {
            behind_tag(parse_c_pointer(rest))
        } else if tag == 'L' as u8 {
            behind_tag(parse_nullable(rest, depth))
        } else if tag == 'A' as u8 {
            if depth == 0 {
                fail_at(ErrorKind::NestingTooDeep, bytes)
            } else {
                behind_tag(parse_c_array(rest, (depth - 1) as nat))
            }
        } else if tag == 'X' as u8 {
            behind_tag(parse_exact_class(rest))
        } else {
            fail_at(ErrorKind::UnknownTypeTag, bytes)
        }
    }
}

/// What stands behind a tag, with the byte of the tag counted in.
pub open spec fn behind_tag(tagged: Result<(nat, TypeName), Failure>) -> Result<
    (nat, TypeName),
    Failure,
> {
    match tagged {
        Ok((used, found)) => Ok((1 + used, found)),
        Err(failure) => Err(failure),
    }
}

/// What follows the tag `R` of a C pointer: its closing mark.
pub open spec fn parse_c_pointer(bytes: Seq<u8>) -> Result<(nat, TypeName), Failure> {
    if bytes.len() == 0 {
        fail_at(ErrorKind::TruncatedInput, bytes)
    } else if bytes[0] == '_' as u8 {
        Ok((1, TypeName::CPointer))
    } else {
        fail_at(ErrorKind::MalformedCPointer, bytes)
    }
}

/// What follows the tag `A` of a C array: the type of the elements, their
/// count in decimal digits or no digit at all, and the closing mark.
pub open spec fn parse_c_array(bytes: Seq<u8>, depth: nat) -> Result<(nat, TypeName), Failure>
    decreases bytes.len(), 1nat,
{
    match parse_type(bytes, depth) {
        Ok((used, element)) => {
            let behind = bytes.skip(used as int);
            let digits = digit_run(behind);
            let count = decimal_value(behind.take(digits as int));
            let end = behind.skip(digits as int);
            if end.len() == 0 {
                fail_at(ErrorKind::TruncatedInput, end)
            } else if end[0] == '_' as u8 {
                Ok((used + digits + 1, TypeName::CArray(Box::new(element), count)))
            } else {
                fail_at(ErrorKind::UnknownTypeTag, end)
            }
        },
        Err(failure) => Err(failure),
    }
}

/// What follows the tag `X` of an exact class: its name.
pub open spec fn parse_exact_class(bytes: Seq<u8>) -> Result<(nat, TypeName), Failure> {
    match parse_name(bytes) {
        Ok((used, name)) => Ok((used, TypeName::ExactClass(name))),
        Err(failure) => Err(failure),
    }
}

/// What follows the tag `A` of a nullable array: the type of the elements
/// and the closing mark.
pub open spec fn parse_nullable_array(bytes: Seq<u8>, depth: nat) -> Result<(nat, TypeName), Failure>
    decreases bytes.len(), 1nat,
{
    match parse_type(bytes, depth) {
        Ok((used, element)) => {
            let end = bytes.skip(used as int);
            if end.len() == 0 {
                fail_at(ErrorKind::TruncatedInput, end)
            } else if end[0] == '_' as u8 {
                Ok((used + 1, TypeName::NullableArray(Box::new(element))))
            } else {
                fail_at(ErrorKind::UnknownNullableTag, end)
            }
        },
        Err(failure) => Err(failure),
    }
}

/// A nullable type at the front of `bytes`, which is what follows the tag
/// `L`: the bytes it takes up and the type.
pub open spec fn parse_nullable(bytes: Seq<u8>, depth: nat) -> Result<(nat, TypeName), Failure>
    decreases bytes.len(), 0nat,
{
    if bytes.len() == 0 {
        fail_at(ErrorKind::TruncatedInput, bytes)
    } else {
        let tag = bytes[0];
        let rest = bytes.skip(1);
        if tag == 'A' as u8 {
            if depth == 0 {
                fail_at(ErrorKind::NestingTooDeep, bytes)
            } else {
                behind_tag(parse_nullable_array(rest, (depth - 1) as nat))
            }
        } else if tag == 'X' as u8 {
            match parse_name(rest) {
                Ok((used, name)) => Ok((1 + used, TypeName::NullableClass(name))),
                Err(failure) => Err(failure),
            }
        } else if is_digit(tag) {
            match parse_name(bytes) {
                Ok((used, name)) => Ok((used, TypeName::Class(name))),
                Err(failure) => Err(failure),
            }
        } else {
            fail_at(ErrorKind::UnknownNullableTag, bytes)
        }
    }
}

/// A nullable type is shown as what was read behind the tag `L`, with a
/// class given its short form where names are collapsed.
pub proof fn lemma_nullable_shown(bytes: Seq<u8>, depth: nat, collapse: bool)
    ensures
        parse_nullable(bytes, depth) matches Ok((_, read)) ==> type_text(read, collapse) == class_text(
            nullable_text(read, collapse),
            collapse,
        ),
{
    if let Ok((_, read)) = parse_nullable(bytes, depth) {
        if let TypeName::NullableArray(element) = read {
            lemma_array_text_has_no_short_form(type_text(*element, collapse));
        }
    }
}

/// The types at the front of `bytes`, up to the terminator `E`: the bytes
/// they take up, the terminator not counted, and the types in their order.
pub open spec fn parse_type_list(bytes: Seq<u8>, depth: nat) -> Result<(nat, Seq<TypeName>), Failure>
    decreases bytes.len(),
    via parse_type_list_ends
{
    if bytes.len() > 0 && bytes[0] == 'E' as u8 {
        Ok((0, Seq::empty()))
    } else {
        match parse_type(bytes, depth) {
            Ok((used, first)) => match parse_type_list(bytes.skip(used as int), depth) {
                Ok((more, others)) => Ok((used + more, seq![first] + others)),
                Err(failure) => Err(failure),
            },
            Err(failure) => Err(failure),
        }
    }
}

#[via_fn]
proof fn parse_type_list_ends(bytes: Seq<u8>, depth: nat) {
    lemma_type_width(bytes, depth);
}

/// A type takes up at least its tag and no more than there is.
pub proof fn lemma_type_width(bytes: Seq<u8>, depth: nat)
    ensures
        parse_type(bytes, depth) matches Ok((used, _)) ==> 0 < used <= bytes.len(),
        parse_nullable(bytes, depth) matches Ok((used, _)) ==> 0 < used <= bytes.len(),
    decreases bytes.len(),
{
    if bytes.len() > 0 {
        let rest = bytes.skip(1);
        lemma_type_width(rest, depth);
        lemma_digit_run_holds_digits(bytes);
        if depth > 0 {
            lemma_type_width(rest, (depth - 1) as nat);
            if let Ok((used, _)) = parse_type(rest, (depth - 1) as nat) {
                lemma_digit_run_holds_digits(rest.skip(used as int));
            }
        }
    }
}

/// A type list ends in front of its terminator.
pub proof fn lemma_type_list_width(bytes: Seq<u8>, depth: nat)
    ensures
        parse_type_list(bytes, depth) matches Ok((used, _)) ==> used < bytes.len() && bytes[used as int]
            == 'E' as u8,
    decreases bytes.len(),
{
    if !(bytes.len() > 0 && bytes[0] == 'E' as u8) {
        if let Ok((used, _)) = parse_type(bytes, depth) {
            lemma_type_width(bytes, depth);
            lemma_type_list_width(bytes.skip(used as int), depth);
        }
    }
}

/// A name and the types of what it names, up to and with the terminator
/// `E`: the bytes they take up, the name, and the types in their order, of
/// which the last is the result. There has to be a result.
pub open spec fn parse_callable(bytes: Seq<u8>, depth: nat) -> Result<
    (nat, Seq<char>, Seq<TypeName>),
    Failure,
> {
    match parse_name(bytes) {
        Ok((used, name)) => {
            let list = bytes.skip(used as int);
            match parse_type_list(list, depth) {
                Ok((listed, types)) => if types.len() == 0 {
                    fail_at(ErrorKind::MalformedSignature, list)
                } else {
                    Ok((used + listed + 1, name, types))
                },
                Err(failure) => Err(failure),
            }
        },
        Err(failure) => Err(failure),
    }
}

/// A callable takes up no more than there is.
pub proof fn lemma_callable_width(bytes: Seq<u8>, depth: nat)
    ensures
        parse_callable(bytes, depth) matches Ok((used, _, types)) ==> 0 < used <= bytes.len()
            && types.len() > 0,
{
    if let Ok((used, _)) = parse_name(bytes) {
        lemma_type_list_width(bytes.skip(used as int), depth);
    }
}

/// A field: its name, and behind it its scope.
pub open spec fn parse_field(bytes: Seq<u8>, depth: nat) -> Result<Signature, Failure>
    decreases bytes.len(),
{
    match parse_name(bytes) {
        Ok((used, name)) => match parse_scope(bytes.skip(used as int), depth) {
            Ok(scope) => Ok(Signature::Field { name, scope }),
            Err(failure) => Err(failure),
        },
        Err(failure) => Err(failure),
    }
}

/// A method: its name and types, and behind them its scope.
pub open spec fn parse_method(bytes: Seq<u8>, depth: nat) -> Result<Signature, Failure>
    decreases bytes.len(),
    via parse_method_ends
{
    match parse_callable(bytes, depth) {
        Ok((used, name, types)) => match parse_scope(bytes.skip(used as int), depth) {
            Ok(scope) => Ok(
                Signature::Method {
                    name,
                    params: types.drop_last(),
                    result: types.last(),
                    scope,
                },
            ),
            Err(failure) => Err(failure),
        },
        Err(failure) => Err(failure),
    }
}

#[via_fn]
proof fn parse_method_ends(bytes: Seq<u8>, depth: nat) {
    lemma_callable_width(bytes, depth);
}

/// A constructor: the types of its parameters.
pub open spec fn parse_constructor(bytes: Seq<u8>, depth: nat) -> Result<Signature, Failure> {
    match parse_type_list(bytes, depth) {
        Ok((_, params)) => Ok(Signature::Constructor { params }),
        Err(failure) => Err(failure),
    }
}

/// A proxy: its name and types.
pub open spec fn parse_proxy(bytes: Seq<u8>, depth: nat) -> Result<Signature, Failure> {
    match parse_callable(bytes, depth) {
        Ok((_, name, types)) => Ok(
            Signature::Proxy { name, params: types.drop_last(), result: types.last() },
        ),
        Err(failure) => Err(failure),
    }
}

/// A duplicate: its name and types.
pub open spec fn parse_duplicate(bytes: Seq<u8>, depth: nat) -> Result<Signature, Failure> {
    match parse_callable(bytes, depth) {
        Ok((_, name, types)) => Ok(
            Signature::Duplicate { name, params: types.drop_last(), result: types.last() },
        ),
        Err(failure) => Err(failure),
    }
}

/// An extern or a generated name: the name alone.
pub open spec fn parse_extern(bytes: Seq<u8>) -> Result<Signature, Failure> {
    match parse_name(bytes) {
        Ok((_, name)) => Ok(Signature::CExternOrGenerated { name }),
        Err(failure) => Err(failure),
    }
}

/// The signature that `bytes` open with. What follows it is not looked at.
pub open spec fn parse_signature(bytes: Seq<u8>, depth: nat) -> Result<Signature, Failure>
    decreases bytes.len(),
{
    if bytes.len() == 0 {
        fail_at(ErrorKind::UnknownSignatureTag, bytes)
    } else {
        let tag = bytes[0];
        let rest = bytes.skip(1);
        if tag == 'C' as u8 || tag == 'G' as u8 {
            parse_extern(rest)
        } else if tag == 'I' as u8 {
            Ok(Signature::StaticInit)
        } else if tag == 'F' as u8 {
            parse_field(rest, depth)
        } else if tag == 'R' as u8 {
            parse_constructor(rest, depth)
        } else if tag == 'D' as u8 {
            parse_method(rest, depth)
        } else if tag == 'P' as u8 {
            parse_proxy(rest, depth)
        } else if tag == 'K' as u8 {
            parse_duplicate(rest, depth)
        } else {
            fail_at(ErrorKind::UnknownSignatureTag, bytes)
        }
    }
}

/// The scope that `bytes` open with. What follows it is not looked at.
pub open spec fn parse_scope(bytes: Seq<u8>, depth: nat) -> Result<Visibility, Failure>
    decreases bytes.len(),
{
    if bytes.len() == 0 {
        fail_at(ErrorKind::UnknownScopeTag, bytes)
    } else {
        let tag = bytes[0];
        let rest = bytes.skip(1);
        if tag == 'O' as u8 {
            Ok(Visibility::Public)
        } else if tag == 'o' as u8 {
            Ok(Visibility::PublicStatic)
        } else if (tag == 'P' as u8 || tag == 'p' as u8) && depth == 0 {
            fail_at(ErrorKind::NestingTooDeep, bytes)
        } else if tag == 'P' as u8 {
            match parse_definition(rest, (depth - 1) as nat) {
                Ok(owner) => Ok(Visibility::Private(Box::new(owner))),
                Err(failure) => Err(failure),
            }
        } else if tag == 'p' as u8 {
            match parse_definition(rest, (depth - 1) as nat) {
                Ok(owner) => Ok(Visibility::PrivateStatic(Box::new(owner))),
                Err(failure) => Err(failure),
            }
        } else {
            fail_at(ErrorKind::UnknownScopeTag, bytes)
        }
    }
}

/// The definition that `bytes` open with. What follows it is not looked at.
pub open spec fn parse_definition(bytes: Seq<u8>, depth: nat) -> Result<Definition, Failure>
    decreases bytes.len(),
{
    if bytes.len() == 0 {
        fail_at(ErrorKind::MalformedDefinition, bytes)
    } else {
        let tag = bytes[0];
        let rest = bytes.skip(1);
        if tag == 'T' as u8 {
            match parse_name(rest) {
                Ok((_, name)) => Ok(Definition::TopLevel { name }),
                Err(failure) => Err(failure),
            }
        } else if tag == 'M' as u8 {
            parse_member(rest, depth)
        } else {
            fail_at(ErrorKind::MalformedDefinition, bytes)
        }
    }
}

/// The member that `bytes` open with: the name of its owner, and behind it
/// its signature.
pub open spec fn parse_member(bytes: Seq<u8>, depth: nat) -> Result<Definition, Failure>
    decreases bytes.len(),
{
    match parse_name(bytes) {
        Ok((used, owner)) => match parse_signature(bytes.skip(used as int), depth) {
            Ok(signature) => Ok(Definition::Member { owner, signature }),
            Err(failure) => Err(failure),
        },
        Err(failure) => Err(failure),
    }
}

/// Whether `bytes` open with the scheme marker `_S`.
pub open spec fn has_scheme_prefix(bytes: Seq<u8>) -> bool {
    bytes.len() >= 2 && bytes[0] == '_' as u8 && bytes[1] == 'S' as u8
}

/// The definition that a whole identifier writes down.
pub open spec fn parse_identifier(bytes: Seq<u8>) -> Result<Definition, Failure> {
    if has_scheme_prefix(bytes) {
        parse_definition(bytes.skip(2), MAX_NESTING as nat)
    } else {
        fail_at(ErrorKind::MissingSchemePrefix, bytes)
    }
}

/// What decoding an identifier gives: the text of the definition it writes
/// down, or the first violation of the grammar.
pub open spec fn demangled(bytes: Seq<u8>, collapse: bool) -> Result<Seq<char>, Failure> {
    match parse_identifier(bytes) {
        Ok(definition) => Ok(definition_text(definition, collapse)),
        Err(failure) => Err(failure),
    }
}

/// What a caller of the decoder is handed for an identifier: the text of
/// its definition, or the sentence that reports the first violation.
pub open spec fn outcome(bytes: Seq<u8>, collapse: bool) -> Result<Seq<char>, Seq<char>> {
    match demangled(bytes, collapse) {
        Ok(text) => Ok(text),
        Err(failure) => Err(failure.message()),
    }
}

} // verus!
