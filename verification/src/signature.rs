//! Decoding of definitions: a top-level name, or a member with its
//! signature and its scope.

use vstd::prelude::*;
use vstd::string::*;
use vstd::utf8::*;
use crate::config::DemanglingConfig;
use crate::error::{failed, ErrorKind, ParsingResult};
use crate::grammar::{
    parse_callable, parse_constructor, parse_definition, parse_duplicate, parse_field,
    parse_member, parse_method, parse_proxy, parse_scope, parse_signature, parse_type_list,
    MAX_NESTING,
};
use crate::names::{name, parse_name};
use crate::syntax::{
    callable_text, definition_text, scope_prefix, signature_text, type_text, type_texts,
    TypeName, Visibility,
};
use crate::text::{
    after, byte_len, first_byte, join, lemma_boundary_after_ascii, lemma_boundary_compose,
    texts_of,
};
use crate::types::type_names_within;

verus! {

broadcast use {encode_utf8_valid_utf8, encode_utf8_decode_utf8};

/// Who can see a member, with the enclosing definition of a private member
/// already shown as text.
pub enum Scope {
    Public,
    PublicStatic,
    Private(String),
    PrivateStatic(String),
}

impl Scope {
    /// Whether this is the scope `scope` as it is shown when names are
    /// collapsed or not, as `collapse` says.
    pub open spec fn shows(self, scope: Visibility, collapse: bool) -> bool {
        match (self, scope) {
            (Scope::Public, Visibility::Public) => true,
            (Scope::PublicStatic, Visibility::PublicStatic) => true,
            (Scope::Private(path), Visibility::Private(owner)) => path@ == definition_text(
                *owner,
                collapse,
            ),
            (Scope::PrivateStatic(path), Visibility::PrivateStatic(owner)) => path@
                == definition_text(*owner, collapse),
            _ => false,
        }
    }

    /// What the scope puts in front of a member's name.
    pub open spec fn prefix(self) -> Seq<char> {
        match self {
            Scope::Public => Seq::empty(),
            Scope::PublicStatic => Seq::empty(),
            Scope::Private(path) => "<private["@ + path@ + "]>"@,
            Scope::PrivateStatic(path) => "<private["@ + path@ + "]>"@,
        }
    }
}

/// What a scope puts in front of a member's name: nothing where the member
/// is public, `<private[..]>` around the enclosing definition where it is
/// private.
pub fn render_scope(scope: Scope) -> (prefix: String)
    ensures
        prefix@ == scope.prefix(),
        forall|shown: Visibility, collapse: bool|
            scope.shows(shown, collapse) ==> prefix@ == #[trigger] scope_prefix(shown, collapse),
{
    match scope {
        Scope::Public => String::new(),
        Scope::PublicStatic => String::new(),
        Scope::Private(path) => {
            let mut prefix = String::from_str("<private[");
            prefix.append(path.as_str());
            prefix.append("]>");
            prefix
        },
        Scope::PrivateStatic(path) => {
            let mut prefix = String::from_str("<private[");
            prefix.append(path.as_str());
            prefix.append("]>");
            prefix
        },
    }
}

/// Decodes the scope that `input` opens with. What follows it is not looked
/// at.
/// It may open `depth` levels of nesting.
pub(crate) fn scope_within(
    input: &str,
    config: &DemanglingConfig,
    depth: usize,
) -> (res: Result<Scope, String>)
    ensures
        match parse_scope(input.spec_bytes(), depth as nat) {
            Ok(parsed) => res matches Ok(found) && found.shows(
                parsed,
                config.collapse_scala_names,
            ),
            Err(failure) => res matches Err(message) && message@ == failure.message(),
        },
    decreases input.spec_bytes().len(), 0nat,
{
    let tag = match first_byte(input) {
        Some(tag) => tag,
        None => {
            return failed(ErrorKind::UnknownScopeTag, input);
        },
    };
    if tag == 'O' as u8 {
        Ok(Scope::Public)
    } else if tag == 'o' as u8 {
        Ok(Scope::PublicStatic)
    } else if (tag == 'P' as u8 || tag == 'p' as u8) && depth == 0 {
        failed(ErrorKind::NestingTooDeep, input)
    } else if tag == 'P' as u8 {
        proof {
            lemma_boundary_after_ascii(input.spec_bytes());
        }
        match definition_within(after(input, 1), config, depth - 1) {
            Ok(path) => Ok(Scope::Private(path)),
            Err(message) => Err(message),
        }
    } else if tag == 'p' as u8 {
        proof {
            lemma_boundary_after_ascii(input.spec_bytes());
        }
        match definition_within(after(input, 1), config, depth - 1) {
            Ok(path) => Ok(Scope::PrivateStatic(path)),
            Err(message) => Err(message),
        }
    } else {
        failed(ErrorKind::UnknownScopeTag, input)
    }
}

/// Decodes a name and the types of what it names, up to and with the
/// terminator `E`: how many bytes they take up, the name, and the types in
/// their order, each as it is shown under `config`. The last type is the
/// result; there has to be one.
/// It may open `depth` levels of nesting.
pub(crate) fn callable_within(
    input: &str,
    config: &DemanglingConfig,
    depth: usize,
) -> (res: ParsingResult<
    (usize, String, Vec<String>),
>)
    ensures
        match parse_callable(input.spec_bytes(), depth as nat) {
            Ok((used, named, types)) => res matches Ok((count, text, texts)) && count == used
                && text@ == named && texts@.len() > 0 && texts_of(texts@) == type_texts(
                types,
                config.collapse_scala_names,
            ),
            Err(failure) => res matches Err(message) && message@ == failure.message(),
        },
        res matches Ok((count, _, _)) ==> 0 < count <= input.spec_bytes().len()
            && is_char_boundary(input.spec_bytes(), count as int),
{
    let ghost bytes = input.spec_bytes();
    let total = byte_len(input);
    let (used, named) = match name(input, config) {
        Ok(found) => found,
        Err(message) => {
            return Err(message);
        },
    };
    let list = after(input, used);
    let (listed, texts) = match type_names_within(list, config, depth) {
        Ok(found) => found,
        Err(message) => {
            return Err(message);
        },
    };
    if texts.len() == 0 {
        proof {
            assert(texts_of(texts@).len() == 0);
        }
        return failed(ErrorKind::MalformedSignature, list);
    }
    proof {
        let types = parse_type_list(list.spec_bytes(), depth as nat)->Ok_0.1;
        assert(texts_of(texts@).len() == texts@.len());
        assert(type_texts(types, config.collapse_scala_names).len() == types.len());
        valid_utf8_split(bytes, used as int);
        valid_utf8_split(list.spec_bytes(), listed as int);
        lemma_boundary_after_ascii(list.spec_bytes().skip(listed as int));
        lemma_boundary_compose(list.spec_bytes(), listed as int, 1);
        lemma_boundary_compose(bytes, used as int, listed + 1);
    }
    Ok((used + listed + 1, named, texts))
}

/// Shows something that is called: its name behind `prefix`, its parameters
/// between parentheses and commas, and its result behind a colon. The last
/// of `types` is the result. With no parameter there are no parentheses.
pub fn render_callable(prefix: &str, named: &str, types: &Vec<String>) -> (text: String)
    requires
        types@.len() > 0,
    ensures
        text@ == callable_text(
            prefix@,
            named@,
            texts_of(types@).drop_last(),
            texts_of(types@).last(),
        ),
{
    let count = types.len() - 1;
    let mut text = String::from_str(prefix);
    text.append(named);
    proof {
        assert(texts_of(types@).take(count as int) == texts_of(types@).drop_last());
        assert(texts_of(types@).last() == types@[count as int]@);
    }
    if count == 0 {
        text.append(": ");
    } else {
        text.append("(");
        text.append(join(types, count, ",").as_str());
        text.append("): ");
    }
    text.append(types[count].as_str());
    text
}

/// The texts of a list of types, split into parameters and result, are the
/// texts of the parameters and the text of the result.
pub proof fn lemma_texts_split(types: Seq<TypeName>, collapse: bool)
    requires
        types.len() > 0,
    ensures
        type_texts(types, collapse).drop_last() == type_texts(types.drop_last(), collapse),
        type_texts(types, collapse).last() == type_text(types.last(), collapse),
{
}

/// Decodes a field, which is what follows the tag `F`, and shows it under
/// `config`: the name behind what its scope puts in front of it.
/// It may open `depth` levels of nesting.
pub(crate) fn field_within(
    input: &str,
    config: &DemanglingConfig,
    depth: usize,
) -> (res: ParsingResult<String>)
    ensures
        match parse_field(input.spec_bytes(), depth as nat) {
            Ok(parsed) => res matches Ok(text) && text@ == signature_text(
                parsed,
                config.collapse_scala_names,
            ),
            Err(failure) => res matches Err(message) && message@ == failure.message(),
        },
    decreases input.spec_bytes().len(), 0nat,
{
    let (used, named) = match name(input, config) {
        Ok(found) => found,
        Err(message) => {
            return Err(message);
        },
    };
    match scope_within(after(input, used), config, depth) {
        Ok(found) => {
            let mut text = render_scope(found);
            text.append(named.as_str());
            Ok(text)
        },
        Err(message) => Err(message),
    }
}

/// Decodes a method, which is what follows the tag `D`, and shows it under
/// `config`.
/// It may open `depth` levels of nesting.
pub(crate) fn method_within(
    input: &str,
    config: &DemanglingConfig,
    depth: usize,
) -> (res: ParsingResult<String>)
    ensures
        match parse_method(input.spec_bytes(), depth as nat) {
            Ok(parsed) => res matches Ok(text) && text@ == signature_text(
                parsed,
                config.collapse_scala_names,
            ),
            Err(failure) => res matches Err(message) && message@ == failure.message(),
        },
    decreases input.spec_bytes().len(), 0nat,
{
    let (used, named, texts) = match callable_within(input, config, depth) {
        Ok(found) => found,
        Err(message) => {
            return Err(message);
        },
    };
    proof {
        lemma_texts_split(
            parse_callable(input.spec_bytes(), depth as nat)->Ok_0.2,
            config.collapse_scala_names,
        );
    }
    match scope_within(after(input, used), config, depth) {
        Ok(found) => {
            let prefix = render_scope(found);
            Ok(render_callable(prefix.as_str(), named.as_str(), &texts))
        },
        Err(message) => Err(message),
    }
}

/// Decodes a constructor, which is what follows the tag `R`, and shows it
/// under `config`: the types of its parameters, with a comma and a blank
/// between each two.
/// It may open `depth` levels of nesting.
pub(crate) fn constructor_within(
    input: &str,
    config: &DemanglingConfig,
    depth: usize,
) -> (res: ParsingResult<String>)
    ensures
        match parse_constructor(input.spec_bytes(), depth as nat) {
            Ok(parsed) => res matches Ok(text) && text@ == signature_text(
                parsed,
                config.collapse_scala_names,
            ),
            Err(failure) => res matches Err(message) && message@ == failure.message(),
        },
{
    match type_names_within(input, config, depth) {
        Ok((_, texts)) => {
            proof {
                assert(texts_of(texts@).take(texts@.len() as int) == texts_of(texts@));
            }
            Ok(join(&texts, texts.len(), ", "))
        },
        Err(message) => Err(message),
    }
}

/// Decodes what follows the tag `P` of a proxy or the tag `K` of a
/// duplicate, and shows it under `config`: a name and types, without a scope.
/// It may open `depth` levels of nesting.
pub(crate) fn proxy_within(
    input: &str,
    config: &DemanglingConfig,
    depth: usize,
) -> (res: ParsingResult<String>)
    ensures
        match parse_proxy(input.spec_bytes(), depth as nat) {
            Ok(parsed) => res matches Ok(text) && text@ == signature_text(
                parsed,
                config.collapse_scala_names,
            ),
            Err(failure) => res matches Err(message) && message@ == failure.message(),
        },
        match parse_duplicate(input.spec_bytes(), depth as nat) {
            Ok(parsed) => res matches Ok(text) && text@ == signature_text(
                parsed,
                config.collapse_scala_names,
            ),
            Err(failure) => res matches Err(message) && message@ == failure.message(),
        },
{
    match callable_within(input, config, depth) {
        Ok((_, named, texts)) => {
            proof {
                lemma_texts_split(
                    parse_callable(input.spec_bytes(), depth as nat)->Ok_0.2,
                    config.collapse_scala_names,
                );
                reveal_strlit("");
                assert(""@ == Seq::<char>::empty());
            }
            Ok(render_callable("", named.as_str(), &texts))
        },
        Err(message) => Err(message),
    }
}

/// Decodes the signature that `input` opens with, and shows it under
/// `config`. What follows it is not looked at.
/// It may open `depth` levels of nesting.
pub(crate) fn signature_within(
    input: &str,
    config: &DemanglingConfig,
    depth: usize,
) -> (res: ParsingResult<String>)
    ensures
        match parse_signature(input.spec_bytes(), depth as nat) {
            Ok(parsed) => res matches Ok(text) && text@ == signature_text(
                parsed,
                config.collapse_scala_names,
            ),
            Err(failure) => res matches Err(message) && message@ == failure.message(),
        },
    decreases input.spec_bytes().len(), 1nat,
{
    let tag = match first_byte(input) {
        Some(tag) => tag,
        None => {
            return failed(ErrorKind::UnknownSignatureTag, input);
        },
    };
    if tag == 'I' as u8 {
        return Ok(String::from_str("<clinit>"));
    }
    if !(tag == 'C' as u8 || tag == 'G' as u8 || tag == 'F' as u8 || tag == 'R' as u8 || tag
        == 'D' as u8 || tag == 'P' as u8 || tag == 'K' as u8) {
        return failed(ErrorKind::UnknownSignatureTag, input);
    }
    proof {
        lemma_boundary_after_ascii(input.spec_bytes());
    }
    let rest = after(input, 1);
    if tag == 'C' as u8 || tag == 'G' as u8 {
        toplevel_name(rest, config)
    } else if tag == 'F' as u8 {
        field_within(rest, config, depth)
    } else if tag == 'R' as u8 {
        constructor_within(rest, config, depth)
    } else if tag == 'D' as u8 {
        method_within(rest, config, depth)
    } else {
        proxy_within(rest, config, depth)
    }
}

/// Decodes the top-level name that `input` opens with.
pub fn toplevel_name(input: &str, config: &DemanglingConfig) -> (res: ParsingResult<String>)
    ensures
        match parse_name(input.spec_bytes()) {
            Ok((_, named)) => res matches Ok(text) && text@ == named,
            Err(failure) => res matches Err(message) && message@ == failure.message(),
        },
{
    match name(input, config) {
        Ok((_, named)) => Ok(named),
        Err(message) => Err(message),
    }
}

/// Decodes the member that `input` opens with, and shows it under `config`:
/// the owner, a dot, and the signature.
/// It may open `depth` levels of nesting.
pub(crate) fn member_within(
    input: &str,
    config: &DemanglingConfig,
    depth: usize,
) -> (res: ParsingResult<String>)
    ensures
        match parse_member(input.spec_bytes(), depth as nat) {
            Ok(parsed) => res matches Ok(text) && text@ == definition_text(
                parsed,
                config.collapse_scala_names,
            ),
            Err(failure) => res matches Err(message) && message@ == failure.message(),
        },
    decreases input.spec_bytes().len(), 0nat,
{
    let (used, owner) = match name(input, config) {
        Ok(found) => found,
        Err(message) => {
            return Err(message);
        },
    };
    match signature_within(after(input, used), config, depth) {
        Ok(signature) => {
            let mut text = owner;
            text.append(".");
            text.append(signature.as_str());
            Ok(text)
        },
        Err(message) => Err(message),
    }
}

/// Decodes the definition that `input` opens with, and shows it under
/// `config`. What follows it is not looked at.
/// It may open `depth` levels of nesting.
pub(crate) fn definition_within(
    input: &str,
    config: &DemanglingConfig,
    depth: usize,
) -> (res: ParsingResult<String>)
    ensures
        match parse_definition(input.spec_bytes(), depth as nat) {
            Ok(parsed) => res matches Ok(text) && text@ == definition_text(
                parsed,
                config.collapse_scala_names,
            ),
            Err(failure) => res matches Err(message) && message@ == failure.message(),
        },
    decreases input.spec_bytes().len(), 0nat,
{
    let tag = match first_byte(input) {
        Some(tag) => tag,
        None => {
            return failed(ErrorKind::MalformedDefinition, input);
        },
    };
    if tag == 'T' as u8 {
        proof {
            lemma_boundary_after_ascii(input.spec_bytes());
        }
        toplevel_name(after(input, 1), config)
    } else if tag == 'M' as u8 {
        proof {
            lemma_boundary_after_ascii(input.spec_bytes());
        }
        member_within(after(input, 1), config, depth)
    } else {
        failed(ErrorKind::MalformedDefinition, input)
    }
}

/// Decodes the scope that `input` opens with. What follows it is not looked
/// at. An identifier may nest [`MAX_NESTING`] deep.
pub fn scope(input: &str, config: &DemanglingConfig) -> (res: Result<Scope, String>)
    ensures
        match parse_scope(input.spec_bytes(), MAX_NESTING as nat) {
            Ok(parsed) => res matches Ok(found) && found.shows(
                parsed,
                config.collapse_scala_names,
            ),
            Err(failure) => res matches Err(message) && message@ == failure.message(),
        },
{
    scope_within(input, config, MAX_NESTING)
}

/// Decodes the signature that `input` opens with, and shows it under
/// `config`. What follows it is not looked at. An identifier may nest
/// [`MAX_NESTING`] deep.
pub fn sig_name(input: &str, config: &DemanglingConfig) -> (res: ParsingResult<String>)
    ensures
        match parse_signature(input.spec_bytes(), MAX_NESTING as nat) {
            Ok(parsed) => res matches Ok(text) && text@ == signature_text(
                parsed,
                config.collapse_scala_names,
            ),
            Err(failure) => res matches Err(message) && message@ == failure.message(),
        },
{
    signature_within(input, config, MAX_NESTING)
}

/// Decodes the member that `input` opens with, and shows it under `config`:
/// the owner, a dot, and the signature. An identifier may nest
/// [`MAX_NESTING`] deep.
pub fn member_name(input: &str, config: &DemanglingConfig) -> (res: ParsingResult<String>)
    ensures
        match parse_member(input.spec_bytes(), MAX_NESTING as nat) {
            Ok(parsed) => res matches Ok(text) && text@ == definition_text(
                parsed,
                config.collapse_scala_names,
            ),
            Err(failure) => res matches Err(message) && message@ == failure.message(),
        },
{
    member_within(input, config, MAX_NESTING)
}

/// Decodes the definition that `input` opens with, and shows it under
/// `config`. What follows it is not looked at. An identifier may nest
/// [`MAX_NESTING`] deep.
pub fn defn_name(input: &str, config: &DemanglingConfig) -> (res: ParsingResult<String>)
    ensures
        match parse_definition(input.spec_bytes(), MAX_NESTING as nat) {
            Ok(parsed) => res matches Ok(text) && text@ == definition_text(
                parsed,
                config.collapse_scala_names,
            ),
            Err(failure) => res matches Err(message) && message@ == failure.message(),
        },
{
    definition_within(input, config, MAX_NESTING)
}

} // verus!
