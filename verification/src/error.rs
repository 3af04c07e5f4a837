//! The ways a decode can fail, and how a failure is worded.

use vstd::prelude::*;
use vstd::string::*;

verus! {

/// A failed decode is reported as a sentence: the category of the violation
/// and the part of the identifier at which it was found.
pub type DemangleError = String;

pub type ParsingResult<T> = Result<T, DemangleError>;

/// The categories of grammar violation.
#[derive(Clone, Copy, Debug, PartialEq, Eq, Structural)]
pub enum ErrorKind {
    /// The identifier does not open with the scheme marker.
    MissingSchemePrefix,
    /// A definition opens with neither the top-level nor the member tag, or
    /// is missing.
    MalformedDefinition,
    /// A name has no length, a length that no machine word holds, or one that
    /// ends inside a character.
    InvalidNameLength,
    /// The identifier ends where more was expected.
    TruncatedInput,
    /// A type opens with no tag of the grammar.
    UnknownTypeTag,
    /// A nullable type opens with no tag of the grammar.
    UnknownNullableTag,
    /// The pointer tag is not followed by its closing mark.
    MalformedCPointer,
    /// A scope opens with no tag of the grammar.
    UnknownScopeTag,
    /// A signature opens with no tag of the grammar.
    UnknownSignatureTag,
    /// A method, proxy or duplicate names no return type.
    MalformedSignature,
    /// Arrays and private scopes nest deeper than an identifier may.
    NestingTooDeep,
}

/// A violation: its category, and what was left of the identifier at the
/// production that met it.
pub struct Failure {
    pub kind: ErrorKind,
    pub rest: Seq<char>,
}

/// The words that stand for a category in a message.
pub open spec fn label(kind: ErrorKind) -> Seq<char> {
    match kind {
        ErrorKind::MissingSchemePrefix => "missing scheme prefix _S"@,
        ErrorKind::MalformedDefinition => "malformed definition"@,
        ErrorKind::InvalidNameLength => "invalid name length"@,
        ErrorKind::TruncatedInput => "truncated input"@,
        ErrorKind::UnknownTypeTag => "unknown type tag"@,
        ErrorKind::UnknownNullableTag => "unknown nullable type tag"@,
        ErrorKind::MalformedCPointer => "malformed C pointer"@,
        ErrorKind::UnknownScopeTag => "unknown scope tag"@,
        ErrorKind::UnknownSignatureTag => "unknown signature tag"@,
        ErrorKind::MalformedSignature => "malformed signature"@,
        ErrorKind::NestingTooDeep => "nesting too deep"@,
    }
}

/// How the place of a violation is shown: the rest of the identifier between
/// backticks, or a remark that nothing was left.
pub open spec fn shown(rest: Seq<char>) -> Seq<char> {
    if rest.len() == 0 {
        "unexpected end of input"@
    } else {
        "`"@ + rest + "`"@
    }
}

impl Failure {
    /// The sentence that reports this violation.
    pub open spec fn message(self) -> Seq<char> {
        label(self.kind) + ": "@ + shown(self.rest)
    }
}

/// What a result says: the text it gives, or the sentence it fails with.
pub open spec fn said(res: ParsingResult<String>) -> Result<Seq<char>, Seq<char>> {
    match res {
        Ok(text) => Ok(text@),
        Err(message) => Err(message@),
    }
}

/// A failure of the given category at the given remainder.
pub open spec fn fail_at<T>(kind: ErrorKind, rest: Seq<u8>) -> Result<T, Failure> {
    Err(Failure { kind, rest: vstd::utf8::decode_utf8(rest) })
}

/// The words that stand for a category in a message.
pub fn label_of(kind: ErrorKind) -> (words: &'static str)
    ensures
        words@ == label(kind),
{
    match kind {
        ErrorKind::MissingSchemePrefix => "missing scheme prefix _S",
        ErrorKind::MalformedDefinition => "malformed definition",
        ErrorKind::InvalidNameLength => "invalid name length",
        ErrorKind::TruncatedInput => "truncated input",
        ErrorKind::UnknownTypeTag => "unknown type tag",
        ErrorKind::UnknownNullableTag => "unknown nullable type tag",
        ErrorKind::MalformedCPointer => "malformed C pointer",
        ErrorKind::UnknownScopeTag => "unknown scope tag",
        ErrorKind::UnknownSignatureTag => "unknown signature tag",
        ErrorKind::MalformedSignature => "malformed signature",
        ErrorKind::NestingTooDeep => "nesting too deep",
    }
}

/// The sentence that reports a violation of category `kind` met at `rest`.
pub fn describe(kind: ErrorKind, rest: &str) -> (message: String)
    ensures
        message@ == (Failure { kind, rest: rest@ }).message(),
{
    let mut message = String::from_str(label_of(kind));
    message.append(": ");
    if rest.is_empty() {
        message.append("unexpected end of input");
    } else {
        message.append("`");
        message.append(rest);
        message.append("`");
    }
    proof {
        assert(message@ == label(kind) + ": "@ + shown(rest@));
    }
    message
}

/// The failed result that reports a violation of category `kind` met at the
/// text `rest`.
pub fn failed<T>(kind: ErrorKind, rest: &str) -> (res: ParsingResult<T>)
    ensures
        res matches Err(message) && message@ == (Failure { kind, rest: rest@ }).message(),
{
    Err(describe(kind, rest))
}

} // verus!
