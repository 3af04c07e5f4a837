//! Demangling of Scala Native identifiers.
//!
//! A mangled identifier is a linker-safe spelling of a fully-qualified name:
//! the scheme marker `_S`, and behind it a definition written with tags and
//! length-prefixed names. [`demangle`] turns it back into readable text.
//!
//! What an identifier means is laid down in [`grammar`], as functions from
//! bytes to the tree of [`syntax`]. How a tree is shown is laid down in
//! [`syntax`] too. Every decoder of this crate is proved to give exactly what
//! the two say: the text of the tree, or the sentence of [`error`] that
//! reports the first violation of the grammar.

use vstd::prelude::*;
use vstd::string::*;
use vstd::utf8::*;

pub mod config;
pub mod error;
pub mod extent;
pub mod grammar;
pub mod laws;
pub mod names;
pub mod signature;
pub mod syntax;
pub mod text;
pub mod types;

pub use crate::config::DemanglingConfig;
pub use crate::error::{DemangleError, ErrorKind, ParsingResult};

use crate::error::{failed, said, Failure};
use crate::grammar::{has_scheme_prefix, outcome};
use crate::signature::defn_name;
use crate::text::{after, lemma_boundary_after_ascii_run};

verus! {

/// Decodes a mangled identifier and shows it as `config` asks.
///
/// The result is the text of the definition that the identifier writes down,
/// or the sentence that reports the first violation of the grammar. An
/// identifier whose arrays and private scopes nest deeper than
/// [`grammar::MAX_NESTING`] is refused, however long it is. The result does
/// not depend on `config.debug`, and nothing is written anywhere.
pub fn demangle(input: &str, config: &DemanglingConfig) -> (res: ParsingResult<String>)
    ensures
        said(res) == outcome(input.spec_bytes(), config.collapse_scala_names),
        !has_scheme_prefix(input.spec_bytes()) ==> (res matches Err(message) && message@ == (Failure {
            kind: ErrorKind::MissingSchemePrefix,
            rest: input@,
        }).message()),
{
    let bytes = input.as_bytes();
    if !(bytes.len() >= 2 && bytes[0] == '_' as u8 && bytes[1] == 'S' as u8) {
        proof {
            encode_utf8_decode_utf8(input@);
        }
        return failed(ErrorKind::MissingSchemePrefix, input);
    }
    proof {
        encode_utf8_valid_utf8(input@);
        lemma_boundary_after_ascii_run(input.spec_bytes(), 2);
    }
    defn_name(after(input, 2), config)
}

/// Decodes a mangled identifier and shows it with well-known names
/// collapsed.
pub fn demangle_with_defaults(input: &str) -> (res: ParsingResult<String>)
    ensures
        said(res) == outcome(input.spec_bytes(), true),
{
    demangle(input, &DemanglingConfig::default())
}

} // verus!
