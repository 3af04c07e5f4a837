//! What an identifier says, apart from how it is written down: the tree that
//! decoding recovers, and the text that the tree is shown as.
//!
//! The tree does not depend on the rendering options. The options only
//! choose between the long and the short form of primitive kinds and of a
//! few well-known class names.

use vstd::prelude::*;
use crate::text::joined;

verus! {

/// The scalar kinds that have a tag of their own.
#[derive(Clone, Copy, Debug, PartialEq, Eq, Structural)]
pub enum PrimitiveKind {
    Boolean,
    Char,
    Float,
    Double,
    Unit,
    Null,
    Nothing,
    Byte,
    Short,
    Int,
    Long,
}

/// A reference to a type.
pub enum TypeName {
    Primitive(PrimitiveKind),
    CVararg,
    CPointer,
    /// A C array: the type of its elements and the count written behind it.
    CArray(Box<TypeName>, nat),
    /// A nullable reference to exactly the named class.
    NullableClass(Seq<char>),
    NullableArray(Box<TypeName>),
    /// A reference, never null, to exactly the named class.
    ExactClass(Seq<char>),
    /// A nullable reference to the named class.
    Class(Seq<char>),
}

/// Who can see a member.
pub enum Visibility {
    Public,
    PublicStatic,
    /// Private to the enclosing definition.
    Private(Box<Definition>),
    PrivateStatic(Box<Definition>),
}

/// The shape of a member.
pub enum Signature {
    Field { name: Seq<char>, scope: Visibility },
    Constructor { params: Seq<TypeName> },
    Method { name: Seq<char>, params: Seq<TypeName>, result: TypeName, scope: Visibility },
    Proxy { name: Seq<char>, params: Seq<TypeName>, result: TypeName },
    CExternOrGenerated { name: Seq<char> },
    Duplicate { name: Seq<char>, params: Seq<TypeName>, result: TypeName },
    StaticInit,
}

/// A named entity: one at the top level, or a member of an owner.
pub enum Definition {
    TopLevel { name: Seq<char> },
    Member { owner: Seq<char>, signature: Signature },
}

impl PrimitiveKind {
    /// The kind's name without the library it is defined in.
    pub open spec fn short_name(self) -> Seq<char> {
        match self {
            PrimitiveKind::Boolean => "Boolean"@,
            PrimitiveKind::Char => "Char"@,
            PrimitiveKind::Float => "Float"@,
            PrimitiveKind::Double => "Double"@,
            PrimitiveKind::Unit => "Unit"@,
            PrimitiveKind::Null => "Null"@,
            PrimitiveKind::Nothing => "Nothing"@,
            PrimitiveKind::Byte => "Byte"@,
            PrimitiveKind::Short => "Short"@,
            PrimitiveKind::Int => "Int"@,
            PrimitiveKind::Long => "Long"@,
        }
    }

    /// The kind's name without the library it is defined in.
    pub fn name(self) -> (name: &'static str)
        ensures
            name@ == self.short_name(),
    {
        match self {
            PrimitiveKind::Boolean => "Boolean",
            PrimitiveKind::Char => "Char",
            PrimitiveKind::Float => "Float",
            PrimitiveKind::Double => "Double",
            PrimitiveKind::Unit => "Unit",
            PrimitiveKind::Null => "Null",
            PrimitiveKind::Nothing => "Nothing",
            PrimitiveKind::Byte => "Byte",
            PrimitiveKind::Short => "Short",
            PrimitiveKind::Int => "Int",
            PrimitiveKind::Long => "Long",
        }
    }
}

/// The kind that a tag byte stands for.
pub open spec fn primitive_kind(tag: u8) -> Option<PrimitiveKind> {
    if tag == 'z' as u8 {
        Some(PrimitiveKind::Boolean)
    } else if tag == 'c' as u8 {
        Some(PrimitiveKind::Char)
    } else if tag == 'f' as u8 {
        Some(PrimitiveKind::Float)
    } else if tag == 'd' as u8 {
        Some(PrimitiveKind::Double)
    } else if tag == 'u' as u8 {
        Some(PrimitiveKind::Unit)
    } else if tag == 'l' as u8 {
        Some(PrimitiveKind::Null)
    } else if tag == 'n' as u8 {
        Some(PrimitiveKind::Nothing)
    } else if tag == 'b' as u8 {
        Some(PrimitiveKind::Byte)
    } else if tag == 's' as u8 {
        Some(PrimitiveKind::Short)
    } else if tag == 'i' as u8 {
        Some(PrimitiveKind::Int)
    } else if tag == 'j' as u8 {
        Some(PrimitiveKind::Long)
    } else {
        None
    }
}

/// The name of a library type: bare when names are collapsed, with the
/// library in front of it when they are not.
pub open spec fn root_name(short: Seq<char>, collapse: bool) -> Seq<char> {
    if collapse {
        short
    } else {
        "scala."@ + short
    }
}

/// The short form of a class name: three classes have one of their own, and
/// a class of the immutable collections loses the name of their package.
/// Every other name is its own short form.
pub open spec fn short_form(name: Seq<char>) -> Seq<char> {
    let package = "scala.collection.immutable."@;
    if name == "java.lang.Object"@ {
        "Object"@
    } else if name == "java.lang.String"@ {
        "String"@
    } else if name == "java.lang.Throwable"@ {
        "Throwable"@
    } else if package.is_prefix_of(name) {
        name.skip(package.len() as int)
    } else {
        name
    }
}

/// A class name as it is shown.
pub open spec fn class_text(name: Seq<char>, collapse: bool) -> Seq<char> {
    if collapse {
        short_form(name)
    } else {
        name
    }
}

/// A type as it is shown.
pub open spec fn type_text(shown: TypeName, collapse: bool) -> Seq<char>
    decreases shown,
{
    match shown {
        TypeName::Primitive(kind) => root_name(kind.short_name(), collapse),
        TypeName::CVararg => "<c vararg>"@,
        TypeName::CPointer => "<c pointer>"@,
        TypeName::CArray(element, _) => "CArray["@ + type_text(*element, collapse) + "]"@,
        TypeName::NullableClass(name) => class_text(name, collapse),
        TypeName::NullableArray(element) => "Array["@ + type_text(*element, collapse) + "]"@,
        TypeName::ExactClass(name) => name,
        TypeName::Class(name) => class_text(name, collapse),
    }
}

/// A nullable type as it is read behind its tag, before a class is given its
/// short form: a class by its name as it is written, an array as it is
/// shown.
pub open spec fn nullable_text(read: TypeName, collapse: bool) -> Seq<char> {
    match read {
        TypeName::NullableClass(name) => name,
        TypeName::Class(name) => name,
        other => type_text(other, collapse),
    }
}

/// The text of an array is no class name with a short form of its own.
pub proof fn lemma_array_text_has_no_short_form(element: Seq<char>)
    ensures
        short_form("Array["@ + element + "]"@) == "Array["@ + element + "]"@,
{
    let text = "Array["@ + element + "]"@;
    let package = "scala.collection.immutable."@;
    reveal_strlit("Array[");
    reveal_strlit("java.lang.Object");
    reveal_strlit("java.lang.String");
    reveal_strlit("java.lang.Throwable");
    reveal_strlit("scala.collection.immutable.");
    assert(text[0] == 'A');
    assert("java.lang.Object"@[0] == 'j');
    assert("java.lang.String"@[0] == 'j');
    assert("java.lang.Throwable"@[0] == 'j');
    if package.is_prefix_of(text) {
        assert(text.subrange(0, package.len() as int)[0] == package[0]);
    }
}

/// The types of a list as they are shown, in the order of the list.
pub open spec fn type_texts(types: Seq<TypeName>, collapse: bool) -> Seq<Seq<char>> {
    Seq::new(types.len(), |i: int| type_text(types[i], collapse))
}

/// Something that is called, as it is shown: its name behind the scope
/// prefix, the parameters between parentheses and commas behind the name, and
/// the result behind a colon. With no parameter there are no parentheses.
pub open spec fn callable_text(
    prefix: Seq<char>,
    name: Seq<char>,
    params: Seq<Seq<char>>,
    result: Seq<char>,
) -> Seq<char> {
    if params.len() == 0 {
        prefix + name + ": "@ + result
    } else {
        prefix + name + "("@ + joined(params, ","@) + "): "@ + result
    }
}

/// What a scope puts in front of a member's name: nothing where the member
/// is public, the enclosing definition where it is private.
pub open spec fn scope_prefix(scope: Visibility, collapse: bool) -> Seq<char>
    decreases scope,
{
    match scope {
        Visibility::Public => Seq::empty(),
        Visibility::PublicStatic => Seq::empty(),
        Visibility::Private(owner) => "<private["@ + definition_text(*owner, collapse) + "]>"@,
        Visibility::PrivateStatic(owner) => "<private["@ + definition_text(*owner, collapse)
            + "]>"@,
    }
}

/// A signature as it is shown.
pub open spec fn signature_text(signature: Signature, collapse: bool) -> Seq<char>
    decreases signature,
{
    match signature {
        Signature::Field { name, scope } => scope_prefix(scope, collapse) + name,
        Signature::Constructor { params } => joined(type_texts(params, collapse), ", "@),
        Signature::Method { name, params, result, scope } => callable_text(
            scope_prefix(scope, collapse),
            name,
            type_texts(params, collapse),
            type_text(result, collapse),
        ),
        Signature::Proxy { name, params, result } => callable_text(
            Seq::empty(),
            name,
            type_texts(params, collapse),
            type_text(result, collapse),
        ),
        Signature::CExternOrGenerated { name } => name,
        Signature::Duplicate { name, params, result } => callable_text(
            Seq::empty(),
            name,
            type_texts(params, collapse),
            type_text(result, collapse),
        ),
        Signature::StaticInit => "<clinit>"@,
    }
}

/// A definition as it is shown.
pub open spec fn definition_text(definition: Definition, collapse: bool) -> Seq<char>
    decreases definition,
{
    match definition {
        Definition::TopLevel { name } => name,
        Definition::Member { owner, signature } => owner + "."@ + signature_text(
            signature,
            collapse,
        ),
    }
}

} // verus!
