//! The schema model: the shape of a user type handed to the generators. A
//! schema lists variants (one implicit variant for a struct), each variant
//! lists fields, and each field carries its type reference and the
//! directives extracted from its annotations.

use vstd::prelude::*;

verus! {

/// A structural type reference, matched structurally for the wrapper shapes
/// the generators recognize.
#[derive(PartialEq, Eq, Debug)]
pub enum Ty {
    /// The boolean primitive.
    Bool,
    /// The flag wrapper: presence recorded with its source position.
    FlagTy,
    /// An integer literal value.
    LitInt,
    /// A string literal value.
    LitStr,
    /// An identifier value (reserved words excluded unless relaxed).
    IdentTy,
    /// An expression value: a run of tokens up to a top-level comma.
    ExprTy,
    /// A fixed punctuation token, such as `=` or `+`.
    PunctTy(char),
    /// The parenthesis group token.
    ParenTok,
    /// The bracket group token.
    BracketTok,
    /// The brace group token.
    BraceTok,
    /// A group token of any of the three delimiter kinds, recording which one
    /// appeared.
    MacroDelim,
    /// An optional wrapper.
    OptionOf(Box<Ty>),
    /// A growable sequence wrapper.
    VecOf(Box<Ty>),
    /// The `name = value` wrapper.
    NameValueOf(Box<Ty>),
    /// The `name(args)` wrapper.
    NameArgsOf(Box<Ty>),
    /// A string-keyed map, the rest-parameter shape.
    MapStrTo(Box<Ty>),
    /// A punctuation-terminated list of elements.
    PunctuatedOf(Box<Ty>),
}

/// One field of a variant: its declared name (none for a tuple field), its
/// type reference, and its directives, already extracted from the field's
/// annotations.
#[derive(PartialEq, Eq, Debug)]
pub struct FieldDef {
    /// The declared field identifier, if the field is named.
    pub name: Option<String>,
    /// The field's type reference.
    pub ty: Ty,
    /// The delimiter directive characters on the field, in order, flattened
    /// across its annotations.
    pub delims: Vec<char>,
    /// Whether the field is marked for lookahead before commitment.
    pub peek: bool,
    /// Whether identifier reads on the field accept reserved words.
    pub any: bool,
    /// Whether the field reads a punctuation-terminated list.
    pub terminated: bool,
    /// The attribute-argument name given for the field, if any.
    pub arg_name: Option<String>,
    /// Whether the field is forced to be an unnamed attribute argument.
    pub unnamed: bool,
}

impl FieldDef {
    /// A field with the given name and type and no directives.
    pub fn plain(name: Option<String>, ty: Ty) -> (r: FieldDef)
        ensures
            r.name == name,
            r.ty == ty,
            r.delims@ == Seq::<char>::empty(),
            r.peek == false,
            r.any == false,
            r.terminated == false,
            r.arg_name is None,
            r.unnamed == false,
    {
        FieldDef {
            name,
            ty,
            delims: Vec::new(),
            peek: false,
            any: false,
            terminated: false,
            arg_name: None,
            unnamed: false,
        }
    }
}

/// One variant of an enum schema, or the single implicit variant of a struct.
#[derive(PartialEq, Eq, Debug)]
pub struct VariantDef {
    /// The variant's name.
    pub name: String,
    /// Whether the fields are named (struct-like) rather than positional.
    pub named_fields: bool,
    /// The fields, in declaration order.
    pub fields: Vec<FieldDef>,
}

/// The kind of user type a schema describes.
#[derive(Clone, Copy, PartialEq, Eq, Structural, Debug)]
pub enum SchemaKind {
    Struct,
    Enum,
    /// A union type declaration: recognized so that generation can reject it.
    Union,
}

/// The shape of one user type.
#[derive(PartialEq, Eq, Debug)]
pub struct SchemaDef {
    pub kind: SchemaKind,
    /// The variants in declaration order; exactly one for a struct.
    pub variants: Vec<VariantDef>,
    /// The serializer generator's debugging escape hatch: reveal the
    /// generated plan instead of returning it.
    pub to_tokens_dump: bool,
    /// The parser generator's debugging escape hatch.
    pub parse_dump: bool,
}

impl Ty {
    /// The element type when this is the optional wrapper.
    pub fn option_element(&self) -> (r: Option<&Ty>)
        ensures
            r == (match self {
                Ty::OptionOf(t) => Some(&**t),
                _ => None::<&Ty>,
            }),
    {
        match self {
            Ty::OptionOf(t) => Some(t),
            _ => None,
        }
    }

    /// The element type when this is the sequence wrapper.
    pub fn vec_element(&self) -> (r: Option<&Ty>)
        ensures
            r == (match self {
                Ty::VecOf(t) => Some(&**t),
                _ => None::<&Ty>,
            }),
    {
        match self {
            Ty::VecOf(t) => Some(t),
            _ => None,
        }
    }

    /// The element type when this is the `name = value` wrapper.
    pub fn name_value_element(&self) -> (r: Option<&Ty>)
        ensures
            r == (match self {
                Ty::NameValueOf(t) => Some(&**t),
                _ => None::<&Ty>,
            }),
    {
        match self {
            Ty::NameValueOf(t) => Some(t),
            _ => None,
        }
    }

    /// The element type when this is the `name(args)` wrapper.
    pub fn name_args_element(&self) -> (r: Option<&Ty>)
        ensures
            r == (match self {
                Ty::NameArgsOf(t) => Some(&**t),
                _ => None::<&Ty>,
            }),
    {
        match self {
            Ty::NameArgsOf(t) => Some(t),
            _ => None,
        }
    }

    /// The value type when this is the string-keyed map shape.
    pub fn map_string_element(&self) -> (r: Option<&Ty>)
        ensures
            r == (match self {
                Ty::MapStrTo(t) => Some(&**t),
                _ => None::<&Ty>,
            }),
    {
        match self {
            Ty::MapStrTo(t) => Some(t),
            _ => None,
        }
    }

    /// True for the boolean primitive.
    pub fn is_bool(&self) -> (r: bool)
        ensures
            r == (self is Bool),
    {
        matches!(self, Ty::Bool)
    }

    /// True for the flag wrapper.
    pub fn is_flag(&self) -> (r: bool)
        ensures
            r == (self is FlagTy),
    {
        matches!(self, Ty::FlagTy)
    }

    /// True for the any-delimiter group token type.
    pub fn is_macro_delimiter(&self) -> (r: bool)
        ensures
            r == (self is MacroDelim),
    {
        matches!(self, Ty::MacroDelim)
    }
}

} // verus!
