//! The value model for generated serializers and parsers: a value of a user
//! type is the variant it holds together with, for each field, either the
//! field's own token form or, for a field that opens a delimiter scope, the
//! delimiter kind that enclosed it.

use vstd::prelude::*;
use crate::token::{Delim, Token, Tok, toks_view};

verus! {

/// The runtime form of one field's value.
#[derive(PartialEq, Eq, Debug)]
pub enum FieldVal {
    /// The field's own tokens.
    Toks(Vec<Token>),
    /// The delimiter kind recorded for a scope-opening field.
    Delim(Delim),
}

/// A value of a user type: the index of the variant it holds, and one value
/// per field of that variant.
#[derive(PartialEq, Eq, Debug)]
pub struct VariantVal {
    pub variant: usize,
    pub fields: Vec<FieldVal>,
}

/// The mathematical value of one field value.
pub enum FVal {
    Toks(Seq<Tok>),
    Delim(Delim),
}

/// Maps a field value to its mathematical value.
pub open spec fn fval_view(v: FieldVal) -> FVal {
    match v {
        FieldVal::Toks(ts) => FVal::Toks(toks_view(ts@)),
        FieldVal::Delim(d) => FVal::Delim(d),
    }
}

/// The mathematical values of a field value list.
pub open spec fn fvals_view(vs: Seq<FieldVal>) -> Seq<FVal> {
    vs.map_values(|v: FieldVal| fval_view(v))
}

/// The mathematical value of a variant value.
pub struct SVal {
    pub variant: int,
    pub fields: Seq<FVal>,
}

impl View for VariantVal {
    type V = SVal;

    open spec fn view(&self) -> SVal {
        SVal { variant: self.variant as int, fields: fvals_view(self.fields@) }
    }
}

} // verus!
