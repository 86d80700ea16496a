//! The bridge to the host language's lexer: a string of source text is
//! turned into this library's token model by the proc-macro2 crate. The
//! result depends on the text alone, so it is named by an uninterpreted
//! function; everything downstream of it is verified against that name.

use vstd::prelude::*;
use crate::err::MErr;
use crate::schema::FieldDef;
use crate::struct_meta::{Arg, ArgsForStruct, SArg, args_view, spec_classify_args, spec_run_attr};
use crate::token::{Delim, Tok, Token, toks_view};

verus! {

#[verifier::external_type_specification]
#[verifier::external_body]
pub struct ExTokenStream(proc_macro2::TokenStream);

#[verifier::external_type_specification]
#[verifier::external_body]
pub struct ExDelimiter(proc_macro2::Delimiter);

#[verifier::external_type_specification]
#[verifier::external_body]
pub struct ExTokenTree(proc_macro2::TokenTree);

/// The token sequence proc-macro2's own (fallback) lexer produces for a
/// text, when the text lexes; nothing, when it does not. The lexer is
/// pinned to that one backend (see `lex`), so the result is a function of
/// the text alone; the model carries no source positions.
pub uninterp spec fn lex_spec(s: Seq<char>) -> Option<Seq<Tok>>;

/// Relies on `proc_macro2::Delimiter`: maps each of its delimiter kinds to
/// the model's, one arm each.
#[verifier::external_body]
fn delim_of(d: proc_macro2::Delimiter) -> Delim {
    match d {
        proc_macro2::Delimiter::Parenthesis => Delim::Paren,
        proc_macro2::Delimiter::Bracket => Delim::Bracket,
        proc_macro2::Delimiter::Brace => Delim::Brace,
        proc_macro2::Delimiter::None => Delim::Invisible,
    }
}

/// Relies on the accessor methods of `proc_macro2::TokenTree` variants
/// (`Group::delimiter`, `Group::stream`, `Ident::to_string`,
/// `Punct::as_char`, `Punct::spacing`, `Literal::to_string`): converts one
/// tree to the model token, one arm per tree kind, recursing into groups.
#[verifier::external_body]
fn convert_tree(t: proc_macro2::TokenTree) -> Token {
    match t {
        proc_macro2::TokenTree::Group(g) => {
            Token::Group(delim_of(g.delimiter()), convert_stream(g.stream()))
        },
        proc_macro2::TokenTree::Ident(i) => Token::Ident(i.to_string()),
        proc_macro2::TokenTree::Punct(p) => {
            Token::Punct(p.as_char(), p.spacing() == proc_macro2::Spacing::Joint)
        },
        proc_macro2::TokenTree::Literal(l) => Token::Lit(l.to_string()),
    }
}

/// Relies on `proc_macro2::TokenStream`'s iteration: converts each tree in
/// order.
#[verifier::external_body]
fn convert_stream(ts: proc_macro2::TokenStream) -> Vec<Token> {
    let mut v = Vec::new();
    for t in ts {
        v.push(convert_tree(t));
    }
    v
}

/// Relies on `proc_macro2::TokenStream::from_str` with
/// `proc_macro2::fallback::force` called first: the crate reserves the
/// right to panic on some malformed text when it delegates to the
/// compiler's lexer, so the call is pinned to the crate's own fallback
/// lexer, which returns the error value on malformed text and does not
/// panic. Pinning the backend also makes the result a function of the text
/// alone.
#[verifier::external_body]
pub fn lex(s: &str) -> (r: Option<Vec<Token>>)
    ensures
        (r matches Some(v) ==> lex_spec(s@) == Some(toks_view(v@))),
        (r is None ==> lex_spec(s@) is None),
{
    proc_macro2::fallback::force();
    match s.parse::<proc_macro2::TokenStream>() {
        Ok(ts) => Some(convert_stream(ts)),
        Err(_) => None,
    }
}

/// Parses attribute-argument source text against a schema's fields: the
/// text is lexed by the host lexer and the token list parsed against the
/// classified parameters.
pub fn parse_attr_args_str(fields: &Vec<FieldDef>, args: &ArgsForStruct, s: &str) -> (r: Result<
    Vec<Arg>,
    MErr,
>)
    ensures
        (lex_spec(s@) is None ==> (r matches Err(e) && e.msg@ == "unexpected token"@)),
        (lex_spec(s@) matches Some(toks) ==> (match spec_classify_args(fields@, *args) {
            Ok(sp) => (match spec_run_attr(sp, toks) {
                Ok(sv) => r matches Ok(v) && args_view(v@) == sv,
                Err(e) => r matches Err(e2) && crate::err::merr_view(e2) == e,
            }),
            Err(e) => r matches Err(e2) && crate::err::merr_view(e2) == e,
        })),
{
    match lex(s) {
        Some(toks) => crate::struct_meta::parse_attr_args(fields, args, &toks),
        None => Err(MErr::new(0, "unexpected token")),
    }
}

} // verus!
