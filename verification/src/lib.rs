//! Generators for token-level serializers and parsers driven by a declarative
//! schema: a description of a struct or enum, its fields, and per-field
//! directives (delimiter scoping, lookahead, list termination), together with
//! an attribute-argument parser that dispatches positional and named
//! parameters against a classified parameter schema.

pub mod directives;
pub mod err;
pub mod helpers;
pub mod keywords;
pub mod laws;
pub mod lex;
pub mod parse;
pub mod schema;
pub mod scope;
pub mod struct_meta;
pub mod to_tokens;
pub mod token;
pub mod value;
