use structmeta::lex::lex;
use structmeta::parse::{gen_parse, run_parse, ParsePlan};
use structmeta::schema::{FieldDef, SchemaDef, SchemaKind, Ty, VariantDef};
use structmeta::to_tokens::{gen_to_tokens, run_to_tokens};
use structmeta::token::Token;
use structmeta::value::VariantVal;

fn field(name: Option<&str>, ty: Ty) -> FieldDef {
    FieldDef {
        name: name.map(|s| s.to_string()),
        ty,
        delims: Vec::new(),
        peek: false,
        any: false,
        terminated: false,
        arg_name: None,
        unnamed: false,
    }
}

fn struct_schema(fields: Vec<FieldDef>) -> SchemaDef {
    SchemaDef {
        kind: SchemaKind::Struct,
        variants: vec![VariantDef { name: "TestStruct".to_string(), named_fields: true, fields }],
        to_tokens_dump: false,
        parse_dump: false,
    }
}

fn enum_schema(variants: Vec<(&str, Vec<FieldDef>)>) -> SchemaDef {
    SchemaDef {
        kind: SchemaKind::Enum,
        variants: variants
            .into_iter()
            .map(|(n, fields)| VariantDef { name: n.to_string(), named_fields: false, fields })
            .collect(),
        to_tokens_dump: false,
        parse_dump: false,
    }
}

fn plan_of(schema: &SchemaDef) -> ParsePlan {
    gen_parse(schema).expect("generation must succeed")
}

/// Parses the input, serializes the value back, and checks the round trip.
fn assert_parse(schema: &SchemaDef, input: &str) -> VariantVal {
    let toks = lex(input).expect("input must lex");
    let plan = plan_of(schema);
    let value = run_parse(schema, &plan, &toks).expect("parse must succeed");
    let ser = gen_to_tokens(schema).expect("serializer generation must succeed");
    let emitted = run_to_tokens(&ser, &value);
    assert_eq!(emitted, toks, "round trip failed for {input}");
    value
}

fn assert_parse_fail(schema: &SchemaDef, input: &str) {
    let toks = lex(input).expect("input must lex");
    let plan = plan_of(schema);
    assert!(run_parse(schema, &plan, &toks).is_err(), "expected failure for {input}");
}

#[test]
fn for_tuple() {
    let schema = struct_schema(vec![field(None, Ty::LitInt), field(None, Ty::LitStr)]);
    assert_parse(&schema, "10 \"abc\"");
}

#[test]
fn for_struct() {
    let schema = struct_schema(vec![
        field(Some("name"), Ty::IdentTy),
        field(Some("eq_token"), Ty::PunctTy('=')),
        field(Some("value"), Ty::ExprTy),
    ]);
    assert_parse(&schema, "xxx = 1 + 2");
}

#[test]
fn for_enum() {
    // variants tried in order; leftover input after a successful variant is
    // refused by the whole parse
    let schema = enum_schema(vec![
        (
            "A",
            vec![
                field(None, Ty::PunctTy('=')),
                field(None, Ty::LitInt),
                field(None, Ty::LitInt),
            ],
        ),
        ("B", vec![field(Some("plus_token"), Ty::PunctTy('+')), field(Some("value"), Ty::ExprTy)]),
        ("C", vec![]),
    ]);
    let v = assert_parse(&schema, "= 1 2");
    assert_eq!(v.variant, 0);
    let v2 = assert_parse(&schema, "+ 1 + 2");
    assert_eq!(v2.variant, 1);
    let v3 = assert_parse(&schema, "");
    assert_eq!(v3.variant, 2);
    assert_parse_fail(&schema, "= 1");
}

#[test]
fn enum_first_wins() {
    // two variants that both parse the same input: the first declared wins
    let schema = enum_schema(vec![
        ("A", vec![field(None, Ty::LitInt)]),
        ("B", vec![field(None, Ty::LitInt)]),
    ]);
    let v = assert_parse(&schema, "7");
    assert_eq!(v.variant, 0);
}

fn brace_field(name: &str, open: &str, ty: Ty) -> FieldDef {
    let mut f = field(Some(name), ty);
    f.delims = open.chars().collect();
    f
}

#[test]
fn brace_all() {
    let schema = struct_schema(vec![
        brace_field("brace_token", "{", Ty::BraceTok),
        field(Some("key"), Ty::LitStr),
        field(Some("eq_token"), Ty::PunctTy('=')),
        field(Some("value"), Ty::ExprTy),
    ]);
    assert_parse(&schema, "{ \"abc\" = 1 + 2 }");
}

#[test]
fn brace_close() {
    let schema = struct_schema(vec![
        brace_field("brace_token", "{", Ty::BraceTok),
        field(Some("key"), Ty::LitStr),
        field(Some("eq_token"), Ty::PunctTy('=')),
        brace_field("value", "}", Ty::ExprTy),
    ]);
    assert_parse(&schema, "{ \"abc\" = } 1 + 2");
}

#[test]
fn paren_all() {
    let schema = struct_schema(vec![
        brace_field("paren_token", "(", Ty::ParenTok),
        field(Some("key"), Ty::LitStr),
        field(Some("eq_token"), Ty::PunctTy('=')),
        field(Some("value"), Ty::ExprTy),
    ]);
    assert_parse(&schema, "(\"abc\" = 1 + 2)");
}

#[test]
fn paren_nested() {
    let schema = struct_schema(vec![
        brace_field("brace_token1", "(", Ty::ParenTok),
        field(Some("key"), Ty::LitStr),
        brace_field("brace_token2", "(", Ty::ParenTok),
        field(Some("eq_token"), Ty::PunctTy('=')),
        brace_field("value", ")", Ty::ExprTy),
    ]);
    assert_parse(&schema, "(\"abc\" ( = ) 1 + 2 )");
}

#[test]
fn paren_close_many() {
    let schema = struct_schema(vec![
        brace_field("brace_token1", "(", Ty::ParenTok),
        field(Some("key"), Ty::LitStr),
        brace_field("brace_token2", "(", Ty::ParenTok),
        field(Some("eq_token"), Ty::PunctTy('=')),
        brace_field("value", "))", Ty::ExprTy),
    ]);
    assert_parse(&schema, "(\"abc\" ( = )) 1 + 2");
}

#[test]
fn paren_close_open() {
    let schema = struct_schema(vec![
        brace_field("brace_token1", "(", Ty::ParenTok),
        field(Some("key"), Ty::LitStr),
        brace_field("brace_token2", ")(", Ty::ParenTok),
        field(Some("eq_token"), Ty::PunctTy('=')),
        field(Some("value"), Ty::ExprTy),
    ]);
    assert_parse(&schema, "(\"abc\")( = 1 + 2 )");
}

#[test]
fn bracket_all() {
    let schema = struct_schema(vec![
        brace_field("paren_token", "[", Ty::BracketTok),
        field(Some("key"), Ty::LitStr),
        field(Some("eq_token"), Ty::PunctTy('=')),
        field(Some("value"), Ty::ExprTy),
    ]);
    assert_parse(&schema, "[\"abc\" = 1 + 2]");
}

#[test]
fn macro_delimiter_all() {
    // a directive on an any-delimiter field accepts each of the three
    // delimiters and re-emits the one that appeared
    let schema = struct_schema(vec![
        brace_field("paren_token", "(", Ty::MacroDelim),
        field(Some("key"), Ty::LitStr),
        field(Some("eq_token"), Ty::PunctTy('=')),
        field(Some("value"), Ty::ExprTy),
    ]);
    assert_parse(&schema, "[\"abc\" = 1 + 2]");
    assert_parse(&schema, "(\"abc\" = 1 + 2)");
    assert_parse(&schema, "{ \"abc\" = 1 + 2 }");
}

fn peek_field(name: &str, ty: Ty) -> FieldDef {
    let mut f = field(Some(name), ty);
    f.peek = true;
    f
}

#[test]
fn peek() {
    let schema = enum_schema(vec![
        ("A", vec![peek_field("eq_token", Ty::PunctTy('='))]),
        ("B", vec![peek_field("plus_token", Ty::PunctTy('+'))]),
    ]);
    assert_eq!(assert_parse(&schema, "=").variant, 0);
    assert_eq!(assert_parse(&schema, "+").variant, 1);
}

#[test]
fn peek_no_fall_through() {
    // once the peek commits to the first variant, its failure is surfaced
    // rather than falling through to the second
    let schema = enum_schema(vec![
        ("A", vec![peek_field("t", Ty::PunctTy('=')), field(None, Ty::LitStr)]),
        ("B", vec![field(None, Ty::PunctTy('=')), field(None, Ty::LitInt)]),
    ]);
    assert_eq!(assert_parse(&schema, "= \"abc\"").variant, 0);
    assert_parse_fail(&schema, "= 1");
}

#[test]
fn peek2() {
    let schema = enum_schema(vec![
        (
            "A",
            vec![peek_field("key", Ty::IdentTy), peek_field("eq_token", Ty::PunctTy('='))],
        ),
        (
            "B",
            vec![peek_field("key", Ty::IdentTy), peek_field("plus_token", Ty::PunctTy('+'))],
        ),
    ]);
    assert_eq!(assert_parse(&schema, "a=").variant, 0);
    assert_eq!(assert_parse(&schema, "a+").variant, 1);
}

#[test]
fn peek3() {
    let schema = enum_schema(vec![
        (
            "A",
            vec![
                peek_field("key", Ty::IdentTy),
                peek_field("eq_token", Ty::PunctTy('=')),
                peek_field("value", Ty::IdentTy),
            ],
        ),
        (
            "B",
            vec![
                peek_field("key", Ty::IdentTy),
                peek_field("plus_token", Ty::PunctTy('+')),
                peek_field("value", Ty::IdentTy),
            ],
        ),
    ]);
    assert_eq!(assert_parse(&schema, "a = x").variant, 0);
    assert_eq!(assert_parse(&schema, "a + y").variant, 1);
}

#[test]
fn parse_any() {
    let mut key = field(Some("key"), Ty::IdentTy);
    key.any = true;
    let schema = struct_schema(vec![key, field(Some("eq_token"), Ty::PunctTy('='))]);
    assert_parse(&schema, "struct =");
}

#[test]
fn peek_bracket() {
    let mut bracket = peek_field("bracket_token", Ty::BracketTok);
    bracket.delims = vec!['['];
    let mut name = peek_field("name", Ty::IdentTy);
    name.delims = vec![']'];
    let schema = enum_schema(vec![(
        "A",
        vec![bracket, field(Some("eq_token"), Ty::PunctTy('=')), name],
    )]);
    assert_eq!(assert_parse(&schema, "[=] abc").variant, 0);
}

#[test]
fn parse_terminated() {
    let mut key = field(Some("key"), Ty::PunctuatedOf(Box::new(Ty::LitStr)));
    key.terminated = true;
    let schema = struct_schema(vec![key]);
    assert_parse(&schema, "\"a\"");
    assert_parse(&schema, "\"a\",");
    assert_parse(&schema, "\"a\", \"b\"");
}

#[test]
fn parse_terminated_any() {
    let mut key = field(Some("key"), Ty::PunctuatedOf(Box::new(Ty::IdentTy)));
    key.terminated = true;
    key.any = true;
    let schema = struct_schema(vec![key]);
    assert_parse(&schema, "a");
    assert_parse(&schema, "a,");
    assert_parse(&schema, "a, b, struct");
}

#[test]
fn mismatched_close_fails_generation() {
    // a close directive that does not match the innermost open one fails
    // generation, whatever the field types
    let mut open_paren = field(Some("a"), Ty::ParenTok);
    open_paren.delims = vec!['('];
    let mut close_brace = field(Some("b"), Ty::ExprTy);
    close_brace.delims = vec!['}'];
    let schema = struct_schema(vec![open_paren, close_brace]);
    let e = gen_parse(&schema).unwrap_err();
    assert_eq!(e.msg, "mismatched closing delimiter `}`.");
    let e2 = gen_to_tokens(&schema).unwrap_err();
    assert_eq!(e2.msg, "mismatched closing delimiter expected `)`, found `}`.");
    // the same schema with other field types fails the same way
    let mut open2 = field(Some("a"), Ty::MacroDelim);
    open2.delims = vec!['('];
    let mut close2 = field(Some("b"), Ty::LitInt);
    close2.delims = vec!['}'];
    let schema2 = struct_schema(vec![open2, close2]);
    assert_eq!(gen_parse(&schema2).unwrap_err().msg, "mismatched closing delimiter `}`.");
}

#[test]
fn bad_delimiter_char_fails_generation() {
    let mut f = field(Some("a"), Ty::ParenTok);
    f.delims = vec!['<'];
    let schema = struct_schema(vec![f]);
    let e = gen_to_tokens(&schema).unwrap_err();
    assert_eq!(e.msg, "expected '(', ')', '[', ']', '{' or '}', found `<`.");
}

#[test]
fn union_fails_generation() {
    let schema = SchemaDef {
        kind: SchemaKind::Union,
        variants: vec![],
        to_tokens_dump: false,
        parse_dump: false,
    };
    assert_eq!(gen_parse(&schema).unwrap_err().msg, "Not supported for union.");
    assert_eq!(gen_to_tokens(&schema).unwrap_err().msg, "Not supported for union.");
}

#[test]
fn peek_after_non_peek_fails_generation() {
    let schema = enum_schema(vec![(
        "A",
        vec![field(Some("first"), Ty::LitInt), peek_field("second", Ty::PunctTy('='))],
    )]);
    let e = gen_parse(&schema).unwrap_err();
    assert_eq!(
        e.msg,
        "you need to peek all previous tokens. consider specifying `#[parse(peek)]` for field `first`."
    );
}

#[test]
fn four_peeks_fail_generation() {
    let schema = enum_schema(vec![(
        "A",
        vec![
            peek_field("a", Ty::IdentTy),
            peek_field("b", Ty::IdentTy),
            peek_field("c", Ty::IdentTy),
            peek_field("d", Ty::IdentTy),
        ],
    )]);
    let e = gen_parse(&schema).unwrap_err();
    assert_eq!(e.msg, "more than three `#[parse(peek)]` was specified.");
}

#[test]
fn keyword_rejected_by_plain_ident() {
    let schema = struct_schema(vec![field(Some("key"), Ty::IdentTy)]);
    assert_parse_fail(&schema, "struct");
    assert_parse(&schema, "abc");
}

#[test]
fn serializer_emits_group_value() {
    // serializing a parsed value re-emits the delimiter the value recorded
    let mut open = field(Some("d"), Ty::MacroDelim);
    open.delims = vec!['('];
    let schema = struct_schema(vec![open, field(Some("k"), Ty::LitInt)]);
    let toks = lex("[5]").unwrap();
    let plan = plan_of(&schema);
    let value = run_parse(&schema, &plan, &toks).unwrap();
    let ser = gen_to_tokens(&schema).unwrap();
    let emitted = run_to_tokens(&ser, &value);
    match &emitted[0] {
        Token::Group(d, inner) => {
            assert_eq!(*d, structmeta::token::Delim::Bracket);
            assert_eq!(inner.len(), 1);
        }
        other => panic!("expected a group, found {other:?}"),
    }
}

#[test]
fn paren_close() {
    let schema = struct_schema(vec![
        brace_field("brace_token", "(", Ty::ParenTok),
        field(Some("key"), Ty::LitStr),
        field(Some("eq_token"), Ty::PunctTy('=')),
        brace_field("value", ")", Ty::ExprTy),
    ]);
    assert_parse(&schema, "(\"abc\" = ) 1 + 2");
}

#[test]
fn bracket_close() {
    let schema = struct_schema(vec![
        brace_field("brace_token", "[", Ty::BracketTok),
        field(Some("key"), Ty::LitStr),
        field(Some("eq_token"), Ty::PunctTy('=')),
        brace_field("value", "]", Ty::ExprTy),
    ]);
    assert_parse(&schema, "[\"abc\" = ] 1 + 2");
}

#[test]
fn macro_delimiter_close() {
    let schema = struct_schema(vec![
        brace_field("brace_token", "(", Ty::MacroDelim),
        field(Some("key"), Ty::LitStr),
        field(Some("eq_token"), Ty::PunctTy('=')),
        brace_field("value", ")", Ty::ExprTy),
    ]);
    assert_parse(&schema, "[\"abc\" = ] 1 + 2");
    assert_parse(&schema, "(\"abc\" = ) 1 + 2");
    assert_parse(&schema, "{\"abc\" = } 1 + 2");
}

#[test]
fn peek_any() {
    let mut key = peek_field("key", Ty::IdentTy);
    key.any = true;
    let schema = enum_schema(vec![(
        "A",
        vec![key, peek_field("eq_token", Ty::PunctTy('='))],
    )]);
    assert_eq!(assert_parse(&schema, "struct =").variant, 0);
}

#[test]
fn dump_reveals_generated_plan() {
    // the debugging escape hatches abort generation, surfacing a rendering
    // of the generated plan
    let mut schema = struct_schema(vec![
        brace_field("paren_token", "(", Ty::ParenTok),
        field(Some("key"), Ty::LitStr),
    ]);
    schema.parse_dump = true;
    let e = gen_parse(&schema).unwrap_err();
    assert_eq!(e.msg, "macro result: 0[1]");
    schema.parse_dump = false;
    schema.to_tokens_dump = true;
    let e2 = gen_to_tokens(&schema).unwrap_err();
    assert_eq!(e2.msg, "macro result: 0[1]");
}

#[test]
fn dump_keeps_generation_errors_first() {
    let mut bad = field(Some("a"), Ty::ParenTok);
    bad.delims = vec!['}'];
    let mut schema = struct_schema(vec![bad]);
    schema.parse_dump = true;
    let e = gen_parse(&schema).unwrap_err();
    assert_eq!(e.msg, "mismatched closing delimiter `}`.");
}

#[test]
fn full_keyword_set_rejected() {
    let schema = struct_schema(vec![field(Some("key"), Ty::IdentTy)]);
    assert_parse_fail(&schema, "async");
    assert_parse_fail(&schema, "true");
    assert_parse_fail(&schema, "dyn");
    assert_parse_fail(&schema, "_");
    let mut key = field(Some("key"), Ty::IdentTy);
    key.any = true;
    let relaxed = struct_schema(vec![key]);
    assert_parse(&relaxed, "async");
    assert_parse(&relaxed, "true");
}

#[test]
fn punct_read_ignores_spacing() {
    // a single-character punctuation read takes the first `=` of `==`, as
    // the host parser does
    let schema = struct_schema(vec![
        field(Some("name"), Ty::IdentTy),
        field(Some("eq_token"), Ty::PunctTy('=')),
        field(Some("value"), Ty::ExprTy),
    ]);
    assert_parse(&schema, "xxx == 2");
}

#[test]
fn float_shaped_literal_is_not_an_int() {
    let schema = struct_schema(vec![field(Some("n"), Ty::LitInt)]);
    assert_parse_fail(&schema, "1.5");
    assert_parse_fail(&schema, "1e3");
    assert_parse(&schema, "0x1f");
    assert_parse(&schema, "1_000");
}

#[test]
fn raw_string_literal_is_a_string() {
    let schema = struct_schema(vec![field(Some("s"), Ty::LitStr)]);
    assert_parse(&schema, "r\"abc\"");
    assert_parse(&schema, "r#\"a\"b\"#");
}
