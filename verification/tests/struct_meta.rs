use structmeta::err::MErr;
use structmeta::lex::lex;
use structmeta::schema::{FieldDef, Ty};
use structmeta::struct_meta::{
    classify, parse_attr_args, Arg, ArgCore, ArgsForStruct, MapVal, NameFilter,
};
use structmeta::token::Token;

fn plain_args() -> ArgsForStruct {
    ArgsForStruct { dump: false, name_filter: None }
}

fn field(name: Option<&str>, ty: Ty) -> FieldDef {
    FieldDef {
        name: name.map(|s| s.to_string()),
        ty,
        delims: Vec::new(),
        peek: false,
        any: false,
        terminated: false,
        arg_name: None,
        unnamed: false,
    }
}

fn unnamed_field(ty: Ty) -> FieldDef {
    field(None, ty)
}

fn parse(fields: &Vec<FieldDef>, input: &str) -> Result<Vec<Arg>, MErr> {
    let toks = lex(input).expect("input must lex");
    parse_attr_args(fields, &plain_args(), &toks)
}

fn toks(input: &str) -> Vec<Token> {
    lex(input).expect("input must lex")
}

fn lit(text: &str) -> Token {
    Token::Lit(text.to_string())
}

#[test]
fn test_proc_macro_derive() {
    // schema { msg: LitStr } parsing `msg = "abc"`, as the readme derive does
    let fields = vec![field(Some("msg"), Ty::LitStr)];
    let r = parse(&fields, "msg = \"abc\"").unwrap();
    assert_eq!(r, vec![Arg::Val(ArgCore::Toks(vec![lit("\"abc\"")]))]);
    match &r[0] {
        Arg::Val(ArgCore::Toks(ts)) => {
            assert_eq!(ts[0].str_lit_value().unwrap(), "abc");
        }
        _ => panic!("wrong shape"),
    }
}

#[test]
fn test_unit() {
    let fields: Vec<FieldDef> = Vec::new();
    assert_eq!(parse(&fields, "").unwrap(), Vec::<Arg>::new());
}

#[test]
fn test_tuple_field1() {
    let fields = vec![unnamed_field(Ty::LitStr)];
    let r = parse(&fields, "\"abc\"").unwrap();
    assert_eq!(r, vec![Arg::Val(ArgCore::Toks(vec![lit("\"abc\"")]))]);
}

#[test]
fn test_tuple_field2() {
    let fields = vec![unnamed_field(Ty::LitStr), unnamed_field(Ty::LitInt)];
    let r = parse(&fields, "\"abc\", 12").unwrap();
    assert_eq!(
        r,
        vec![
            Arg::Val(ArgCore::Toks(vec![lit("\"abc\"")])),
            Arg::Val(ArgCore::Toks(vec![lit("12")])),
        ]
    );
}

#[test]
fn test_tuple_optional_1() {
    let fields = vec![unnamed_field(Ty::OptionOf(Box::new(Ty::LitStr)))];
    let r = parse(&fields, "\"abc\"").unwrap();
    assert_eq!(r, vec![Arg::OptVal(Some(ArgCore::Toks(vec![lit("\"abc\"")])))]);
    let r2 = parse(&fields, "").unwrap();
    assert_eq!(r2, vec![Arg::OptVal(None)]);
}

#[test]
fn test_tuple_variadic() {
    // a variadic tuple schema parses zero, one and two items, in order
    let fields = vec![unnamed_field(Ty::VecOf(Box::new(Ty::LitInt)))];
    assert_eq!(parse(&fields, "").unwrap(), vec![Arg::Val(ArgCore::List(vec![]))]);
    assert_eq!(
        parse(&fields, "0").unwrap(),
        vec![Arg::Val(ArgCore::List(vec![vec![lit("0")]]))]
    );
    assert_eq!(
        parse(&fields, "0, 1").unwrap(),
        vec![Arg::Val(ArgCore::List(vec![vec![lit("0")], vec![lit("1")]]))]
    );
}

#[test]
fn test_tuple_required_and_variadic() {
    let fields = vec![
        unnamed_field(Ty::LitStr),
        unnamed_field(Ty::VecOf(Box::new(Ty::LitInt))),
    ];
    assert_eq!(
        parse(&fields, "\"abc\", 0").unwrap(),
        vec![
            Arg::Val(ArgCore::Toks(vec![lit("\"abc\"")])),
            Arg::Val(ArgCore::List(vec![vec![lit("0")]])),
        ]
    );
}

#[test]
fn test_tuple_requied_named() {
    let mut f = unnamed_field(Ty::LitStr);
    f.arg_name = Some("abc".to_string());
    let fields = vec![f];
    let r = parse(&fields, "abc = \"def\"").unwrap();
    assert_eq!(r, vec![Arg::Val(ArgCore::Toks(vec![lit("\"def\"")]))]);
}

#[test]
fn test_struct_value() {
    let fields = vec![field(Some("abc"), Ty::LitStr)];
    let r = parse(&fields, "abc = \"def\"").unwrap();
    assert_eq!(r, vec![Arg::Val(ArgCore::Toks(vec![lit("\"def\"")]))]);
}

#[test]
fn test_struct_option_value() {
    let fields = vec![field(Some("abc"), Ty::OptionOf(Box::new(Ty::LitStr)))];
    assert_eq!(parse(&fields, "").unwrap(), vec![Arg::OptVal(None)]);
    assert_eq!(
        parse(&fields, "abc = \"def\"").unwrap(),
        vec![Arg::OptVal(Some(ArgCore::Toks(vec![lit("\"def\"")])))]
    );
}

#[test]
fn test_struct_value_name_keyword() {
    let mut f = field(Some("abc"), Ty::LitStr);
    f.arg_name = Some("if".to_string());
    let fields = vec![f];
    let r = parse(&fields, "if = \"def\"").unwrap();
    assert_eq!(r, vec![Arg::Val(ArgCore::Toks(vec![lit("\"def\"")]))]);
}

#[test]
fn test_struct_value_unnamed() {
    let mut f = field(Some("abc"), Ty::LitStr);
    f.unnamed = true;
    let fields = vec![f];
    let r = parse(&fields, "\"def\"").unwrap();
    assert_eq!(r, vec![Arg::Val(ArgCore::Toks(vec![lit("\"def\"")]))]);
}

#[test]
fn test_struct_vec() {
    let fields = vec![field(Some("abc"), Ty::VecOf(Box::new(Ty::LitStr)))];
    assert_eq!(parse(&fields, "abc()").unwrap(), vec![Arg::Val(ArgCore::List(vec![]))]);
    assert_eq!(
        parse(&fields, "abc(\"item1\")").unwrap(),
        vec![Arg::Val(ArgCore::List(vec![vec![lit("\"item1\"")]]))]
    );
    assert_eq!(
        parse(&fields, "abc(\"item1\", \"item2\")").unwrap(),
        vec![Arg::Val(ArgCore::List(vec![
            vec![lit("\"item1\"")],
            vec![lit("\"item2\"")]
        ]))]
    );
}

#[test]
fn test_struct_flag() {
    // a bare flag records the position of its name; omitting it leaves the
    // empty default
    let fields = vec![field(Some("is_enable"), Ty::FlagTy)];
    assert_eq!(parse(&fields, "is_enable").unwrap(), vec![Arg::FlagArg(Some(0))]);
    assert_eq!(parse(&fields, "").unwrap(), vec![Arg::FlagArg(None)]);
}

#[test]
fn test_struct_bool() {
    let fields = vec![field(Some("is_enable"), Ty::Bool)];
    assert_eq!(parse(&fields, "is_enable").unwrap(), vec![Arg::BoolArg(true)]);
    assert_eq!(parse(&fields, "").unwrap(), vec![Arg::BoolArg(false)]);
}

#[test]
fn test_struct_name_value() {
    let fields = vec![field(Some("abc"), Ty::NameValueOf(Box::new(Ty::LitStr)))];
    let r = parse(&fields, "abc = \"xyz\"").unwrap();
    assert_eq!(r, vec![Arg::NameValue(0, ArgCore::Toks(vec![lit("\"xyz\"")]))]);
}

#[test]
fn test_struct_name_args() {
    let fields = vec![field(Some("abc"), Ty::NameArgsOf(Box::new(Ty::LitStr)))];
    let r = parse(&fields, "abc(\"xyz\")").unwrap();
    assert_eq!(r, vec![Arg::NameArgs(0, ArgCore::Toks(vec![lit("\"xyz\"")]))]);
}

#[test]
fn test_struct_map() {
    // unrecognized named arguments are absorbed into the rest map under
    // their name text
    let fields = vec![field(Some("m"), Ty::MapStrTo(Box::new(Ty::LitStr)))];
    assert_eq!(parse(&fields, "").unwrap(), vec![Arg::MapArg(vec![])]);
    assert_eq!(
        parse(&fields, "abc = \"xyz\"").unwrap(),
        vec![Arg::MapArg(vec![(
            "abc".to_string(),
            MapVal::MNV(0, ArgCore::Toks(vec![lit("\"xyz\"")]))
        )])]
    );
    assert_eq!(
        parse(&fields, "abc = \"xyz\", def = \"123\"").unwrap(),
        vec![Arg::MapArg(vec![
            (
                "abc".to_string(),
                MapVal::MNV(0, ArgCore::Toks(vec![lit("\"xyz\"")]))
            ),
            (
                "def".to_string(),
                MapVal::MNV(4, ArgCore::Toks(vec![lit("\"123\"")]))
            ),
        ])]
    );
}

#[test]
fn test_rest_map_duplicate() {
    let fields = vec![field(Some("m"), Ty::MapStrTo(Box::new(Ty::LitStr)))];
    let e = parse(&fields, "x = \"1\", x = \"2\"").unwrap_err();
    assert_eq!(e.msg, "parameter `x` specified more than once");
}

#[test]
fn test_rest_map_recognized_not_absorbed() {
    let fields = vec![
        field(Some("a"), Ty::LitStr),
        field(Some("m"), Ty::MapStrTo(Box::new(Ty::LitStr))),
    ];
    let r = parse(&fields, "a = \"x\", b = \"y\"").unwrap();
    assert_eq!(
        r,
        vec![
            Arg::Val(ArgCore::Toks(vec![lit("\"x\"")])),
            Arg::MapArg(vec![(
                "b".to_string(),
                MapVal::MNV(4, ArgCore::Toks(vec![lit("\"y\"")]))
            )]),
        ]
    );
}

#[test]
fn test_expr_or_flag() {
    let mut f = field(Some("expr"), Ty::OptionOf(Box::new(Ty::ExprTy)));
    f.unnamed = true;
    let fields = vec![f, field(Some("x"), Ty::Bool)];
    assert_eq!(
        parse(&fields, "x").unwrap(),
        vec![Arg::OptVal(None), Arg::BoolArg(true)]
    );
    assert!(parse(&fields, "y").is_err());
    assert!(parse(&fields, "Y").is_err());
}

#[test]
fn name_filter() {
    // an identifier refused by the snake-case filter falls to the
    // positional expression
    let mut f = field(Some("expr"), Ty::OptionOf(Box::new(Ty::ExprTy)));
    f.unnamed = true;
    let fields = vec![f, field(Some("x"), Ty::Bool)];
    let args = ArgsForStruct { dump: false, name_filter: Some(NameFilter::SnakeCase) };
    let t1 = toks("x");
    assert_eq!(
        parse_attr_args(&fields, &args, &t1).unwrap(),
        vec![Arg::OptVal(None), Arg::BoolArg(true)]
    );
    let t2 = toks("y");
    assert!(parse_attr_args(&fields, &args, &t2).is_err());
    let t3 = toks("Y");
    assert_eq!(
        parse_attr_args(&fields, &args, &t3).unwrap(),
        vec![
            Arg::OptVal(Some(ArgCore::Toks(vec![Token::Ident("Y".to_string())]))),
            Arg::BoolArg(false)
        ]
    );
}

#[test]
fn test_expr_or_name_value_similar_1() {
    // `x == y` is not a name-value argument: the `=` is joined
    let mut f = field(Some("expr"), Ty::OptionOf(Box::new(Ty::ExprTy)));
    f.unnamed = true;
    let fields = vec![
        f,
        field(Some("x"), Ty::OptionOf(Box::new(Ty::NameValueOf(Box::new(Ty::LitInt))))),
    ];
    let r = parse(&fields, "x == y").unwrap();
    match &r[0] {
        Arg::OptVal(Some(ArgCore::Toks(ts))) => assert_eq!(ts.len(), 4),
        other => panic!("wrong shape: {other:?}"),
    }
    assert_eq!(r[1], Arg::OptNameValue(None));
}

#[test]
fn test_expr_or_name_value_similar_2() {
    let mut f = field(Some("expr"), Ty::OptionOf(Box::new(Ty::ExprTy)));
    f.unnamed = true;
    let fields = vec![
        f,
        field(Some("x"), Ty::OptionOf(Box::new(Ty::NameValueOf(Box::new(Ty::LitInt))))),
    ];
    let r = parse(&fields, "x = 1").unwrap();
    assert_eq!(r[0], Arg::OptVal(None));
    assert_eq!(r[1], Arg::OptNameValue(Some((0, ArgCore::Toks(vec![lit("1")])))));
}

#[test]
fn test_attr_scenario_optional_int() {
    // schema { a: LitStr, b: Option<LitInt> }: the optional value may be
    // omitted, and the required one may not
    let fields = vec![
        field(Some("a"), Ty::LitStr),
        field(Some("b"), Ty::OptionOf(Box::new(Ty::LitInt))),
    ];
    assert_eq!(
        parse(&fields, "a = \"x\"").unwrap(),
        vec![Arg::Val(ArgCore::Toks(vec![lit("\"x\"")])), Arg::OptVal(None)]
    );
    assert_eq!(
        parse(&fields, "a = \"x\", b = 1").unwrap(),
        vec![
            Arg::Val(ArgCore::Toks(vec![lit("\"x\"")])),
            Arg::OptVal(Some(ArgCore::Toks(vec![lit("1")]))),
        ]
    );
    let e = parse(&fields, "b = 1").unwrap_err();
    assert_eq!(e.msg, "missing argument `a = ...`");
}

#[test]
fn test_attr_scenario_two_required() {
    // tuple schema (LitInt, LitInt): one argument is too few
    let fields = vec![unnamed_field(Ty::LitInt), unnamed_field(Ty::LitInt)];
    let e = parse(&fields, "10").unwrap_err();
    assert_eq!(e.msg, "expected least 2 arguments but 1 argument was supplied");
    assert_eq!(
        parse(&fields, "10, 20").unwrap(),
        vec![
            Arg::Val(ArgCore::Toks(vec![lit("10")])),
            Arg::Val(ArgCore::Toks(vec![lit("20")])),
        ]
    );
}

#[test]
fn test_named_duplicate() {
    // the same named parameter twice fails, never silently overwriting
    let fields = vec![field(Some("x"), Ty::LitInt)];
    let e = parse(&fields, "x = 1, x = 2").unwrap_err();
    assert_eq!(e.msg, "parameter `x` specified more than once");
}

#[test]
fn test_cannot_find_parameter() {
    let fields = vec![field(Some("alpha"), Ty::LitInt)];
    let e = parse(&fields, "alpho = 1").unwrap_err();
    assert_eq!(
        e.msg,
        "cannot find parameter `alpho` in this scope (help: a parameter with a similar name exists: `alpha`)"
    );
}

#[test]
fn test_wrong_shape_message() {
    let fields = vec![field(Some("x"), Ty::LitInt)];
    let e = parse(&fields, "x(1)").unwrap_err();
    assert_eq!(e.msg, "expected `x = ...`, found `x`(...)");
}

#[test]
fn test_classify_required_after_optional() {
    // a required positional parameter after an optional one fails generation
    let fields = vec![
        unnamed_field(Ty::OptionOf(Box::new(Ty::LitStr))),
        unnamed_field(Ty::LitInt),
    ];
    let e = classify(&fields, &plain_args()).unwrap_err();
    assert_eq!(e.msg, "cannot use non optional parameter after variadic parameter.");
    assert_eq!(e.pos, 1);
}

#[test]
fn test_classify_after_variadic() {
    let fields = vec![
        unnamed_field(Ty::VecOf(Box::new(Ty::LitInt))),
        unnamed_field(Ty::LitInt),
    ];
    let e = classify(&fields, &plain_args()).unwrap_err();
    assert_eq!(e.msg, "cannot use unnamed parameter after variadic parameter.");
}

#[test]
fn test_classify_duplicate_name() {
    let fields = vec![field(Some("a"), Ty::LitInt), field(Some("a"), Ty::LitStr)];
    let e = classify(&fields, &plain_args()).unwrap_err();
    assert_eq!(e.msg, "`a` is already exists.");
}

#[test]
fn test_classify_rest_twice() {
    let fields = vec![
        field(Some("m"), Ty::MapStrTo(Box::new(Ty::LitStr))),
        field(Some("n"), Ty::MapStrTo(Box::new(Ty::LitStr))),
    ];
    let e = classify(&fields, &plain_args()).unwrap_err();
    assert_eq!(e.msg, "cannot use rest parameter twice.");
}

#[test]
fn test_too_many_unnamed() {
    let fields = vec![unnamed_field(Ty::OptionOf(Box::new(Ty::LitInt)))];
    let e = parse(&fields, "1, 2").unwrap_err();
    assert_eq!(e.msg, "too many unnamed parameter");
}

#[test]
fn test_unnamed_after_named() {
    let mut f = field(Some("a"), Ty::OptionOf(Box::new(Ty::LitInt)));
    f.unnamed = true;
    let fields = vec![f, field(Some("x"), Ty::Bool)];
    let e = parse(&fields, "x, 1").unwrap_err();
    assert_eq!(e.msg, "cannot use unnamed parameter after named parameter");
}

#[test]
fn test_tuple_optional_2() {
    let fields = vec![
        unnamed_field(Ty::OptionOf(Box::new(Ty::LitStr))),
        unnamed_field(Ty::OptionOf(Box::new(Ty::LitInt))),
    ];
    assert_eq!(
        parse(&fields, "\"abc\", 12").unwrap(),
        vec![
            Arg::OptVal(Some(ArgCore::Toks(vec![lit("\"abc\"")]))),
            Arg::OptVal(Some(ArgCore::Toks(vec![lit("12")]))),
        ],
        "args 2"
    );
    assert_eq!(
        parse(&fields, "\"abc\"").unwrap(),
        vec![Arg::OptVal(Some(ArgCore::Toks(vec![lit("\"abc\"")]))), Arg::OptVal(None)],
        "args 1"
    );
    assert_eq!(
        parse(&fields, "").unwrap(),
        vec![Arg::OptVal(None), Arg::OptVal(None)],
        "args_0"
    );
}

#[test]
fn test_tuple_required_and_optional() {
    let fields = vec![
        unnamed_field(Ty::LitStr),
        unnamed_field(Ty::OptionOf(Box::new(Ty::LitInt))),
    ];
    assert_eq!(
        parse(&fields, "\"abc\", 12").unwrap(),
        vec![
            Arg::Val(ArgCore::Toks(vec![lit("\"abc\"")])),
            Arg::OptVal(Some(ArgCore::Toks(vec![lit("12")]))),
        ],
        "args 2"
    );
    assert_eq!(
        parse(&fields, "\"abc\"").unwrap(),
        vec![Arg::Val(ArgCore::Toks(vec![lit("\"abc\"")])), Arg::OptVal(None)],
        "args 1"
    );
}

#[test]
fn test_tuple_optional_and_variadic() {
    let fields = vec![
        unnamed_field(Ty::OptionOf(Box::new(Ty::LitStr))),
        unnamed_field(Ty::VecOf(Box::new(Ty::LitInt))),
    ];
    assert_eq!(
        parse(&fields, "").unwrap(),
        vec![Arg::OptVal(None), Arg::Val(ArgCore::List(vec![]))],
        "args 0"
    );
    assert_eq!(
        parse(&fields, "\"abc\"").unwrap(),
        vec![
            Arg::OptVal(Some(ArgCore::Toks(vec![lit("\"abc\"")]))),
            Arg::Val(ArgCore::List(vec![])),
        ],
        "args 1"
    );
    assert_eq!(
        parse(&fields, "\"abc\", 0, 1").unwrap(),
        vec![
            Arg::OptVal(Some(ArgCore::Toks(vec![lit("\"abc\"")]))),
            Arg::Val(ArgCore::List(vec![vec![lit("0")], vec![lit("1")]])),
        ],
        "args 3"
    );
}

#[test]
fn test_tuple_optional_named() {
    let mut f = unnamed_field(Ty::OptionOf(Box::new(Ty::LitStr)));
    f.arg_name = Some("abc".to_string());
    let fields = vec![f];
    assert_eq!(parse(&fields, "").unwrap(), vec![Arg::OptVal(None)], "args 0");
    assert_eq!(
        parse(&fields, "abc = \"def\"").unwrap(),
        vec![Arg::OptVal(Some(ArgCore::Toks(vec![lit("\"def\"")])))],
        "args 1"
    );
}

#[test]
fn test_struct_value_name() {
    let mut f = field(Some("abc"), Ty::LitStr);
    f.arg_name = Some("xxx".to_string());
    let fields = vec![f];
    assert_eq!(
        parse(&fields, "xxx = \"def\"").unwrap(),
        vec![Arg::Val(ArgCore::Toks(vec![lit("\"def\"")]))]
    );
}

#[test]
fn test_struct_value_name_self() {
    let mut f = field(Some("abc"), Ty::LitStr);
    f.arg_name = Some("self".to_string());
    let fields = vec![f];
    assert_eq!(
        parse(&fields, "self = \"def\"").unwrap(),
        vec![Arg::Val(ArgCore::Toks(vec![lit("\"def\"")]))]
    );
}

#[test]
fn test_struct_option_vec() {
    let fields = vec![field(
        Some("abc"),
        Ty::OptionOf(Box::new(Ty::VecOf(Box::new(Ty::LitStr)))),
    )];
    assert_eq!(parse(&fields, "").unwrap(), vec![Arg::OptVal(None)], "args none");
    assert_eq!(
        parse(&fields, "abc()").unwrap(),
        vec![Arg::OptVal(Some(ArgCore::List(vec![])))],
        "args 0"
    );
    assert_eq!(
        parse(&fields, "abc(\"item1\", \"item2\")").unwrap(),
        vec![Arg::OptVal(Some(ArgCore::List(vec![
            vec![lit("\"item1\"")],
            vec![lit("\"item2\"")]
        ])))],
        "args 2"
    );
}

#[test]
fn test_expr_or_name_args_similar() {
    let mut f = field(Some("expr"), Ty::OptionOf(Box::new(Ty::ExprTy)));
    f.unnamed = true;
    let fields = vec![
        f,
        field(Some("x"), Ty::OptionOf(Box::new(Ty::NameArgsOf(Box::new(Ty::LitInt))))),
    ];
    let r = parse(&fields, "x(1)").unwrap();
    assert_eq!(r[0], Arg::OptVal(None));
    assert_eq!(r[1], Arg::OptNameArgs(Some((0, ArgCore::Toks(vec![lit("1")])))));
}

#[test]
fn test_expr_or_name_value() {
    // a call expression is not an args-shaped named argument when the name
    // only has the value shape
    let mut f = field(Some("expr"), Ty::OptionOf(Box::new(Ty::ExprTy)));
    f.unnamed = true;
    let fields = vec![
        f,
        field(Some("x"), Ty::OptionOf(Box::new(Ty::NameValueOf(Box::new(Ty::LitInt))))),
    ];
    let r = parse(&fields, "func(1)").unwrap();
    match &r[0] {
        Arg::OptVal(Some(ArgCore::Toks(ts))) => assert_eq!(ts.len(), 2),
        other => panic!("wrong shape: {other:?}"),
    }
    assert_eq!(r[1], Arg::OptNameValue(None));
}

#[test]
fn test_unnamed_similar_name_value() {
    // `a = 10` with only a positional expression parameter is an expression
    let fields = vec![unnamed_field(Ty::OptionOf(Box::new(Ty::ExprTy)))];
    let r = parse(&fields, "a = 10").unwrap();
    match &r[0] {
        Arg::OptVal(Some(ArgCore::Toks(ts))) => assert_eq!(ts.len(), 3),
        other => panic!("wrong shape: {other:?}"),
    }
}

#[test]
fn test_proc_macro_attr() {
    // schema { msg: LitStr } parsing attribute argument text, as the
    // attribute macro example does
    let fields = vec![field(Some("msg"), Ty::LitStr)];
    let r = parse(&fields, "msg = \"xyz\"").unwrap();
    match &r[0] {
        Arg::Val(ArgCore::Toks(ts)) => {
            assert_eq!(ts[0].str_lit_value().unwrap(), "xyz");
        }
        _ => panic!("wrong shape"),
    }
}

#[test]
fn dump_reveals_classified_parameters() {
    let fields = vec![
        unnamed_field(Ty::LitStr),
        field(Some("x"), Ty::Bool),
        field(Some("m"), Ty::MapStrTo(Box::new(Ty::LitStr))),
    ];
    let args = ArgsForStruct { dump: true, name_filter: None };
    let e = classify(&fields, &args).unwrap_err();
    assert_eq!(e.msg, "macro result: rnm");
}

#[test]
fn string_values_are_unescaped() {
    let fields = vec![field(Some("msg"), Ty::LitStr)];
    let r = parse(&fields, "msg = \"a\\nb\"").unwrap();
    match &r[0] {
        Arg::Val(ArgCore::Toks(ts)) => {
            assert_eq!(ts[0].str_lit_value().unwrap(), "a\nb");
        }
        _ => panic!("wrong shape"),
    }
    let r2 = parse(&fields, "msg = r\"a.b\"").unwrap();
    match &r2[0] {
        Arg::Val(ArgCore::Toks(ts)) => {
            assert_eq!(ts[0].str_lit_value().unwrap(), "a.b");
        }
        _ => panic!("wrong shape"),
    }
}
