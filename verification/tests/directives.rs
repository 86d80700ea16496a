use structmeta::directives::{
    build_field_def, parse_field_args, parse_parse_attr, parse_struct_args, parse_token_attr,
};
use structmeta::lex::lex;
use structmeta::schema::Ty;
use structmeta::struct_meta::{ArgsForStruct, NameFilter};

#[test]
fn token_attr_strings_and_dump() {
    let toks = lex("\"(\", dump, \")\"").unwrap();
    let a = parse_token_attr(&toks).unwrap();
    assert_eq!(a.token, vec!["(".to_string(), ")".to_string()]);
    assert_eq!(a.dump, Some(2));
}

#[test]
fn token_attr_rejects_other() {
    let toks = lex("peek").unwrap();
    let e = parse_token_attr(&toks).unwrap_err();
    assert_eq!(e.msg, "expected string literal.");
}

#[test]
fn parse_attr_keywords() {
    let toks = lex("peek, any").unwrap();
    let a = parse_parse_attr(&toks).unwrap();
    assert_eq!(a.peek, Some(0));
    assert_eq!(a.any, Some(2));
    assert_eq!(a.terminated, None);
    let bad = lex("quiet").unwrap();
    let e = parse_parse_attr(&bad).unwrap_err();
    assert_eq!(e.msg, "expected `any`, `peek`, `terminated` or `dump`.");
}

#[test]
fn struct_args_name_filter() {
    let base = ArgsForStruct { dump: false, name_filter: None };
    let toks = lex("name_filter = \"snake_case\"").unwrap();
    let a = parse_struct_args(base, &toks).unwrap();
    assert_eq!(a.name_filter, Some(NameFilter::SnakeCase));
    let twice = lex("name_filter = \"snake_case\", name_filter = \"snake_case\"").unwrap();
    let e = parse_struct_args(base, &twice).unwrap_err();
    assert_eq!(e.msg, "`name_filter` cannot be specified twice");
    let wrong = lex("name_filter = \"camel\"").unwrap();
    let e2 = parse_struct_args(base, &wrong).unwrap_err();
    assert_eq!(e2.msg, "expected \"snake_case\"");
    let usage = lex("peek").unwrap();
    let e3 = parse_struct_args(base, &usage).unwrap_err();
    assert_eq!(e3.msg, "usage : #[struct_meta(dump)]");
}

#[test]
fn field_args_name_and_unnamed() {
    let toks = lex("name = \"xyz\"").unwrap();
    let a = parse_field_args(&toks).unwrap();
    assert_eq!(a.name, Some(("xyz".to_string(), 2)));
    assert!(!a.unnamed);
    let toks2 = lex("unnamed").unwrap();
    let b = parse_field_args(&toks2).unwrap();
    assert!(b.unnamed);
    let bad = lex("other").unwrap();
    let e = parse_field_args(&bad).unwrap_err();
    assert_eq!(e.msg, "expected `name = \"...\"` or `unnamed`.");
}

#[test]
fn build_field_def_merges_annotations() {
    let token_attrs = vec![lex("\"(\"").unwrap(), lex("\")\"").unwrap()];
    let parse_attrs = vec![lex("peek").unwrap(), lex("any").unwrap()];
    let meta_attrs = vec![lex("name = \"n\"").unwrap()];
    let f = build_field_def(
        Some("f".to_string()),
        Ty::IdentTy,
        &token_attrs,
        &parse_attrs,
        &meta_attrs,
    )
    .unwrap();
    assert_eq!(f.delims, vec!['(', ')']);
    assert!(f.peek);
    assert!(f.any);
    assert!(!f.terminated);
    assert_eq!(f.arg_name, Some("n".to_string()));
}

#[test]
fn type_inspectors() {
    let opt = Ty::OptionOf(Box::new(Ty::LitStr));
    assert_eq!(opt.option_element(), Some(&Ty::LitStr));
    assert_eq!(Ty::LitStr.option_element(), None);
    let v = Ty::VecOf(Box::new(Ty::LitInt));
    assert_eq!(v.vec_element(), Some(&Ty::LitInt));
    let nv = Ty::NameValueOf(Box::new(Ty::LitInt));
    assert_eq!(nv.name_value_element(), Some(&Ty::LitInt));
    let na = Ty::NameArgsOf(Box::new(Ty::LitInt));
    assert_eq!(na.name_args_element(), Some(&Ty::LitInt));
    let m = Ty::MapStrTo(Box::new(Ty::LitStr));
    assert_eq!(m.map_string_element(), Some(&Ty::LitStr));
    assert!(Ty::Bool.is_bool());
    assert!(Ty::FlagTy.is_flag());
    assert!(Ty::MacroDelim.is_macro_delimiter());
}

#[test]
fn plain_field_builder() {
    let f = structmeta::schema::FieldDef::plain(Some("k".to_string()), Ty::LitInt);
    assert_eq!(f.name, Some("k".to_string()));
    assert_eq!(f.ty, Ty::LitInt);
    assert!(f.delims.is_empty());
    assert!(!f.peek && !f.any && !f.terminated && !f.unnamed);
    assert_eq!(f.arg_name, None);
}
