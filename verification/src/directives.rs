//! The annotation sub-parsers: the small grammars of the per-field and
//! per-schema annotation argument lists. Each list is comma-separated with a
//! trailing comma allowed; each family accepts its own keywords.

use vstd::prelude::*;
use crate::err::{MErr, SpecErr, merr_view};
use crate::schema::{FieldDef, Ty};
use crate::struct_meta::{ArgsForStruct, NameFilter};
use crate::token::{Tok, Token, toks_view};

verus! {

/// A parsed delimiter-directive annotation: the delimiter strings, and the
/// position of a debugging marker when one was given.
#[derive(PartialEq, Eq, Debug)]
pub struct ToTokensAttr {
    pub dump: Option<usize>,
    pub token: Vec<String>,
}

/// A parsed parse-directive annotation: the positions of the markers given.
#[derive(PartialEq, Eq, Debug)]
pub struct ParseAttr {
    pub any: Option<usize>,
    pub peek: Option<usize>,
    pub terminated: Option<usize>,
    pub dump: Option<usize>,
}

/// A parsed attribute-argument annotation on a field: the explicit name
/// with its position, and the unnamed marking.
#[derive(PartialEq, Eq, Debug)]
pub struct FieldArgs {
    pub name: Option<(String, usize)>,
    pub unnamed: bool,
}

/// The string value of a string-literal token, when the token is one.
pub open spec fn spec_str_value(t: Tok) -> Option<Seq<char>> {
    match t {
        Tok::Lit(s) => crate::token::spec_str_lit_value(s),
        _ => None,
    }
}

/// The identifier text of a token, when the token is an identifier.
pub open spec fn spec_ident_of(t: Tok) -> Option<Seq<char>> {
    match t {
        Tok::Ident(s) => Some(s),
        _ => None,
    }
}

/// The delimiter-directive annotation grammar: string literals and the
/// debugging marker, comma-separated.
pub open spec fn spec_parse_token_attr(
    toks: Seq<Tok>,
    pos: int,
    dump: Option<int>,
    acc: Seq<Seq<char>>,
) -> Result<(Option<int>, Seq<Seq<char>>), SpecErr>
    decreases toks.len() - pos,
    when 0 <= pos <= toks.len()
{
    if pos >= toks.len() {
        Ok((dump, acc))
    } else {
        let elem: Result<(Option<int>, Seq<Seq<char>>), SpecErr> = if spec_str_value(
            toks[pos],
        ) is Some {
            Ok((dump, acc.push(spec_str_value(toks[pos])->0)))
        } else if spec_ident_of(toks[pos]) == Some("dump"@) {
            let d = if dump is None {
                Some(pos)
            } else {
                dump
            };
            Ok((d, acc))
        } else {
            Err(SpecErr { pos, msg: "expected string literal."@ })
        };
        match elem {
            Ok((d2, a2)) => {
                if pos + 1 >= toks.len() {
                    Ok((d2, a2))
                } else if crate::parse::tok_is_comma(toks[pos + 1]) {
                    spec_parse_token_attr(toks, pos + 2, d2, a2)
                } else {
                    Err(SpecErr { pos: pos + 1, msg: "expected `,`"@ })
                }
            },
            Err(e) => Err(e),
        }
    }
}

/// The parse-directive annotation grammar: the four markers,
/// comma-separated, the first occurrence of each recorded.
pub open spec fn spec_parse_parse_attr(
    toks: Seq<Tok>,
    pos: int,
    acc: (Option<int>, Option<int>, Option<int>, Option<int>),
) -> Result<(Option<int>, Option<int>, Option<int>, Option<int>), SpecErr>
    decreases toks.len() - pos,
    when 0 <= pos <= toks.len()
{
    if pos >= toks.len() {
        Ok(acc)
    } else {
        let elem: Result<(Option<int>, Option<int>, Option<int>, Option<int>), SpecErr> = if
        spec_ident_of(toks[pos]) == Some("any"@) {
            Ok(
                (
                    if acc.0 is None {
                        Some(pos)
                    } else {
                        acc.0
                    },
                    acc.1,
                    acc.2,
                    acc.3,
                ),
            )
        } else if spec_ident_of(toks[pos]) == Some("peek"@) {
            Ok(
                (
                    acc.0,
                    if acc.1 is None {
                        Some(pos)
                    } else {
                        acc.1
                    },
                    acc.2,
                    acc.3,
                ),
            )
        } else if spec_ident_of(toks[pos]) == Some("terminated"@) {
            Ok(
                (
                    acc.0,
                    acc.1,
                    if acc.2 is None {
                        Some(pos)
                    } else {
                        acc.2
                    },
                    acc.3,
                ),
            )
        } else if spec_ident_of(toks[pos]) == Some("dump"@) {
            Ok(
                (
                    acc.0,
                    acc.1,
                    acc.2,
                    if acc.3 is None {
                        Some(pos)
                    } else {
                        acc.3
                    },
                ),
            )
        } else {
            Err(SpecErr { pos, msg: "expected `any`, `peek`, `terminated` or `dump`."@ })
        };
        match elem {
            Ok(a2) => {
                if pos + 1 >= toks.len() {
                    Ok(a2)
                } else if crate::parse::tok_is_comma(toks[pos + 1]) {
                    spec_parse_parse_attr(toks, pos + 2, a2)
                } else {
                    Err(SpecErr { pos: pos + 1, msg: "expected `,`"@ })
                }
            },
            Err(e) => Err(e),
        }
    }
}

/// The schema-level annotation grammar of the attribute-argument generator:
/// the debugging marker, or the name filter with its one accepted value.
pub open spec fn spec_parse_struct_args(toks: Seq<Tok>, pos: int, acc: ArgsForStruct) -> Result<
    ArgsForStruct,
    SpecErr,
>
    decreases toks.len() - pos,
    when 0 <= pos <= toks.len()
{
    if pos >= toks.len() {
        Ok(acc)
    } else if spec_ident_of(toks[pos]) == Some("dump"@) {
        let a2 = ArgsForStruct { dump: true, ..acc };
        if pos + 1 >= toks.len() {
            Ok(a2)
        } else if crate::parse::tok_is_comma(toks[pos + 1]) {
            spec_parse_struct_args(toks, pos + 2, a2)
        } else {
            Err(SpecErr { pos: pos + 1, msg: "expected `,`"@ })
        }
    } else if spec_ident_of(toks[pos]) == Some("name_filter"@) {
        if !(pos + 1 < toks.len() && crate::parse::tok_is_punct_char(toks[pos + 1], '=')) {
            Err(SpecErr { pos: pos + 1, msg: "expected `=`"@ })
        } else if !(pos + 2 < toks.len() && spec_str_value(toks[pos + 2]) is Some) {
            Err(SpecErr { pos: pos + 2, msg: "expected string literal"@ })
        } else if spec_str_value(toks[pos + 2]) != Some("snake_case"@) {
            Err(SpecErr { pos: pos + 2, msg: "expected \"snake_case\""@ })
        } else if acc.name_filter is Some {
            Err(SpecErr { pos, msg: "`name_filter` cannot be specified twice"@ })
        } else {
            let a2 = ArgsForStruct { name_filter: Some(NameFilter::SnakeCase), ..acc };
            if pos + 3 >= toks.len() {
                Ok(a2)
            } else if crate::parse::tok_is_comma(toks[pos + 3]) {
                spec_parse_struct_args(toks, pos + 4, a2)
            } else {
                Err(SpecErr { pos: pos + 3, msg: "expected `,`"@ })
            }
        }
    } else {
        Err(SpecErr { pos, msg: "usage : #[struct_meta(dump)]"@ })
    }
}

/// The field-level annotation grammar of the attribute-argument generator:
/// an explicit name, or the unnamed marking.
pub open spec fn spec_parse_field_args(
    toks: Seq<Tok>,
    pos: int,
    name: Option<(Seq<char>, int)>,
    unnamed: bool,
) -> Result<(Option<(Seq<char>, int)>, bool), SpecErr>
    decreases toks.len() - pos,
    when 0 <= pos <= toks.len()
{
    if pos >= toks.len() {
        Ok((name, unnamed))
    } else if spec_ident_of(toks[pos]) == Some("name"@) && pos + 1 < toks.len()
        && crate::parse::tok_is_punct_char(toks[pos + 1], '=') {
        if !(pos + 2 < toks.len() && spec_str_value(toks[pos + 2]) is Some) {
            Err(SpecErr { pos: pos + 2, msg: "expected string literal"@ })
        } else {
            let v = spec_str_value(toks[pos + 2])->0;
            let name2 = Some((v, pos + 2));
            if pos + 3 >= toks.len() {
                Ok((name2, unnamed))
            } else if crate::parse::tok_is_comma(toks[pos + 3]) {
                spec_parse_field_args(toks, pos + 4, name2, unnamed)
            } else {
                Err(SpecErr { pos: pos + 3, msg: "expected `,`"@ })
            }
        }
    } else if spec_ident_of(toks[pos]) == Some("unnamed"@) {
        if pos + 1 >= toks.len() {
            Ok((name, true))
        } else if crate::parse::tok_is_comma(toks[pos + 1]) {
            spec_parse_field_args(toks, pos + 2, name, true)
        } else {
            Err(SpecErr { pos: pos + 1, msg: "expected `,`"@ })
        }
    } else {
        Err(SpecErr { pos, msg: "expected `name = \"...\"` or `unnamed`."@ })
    }
}

/// Parses one delimiter-directive annotation's argument tokens.
pub fn parse_token_attr(toks: &Vec<Token>) -> (r: Result<ToTokensAttr, MErr>)
    ensures
        (r matches Ok(a) ==> spec_parse_token_attr(toks_view(toks@), 0, None, Seq::empty())
            matches Ok(sa) && (match a.dump {
            Some(d) => Some(d as int),
            None => None,
        }) == sa.0 && crate::helpers::strs_view(a.token@) == sa.1),
        (r matches Err(e) ==> spec_parse_token_attr(toks_view(toks@), 0, None, Seq::empty())
            == Err::<(Option<int>, Seq<Seq<char>>), SpecErr>(merr_view(e))),
{
    let empty: Vec<String> = Vec::new();
    proof {
        assert(crate::helpers::strs_view(empty@) =~= Seq::<Seq<char>>::empty());
    }
    parse_token_attr_from(toks, 0, None, empty)
}

fn parse_token_attr_from(
    toks: &Vec<Token>,
    pos: usize,
    dump: Option<usize>,
    acc: Vec<String>,
) -> (r: Result<ToTokensAttr, MErr>)
    requires
        pos <= toks@.len(),
    ensures
        (r matches Ok(a) ==> spec_parse_token_attr(
            toks_view(toks@),
            pos as int,
            match dump {
                Some(d) => Some(d as int),
                None => None,
            },
            crate::helpers::strs_view(acc@),
        ) matches Ok(sa) && (match a.dump {
            Some(d) => Some(d as int),
            None => None,
        }) == sa.0 && crate::helpers::strs_view(a.token@) == sa.1),
        (r matches Err(e) ==> spec_parse_token_attr(
            toks_view(toks@),
            pos as int,
            match dump {
                Some(d) => Some(d as int),
                None => None,
            },
            crate::helpers::strs_view(acc@),
        ) == Err::<(Option<int>, Seq<Seq<char>>), SpecErr>(merr_view(e))),
    decreases toks@.len() - pos,
{
    proof {
        crate::token::lemma_toks_view_index(toks@);
    }
    if pos >= toks.len() {
        return Ok(ToTokensAttr { dump, token: acc });
    }
    let mut dump2 = dump;
    let mut acc2 = acc;
    if let Some(v) = toks[pos].str_lit_value() {
        let ghost old_acc = crate::helpers::strs_view(acc2@);
        let ghost vv = v@;
        acc2.push(v);
        proof {
            assert(crate::helpers::strs_view(acc2@) =~= old_acc.push(vv));
        }
    } else if toks[pos].is_ident_named("dump") {
        if dump2.is_none() {
            dump2 = Some(pos);
        }
    } else {
        return Err(MErr::new(pos, "expected string literal."));
    }
    if pos + 1 >= toks.len() {
        Ok(ToTokensAttr { dump: dump2, token: acc2 })
    } else if toks[pos + 1].is_comma() {
        parse_token_attr_from(toks, pos + 2, dump2, acc2)
    } else {
        Err(MErr::new(pos + 1, "expected `,`"))
    }
}

/// Parses one parse-directive annotation's argument tokens.
pub fn parse_parse_attr(toks: &Vec<Token>) -> (r: Result<ParseAttr, MErr>)
    ensures
        (r matches Ok(a) ==> spec_parse_parse_attr(toks_view(toks@), 0, (None, None, None, None))
            matches Ok(sa) && (match a.any {
            Some(d) => Some(d as int),
            None => None,
        }) == sa.0 && (match a.peek {
            Some(d) => Some(d as int),
            None => None,
        }) == sa.1 && (match a.terminated {
            Some(d) => Some(d as int),
            None => None,
        }) == sa.2 && (match a.dump {
            Some(d) => Some(d as int),
            None => None,
        }) == sa.3),
        (r matches Err(e) ==> spec_parse_parse_attr(toks_view(toks@), 0, (None, None, None, None))
            == Err::<(Option<int>, Option<int>, Option<int>, Option<int>), SpecErr>(merr_view(e))),
{
    parse_parse_attr_from(toks, 0, ParseAttr { any: None, peek: None, terminated: None, dump: None })
}

fn parse_parse_attr_from(toks: &Vec<Token>, pos: usize, acc: ParseAttr) -> (r: Result<
    ParseAttr,
    MErr,
>)
    requires
        pos <= toks@.len(),
    ensures
        (r matches Ok(a) ==> spec_parse_parse_attr(
            toks_view(toks@),
            pos as int,
            (
                match acc.any {
                    Some(d) => Some(d as int),
                    None => None,
                },
                match acc.peek {
                    Some(d) => Some(d as int),
                    None => None,
                },
                match acc.terminated {
                    Some(d) => Some(d as int),
                    None => None,
                },
                match acc.dump {
                    Some(d) => Some(d as int),
                    None => None,
                },
            ),
        ) matches Ok(sa) && (match a.any {
            Some(d) => Some(d as int),
            None => None,
        }) == sa.0 && (match a.peek {
            Some(d) => Some(d as int),
            None => None,
        }) == sa.1 && (match a.terminated {
            Some(d) => Some(d as int),
            None => None,
        }) == sa.2 && (match a.dump {
            Some(d) => Some(d as int),
            None => None,
        }) == sa.3),
        (r matches Err(e) ==> spec_parse_parse_attr(
            toks_view(toks@),
            pos as int,
            (
                match acc.any {
                    Some(d) => Some(d as int),
                    None => None,
                },
                match acc.peek {
                    Some(d) => Some(d as int),
                    None => None,
                },
                match acc.terminated {
                    Some(d) => Some(d as int),
                    None => None,
                },
                match acc.dump {
                    Some(d) => Some(d as int),
                    None => None,
                },
            ),
        ) == Err::<(Option<int>, Option<int>, Option<int>, Option<int>), SpecErr>(merr_view(e))),
    decreases toks@.len() - pos,
{
    proof {
        crate::token::lemma_toks_view_index(toks@);
    }
    if pos >= toks.len() {
        return Ok(acc);
    }
    let mut acc2 = acc;
    if toks[pos].is_ident_named("any") {
        if acc2.any.is_none() {
            acc2.any = Some(pos);
        }
    } else if toks[pos].is_ident_named("peek") {
        if acc2.peek.is_none() {
            acc2.peek = Some(pos);
        }
    } else if toks[pos].is_ident_named("terminated") {
        if acc2.terminated.is_none() {
            acc2.terminated = Some(pos);
        }
    } else if toks[pos].is_ident_named("dump") {
        if acc2.dump.is_none() {
            acc2.dump = Some(pos);
        }
    } else {
        return Err(MErr::new(pos, "expected `any`, `peek`, `terminated` or `dump`."));
    }
    if pos + 1 >= toks.len() {
        Ok(acc2)
    } else if toks[pos + 1].is_comma() {
        parse_parse_attr_from(toks, pos + 2, acc2)
    } else {
        Err(MErr::new(pos + 1, "expected `,`"))
    }
}

/// Parses one schema-level annotation of the attribute-argument generator
/// into the given options.
pub fn parse_struct_args(acc: ArgsForStruct, toks: &Vec<Token>) -> (r: Result<ArgsForStruct, MErr>)
    ensures
        (r matches Ok(a) ==> spec_parse_struct_args(toks_view(toks@), 0, acc) == Ok::<
            ArgsForStruct,
            SpecErr,
        >(a)),
        (r matches Err(e) ==> spec_parse_struct_args(toks_view(toks@), 0, acc) == Err::<
            ArgsForStruct,
            SpecErr,
        >(merr_view(e))),
{
    parse_struct_args_from(toks, 0, acc)
}

fn parse_struct_args_from(toks: &Vec<Token>, pos: usize, acc: ArgsForStruct) -> (r: Result<
    ArgsForStruct,
    MErr,
>)
    requires
        pos <= toks@.len(),
    ensures
        (r matches Ok(a) ==> spec_parse_struct_args(toks_view(toks@), pos as int, acc) == Ok::<
            ArgsForStruct,
            SpecErr,
        >(a)),
        (r matches Err(e) ==> spec_parse_struct_args(toks_view(toks@), pos as int, acc) == Err::<
            ArgsForStruct,
            SpecErr,
        >(merr_view(e))),
    decreases toks@.len() - pos,
{
    proof {
        crate::token::lemma_toks_view_index(toks@);
    }
    if pos >= toks.len() {
        return Ok(acc);
    }
    if toks[pos].is_ident_named("dump") {
        let a2 = ArgsForStruct { dump: true, ..acc };
        if pos + 1 >= toks.len() {
            Ok(a2)
        } else if toks[pos + 1].is_comma() {
            parse_struct_args_from(toks, pos + 2, a2)
        } else {
            Err(MErr::new(pos + 1, "expected `,`"))
        }
    } else if toks[pos].is_ident_named("name_filter") {
        if !(pos + 1 < toks.len() && toks[pos + 1].is_punct_char('=')) {
            return Err(MErr::new(pos + 1, "expected `=`"));
        }
        let v = if pos + 2 < toks.len() {
            toks[pos + 2].str_lit_value()
        } else {
            None
        };
        match v {
            None => Err(MErr::new(pos + 2, "expected string literal")),
            Some(value) => {
                if !crate::helpers::str_eq(value.as_str(), "snake_case") {
                    return Err(MErr::new(pos + 2, "expected \"snake_case\""));
                }
                if acc.name_filter.is_some() {
                    return Err(MErr::new(pos, "`name_filter` cannot be specified twice"));
                }
                let a2 = ArgsForStruct { name_filter: Some(NameFilter::SnakeCase), ..acc };
                if pos + 3 >= toks.len() {
                    Ok(a2)
                } else if toks[pos + 3].is_comma() {
                    parse_struct_args_from(toks, pos + 4, a2)
                } else {
                    Err(MErr::new(pos + 3, "expected `,`"))
                }
            },
        }
    } else {
        Err(MErr::new(pos, "usage : #[struct_meta(dump)]"))
    }
}

/// Parses one field-level annotation of the attribute-argument generator.
pub fn parse_field_args(toks: &Vec<Token>) -> (r: Result<FieldArgs, MErr>)
    ensures
        (r matches Ok(a) ==> spec_parse_field_args(toks_view(toks@), 0, None, false) matches Ok(sa)
            && (match a.name {
            Some((n, p)) => Some((n@, p as int)),
            None => None,
        }) == sa.0 && a.unnamed == sa.1),
        (r matches Err(e) ==> spec_parse_field_args(toks_view(toks@), 0, None, false) == Err::<
            (Option<(Seq<char>, int)>, bool),
            SpecErr,
        >(merr_view(e))),
{
    parse_field_args_from(toks, 0, None, false)
}

fn parse_field_args_from(
    toks: &Vec<Token>,
    pos: usize,
    name: Option<(String, usize)>,
    unnamed: bool,
) -> (r: Result<FieldArgs, MErr>)
    requires
        pos <= toks@.len(),
    ensures
        (r matches Ok(a) ==> spec_parse_field_args(
            toks_view(toks@),
            pos as int,
            match name {
                Some((n, p)) => Some((n@, p as int)),
                None => None,
            },
            unnamed,
        ) matches Ok(sa) && (match a.name {
            Some((n, p)) => Some((n@, p as int)),
            None => None,
        }) == sa.0 && a.unnamed == sa.1),
        (r matches Err(e) ==> spec_parse_field_args(
            toks_view(toks@),
            pos as int,
            match name {
                Some((n, p)) => Some((n@, p as int)),
                None => None,
            },
            unnamed,
        ) == Err::<(Option<(Seq<char>, int)>, bool), SpecErr>(merr_view(e))),
    decreases toks@.len() - pos,
{
    proof {
        crate::token::lemma_toks_view_index(toks@);
    }
    if pos >= toks.len() {
        return Ok(FieldArgs { name, unnamed });
    }
    if toks[pos].is_ident_named("name") && pos + 1 < toks.len() && toks[pos + 1].is_punct_char('=')
    {
        let v = if pos + 2 < toks.len() {
            toks[pos + 2].str_lit_value()
        } else {
            None
        };
        match v {
            None => Err(MErr::new(pos + 2, "expected string literal")),
            Some(value) => {
                let name2 = Some((value, pos + 2));
                if pos + 3 >= toks.len() {
                    Ok(FieldArgs { name: name2, unnamed })
                } else if toks[pos + 3].is_comma() {
                    parse_field_args_from(toks, pos + 4, name2, unnamed)
                } else {
                    Err(MErr::new(pos + 3, "expected `,`"))
                }
            },
        }
    } else if toks[pos].is_ident_named("unnamed") {
        if pos + 1 >= toks.len() {
            Ok(FieldArgs { name, unnamed: true })
        } else if toks[pos + 1].is_comma() {
            parse_field_args_from(toks, pos + 2, name, true)
        } else {
            Err(MErr::new(pos + 1, "expected `,`"))
        }
    } else {
        Err(MErr::new(pos, "expected `name = \"...\"` or `unnamed`."))
    }
}

/// The values of a list of annotation argument token lists.
pub open spec fn attr_views(attrs: Seq<Vec<Token>>) -> Seq<Seq<Tok>> {
    attrs.map_values(|v: Vec<Token>| toks_view(v@))
}

/// The characters of a list of directive strings, appended in order.
pub open spec fn spec_strings_chars(strs: Seq<Seq<char>>, j: int, acc: Seq<char>) -> Seq<char>
    decreases strs.len() - j,
    when 0 <= j
{
    if j >= strs.len() {
        acc
    } else {
        spec_strings_chars(strs, j + 1, acc + strs[j])
    }
}

/// The delimiter characters a field collects from its delimiter-directive
/// annotations, in order, or the first annotation error.
pub open spec fn spec_delims_fold(attrs: Seq<Seq<Tok>>, i: int, acc: Seq<char>) -> Result<
    Seq<char>,
    SpecErr,
>
    decreases attrs.len() - i,
    when 0 <= i
{
    if i >= attrs.len() {
        Ok(acc)
    } else {
        match spec_parse_token_attr(attrs[i], 0, None, Seq::empty()) {
            Ok((_, strs)) => spec_delims_fold(attrs, i + 1, spec_strings_chars(strs, 0, acc)),
            Err(e) => Err(e),
        }
    }
}

/// The any, peek and terminated markers a field collects from its
/// parse-directive annotations, or the first annotation error.
pub open spec fn spec_flags_fold(
    attrs: Seq<Seq<Tok>>,
    i: int,
    any: bool,
    peek: bool,
    terminated: bool,
) -> Result<(bool, bool, bool), SpecErr>
    decreases attrs.len() - i,
    when 0 <= i
{
    if i >= attrs.len() {
        Ok((any, peek, terminated))
    } else {
        match spec_parse_parse_attr(attrs[i], 0, (None, None, None, None)) {
            Ok((a, p, t, _)) => spec_flags_fold(
                attrs,
                i + 1,
                any || a is Some,
                peek || p is Some,
                terminated || t is Some,
            ),
            Err(e) => Err(e),
        }
    }
}

/// The explicit name (the last one given wins) and the unnamed marking a
/// field collects from its attribute-argument annotations, or the first
/// annotation error.
pub open spec fn spec_meta_fold(
    attrs: Seq<Seq<Tok>>,
    i: int,
    name: Option<Seq<char>>,
    unnamed: bool,
) -> Result<(Option<Seq<char>>, bool), SpecErr>
    decreases attrs.len() - i,
    when 0 <= i
{
    if i >= attrs.len() {
        Ok((name, unnamed))
    } else {
        match spec_parse_field_args(attrs[i], 0, None, false) {
            Ok((n, u)) => {
                let name2 = match n {
                    Some((nn, _)) => Some(nn),
                    None => name,
                };
                spec_meta_fold(attrs, i + 1, name2, unnamed || u)
            },
            Err(e) => Err(e),
        }
    }
}

/// Appends the characters of a field's directive strings.
fn strings_chars(strs: &Vec<String>, j: usize, acc: Vec<char>) -> (r: Vec<char>)
    requires
        j <= strs@.len(),
    ensures
        r@ == spec_strings_chars(crate::helpers::strs_view(strs@), j as int, acc@),
    decreases strs@.len() - j,
{
    proof {
        assert(crate::helpers::strs_view(strs@).len() == strs@.len());
    }
    if j >= strs.len() {
        return acc;
    }
    proof {
        assert(crate::helpers::strs_view(strs@)[j as int] == strs@[j as int]@);
    }
    let mut cs = crate::helpers::str_chars(strs[j].as_str());
    let mut acc2 = acc;
    let ghost old_acc = acc2@;
    acc2.append(&mut cs);
    proof {
        assert(acc2@ == old_acc + strs@[j as int]@);
    }
    strings_chars(strs, j + 1, acc2)
}

/// Collects the delimiter characters of the delimiter-directive
/// annotations.
fn delims_fold(attrs: &Vec<Vec<Token>>, i: usize, acc: Vec<char>) -> (r: Result<Vec<char>, MErr>)
    requires
        i <= attrs@.len(),
    ensures
        (r matches Ok(v) ==> spec_delims_fold(attr_views(attrs@), i as int, acc@) == Ok::<
            Seq<char>,
            SpecErr,
        >(v@)),
        (r matches Err(e) ==> spec_delims_fold(attr_views(attrs@), i as int, acc@) == Err::<
            Seq<char>,
            SpecErr,
        >(merr_view(e))),
    decreases attrs@.len() - i,
{
    proof {
        assert(attr_views(attrs@).len() == attrs@.len());
    }
    if i >= attrs.len() {
        return Ok(acc);
    }
    proof {
        assert(attr_views(attrs@)[i as int] == toks_view(attrs@[i as int]@));
    }
    match parse_token_attr(&attrs[i]) {
        Ok(a) => {
            let acc2 = strings_chars(&a.token, 0, acc);
            delims_fold(attrs, i + 1, acc2)
        },
        Err(e) => Err(e),
    }
}

/// Collects the any, peek and terminated markers of the parse-directive
/// annotations.
fn flags_fold(
    attrs: &Vec<Vec<Token>>,
    i: usize,
    any: bool,
    peek: bool,
    terminated: bool,
) -> (r: Result<(bool, bool, bool), MErr>)
    requires
        i <= attrs@.len(),
    ensures
        (r matches Ok(f) ==> spec_flags_fold(attr_views(attrs@), i as int, any, peek, terminated)
            == Ok::<(bool, bool, bool), SpecErr>(f)),
        (r matches Err(e) ==> spec_flags_fold(attr_views(attrs@), i as int, any, peek, terminated)
            == Err::<(bool, bool, bool), SpecErr>(merr_view(e))),
    decreases attrs@.len() - i,
{
    proof {
        assert(attr_views(attrs@).len() == attrs@.len());
    }
    if i >= attrs.len() {
        return Ok((any, peek, terminated));
    }
    proof {
        assert(attr_views(attrs@)[i as int] == toks_view(attrs@[i as int]@));
    }
    match parse_parse_attr(&attrs[i]) {
        Ok(a) => flags_fold(
            attrs,
            i + 1,
            any || a.any.is_some(),
            peek || a.peek.is_some(),
            terminated || a.terminated.is_some(),
        ),
        Err(e) => Err(e),
    }
}

/// Collects the explicit name and the unnamed marking of the
/// attribute-argument annotations.
fn meta_fold(
    attrs: &Vec<Vec<Token>>,
    i: usize,
    name: Option<String>,
    unnamed: bool,
) -> (r: Result<(Option<String>, bool), MErr>)
    requires
        i <= attrs@.len(),
    ensures
        (r matches Ok(m) ==> spec_meta_fold(
            attr_views(attrs@),
            i as int,
            match name {
                Some(n) => Some(n@),
                None => None,
            },
            unnamed,
        ) matches Ok(sm) && (match m.0 {
            Some(n) => Some(n@),
            None => None,
        }) == sm.0 && m.1 == sm.1),
        (r matches Err(e) ==> spec_meta_fold(
            attr_views(attrs@),
            i as int,
            match name {
                Some(n) => Some(n@),
                None => None,
            },
            unnamed,
        ) == Err::<(Option<Seq<char>>, bool), SpecErr>(merr_view(e))),
    decreases attrs@.len() - i,
{
    proof {
        assert(attr_views(attrs@).len() == attrs@.len());
    }
    if i >= attrs.len() {
        return Ok((name, unnamed));
    }
    proof {
        assert(attr_views(attrs@)[i as int] == toks_view(attrs@[i as int]@));
    }
    match parse_field_args(&attrs[i]) {
        Ok(a) => {
            let name2 = match a.name {
                Some((n, _)) => Some(n),
                None => name,
            };
            meta_fold(attrs, i + 1, name2, unnamed || a.unnamed)
        },
        Err(e) => Err(e),
    }
}

/// Builds a field definition from its declared name, its type reference and
/// the raw argument tokens of its annotations, one token list per
/// annotation: the delimiter characters of the delimiter directives are
/// flattened in order, the parse markers are merged, an explicit name (the
/// last given) overrides the declared one, and the first failing annotation
/// decides the error.
pub fn build_field_def(
    name: Option<String>,
    ty: Ty,
    token_attrs: &Vec<Vec<Token>>,
    parse_attrs: &Vec<Vec<Token>>,
    meta_attrs: &Vec<Vec<Token>>,
) -> (r: Result<FieldDef, MErr>)
    ensures
        (r matches Ok(f) ==> f.name == name && f.ty == ty && spec_delims_fold(
            attr_views(token_attrs@),
            0,
            Seq::empty(),
        ) == Ok::<Seq<char>, SpecErr>(f.delims@) && spec_flags_fold(
            attr_views(parse_attrs@),
            0,
            false,
            false,
            false,
        ) == Ok::<(bool, bool, bool), SpecErr>((f.any, f.peek, f.terminated)) && (spec_meta_fold(
            attr_views(meta_attrs@),
            0,
            None,
            false,
        ) matches Ok(m) && (match f.arg_name {
            Some(n) => Some(n@),
            None => None,
        }) == m.0 && f.unnamed == m.1)),
        (r matches Err(e) ==> spec_delims_fold(attr_views(token_attrs@), 0, Seq::empty()) == Err::<
            Seq<char>,
            SpecErr,
        >(merr_view(e)) || (spec_delims_fold(attr_views(token_attrs@), 0, Seq::empty()) is Ok
            && spec_flags_fold(attr_views(parse_attrs@), 0, false, false, false) == Err::<
            (bool, bool, bool),
            SpecErr,
        >(merr_view(e))) || (spec_delims_fold(attr_views(token_attrs@), 0, Seq::empty()) is Ok
            && spec_flags_fold(attr_views(parse_attrs@), 0, false, false, false) is Ok
            && spec_meta_fold(attr_views(meta_attrs@), 0, None, false) == Err::<
            (Option<Seq<char>>, bool),
            SpecErr,
        >(merr_view(e)))),
{
    let empty_chars: Vec<char> = Vec::new();
    proof {
        assert(empty_chars@ =~= Seq::<char>::empty());
    }
    let delims = match delims_fold(token_attrs, 0, empty_chars) {
        Ok(d) => d,
        Err(e) => {
            return Err(e);
        },
    };
    let (any, peek, terminated) = match flags_fold(parse_attrs, 0, false, false, false) {
        Ok(f) => f,
        Err(e) => {
            return Err(e);
        },
    };
    let (arg_name, unnamed) = match meta_fold(meta_attrs, 0, None, false) {
        Ok(m) => m,
        Err(e) => {
            return Err(e);
        },
    };
    Ok(FieldDef { name, ty, delims, peek, any, terminated, arg_name, unnamed })
}

} // verus!
