//! The attribute-argument machinery: classifying a struct's fields into
//! positional (required, optional, variadic), named (flag, value, args) and
//! rest-map parameters, and the runtime loop that parses a comma-separated
//! argument list against the classified parameters.

use vstd::prelude::*;
use vstd::string::StringExecFns;
use crate::err::{MErr, SpecErr, merr_view};
use crate::schema::{FieldDef, Ty};
use crate::token::{Delim, Tok, Token, toks_view};

verus! {

/// The optional filter a schema may put on accepted argument names.
#[derive(Clone, Copy, PartialEq, Eq, Structural, Debug)]
pub enum NameFilter {
    NoFilter,
    SnakeCase,
}

/// The schema-level options of the attribute-argument generator.
#[derive(Clone, Copy, PartialEq, Eq, Structural, Debug)]
pub struct ArgsForStruct {
    /// Whether generation was asked to reveal its output for debugging.
    pub dump: bool,
    /// The name filter, when one was given.
    pub name_filter: Option<NameFilter>,
}

/// The effective name filter of the schema options: the given one, or none.
pub open spec fn spec_name_filter(a: ArgsForStruct) -> NameFilter {
    match a.name_filter {
        Some(f) => f,
        None => NameFilter::NoFilter,
    }
}

impl ArgsForStruct {
    /// The effective name filter: the given one, or none.
    pub fn name_filter(&self) -> (r: NameFilter)
        ensures
            r == (match self.name_filter {
                Some(f) => f,
                None => NameFilter::NoFilter,
            }),
    {
        match self.name_filter {
            Some(f) => f,
            None => NameFilter::NoFilter,
        }
    }
}

/// How a named parameter's backing type shapes its acceptable argument
/// forms.
#[derive(PartialEq, Eq, Debug)]
pub enum NamedTy {
    /// A boolean: a bare flag.
    NBool,
    /// The flag wrapper: a bare flag recording its position.
    NFlag,
    /// A plain value; a growable sequence makes it args-shaped.
    NValue { ty: Ty, is_vec: bool },
    /// The `name = value` wrapper; an optional element makes the bare flag
    /// form acceptable too.
    NNameValue { ty: Ty, is_option: bool },
    /// The `name(args)` wrapper.
    NNameArgs { ty: Ty, is_option: bool, is_vec: bool },
}

impl NamedTy {
    /// Whether the parameter accepts the bare flag form.
    pub open spec fn spec_is_flag(&self) -> bool {
        match self {
            NamedTy::NBool | NamedTy::NFlag => true,
            NamedTy::NValue { .. } => false,
            NamedTy::NNameValue { is_option, .. } => *is_option,
            NamedTy::NNameArgs { is_option, .. } => *is_option,
        }
    }

    /// Whether the parameter accepts the `name = value` form.
    pub open spec fn spec_is_name_value(&self) -> bool {
        match self {
            NamedTy::NBool | NamedTy::NFlag => false,
            NamedTy::NValue { is_vec, .. } => !*is_vec,
            NamedTy::NNameValue { .. } => true,
            NamedTy::NNameArgs { .. } => false,
        }
    }

    /// Whether the parameter accepts the `name(args)` form.
    pub open spec fn spec_is_name_args(&self) -> bool {
        match self {
            NamedTy::NBool | NamedTy::NFlag => false,
            NamedTy::NValue { is_vec, .. } => *is_vec,
            NamedTy::NNameValue { .. } => false,
            NamedTy::NNameArgs { .. } => true,
        }
    }

    /// Whether the parameter accepts the bare flag form.
    pub fn is_flag(&self) -> (r: bool)
        ensures
            r == self.spec_is_flag(),
    {
        match self {
            NamedTy::NBool | NamedTy::NFlag => true,
            NamedTy::NValue { .. } => false,
            NamedTy::NNameValue { is_option, .. } => *is_option,
            NamedTy::NNameArgs { is_option, .. } => *is_option,
        }
    }

    /// Whether the parameter accepts the `name = value` form.
    pub fn is_name_value(&self) -> (r: bool)
        ensures
            r == self.spec_is_name_value(),
    {
        match self {
            NamedTy::NBool | NamedTy::NFlag => false,
            NamedTy::NValue { is_vec, .. } => !*is_vec,
            NamedTy::NNameValue { .. } => true,
            NamedTy::NNameArgs { .. } => false,
        }
    }

    /// Whether the parameter accepts the `name(args)` form.
    pub fn is_name_args(&self) -> (r: bool)
        ensures
            r == self.spec_is_name_args(),
    {
        match self {
            NamedTy::NBool | NamedTy::NFlag => false,
            NamedTy::NValue { is_vec, .. } => *is_vec,
            NamedTy::NNameValue { .. } => false,
            NamedTy::NNameArgs { .. } => true,
        }
    }
}

/// The shape classification of a backing type. The flag interpretations of
/// the boolean and flag types apply only where the parameter could be a
/// flag.
pub open spec fn spec_named_ty_of(ty: Ty, may_flag: bool) -> NamedTy {
    if may_flag && ty is Bool {
        NamedTy::NBool
    } else if may_flag && ty is FlagTy {
        NamedTy::NFlag
    } else {
        match ty {
            Ty::NameValueOf(e) => {
                match *e {
                    Ty::OptionOf(e2) => NamedTy::NNameValue { ty: *e2, is_option: true },
                    other => NamedTy::NNameValue { ty: other, is_option: false },
                }
            },
            Ty::NameArgsOf(e) => {
                match *e {
                    Ty::OptionOf(e2) => {
                        match *e2 {
                            Ty::VecOf(e3) => NamedTy::NNameArgs {
                                ty: *e3,
                                is_option: true,
                                is_vec: true,
                            },
                            other => NamedTy::NNameArgs {
                                ty: other,
                                is_option: true,
                                is_vec: false,
                            },
                        }
                    },
                    Ty::VecOf(e3) => NamedTy::NNameArgs {
                        ty: *e3,
                        is_option: false,
                        is_vec: true,
                    },
                    other => NamedTy::NNameArgs { ty: other, is_option: false, is_vec: false },
                }
            },
            Ty::VecOf(e3) => NamedTy::NValue { ty: *e3, is_vec: true },
            other => NamedTy::NValue { ty: other, is_vec: false },
        }
    }
}

/// Clones a type reference.
pub fn clone_ty(ty: &Ty) -> (r: Ty)
    ensures
        r == ty,
    decreases ty,
{
    match ty {
        Ty::Bool => Ty::Bool,
        Ty::FlagTy => Ty::FlagTy,
        Ty::LitInt => Ty::LitInt,
        Ty::LitStr => Ty::LitStr,
        Ty::IdentTy => Ty::IdentTy,
        Ty::ExprTy => Ty::ExprTy,
        Ty::PunctTy(c) => Ty::PunctTy(*c),
        Ty::ParenTok => Ty::ParenTok,
        Ty::BracketTok => Ty::BracketTok,
        Ty::BraceTok => Ty::BraceTok,
        Ty::MacroDelim => Ty::MacroDelim,
        Ty::OptionOf(t) => Ty::OptionOf(Box::new(clone_ty(t))),
        Ty::VecOf(t) => Ty::VecOf(Box::new(clone_ty(t))),
        Ty::NameValueOf(t) => Ty::NameValueOf(Box::new(clone_ty(t))),
        Ty::NameArgsOf(t) => Ty::NameArgsOf(Box::new(clone_ty(t))),
        Ty::MapStrTo(t) => Ty::MapStrTo(Box::new(clone_ty(t))),
        Ty::PunctuatedOf(t) => Ty::PunctuatedOf(Box::new(clone_ty(t))),
    }
}

/// Classifies a backing type by the argument shapes it accepts.
pub fn named_ty_of(ty: &Ty, may_flag: bool) -> (r: NamedTy)
    ensures
        r == spec_named_ty_of(*ty, may_flag),
{
    if may_flag && ty.is_bool() {
        NamedTy::NBool
    } else if may_flag && ty.is_flag() {
        NamedTy::NFlag
    } else if let Ty::NameValueOf(e) = ty {
        match &**e {
            Ty::OptionOf(e2) => NamedTy::NNameValue { ty: clone_ty(e2), is_option: true },
            other => NamedTy::NNameValue { ty: clone_ty(other), is_option: false },
        }
    } else if let Ty::NameArgsOf(e) = ty {
        match &**e {
            Ty::OptionOf(e2) => {
                match &**e2 {
                    Ty::VecOf(e3) => NamedTy::NNameArgs {
                        ty: clone_ty(e3),
                        is_option: true,
                        is_vec: true,
                    },
                    other => NamedTy::NNameArgs {
                        ty: clone_ty(other),
                        is_option: true,
                        is_vec: false,
                    },
                }
            },
            Ty::VecOf(e3) => NamedTy::NNameArgs {
                ty: clone_ty(e3),
                is_option: false,
                is_vec: true,
            },
            other => NamedTy::NNameArgs { ty: clone_ty(other), is_option: false, is_vec: false },
        }
    } else {
        match ty {
            Ty::VecOf(e3) => NamedTy::NValue { ty: clone_ty(e3), is_vec: true },
            other => NamedTy::NValue { ty: clone_ty(other), is_vec: false },
        }
    }
}

/// One positional parameter: the field it fills, the element type it parses,
/// and whether it is optional or variadic.
#[derive(PartialEq, Eq, Debug)]
pub struct UnnamedParam {
    pub index: usize,
    pub ty: Ty,
    pub is_option: bool,
    pub is_vec: bool,
}

/// One named parameter: the field it fills, its name, its shape
/// classification, and whether the whole parameter is optional.
#[derive(PartialEq, Eq, Debug)]
pub struct NamedParam {
    pub index: usize,
    pub name: String,
    pub nty: NamedTy,
    pub is_option: bool,
}

/// The rest-map parameter: the field it fills and the shape of its values.
#[derive(PartialEq, Eq, Debug)]
pub struct RestParam {
    pub index: usize,
    pub nty: NamedTy,
}

/// The classified parameters of a schema.
#[derive(PartialEq, Eq, Debug)]
pub struct Params {
    pub unnamed_required: Vec<UnnamedParam>,
    pub unnamed_optional: Vec<UnnamedParam>,
    pub unnamed_variadic: Option<UnnamedParam>,
    pub named: Vec<NamedParam>,
    pub rest: Option<RestParam>,
    pub name_filter: NameFilter,
    pub n_fields: usize,
}

/// The mathematical value of a named parameter.
pub struct SNamedParam {
    pub index: int,
    pub name: Seq<char>,
    pub nty: NamedTy,
    pub is_option: bool,
}

/// Maps a named parameter to its mathematical value.
pub open spec fn named_param_view(p: NamedParam) -> SNamedParam {
    SNamedParam { index: p.index as int, name: p.name@, nty: p.nty, is_option: p.is_option }
}

/// The mathematical values of a named parameter list.
pub open spec fn named_params_view(ps: Seq<NamedParam>) -> Seq<SNamedParam> {
    ps.map_values(|p: NamedParam| named_param_view(p))
}

/// The mathematical value of the classified parameters.
pub struct SParams {
    pub unnamed_required: Seq<UnnamedParam>,
    pub unnamed_optional: Seq<UnnamedParam>,
    pub unnamed_variadic: Option<UnnamedParam>,
    pub named: Seq<SNamedParam>,
    pub rest: Option<RestParam>,
    pub name_filter: NameFilter,
    pub n_fields: int,
}

impl View for Params {
    type V = SParams;

    open spec fn view(&self) -> SParams {
        SParams {
            unnamed_required: self.unnamed_required@,
            unnamed_optional: self.unnamed_optional@,
            unnamed_variadic: self.unnamed_variadic,
            named: named_params_view(self.named@),
            rest: self.rest,
            name_filter: self.name_filter,
            n_fields: self.n_fields as int,
        }
    }
}

/// The classification of one field: positional, named, or the rest map.
pub enum SParam {
    PUnnamed { index: int, ty: Ty, is_option: bool, is_vec: bool },
    PNamed { index: int, name: Seq<char>, nty: NamedTy, is_option: bool },
    PRest { index: int, nty: NamedTy },
}

/// Classifies one field. The field's own identifier names the parameter
/// unless an explicit name or the unnamed marking overrides it; a
/// string-keyed map without an explicit name becomes the rest parameter; an
/// optional wrapper makes the parameter optional; what remains must be a
/// plain-value shape to serve as a positional parameter.
pub open spec fn spec_param_of_field(index: int, f: FieldDef) -> Result<SParam, SpecErr> {
    let name0 = match f.arg_name {
        Some(n) => Some(n@),
        None => match f.name {
            Some(n) => Some(n@),
            None => None,
        },
    };
    let name = if f.unnamed {
        None
    } else {
        name0
    };
    let name_specified = f.arg_name is Some;
    if !name_specified && f.ty matches Ty::MapStrTo(_) {
        let v = match f.ty {
            Ty::MapStrTo(v) => *v,
            _ => Ty::Bool,
        };
        Ok(SParam::PRest { index, nty: spec_named_ty_of(v, false) })
    } else {
        let is_option = f.ty matches Ty::OptionOf(_);
        let inner = match f.ty {
            Ty::OptionOf(e) => *e,
            other => other,
        };
        let nty = spec_named_ty_of(inner, !is_option);
        match name {
            Some(n) => Ok(SParam::PNamed { index, name: n, nty, is_option }),
            None => {
                match nty {
                    NamedTy::NValue { ty, is_vec } => Ok(
                        SParam::PUnnamed { index, ty, is_option, is_vec },
                    ),
                    _ => Err(
                        SpecErr {
                            pos: index,
                            msg: "this field type cannot be used as unnamed parameter."@,
                        },
                    ),
                }
            },
        }
    }
}

/// Whether a name already occurs among the named parameters.
pub open spec fn spec_named_contains(named: Seq<SNamedParam>, name: Seq<char>) -> bool {
    exists|k: int| 0 <= k < named.len() && (#[trigger] named[k]).name == name
}

/// The classification fold over the fields from index `i`, enforcing the
/// ordering rules: nothing positional after the variadic parameter, no
/// required positional after an optional one, unique names, one rest map.
pub open spec fn spec_from_fields(fields: Seq<FieldDef>, i: int, acc: SParams) -> Result<
    SParams,
    SpecErr,
>
    decreases fields.len() - i,
    when 0 <= i <= fields.len()
{
    if i >= fields.len() {
        Ok(acc)
    } else {
        match spec_param_of_field(i, fields[i]) {
            Ok(p) => {
                match p {
                    SParam::PUnnamed { index, ty, is_option, is_vec } => {
                        let up = UnnamedParam {
                            index: index as usize,
                            ty,
                            is_option,
                            is_vec,
                        };
                        if acc.unnamed_variadic is Some {
                            Err(
                                SpecErr {
                                    pos: i,
                                    msg: "cannot use unnamed parameter after variadic parameter."@,
                                },
                            )
                        } else if is_vec {
                            spec_from_fields(
                                fields,
                                i + 1,
                                SParams { unnamed_variadic: Some(up), ..acc },
                            )
                        } else if is_option {
                            spec_from_fields(
                                fields,
                                i + 1,
                                SParams {
                                    unnamed_optional: acc.unnamed_optional.push(up),
                                    ..acc
                                },
                            )
                        } else if acc.unnamed_optional.len() > 0 {
                            Err(
                                SpecErr {
                                    pos: i,
                                    msg:
                                        "cannot use non optional parameter after variadic parameter."@,
                                },
                            )
                        } else {
                            spec_from_fields(
                                fields,
                                i + 1,
                                SParams {
                                    unnamed_required: acc.unnamed_required.push(up),
                                    ..acc
                                },
                            )
                        }
                    },
                    SParam::PNamed { index, name, nty, is_option } => {
                        if spec_named_contains(acc.named, name) {
                            Err(SpecErr { pos: i, msg: "`"@ + name + "` is already exists."@ })
                        } else {
                            spec_from_fields(
                                fields,
                                i + 1,
                                SParams {
                                    named: acc.named.push(
                                        SNamedParam { index, name, nty, is_option },
                                    ),
                                    ..acc
                                },
                            )
                        }
                    },
                    SParam::PRest { index, nty } => {
                        if acc.rest is Some {
                            Err(SpecErr { pos: i, msg: "cannot use rest parameter twice."@ })
                        } else {
                            spec_from_fields(
                                fields,
                                i + 1,
                                SParams {
                                    rest: Some(RestParam { index: index as usize, nty }),
                                    ..acc
                                },
                            )
                        }
                    },
                }
            },
            Err(e) => Err(e),
        }
    }
}

/// The empty classification a fold starts from.
pub open spec fn spec_empty_params(n_fields: int, filter: NameFilter) -> SParams {
    SParams {
        unnamed_required: Seq::empty(),
        unnamed_optional: Seq::empty(),
        unnamed_variadic: None,
        named: Seq::empty(),
        rest: None,
        name_filter: filter,
        n_fields,
    }
}

/// The classification of a whole field list.
pub open spec fn spec_classify(fields: Seq<FieldDef>, filter: NameFilter) -> Result<
    SParams,
    SpecErr,
> {
    spec_from_fields(fields, 0, spec_empty_params(fields.len() as int, filter))
}

/// The textual rendering of classified parameters, for the debugging
/// escape hatch: one character per field naming its class — required,
/// optional, variadic, the rest map, or a named parameter.
pub open spec fn spec_render_params(p: SParams, j: int) -> Seq<char>
    decreases p.n_fields - j,
    when 0 <= j
{
    if j >= p.n_fields {
        Seq::empty()
    } else {
        let c = if spec_find_up(p.unnamed_required, j, 0) is Some {
            'r'
        } else if spec_find_up(p.unnamed_optional, j, 0) is Some {
            'o'
        } else if p.unnamed_variadic matches Some(vp) && vp.index == j {
            'v'
        } else if p.rest matches Some(rp) && rp.index == j {
            'm'
        } else if spec_find_np(p.named, j, 0) is Some {
            'n'
        } else {
            '_'
        };
        seq![c] + spec_render_params(p, j + 1)
    }
}

/// The classification of a whole field list under the schema options: the
/// debugging escape hatch turns a successful classification into an error
/// carrying its rendering.
pub open spec fn spec_classify_args(fields: Seq<FieldDef>, a: ArgsForStruct) -> Result<
    SParams,
    SpecErr,
> {
    match spec_classify(fields, spec_name_filter(a)) {
        Ok(p) => {
            if a.dump {
                Err(SpecErr { pos: 0, msg: "macro result: "@ + spec_render_params(p, 0) })
            } else {
                Ok(p)
            }
        },
        Err(e) => Err(e),
    }
}

/// Tests whether a name already occurs among the named parameters.
fn named_contains(named: &Vec<NamedParam>, name: &str) -> (r: bool)
    ensures
        r == spec_named_contains(named_params_view(named@), name@),
{
    let mut k: usize = 0;
    while k < named.len()
        invariant
            0 <= k <= named@.len(),
            forall|m: int| 0 <= m < k ==> (#[trigger] named_params_view(named@)[m]).name != name@,
        decreases named@.len() - k,
    {
        proof {
            assert(named_params_view(named@)[k as int] == named_param_view(named@[k as int]));
        }
        if crate::helpers::str_eq(named[k].name.as_str(), name) {
            return true;
        }
        k += 1;
    }
    proof {
        if spec_named_contains(named_params_view(named@), name@) {
            let m = choose|m: int|
                0 <= m < named_params_view(named@).len() && (#[trigger] named_params_view(
                    named@,
                )[m]).name == name@;
            assert(false);
        }
    }
    false
}

/// Classifies the fields of a schema into parameters, enforcing the
/// ordering rules.
pub fn classify(fields: &Vec<FieldDef>, args: &ArgsForStruct) -> (r: Result<Params, MErr>)
    ensures
        (r matches Ok(p) ==> spec_classify_args(fields@, *args) matches Ok(sp) && p@ == sp),
        (r matches Err(e) ==> spec_classify_args(fields@, *args) == Err::<SParams, SpecErr>(
            merr_view(e),
        )),
{
    let filter = args.name_filter();
    let mut p = Params {
        unnamed_required: Vec::new(),
        unnamed_optional: Vec::new(),
        unnamed_variadic: None,
        named: Vec::new(),
        rest: None,
        name_filter: filter,
        n_fields: fields.len(),
    };
    proof {
        assert(named_params_view(Seq::empty()) =~= Seq::<SNamedParam>::empty());
        assert(p@ =~= spec_empty_params(fields@.len() as int, filter));
    }
    let mut i: usize = 0;
    while i < fields.len()
        invariant
            0 <= i <= fields@.len(),
            p.n_fields == fields@.len(),
            filter == spec_name_filter(*args),
            spec_from_fields(fields@, i as int, p@) == spec_classify(fields@, filter),
        decreases fields@.len() - i,
    {
        let ghost old_p = p@;
        let f = &fields[i];
        let name_specified = f.arg_name.is_some();
        let mut is_rest = false;
        if !name_specified {
            if let Ty::MapStrTo(v) = &f.ty {
                let nty = named_ty_of(v, false);
                proof {
                    assert(spec_param_of_field(i as int, fields@[i as int]) == Ok::<
                        SParam,
                        SpecErr,
                    >(SParam::PRest { index: i as int, nty }));
                }
                if p.rest.is_some() {
                    return Err(MErr::new(i, "cannot use rest parameter twice."));
                }
                p.rest = Some(RestParam { index: i, nty });
                proof {
                    assert(p@ =~= SParams { rest: Some(RestParam { index: i, nty }), ..old_p });
                }
                is_rest = true;
            }
        }
        if !is_rest {
            let (is_option, inner): (bool, &Ty) = match &f.ty {
                Ty::OptionOf(e) => (true, e),
                other => (false, other),
            };
            let nty = named_ty_of(inner, !is_option);
            let name: Option<&String> = if f.unnamed {
                None
            } else if let Some(n) = &f.arg_name {
                Some(n)
            } else if let Some(n) = &f.name {
                Some(n)
            } else {
                None
            };
            match name {
                Some(n) => {
                    proof {
                        assert(spec_param_of_field(i as int, fields@[i as int]) == Ok::<
                            SParam,
                            SpecErr,
                        >(
                            SParam::PNamed {
                                index: i as int,
                                name: n@,
                                nty,
                                is_option,
                            },
                        ));
                    }
                    if named_contains(&p.named, n.as_str()) {
                        return Err(MErr::around(i, "`", n.as_str(), "` is already exists."));
                    }
                    let ghost old_named = named_params_view(p.named@);
                    let np = NamedParam { index: i, name: n.clone(), nty, is_option };
                    let ghost npv = named_param_view(np);
                    p.named.push(np);
                    proof {
                        assert(named_params_view(p.named@) =~= old_named.push(npv));
                        assert(p@ =~= SParams { named: old_named.push(npv), ..old_p });
                    }
                },
                None => {
                    match nty {
                        NamedTy::NValue { ty, is_vec } => {
                            let up = UnnamedParam { index: i, ty, is_option, is_vec };
                            proof {
                                assert(spec_param_of_field(i as int, fields@[i as int]) == Ok::<
                                    SParam,
                                    SpecErr,
                                >(
                                    SParam::PUnnamed {
                                        index: i as int,
                                        ty: up.ty,
                                        is_option,
                                        is_vec,
                                    },
                                ));
                            }
                            if p.unnamed_variadic.is_some() {
                                return Err(
                                    MErr::new(
                                        i,
                                        "cannot use unnamed parameter after variadic parameter.",
                                    ),
                                );
                            }
                            if is_vec {
                                p.unnamed_variadic = Some(up);
                                proof {
                                    assert(p@ =~= SParams {
                                        unnamed_variadic: p@.unnamed_variadic,
                                        ..old_p
                                    });
                                }
                            } else if is_option {
                                let ghost old_opt = p.unnamed_optional@;
                                p.unnamed_optional.push(up);
                                proof {
                                    assert(p@ =~= SParams {
                                        unnamed_optional: p@.unnamed_optional,
                                        ..old_p
                                    });
                                }
                            } else {
                                if p.unnamed_optional.len() > 0 {
                                    return Err(
                                        MErr::new(
                                            i,
                                            "cannot use non optional parameter after variadic parameter.",
                                        ),
                                    );
                                }
                                p.unnamed_required.push(up);
                                proof {
                                    assert(p@ =~= SParams {
                                        unnamed_required: p@.unnamed_required,
                                        ..old_p
                                    });
                                }
                            }
                        },
                        _ => {
                            proof {
                                assert(spec_param_of_field(i as int, fields@[i as int]) == Err::<
                                    SParam,
                                    SpecErr,
                                >(
                                    SpecErr {
                                        pos: i as int,
                                        msg:
                                            "this field type cannot be used as unnamed parameter."@,
                                    },
                                ));
                            }
                            return Err(
                                MErr::new(
                                    i,
                                    "this field type cannot be used as unnamed parameter.",
                                ),
                            );
                        },
                    }
                },
            }
        }
        i += 1;
    }
    if args.dump {
        let rendering = render_params(&p, 0);
        let mut m = "macro result: ".to_owned();
        m.append(rendering.as_str());
        return Err(MErr { pos: 0, msg: m });
    }
    Ok(p)
}

/// Renders classified parameters, for the debugging escape hatch.
fn render_params(p: &Params, j: usize) -> (r: String)
    requires
        j <= p.n_fields,
    ensures
        r@ == spec_render_params(p@, j as int),
    decreases p.n_fields - j,
{
    if j >= p.n_fields {
        let r = String::new();
        proof {
            assert(r@ =~= spec_render_params(p@, j as int));
        }
        return r;
    }
    let c: char = if find_up(&p.unnamed_required, j, 0).is_some() {
        'r'
    } else if find_up(&p.unnamed_optional, j, 0).is_some() {
        'o'
    } else {
        let mut cc: char = '_';
        let mut decided = false;
        if let Some(vp) = &p.unnamed_variadic {
            if vp.index == j {
                cc = 'v';
                decided = true;
            }
        }
        if !decided {
            if let Some(rp) = &p.rest {
                if rp.index == j {
                    cc = 'm';
                    decided = true;
                }
            }
        }
        if !decided {
            if find_np(&p.named, j, 0).is_some() {
                cc = 'n';
            }
        }
        cc
    };
    let rest = render_params(p, j + 1);
    let mut out = String::new();
    crate::err::push_char(&mut out, c);
    out.append(rest.as_str());
    proof {
        assert(Seq::<char>::empty() + seq![c] =~= seq![c]);
        assert(out@ =~= spec_render_params(p@, j as int));
    }
    out
}

/// The payload of one supplied argument: a single value's tokens, a list of
/// item token runs, or nothing (a bare flag or an absent optional element).
#[derive(PartialEq, Eq, Debug)]
pub enum ArgCore {
    Toks(Vec<Token>),
    List(Vec<Vec<Token>>),
    NoneV,
}

/// A value of the rest map: what an undeclared named argument of each shape
/// records.
#[derive(PartialEq, Eq, Debug)]
pub enum MapVal {
    /// A bare flag: the position of its name.
    MSpan(usize),
    /// A `name = value` entry: the name's position and the value.
    MNV(usize, ArgCore),
    /// A `name(args)` entry: the name's position and the arguments.
    MNA(usize, ArgCore),
}

/// The parsed result for one field.
#[derive(PartialEq, Eq, Debug)]
pub enum Arg {
    /// No value: only for parameter shapes that cannot occur.
    Unset,
    /// A boolean flag parameter.
    BoolArg(bool),
    /// A flag parameter: the position of its name when supplied.
    FlagArg(Option<usize>),
    /// A required value: a positional, variadic or named plain value.
    Val(ArgCore),
    /// An optional value.
    OptVal(Option<ArgCore>),
    /// A `name = value` parameter: the name's position and the value.
    NameValue(usize, ArgCore),
    /// An optional `name = value` parameter.
    OptNameValue(Option<(usize, ArgCore)>),
    /// A `name(args)` parameter: the name's position and the arguments.
    NameArgs(usize, ArgCore),
    /// An optional `name(args)` parameter.
    OptNameArgs(Option<(usize, ArgCore)>),
    /// The rest map: undeclared named arguments keyed by their name text, in
    /// the order supplied.
    MapArg(Vec<(String, MapVal)>),
}

/// The mathematical value of an argument payload.
pub enum SArgCore {
    Toks(Seq<Tok>),
    List(Seq<Seq<Tok>>),
    NoneV,
}

/// Maps an argument payload to its mathematical value.
pub open spec fn arg_core_view(c: ArgCore) -> SArgCore {
    match c {
        ArgCore::Toks(ts) => SArgCore::Toks(toks_view(ts@)),
        ArgCore::List(items) => SArgCore::List(
            items@.map_values(|v: Vec<Token>| toks_view(v@)),
        ),
        ArgCore::NoneV => SArgCore::NoneV,
    }
}

/// The mathematical value of a rest-map value.
pub enum SMapVal {
    MSpan(int),
    MNV(int, SArgCore),
    MNA(int, SArgCore),
}

/// Maps a rest-map value to its mathematical value.
pub open spec fn map_val_view(v: MapVal) -> SMapVal {
    match v {
        MapVal::MSpan(s) => SMapVal::MSpan(s as int),
        MapVal::MNV(s, c) => SMapVal::MNV(s as int, arg_core_view(c)),
        MapVal::MNA(s, c) => SMapVal::MNA(s as int, arg_core_view(c)),
    }
}

/// The mathematical value of the rest map.
pub open spec fn map_view(m: Seq<(String, MapVal)>) -> Seq<(Seq<char>, SMapVal)> {
    m.map_values(|e: (String, MapVal)| (e.0@, map_val_view(e.1)))
}

/// The mathematical value of one field's result.
pub enum SArg {
    Unset,
    BoolArg(bool),
    FlagArg(Option<int>),
    Val(SArgCore),
    OptVal(Option<SArgCore>),
    NameValue(int, SArgCore),
    OptNameValue(Option<(int, SArgCore)>),
    NameArgs(int, SArgCore),
    OptNameArgs(Option<(int, SArgCore)>),
    MapArg(Seq<(Seq<char>, SMapVal)>),
}

/// Maps one field's result to its mathematical value.
pub open spec fn arg_view(a: Arg) -> SArg {
    match a {
        Arg::Unset => SArg::Unset,
        Arg::BoolArg(b) => SArg::BoolArg(b),
        Arg::FlagArg(s) => SArg::FlagArg(
            match s {
                Some(x) => Some(x as int),
                None => None,
            },
        ),
        Arg::Val(c) => SArg::Val(arg_core_view(c)),
        Arg::OptVal(o) => SArg::OptVal(
            match o {
                Some(c) => Some(arg_core_view(c)),
                None => None,
            },
        ),
        Arg::NameValue(s, c) => SArg::NameValue(s as int, arg_core_view(c)),
        Arg::OptNameValue(o) => SArg::OptNameValue(
            match o {
                Some((s, c)) => Some((s as int, arg_core_view(c))),
                None => None,
            },
        ),
        Arg::NameArgs(s, c) => SArg::NameArgs(s as int, arg_core_view(c)),
        Arg::OptNameArgs(o) => SArg::OptNameArgs(
            match o {
                Some((s, c)) => Some((s as int, arg_core_view(c))),
                None => None,
            },
        ),
        Arg::MapArg(m) => SArg::MapArg(map_view(m@)),
    }
}

/// The mathematical values of a result list.
pub open spec fn args_view(v: Seq<Arg>) -> Seq<SArg> {
    v.map_values(|a: Arg| arg_view(a))
}

/// The item runs of a punctuated list: the token run of each element,
/// separated by commas, a trailing comma allowed, read to the end of the
/// tokens.
pub open spec fn spec_parse_items(ty: Ty, toks: Seq<Tok>, pos: int) -> Result<
    (Seq<Seq<Tok>>, int),
    SpecErr,
>
    decreases toks.len() - pos,
    when 0 <= pos <= toks.len()
    via spec_parse_items_decreases
{
    if pos >= toks.len() {
        Ok((Seq::empty(), pos))
    } else {
        match crate::parse::spec_parse_value(ty, toks, pos) {
            Ok(p1) => {
                if !(pos < p1 <= toks.len()) {
                    Err(SpecErr { pos: p1, msg: "expected `,`"@ })
                } else {
                    let item = toks.subrange(pos, p1);
                    if p1 >= toks.len() {
                        Ok((seq![item], p1))
                    } else if crate::parse::tok_is_comma(toks[p1]) {
                        match spec_parse_items(ty, toks, p1 + 1) {
                            Ok((rest, pend)) => Ok((seq![item] + rest, pend)),
                            Err(e) => Err(e),
                        }
                    } else {
                        Err(SpecErr { pos: p1, msg: "expected `,`"@ })
                    }
                }
            },
            Err(e) => Err(e),
        }
    }
}

#[via_fn]
proof fn spec_parse_items_decreases(ty: Ty, toks: Seq<Tok>, pos: int) {
    crate::parse::lemma_parse_value_advances(ty, toks, pos);
}

/// Reads the item runs of a punctuated list.
fn parse_items(ty: &Ty, toks: &Vec<Token>, pos: usize) -> (r: Result<(Vec<Vec<Token>>, usize), MErr>)
    requires
        pos <= toks@.len(),
    ensures
        (r matches Ok(iv) ==> spec_parse_items(*ty, toks_view(toks@), pos as int) matches Ok(si)
            && iv.0@.map_values(|v: Vec<Token>| toks_view(v@)) == si.0 && si.1 == iv.1 as int
            && iv.1 <= toks@.len()),
        (r matches Err(e) ==> spec_parse_items(*ty, toks_view(toks@), pos as int) == Err::<
            (Seq<Seq<Tok>>, int),
            SpecErr,
        >(merr_view(e))),
    decreases toks@.len() - pos,
{
    let ghost tv = toks_view(toks@);
    proof {
        crate::token::lemma_toks_view_index(toks@);
    }
    if pos >= toks.len() {
        proof {
            assert(Seq::<Vec<Token>>::empty().map_values(|v: Vec<Token>| toks_view(v@))
                =~= Seq::<Seq<Tok>>::empty());
        }
        return Ok((Vec::new(), pos));
    }
    match crate::parse::parse_value(ty, toks, pos) {
        Ok(p1) => {
            let item = crate::token::clone_range(toks, pos, p1);
            if p1 >= toks.len() {
                let mut out: Vec<Vec<Token>> = Vec::new();
                out.push(item);
                proof {
                    assert(out@.map_values(|v: Vec<Token>| toks_view(v@)) =~= seq![
                        tv.subrange(pos as int, p1 as int),
                    ]);
                }
                Ok((out, p1))
            } else if toks[p1].is_comma() {
                match parse_items(ty, toks, p1 + 1) {
                    Ok((rest, pend)) => {
                        let mut out: Vec<Vec<Token>> = Vec::new();
                        out.push(item);
                        let ghost item_view = tv.subrange(pos as int, p1 as int);
                        let ghost rest_view = rest@.map_values(|v: Vec<Token>| toks_view(v@));
                        let mut rest2 = rest;
                        out.append(&mut rest2);
                        proof {
                            assert(out@.map_values(|v: Vec<Token>| toks_view(v@)) =~= seq![
                                item_view,
                            ] + rest_view);
                        }
                        Ok((out, pend))
                    },
                    Err(e) => Err(e),
                }
            } else {
                Err(MErr::new(p1, "expected `,`"))
            }
        },
        Err(e) => Err(e),
    }
}

/// The three forms a named argument can take.
#[derive(Clone, Copy, PartialEq, Eq, Structural, Debug)]
pub enum ArgShape {
    AFlag,
    ANameValue,
    ANameArgs,
}

/// Whether a named-parameter shape classification accepts a shape.
pub open spec fn spec_shape_pred(nty: NamedTy, shape: ArgShape) -> bool {
    match shape {
        ArgShape::AFlag => nty.spec_is_flag(),
        ArgShape::ANameValue => nty.spec_is_name_value(),
        ArgShape::ANameArgs => nty.spec_is_name_args(),
    }
}

/// The first named parameter with the given name whose classification
/// accepts the shape, searching from index `k`.
pub open spec fn spec_find_shape(
    named: Seq<SNamedParam>,
    shape: ArgShape,
    name: Seq<char>,
    k: int,
) -> Option<int>
    decreases named.len() - k,
    when 0 <= k
{
    if k >= named.len() {
        None
    } else if named[k].name == name && spec_shape_pred(named[k].nty, shape) {
        Some(k)
    } else {
        spec_find_shape(named, shape, name, k + 1)
    }
}

/// The names of the named parameters whose classification accepts the
/// shape, in declaration order, from index `k`.
pub open spec fn spec_shape_names(named: Seq<SNamedParam>, shape: ArgShape, k: int) -> Seq<
    Seq<char>,
>
    decreases named.len() - k,
    when 0 <= k
{
    if k >= named.len() {
        Seq::empty()
    } else if spec_shape_pred(named[k].nty, shape) {
        seq![named[k].name] + spec_shape_names(named, shape, k + 1)
    } else {
        spec_shape_names(named, shape, k + 1)
    }
}

/// Whether the rest map accepts the shape.
pub open spec fn spec_rest_pred(params: SParams, shape: ArgShape) -> bool {
    match params.rest {
        Some(rp) => spec_shape_pred(rp.nty, shape),
        None => false,
    }
}

/// Whether any declared parameter accepts the shape.
pub open spec fn spec_may_shape(params: SParams, shape: ArgShape) -> bool {
    spec_shape_names(params.named, shape, 0).len() > 0 || spec_rest_pred(params, shape)
}

/// Whether the schema declares no positional parameter after the required
/// ones.
pub open spec fn spec_no_unnamed(params: SParams) -> bool {
    params.unnamed_optional.len() == 0 && params.unnamed_variadic is None
}

/// Whether a name passes the schema's name filter.
pub open spec fn spec_filter_ok(filter: NameFilter, s: Seq<char>) -> bool {
    match filter {
        NameFilter::NoFilter => true,
        NameFilter::SnakeCase => forall|i: int|
            0 <= i < s.len() ==> crate::helpers::is_snake_char(#[trigger] s[i]),
    }
}

/// The expected-forms message for an identifier that appeared in the wrong
/// shape: the forms the name would satisfy, and the form found.
pub open spec fn spec_expected_msg(
    e_flag: bool,
    e_nv: bool,
    e_na: bool,
    s: Seq<char>,
    found: Option<ArgShape>,
) -> Seq<char> {
    let flag_e = "flag `"@ + s + "`"@;
    let nv_e = "`"@ + s + " = ...`"@;
    let na_e = "`"@ + s + "(...)`"@;
    let list = if e_flag && e_nv && e_na {
        flag_e + ", "@ + nv_e + " or "@ + na_e
    } else if e_flag && e_nv {
        flag_e + " or "@ + nv_e
    } else if e_flag && e_na {
        flag_e + " or "@ + na_e
    } else if e_nv && e_na {
        nv_e + " or "@ + na_e
    } else if e_flag {
        flag_e
    } else if e_nv {
        nv_e
    } else {
        na_e
    };
    let found_part = match found {
        None => Seq::<char>::empty(),
        Some(ArgShape::AFlag) => ", found `"@ + s + "`"@,
        Some(ArgShape::ANameValue) => ", found `"@ + s + " = ...`"@,
        Some(ArgShape::ANameArgs) => ", found `"@ + s + "`(...)"@,
    };
    "expected "@ + list + found_part
}

/// The cannot-find message for an unknown parameter name, with the
/// similar-name help when a single near name exists.
pub open spec fn spec_cannot_find_msg(params: SParams, s: Seq<char>) -> Seq<char> {
    let names = spec_shape_names(params.named, ArgShape::AFlag, 0) + spec_shape_names(
        params.named,
        ArgShape::ANameValue,
        0,
    ) + spec_shape_names(params.named, ArgShape::ANameArgs, 0);
    let help = match crate::helpers::spec_find_similar(names, s) {
        Some(n) => " (help: a parameter with a similar name exists: `"@ + n + "`)"@,
        None => Seq::<char>::empty(),
    };
    "cannot find parameter `"@ + s + "` in this scope"@ + help
}

/// The outcome of trying to read a named argument at the cursor.
pub enum STryName {
    /// A declared name in a matching shape: which parameter (or the rest
    /// map, with the name), the shape, the name's position, and the cursor
    /// position after what was committed.
    Committed {
        rest: bool,
        k: int,
        name: Seq<char>,
        shape: ArgShape,
        span: int,
        newpos: int,
    },
    /// The cursor does not start a named argument; positional parsing may
    /// proceed.
    NotName,
    /// A hard error.
    Failed(SpecErr),
}

/// Tries to classify the tokens at the cursor as a named argument: an
/// identifier followed by a comma or the end is flag-shaped, by a lone `=`
/// is value-shaped, by a parenthesis group is args-shaped. A declared name
/// in the shape's namespace commits; an undeclared one falls to the rest
/// map, or fails with a context-sensitive error; a token run that is not a
/// named argument at all is left for positional parsing unless no
/// positional parameter may follow.
pub open spec fn spec_try_name(params: SParams, toks: Seq<Tok>, pos: int) -> STryName {
    let no_unnamed = spec_no_unnamed(params);
    let may_flag = spec_may_shape(params, ArgShape::AFlag);
    let may_nv = spec_may_shape(params, ArgShape::ANameValue);
    let may_na = spec_may_shape(params, ArgShape::ANameArgs);
    let is_ident = 0 <= pos < toks.len() && toks[pos] is Ident;
    let s = match toks[pos] {
        Tok::Ident(s) => s,
        _ => Seq::<char>::empty(),
    };
    if is_ident && spec_filter_ok(params.name_filter, s) {
        let span = pos;
        let after = pos + 1;
        let flag_cond = (no_unnamed || may_flag) && (after >= toks.len() || crate::parse::tok_is_comma(
            toks[after],
        ));
        let nv_cond = (no_unnamed || may_nv) && after < toks.len() && crate::parse::tok_is_punct_alone(
            toks[after],
            '=',
        );
        let na_cond = (no_unnamed || may_na) && after < toks.len() && (toks[after] matches Tok::Group(
            Delim::Paren,
            _,
        ));
        let kind: Option<ArgShape> = if flag_cond {
            Some(ArgShape::AFlag)
        } else if nv_cond {
            Some(ArgShape::ANameValue)
        } else if na_cond {
            Some(ArgShape::ANameArgs)
        } else {
            None
        };
        let hit: Option<(bool, int, int)> = if flag_cond {
            match spec_find_shape(params.named, ArgShape::AFlag, s, 0) {
                Some(kk) => Some((false, kk, after)),
                None => if spec_rest_pred(params, ArgShape::AFlag) {
                    Some((true, 0, after))
                } else {
                    None
                },
            }
        } else if nv_cond {
            match spec_find_shape(params.named, ArgShape::ANameValue, s, 0) {
                Some(kk) => Some((false, kk, after + 1)),
                None => if spec_rest_pred(params, ArgShape::ANameValue) {
                    Some((true, 0, after + 1))
                } else {
                    None
                },
            }
        } else if na_cond {
            match spec_find_shape(params.named, ArgShape::ANameArgs, s, 0) {
                Some(kk) => Some((false, kk, after)),
                None => if spec_rest_pred(params, ArgShape::ANameArgs) {
                    Some((true, 0, after))
                } else {
                    None
                },
            }
        } else {
            None
        };
        match hit {
            Some((rest, kk, np)) => {
                let shape = match kind {
                    Some(sh) => sh,
                    None => ArgShape::AFlag,
                };
                STryName::Committed { rest, k: kk, name: s, shape, span, newpos: np }
            },
            None => {
                if kind is Some || no_unnamed {
                    let e_flag = spec_rest_pred(params, ArgShape::AFlag) || spec_find_shape(
                        params.named,
                        ArgShape::AFlag,
                        s,
                        0,
                    ) is Some;
                    let e_nv = spec_rest_pred(params, ArgShape::ANameValue) || spec_find_shape(
                        params.named,
                        ArgShape::ANameValue,
                        s,
                        0,
                    ) is Some;
                    let e_na = spec_rest_pred(params, ArgShape::ANameArgs) || spec_find_shape(
                        params.named,
                        ArgShape::ANameArgs,
                        s,
                        0,
                    ) is Some;
                    if e_flag || e_nv || e_na {
                        STryName::Failed(
                            SpecErr { pos, msg: spec_expected_msg(e_flag, e_nv, e_na, s, kind) },
                        )
                    } else {
                        STryName::Failed(SpecErr { pos, msg: spec_cannot_find_msg(params, s) })
                    }
                } else {
                    STryName::NotName
                }
            },
        }
    } else {
        if no_unnamed {
            if may_flag || may_nv || may_na {
                STryName::Failed(SpecErr { pos, msg: "too many unnamed arguments."@ })
            } else {
                STryName::Failed(SpecErr { pos, msg: "too many arguments."@ })
            }
        } else {
            STryName::NotName
        }
    }
}

/// The payload read after a committed name, by the parameter's shape
/// classification and the shape supplied: nothing for a bare flag, one
/// value after `=`, or the contents of a parenthesis group.
pub open spec fn spec_payload(nty: NamedTy, shape: ArgShape, toks: Seq<Tok>, pos: int) -> Result<
    (SArgCore, int),
    SpecErr,
> {
    match shape {
        ArgShape::AFlag => Ok((SArgCore::NoneV, pos)),
        ArgShape::ANameValue => {
            let ty = match nty {
                NamedTy::NValue { ty, .. } => ty,
                NamedTy::NNameValue { ty, .. } => ty,
                _ => Ty::Bool,
            };
            match crate::parse::spec_parse_value(ty, toks, pos) {
                Ok(p) => {
                    let sub = if 0 <= pos <= p <= toks.len() {
                        toks.subrange(pos, p)
                    } else {
                        Seq::empty()
                    };
                    Ok((SArgCore::Toks(sub), p))
                },
                Err(e) => Err(e),
            }
        },
        ArgShape::ANameArgs => {
            if 0 <= pos < toks.len() && (toks[pos] matches Tok::Group(Delim::Paren, _)) {
                let inner = crate::parse::tok_group_body(toks[pos]);
                let is_vec = match nty {
                    NamedTy::NValue { is_vec, .. } => is_vec,
                    NamedTy::NNameArgs { is_vec, .. } => is_vec,
                    _ => false,
                };
                let ty = match nty {
                    NamedTy::NValue { ty, .. } => ty,
                    NamedTy::NNameArgs { ty, .. } => ty,
                    _ => Ty::Bool,
                };
                if is_vec {
                    match spec_parse_items(ty, inner, 0) {
                        Ok((items, _)) => Ok((SArgCore::List(items), pos + 1)),
                        Err(e) => Err(e),
                    }
                } else {
                    match crate::parse::spec_parse_value(ty, inner, 0) {
                        Ok(p) => {
                            if p == inner.len() {
                                Ok((SArgCore::Toks(inner), pos + 1))
                            } else {
                                Err(SpecErr { pos: p, msg: "unexpected token"@ })
                            }
                        },
                        Err(e) => Err(e),
                    }
                }
            } else {
                Err(SpecErr { pos, msg: "expected parentheses"@ })
            }
        },
    }
}

/// Whether the rest map already holds a key.
pub open spec fn spec_map_contains(m: Seq<(Seq<char>, SMapVal)>, name: Seq<char>) -> bool {
    exists|k: int| 0 <= k < m.len() && (#[trigger] m[k]).0 == name
}

/// A payload read stays within the tokens and, except for the bare flag
/// form, advances.
pub proof fn lemma_payload_bounds(nty: NamedTy, shape: ArgShape, toks: Seq<Tok>, pos: int)
    requires
        0 <= pos <= toks.len(),
    ensures
        spec_payload(nty, shape, toks, pos) matches Ok(pc) ==> pos <= pc.1 <= toks.len(),
{
    match shape {
        ArgShape::AFlag => {},
        ArgShape::ANameValue => {
            let ty = match nty {
                NamedTy::NValue { ty, .. } => ty,
                NamedTy::NNameValue { ty, .. } => ty,
                _ => Ty::Bool,
            };
            crate::parse::lemma_parse_value_advances(ty, toks, pos);
        },
        ArgShape::ANameArgs => {},
    }
}

/// A committed name leaves the cursor within the tokens and strictly after
/// where it stood.
pub proof fn lemma_try_name_bounds(params: SParams, toks: Seq<Tok>, pos: int)
    requires
        0 <= pos < toks.len(),
    ensures
        spec_try_name(params, toks, pos) matches STryName::Committed { newpos, .. } ==> pos
            < newpos <= toks.len(),
{
}

/// The temporaries of the runtime loop: per field, the position of the name
/// that set it and the payload.
pub open spec fn spec_no_temps(n: nat) -> Seq<Option<(int, SArgCore)>> {
    Seq::new(n, |i: int| None)
}

/// One pass of the runtime loop, from the cursor position on: a separating
/// comma when an argument was already read (the loop ends cleanly after a
/// trailing comma), then a named argument, an absorbed rest entry, or the
/// next positional value.
pub open spec fn spec_attr_loop(
    params: SParams,
    toks: Seq<Tok>,
    pos: int,
    temps: Seq<Option<(int, SArgCore)>>,
    map: Seq<(Seq<char>, SMapVal)>,
    ui: int,
    named_used: bool,
    is_next: bool,
) -> Result<(Seq<Option<(int, SArgCore)>>, Seq<(Seq<char>, SMapVal)>), SpecErr>
    decreases toks.len() - pos,
    when 0 <= pos <= toks.len()
    via spec_attr_loop_decreases
{
    if pos >= toks.len() {
        Ok((temps, map))
    } else if is_next && !crate::parse::tok_is_comma(toks[pos]) {
        Err(SpecErr { pos, msg: "expected `,`"@ })
    } else {
        let pos1 = if is_next {
            pos + 1
        } else {
            pos
        };
        if pos1 >= toks.len() {
            Ok((temps, map))
        } else {
            match spec_try_name(params, toks, pos1) {
                STryName::Failed(e) => Err(e),
                STryName::Committed { rest, k, name, shape, span, newpos } => {
                    if !rest {
                        if !(0 <= k < params.named.len()) {
                            Err(SpecErr { pos: span, msg: "unexpected token"@ })
                        } else {
                            let p = params.named[k];
                            let idx = p.index;
                            if 0 <= idx < temps.len() && temps[idx] is Some {
                                Err(
                                    SpecErr {
                                        pos: span,
                                        msg: "parameter `"@ + p.name
                                            + "` specified more than once"@,
                                    },
                                )
                            } else {
                                match spec_payload(p.nty, shape, toks, newpos) {
                                    Ok((core, p2)) => {
                                        let temps2 = if 0 <= idx < temps.len() {
                                            temps.update(idx, Some((span, core)))
                                        } else {
                                            temps
                                        };
                                        spec_attr_loop(
                                            params,
                                            toks,
                                            p2,
                                            temps2,
                                            map,
                                            ui,
                                            true,
                                            true,
                                        )
                                    },
                                    Err(e) => Err(e),
                                }
                            }
                        }
                    } else {
                        match params.rest {
                            Some(rp) => {
                                if spec_map_contains(map, name) {
                                    Err(
                                        SpecErr {
                                            pos: span,
                                            msg: "parameter `"@ + name
                                                + "` specified more than once"@,
                                        },
                                    )
                                } else {
                                    match spec_payload(rp.nty, shape, toks, newpos) {
                                        Ok((core, p2)) => {
                                            let mv = match shape {
                                                ArgShape::AFlag => SMapVal::MSpan(span),
                                                ArgShape::ANameValue => SMapVal::MNV(span, core),
                                                ArgShape::ANameArgs => SMapVal::MNA(span, core),
                                            };
                                            spec_attr_loop(
                                                params,
                                                toks,
                                                p2,
                                                temps,
                                                map.push((name, mv)),
                                                ui,
                                                true,
                                                true,
                                            )
                                        },
                                        Err(e) => Err(e),
                                    }
                                }
                            },
                            None => Err(SpecErr { pos: span, msg: "unexpected token"@ }),
                        }
                    }
                },
                STryName::NotName => {
                    if spec_no_unnamed(params) {
                        Err(SpecErr { pos: pos1, msg: "cannot use unnamed parameter"@ })
                    } else if named_used {
                        Err(
                            SpecErr {
                                pos: pos1,
                                msg: "cannot use unnamed parameter after named parameter"@,
                            },
                        )
                    } else if ui < params.unnamed_optional.len() {
                        let up = params.unnamed_optional[ui];
                        match crate::parse::spec_parse_value(up.ty, toks, pos1) {
                            Ok(p2) => {
                                let sub = if pos1 <= p2 <= toks.len() {
                                    toks.subrange(pos1, p2)
                                } else {
                                    Seq::empty()
                                };
                                let temps2 = if 0 <= up.index < temps.len() {
                                    temps.update(
                                        up.index as int,
                                        Some((pos1, SArgCore::Toks(sub))),
                                    )
                                } else {
                                    temps
                                };
                                spec_attr_loop(
                                    params,
                                    toks,
                                    p2,
                                    temps2,
                                    map,
                                    ui + 1,
                                    named_used,
                                    true,
                                )
                            },
                            Err(e) => Err(e),
                        }
                    } else {
                        match params.unnamed_variadic {
                            Some(vp) => {
                                match crate::parse::spec_parse_value(vp.ty, toks, pos1) {
                                    Ok(p2) => {
                                        let sub = if pos1 <= p2 <= toks.len() {
                                            toks.subrange(pos1, p2)
                                        } else {
                                            Seq::empty()
                                        };
                                        let old_items = if 0 <= vp.index < temps.len()
                                            && (temps[vp.index as int] matches Some(
                                            (_, SArgCore::List(items)),
                                        )) {
                                            match temps[vp.index as int] {
                                                Some((_, SArgCore::List(items))) => items,
                                                _ => Seq::empty(),
                                            }
                                        } else {
                                            Seq::empty()
                                        };
                                        let temps2 = if 0 <= vp.index < temps.len() {
                                            temps.update(
                                                vp.index as int,
                                                Some((pos1, SArgCore::List(old_items.push(sub)))),
                                            )
                                        } else {
                                            temps
                                        };
                                        spec_attr_loop(
                                            params,
                                            toks,
                                            p2,
                                            temps2,
                                            map,
                                            ui + 1,
                                            named_used,
                                            true,
                                        )
                                    },
                                    Err(e) => Err(e),
                                }
                            },
                            None => Err(
                                SpecErr { pos: pos1, msg: "too many unnamed parameter"@ },
                            ),
                        }
                    }
                },
            }
        }
    }
}

#[via_fn]
proof fn spec_attr_loop_decreases(
    params: SParams,
    toks: Seq<Tok>,
    pos: int,
    temps: Seq<Option<(int, SArgCore)>>,
    map: Seq<(Seq<char>, SMapVal)>,
    ui: int,
    named_used: bool,
    is_next: bool,
) {
    let pos1 = if is_next {
        pos + 1
    } else {
        pos
    };
    if 0 <= pos < toks.len() && pos1 < toks.len() {
        lemma_try_name_bounds(params, toks, pos1);
        if let STryName::Committed { rest, k, name, shape, span, newpos } = spec_try_name(
            params,
            toks,
            pos1,
        ) {
            if !rest && 0 <= k < params.named.len() {
                lemma_payload_bounds(params.named[k].nty, shape, toks, newpos);
            }
            if rest && params.rest is Some {
                lemma_payload_bounds(params.rest->0.nty, shape, toks, newpos);
            }
        }
        if ui < params.unnamed_optional.len() {
            crate::parse::lemma_parse_value_advances(
                params.unnamed_optional[ui].ty,
                toks,
                pos1,
            );
        }
        if let Some(vp) = params.unnamed_variadic {
            crate::parse::lemma_parse_value_advances(vp.ty, toks, pos1);
        }
    }
}

/// The reading of the required positional parameters, in declaration order,
/// each after a separating comma; too few arguments is a hard error naming
/// how many were expected.
pub open spec fn spec_required_phase(
    params: SParams,
    toks: Seq<Tok>,
    k: int,
    pos: int,
    temps: Seq<Option<(int, SArgCore)>>,
) -> Result<(int, Seq<Option<(int, SArgCore)>>), SpecErr>
    decreases params.unnamed_required.len() - k,
    when 0 <= k
{
    if k >= params.unnamed_required.len() {
        Ok((pos, temps))
    } else {
        let step: Result<int, SpecErr> = if k > 0 {
            if pos >= toks.len() {
                Err(
                    SpecErr {
                        pos,
                        msg: "expected least "@ + crate::keywords::spec_decimal(
                            params.unnamed_required.len() as nat,
                        ) + " arguments but "@ + crate::keywords::spec_decimal(k as nat)
                            + " argument was supplied"@,
                    },
                )
            } else if !crate::parse::tok_is_comma(toks[pos]) {
                Err(SpecErr { pos, msg: "expected `,`"@ })
            } else {
                Ok(pos + 1)
            }
        } else {
            Ok(pos)
        };
        match step {
            Ok(pos1) => {
                let up = params.unnamed_required[k];
                match crate::parse::spec_parse_value(up.ty, toks, pos1) {
                    Ok(p2) => {
                        let sub = if 0 <= pos1 <= p2 <= toks.len() {
                            toks.subrange(pos1, p2)
                        } else {
                            Seq::empty()
                        };
                        let temps2 = if 0 <= up.index < temps.len() {
                            temps.update(up.index as int, Some((pos1, SArgCore::Toks(sub))))
                        } else {
                            temps
                        };
                        spec_required_phase(params, toks, k + 1, p2, temps2)
                    },
                    Err(e) => Err(e),
                }
            },
            Err(e) => Err(e),
        }
    }
}

/// The first positional parameter from index `k` that fills field `j`.
pub open spec fn spec_find_up(list: Seq<UnnamedParam>, j: int, k: int) -> Option<int>
    decreases list.len() - k,
    when 0 <= k
{
    if k >= list.len() {
        None
    } else if list[k].index == j {
        Some(k)
    } else {
        spec_find_up(list, j, k + 1)
    }
}

/// The first named parameter from index `k` that fills field `j`.
pub open spec fn spec_find_np(named: Seq<SNamedParam>, j: int, k: int) -> Option<int>
    decreases named.len() - k,
    when 0 <= k
{
    if k >= named.len() {
        None
    } else if named[k].index == j {
        Some(k)
    } else {
        spec_find_np(named, j, k + 1)
    }
}

/// The final value of field `j`, built from the temporaries: defaults for
/// unset flags, the empty list for the unset variadic parameter and the
/// empty map for the rest map, and a hard error for an unset required named
/// parameter.
pub open spec fn spec_field_arg(
    params: SParams,
    temps: Seq<Option<(int, SArgCore)>>,
    map: Seq<(Seq<char>, SMapVal)>,
    j: int,
) -> Result<SArg, SpecErr> {
    let t = if 0 <= j < temps.len() {
        temps[j]
    } else {
        None
    };
    if spec_find_up(params.unnamed_required, j, 0) is Some {
        Ok(
            SArg::Val(
                match t {
                    Some((_, core)) => core,
                    None => SArgCore::Toks(Seq::empty()),
                },
            ),
        )
    } else if spec_find_up(params.unnamed_optional, j, 0) is Some {
        Ok(
            SArg::OptVal(
                match t {
                    Some((_, core)) => Some(core),
                    None => None,
                },
            ),
        )
    } else if params.unnamed_variadic matches Some(vp) && vp.index == j {
        Ok(
            SArg::Val(
                match t {
                    Some((_, core)) => core,
                    None => SArgCore::List(Seq::empty()),
                },
            ),
        )
    } else if params.rest matches Some(rp) && rp.index == j {
        Ok(SArg::MapArg(map))
    } else {
        match spec_find_np(params.named, j, 0) {
            Some(k) => {
                let p = params.named[k];
                if p.is_option {
                    match p.nty {
                        NamedTy::NNameValue { .. } => Ok(
                            SArg::OptNameValue(
                                match t {
                                    Some((span, core)) => Some((span, core)),
                                    None => None,
                                },
                            ),
                        ),
                        NamedTy::NNameArgs { .. } => Ok(
                            SArg::OptNameArgs(
                                match t {
                                    Some((span, core)) => Some((span, core)),
                                    None => None,
                                },
                            ),
                        ),
                        _ => Ok(
                            SArg::OptVal(
                                match t {
                                    Some((_, core)) => Some(core),
                                    None => None,
                                },
                            ),
                        ),
                    }
                } else {
                    match p.nty {
                        NamedTy::NBool => Ok(SArg::BoolArg(t is Some)),
                        NamedTy::NFlag => Ok(
                            SArg::FlagArg(
                                match t {
                                    Some((span, _)) => Some(span),
                                    None => None,
                                },
                            ),
                        ),
                        NamedTy::NNameArgs { .. } => {
                            match t {
                                Some((span, core)) => Ok(SArg::NameArgs(span, core)),
                                None => Err(
                                    SpecErr {
                                        pos: 0,
                                        msg: "missing argument `"@ + p.name + "(...)`"@,
                                    },
                                ),
                            }
                        },
                        NamedTy::NNameValue { .. } => {
                            match t {
                                Some((span, core)) => Ok(SArg::NameValue(span, core)),
                                None => Err(
                                    SpecErr {
                                        pos: 0,
                                        msg: "missing argument `"@ + p.name + " = ...`"@,
                                    },
                                ),
                            }
                        },
                        NamedTy::NValue { .. } => {
                            match t {
                                Some((_, core)) => Ok(SArg::Val(core)),
                                None => Err(
                                    SpecErr {
                                        pos: 0,
                                        msg: "missing argument `"@ + p.name + " = ...`"@,
                                    },
                                ),
                            }
                        },
                    }
                }
            },
            None => Ok(SArg::Unset),
        }
    }
}

/// The final values of all fields, in field order; the first missing
/// required named parameter decides the error.
pub open spec fn spec_finish(
    params: SParams,
    temps: Seq<Option<(int, SArgCore)>>,
    map: Seq<(Seq<char>, SMapVal)>,
    j: int,
    acc: Seq<SArg>,
) -> Result<Seq<SArg>, SpecErr>
    decreases params.n_fields - j,
    when 0 <= j
{
    if j >= params.n_fields {
        Ok(acc)
    } else {
        match spec_field_arg(params, temps, map, j) {
            Ok(a) => spec_finish(params, temps, map, j + 1, acc.push(a)),
            Err(e) => Err(e),
        }
    }
}

/// The whole attribute-argument parse: the required positional parameters
/// first, then the dispatch loop, then the final construction with
/// defaults.
pub open spec fn spec_run_attr(params: SParams, toks: Seq<Tok>) -> Result<Seq<SArg>, SpecErr> {
    let n = if params.n_fields >= 0 {
        params.n_fields as nat
    } else {
        0
    };
    match spec_required_phase(params, toks, 0, 0, spec_no_temps(n)) {
        Ok((pos, temps)) => {
            if !(0 <= pos <= toks.len()) {
                Err(SpecErr { pos, msg: "unexpected token"@ })
            } else {
                match spec_attr_loop(
                    params,
                    toks,
                    pos,
                    temps,
                    Seq::empty(),
                    0,
                    false,
                    params.unnamed_required.len() > 0,
                ) {
                    Ok((temps2, map)) => spec_finish(params, temps2, map, 0, Seq::empty()),
                    Err(e) => Err(e),
                }
            }
        },
        Err(e) => Err(e),
    }
}

/// The mathematical value of the loop temporaries.
pub open spec fn temps_view(t: Seq<Option<(usize, ArgCore)>>) -> Seq<Option<(int, SArgCore)>> {
    t.map_values(
        |o: Option<(usize, ArgCore)>|
            match o {
                Some((s, c)) => Some((s as int, arg_core_view(c))),
                None => None,
            },
    )
}

/// Tests whether a name passes the schema's name filter.
fn filter_ok(filter: NameFilter, s: &str) -> (r: bool)
    ensures
        r == spec_filter_ok(filter, s@),
{
    match filter {
        NameFilter::NoFilter => true,
        NameFilter::SnakeCase => crate::helpers::is_snake_case(s),
    }
}

/// Tests whether a shape classification accepts a shape.
fn shape_pred(nty: &NamedTy, shape: ArgShape) -> (r: bool)
    ensures
        r == spec_shape_pred(*nty, shape),
{
    match shape {
        ArgShape::AFlag => nty.is_flag(),
        ArgShape::ANameValue => nty.is_name_value(),
        ArgShape::ANameArgs => nty.is_name_args(),
    }
}

/// Finds the first named parameter with the given name whose classification
/// accepts the shape, from index `k`.
fn find_shape(named: &Vec<NamedParam>, shape: ArgShape, name: &str, k: usize) -> (r: Option<usize>)
    requires
        k <= named@.len(),
    ensures
        (r matches Some(kk) ==> spec_find_shape(named_params_view(named@), shape, name@, k as int)
            == Some(kk as int) && kk < named@.len()),
        (r is None ==> spec_find_shape(named_params_view(named@), shape, name@, k as int)
            is None),
    decreases named@.len() - k,
{
    proof {
        assert(named_params_view(named@).len() == named@.len());
    }
    if k >= named.len() {
        return None;
    }
    proof {
        assert(named_params_view(named@)[k as int] == named_param_view(named@[k as int]));
    }
    if crate::helpers::str_eq(named[k].name.as_str(), name) && shape_pred(&named[k].nty, shape) {
        Some(k)
    } else {
        find_shape(named, shape, name, k + 1)
    }
}

/// Collects the names of the named parameters whose classification accepts
/// the shape, from index `k`.
fn shape_names(named: &Vec<NamedParam>, shape: ArgShape, k: usize) -> (r: Vec<String>)
    requires
        k <= named@.len(),
    ensures
        crate::helpers::strs_view(r@) == spec_shape_names(
            named_params_view(named@),
            shape,
            k as int,
        ),
    decreases named@.len() - k,
{
    proof {
        assert(named_params_view(named@).len() == named@.len());
    }
    if k >= named.len() {
        let r: Vec<String> = Vec::new();
        proof {
            assert(crate::helpers::strs_view(r@) =~= Seq::<Seq<char>>::empty());
        }
        return r;
    }
    proof {
        assert(named_params_view(named@)[k as int] == named_param_view(named@[k as int]));
    }
    let mut rest = shape_names(named, shape, k + 1);
    if shape_pred(&named[k].nty, shape) {
        let mut out: Vec<String> = Vec::new();
        out.push(named[k].name.clone());
        let ghost rest_view = crate::helpers::strs_view(rest@);
        out.append(&mut rest);
        proof {
            assert(crate::helpers::strs_view(out@) =~= seq![named@[k as int].name@] + rest_view);
        }
        out
    } else {
        rest
    }
}

/// Tests whether the rest map accepts the shape.
fn rest_pred(params: &Params, shape: ArgShape) -> (r: bool)
    ensures
        r == spec_rest_pred(params@, shape),
{
    match &params.rest {
        Some(rp) => shape_pred(&rp.nty, shape),
        None => false,
    }
}

/// Tests whether any declared parameter accepts the shape.
fn may_shape(params: &Params, shape: ArgShape) -> (r: bool)
    ensures
        r == spec_may_shape(params@, shape),
{
    let names = shape_names(&params.named, shape, 0);
    proof {
        assert(crate::helpers::strs_view(names@).len() == names@.len());
    }
    names.len() > 0 || rest_pred(params, shape)
}

/// Tests whether the schema declares no positional parameter after the
/// required ones.
fn no_unnamed(params: &Params) -> (r: bool)
    ensures
        r == spec_no_unnamed(params@),
{
    params.unnamed_optional.len() == 0 && params.unnamed_variadic.is_none()
}

/// Builds the expected-forms message.
#[verifier::rlimit(100)]
fn expected_msg(e_flag: bool, e_nv: bool, e_na: bool, s: &str, found: Option<ArgShape>) -> (r:
    String)
    requires
        e_flag || e_nv || e_na,
    ensures
        r@ == spec_expected_msg(e_flag, e_nv, e_na, s@, found),
{
    let mut m = "expected ".to_owned();
    let ghost flag_e = "flag `"@ + s@ + "`"@;
    let ghost nv_e = "`"@ + s@ + " = ...`"@;
    let ghost na_e = "`"@ + s@ + "(...)`"@;
    if e_flag && e_nv && e_na {
        m.append("flag `");
        m.append(s);
        m.append("`");
        m.append(", ");
        m.append("`");
        m.append(s);
        m.append(" = ...`");
        m.append(" or ");
        m.append("`");
        m.append(s);
        m.append("(...)`");
        proof {
            assert(m@ =~= "expected "@ + (flag_e + ", "@ + nv_e + " or "@ + na_e));
        }
    } else if e_flag && e_nv {
        m.append("flag `");
        m.append(s);
        m.append("`");
        m.append(" or ");
        m.append("`");
        m.append(s);
        m.append(" = ...`");
        proof {
            assert(m@ =~= "expected "@ + (flag_e + " or "@ + nv_e));
        }
    } else if e_flag && e_na {
        m.append("flag `");
        m.append(s);
        m.append("`");
        m.append(" or ");
        m.append("`");
        m.append(s);
        m.append("(...)`");
        proof {
            assert(m@ =~= "expected "@ + (flag_e + " or "@ + na_e));
        }
    } else if e_nv && e_na {
        m.append("`");
        m.append(s);
        m.append(" = ...`");
        m.append(" or ");
        m.append("`");
        m.append(s);
        m.append("(...)`");
        proof {
            assert(m@ =~= "expected "@ + (nv_e + " or "@ + na_e));
        }
    } else if e_flag {
        m.append("flag `");
        m.append(s);
        m.append("`");
        proof {
            assert(m@ =~= "expected "@ + flag_e);
        }
    } else if e_nv {
        m.append("`");
        m.append(s);
        m.append(" = ...`");
        proof {
            assert(m@ =~= "expected "@ + nv_e);
        }
    } else {
        m.append("`");
        m.append(s);
        m.append("(...)`");
        proof {
            assert(m@ =~= "expected "@ + na_e);
        }
    }
    let ghost with_list = m@;
    match found {
        None => {
            proof {
                assert(m@ =~= with_list + Seq::<char>::empty());
            }
        },
        Some(ArgShape::AFlag) => {
            m.append(", found `");
            m.append(s);
            m.append("`");
            proof {
                assert(m@ =~= with_list + (", found `"@ + s@ + "`"@));
            }
        },
        Some(ArgShape::ANameValue) => {
            m.append(", found `");
            m.append(s);
            m.append(" = ...`");
            proof {
                assert(m@ =~= with_list + (", found `"@ + s@ + " = ...`"@));
            }
        },
        Some(ArgShape::ANameArgs) => {
            m.append(", found `");
            m.append(s);
            m.append("`(...)");
            proof {
                assert(m@ =~= with_list + (", found `"@ + s@ + "`(...)"@));
            }
        },
    }
    proof {
        assert(m@ =~= spec_expected_msg(e_flag, e_nv, e_na, s@, found));
    }
    m
}

/// Builds the cannot-find message with the similar-name help.
fn cannot_find_msg(params: &Params, s: &str) -> (r: String)
    ensures
        r@ == spec_cannot_find_msg(params@, s@),
{
    let mut names = shape_names(&params.named, ArgShape::AFlag, 0);
    let mut nv_names = shape_names(&params.named, ArgShape::ANameValue, 0);
    let mut na_names = shape_names(&params.named, ArgShape::ANameArgs, 0);
    let ghost a = crate::helpers::strs_view(names@);
    let ghost b = crate::helpers::strs_view(nv_names@);
    let ghost c = crate::helpers::strs_view(na_names@);
    names.append(&mut nv_names);
    proof {
        assert(crate::helpers::strs_view(names@) =~= a + b);
    }
    names.append(&mut na_names);
    proof {
        assert(crate::helpers::strs_view(names@) =~= (a + b) + c);
        assert((a + b) + c =~= a + b + c);
    }
    let mut m = "cannot find parameter `".to_owned();
    m.append(s);
    m.append("` in this scope");
    match crate::helpers::find_similar_name(&names, s) {
        Some(n) => {
            m.append(" (help: a parameter with a similar name exists: `");
            m.append(n.as_str());
            m.append("`)");
        },
        None => {},
    }
    m
}

/// The outcome of trying to read a named argument.
pub enum TryName {
    Committed { rest: bool, k: usize, name: String, shape: ArgShape, span: usize, newpos: usize },
    NotName,
    Failed(MErr),
}

/// Tries to classify the tokens at the cursor as a named argument.
fn try_name(params: &Params, toks: &Vec<Token>, pos: usize) -> (r: TryName)
    requires
        pos <= toks@.len(),
    ensures
        (r matches TryName::Committed { rest, k, name, shape, span, newpos } ==> spec_try_name(
            params@,
            toks_view(toks@),
            pos as int,
        ) == (STryName::Committed {
            rest,
            k: k as int,
            name: name@,
            shape,
            span: span as int,
            newpos: newpos as int,
        }) && pos < newpos <= toks@.len() && (rest ==> params.rest is Some) && (!rest ==> k
            < params.named@.len())),
        (r is NotName ==> spec_try_name(params@, toks_view(toks@), pos as int)
            is NotName),
        (r matches TryName::Failed(e) ==> spec_try_name(params@, toks_view(toks@), pos as int)
            == STryName::Failed(merr_view(e))),
{
    proof {
        crate::token::lemma_toks_view_index(toks@);
        assert(named_params_view(params.named@).len() == params.named@.len());
    }
    let nu = no_unnamed(params);
    let may_flag = may_shape(params, ArgShape::AFlag);
    let may_nv = may_shape(params, ArgShape::ANameValue);
    let may_na = may_shape(params, ArgShape::ANameArgs);
    let mut ident_text: Option<&String> = None;
    if pos < toks.len() {
        ident_text = toks[pos].ident_text();
    }
    if let Some(s) = ident_text {
        if filter_ok(params.name_filter, s.as_str()) {
            let span = pos;
            let after = pos + 1;
            let flag_cond = (nu || may_flag) && (after >= toks.len() || toks[after].is_comma());
            let nv_cond = !flag_cond && (nu || may_nv) && after < toks.len()
                && toks[after].is_eq_alone();
            let na_cond = !flag_cond && !nv_cond && (nu || may_na) && after < toks.len()
                && toks[after].is_group_of(crate::token::Delim::Paren);
            let kind: Option<ArgShape> = if flag_cond {
                Some(ArgShape::AFlag)
            } else if nv_cond {
                Some(ArgShape::ANameValue)
            } else if na_cond {
                Some(ArgShape::ANameArgs)
            } else {
                None
            };
            if flag_cond {
                match find_shape(&params.named, ArgShape::AFlag, s.as_str(), 0) {
                    Some(kk) => {
                        return TryName::Committed {
                            rest: false,
                            k: kk,
                            name: s.clone(),
                            shape: ArgShape::AFlag,
                            span,
                            newpos: after,
                        };
                    },
                    None => {
                        if rest_pred(params, ArgShape::AFlag) {
                            return TryName::Committed {
                                rest: true,
                                k: 0,
                                name: s.clone(),
                                shape: ArgShape::AFlag,
                                span,
                                newpos: after,
                            };
                        }
                    },
                }
            } else if nv_cond {
                match find_shape(&params.named, ArgShape::ANameValue, s.as_str(), 0) {
                    Some(kk) => {
                        return TryName::Committed {
                            rest: false,
                            k: kk,
                            name: s.clone(),
                            shape: ArgShape::ANameValue,
                            span,
                            newpos: after + 1,
                        };
                    },
                    None => {
                        if rest_pred(params, ArgShape::ANameValue) {
                            return TryName::Committed {
                                rest: true,
                                k: 0,
                                name: s.clone(),
                                shape: ArgShape::ANameValue,
                                span,
                                newpos: after + 1,
                            };
                        }
                    },
                }
            } else if na_cond {
                match find_shape(&params.named, ArgShape::ANameArgs, s.as_str(), 0) {
                    Some(kk) => {
                        return TryName::Committed {
                            rest: false,
                            k: kk,
                            name: s.clone(),
                            shape: ArgShape::ANameArgs,
                            span,
                            newpos: after,
                        };
                    },
                    None => {
                        if rest_pred(params, ArgShape::ANameArgs) {
                            return TryName::Committed {
                                rest: true,
                                k: 0,
                                name: s.clone(),
                                shape: ArgShape::ANameArgs,
                                span,
                                newpos: after,
                            };
                        }
                    },
                }
            }
            if kind.is_some() || nu {
                let e_flag = rest_pred(params, ArgShape::AFlag) || find_shape(
                    &params.named,
                    ArgShape::AFlag,
                    s.as_str(),
                    0,
                ).is_some();
                let e_nv = rest_pred(params, ArgShape::ANameValue) || find_shape(
                    &params.named,
                    ArgShape::ANameValue,
                    s.as_str(),
                    0,
                ).is_some();
                let e_na = rest_pred(params, ArgShape::ANameArgs) || find_shape(
                    &params.named,
                    ArgShape::ANameArgs,
                    s.as_str(),
                    0,
                ).is_some();
                if e_flag || e_nv || e_na {
                    let m = expected_msg(e_flag, e_nv, e_na, s.as_str(), kind);
                    return TryName::Failed(MErr { pos, msg: m });
                }
                let m = cannot_find_msg(params, s.as_str());
                return TryName::Failed(MErr { pos, msg: m });
            }
            return TryName::NotName;
        }
    }
    if nu {
        if may_flag || may_nv || may_na {
            TryName::Failed(MErr::new(pos, "too many unnamed arguments."))
        } else {
            TryName::Failed(MErr::new(pos, "too many arguments."))
        }
    } else {
        TryName::NotName
    }
}

/// Reads the payload after a committed name.
fn payload(nty: &NamedTy, shape: ArgShape, toks: &Vec<Token>, pos: usize) -> (r: Result<
    (ArgCore, usize),
    MErr,
>)
    requires
        pos <= toks@.len(),
    ensures
        (r matches Ok(cp) ==> spec_payload(*nty, shape, toks_view(toks@), pos as int) matches Ok(
            sc,
        ) && arg_core_view(cp.0) == sc.0 && sc.1 == cp.1 as int && pos <= cp.1 <= toks@.len()),
        (r matches Err(e) ==> spec_payload(*nty, shape, toks_view(toks@), pos as int) == Err::<
            (SArgCore, int),
            SpecErr,
        >(merr_view(e))),
{
    let ghost tv = toks_view(toks@);
    proof {
        crate::token::lemma_toks_view_index(toks@);
    }
    match shape {
        ArgShape::AFlag => Ok((ArgCore::NoneV, pos)),
        ArgShape::ANameValue => {
            let ty: &Ty = match nty {
                NamedTy::NValue { ty, .. } => ty,
                NamedTy::NNameValue { ty, .. } => ty,
                _ => &Ty::Bool,
            };
            match crate::parse::parse_value(ty, toks, pos) {
                Ok(p) => {
                    let sub = crate::token::clone_range(toks, pos, p);
                    Ok((ArgCore::Toks(sub), p))
                },
                Err(e) => Err(e),
            }
        },
        ArgShape::ANameArgs => {
            if pos < toks.len() {
                match &toks[pos] {
                    Token::Group(Delim::Paren, inner) => {
                        proof {
                            assert(tv[pos as int] == Tok::Group(
                                Delim::Paren,
                                toks_view(inner@),
                            ));
                            crate::token::lemma_toks_view_index(inner@);
                        }
                        let is_vec = match nty {
                            NamedTy::NValue { is_vec, .. } => *is_vec,
                            NamedTy::NNameArgs { is_vec, .. } => *is_vec,
                            _ => false,
                        };
                        let ty: &Ty = match nty {
                            NamedTy::NValue { ty, .. } => ty,
                            NamedTy::NNameArgs { ty, .. } => ty,
                            _ => &Ty::Bool,
                        };
                        if is_vec {
                            match parse_items(ty, inner, 0) {
                                Ok((items, _)) => Ok((ArgCore::List(items), pos + 1)),
                                Err(e) => Err(e),
                            }
                        } else {
                            match crate::parse::parse_value(ty, inner, 0) {
                                Ok(p) => {
                                    if p == inner.len() {
                                        let sub = crate::token::clone_range(inner, 0, p);
                                        proof {
                                            assert(toks_view(inner@).subrange(
                                                0,
                                                p as int,
                                            ) =~= toks_view(inner@));
                                        }
                                        Ok((ArgCore::Toks(sub), pos + 1))
                                    } else {
                                        Err(MErr::new(p, "unexpected token"))
                                    }
                                },
                                Err(e) => Err(e),
                            }
                        }
                    },
                    _ => Err(MErr::new(pos, "expected parentheses")),
                }
            } else {
                Err(MErr::new(pos, "expected parentheses"))
            }
        },
    }
}

/// Tests whether the rest map already holds a key.
fn map_contains(m: &Vec<(String, MapVal)>, name: &str) -> (r: bool)
    ensures
        r == spec_map_contains(map_view(m@), name@),
{
    let mut k: usize = 0;
    while k < m.len()
        invariant
            0 <= k <= m@.len(),
            forall|j: int| 0 <= j < k ==> (#[trigger] map_view(m@)[j]).0 != name@,
        decreases m@.len() - k,
    {
        proof {
            assert(map_view(m@)[k as int] == (m@[k as int].0@, map_val_view(m@[k as int].1)));
        }
        if crate::helpers::str_eq(m[k].0.as_str(), name) {
            return true;
        }
        k += 1;
    }
    proof {
        if spec_map_contains(map_view(m@), name@) {
            let j = choose|j: int|
                0 <= j < map_view(m@).len() && (#[trigger] map_view(m@)[j]).0 == name@;
            assert(false);
        }
    }
    false
}

/// One pass of the runtime loop.
fn attr_loop(
    params: &Params,
    toks: &Vec<Token>,
    pos: usize,
    temps: Vec<Option<(usize, ArgCore)>>,
    map: Vec<(String, MapVal)>,
    ui: usize,
    named_used: bool,
    is_next: bool,
) -> (r: Result<(Vec<Option<(usize, ArgCore)>>, Vec<(String, MapVal)>), MErr>)
    requires
        pos <= toks@.len(),
        ui <= pos,
    ensures
        (r matches Ok(tm) ==> spec_attr_loop(
            params@,
            toks_view(toks@),
            pos as int,
            temps_view(temps@),
            map_view(map@),
            ui as int,
            named_used,
            is_next,
        ) matches Ok(stm) && temps_view(tm.0@) == stm.0 && map_view(tm.1@) == stm.1),
        (r matches Err(e) ==> spec_attr_loop(
            params@,
            toks_view(toks@),
            pos as int,
            temps_view(temps@),
            map_view(map@),
            ui as int,
            named_used,
            is_next,
        ) == Err::<(Seq<Option<(int, SArgCore)>>, Seq<(Seq<char>, SMapVal)>), SpecErr>(
            merr_view(e),
        )),
    decreases toks@.len() - pos,
{
    let ghost tv = toks_view(toks@);
    proof {
        crate::token::lemma_toks_view_index(toks@);
    }
    if pos >= toks.len() {
        return Ok((temps, map));
    }
    if is_next && !toks[pos].is_comma() {
        return Err(MErr::new(pos, "expected `,`"));
    }
    let pos1 = if is_next {
        pos + 1
    } else {
        pos
    };
    if pos1 >= toks.len() {
        return Ok((temps, map));
    }
    match try_name(params, toks, pos1) {
        TryName::Failed(e) => Err(e),
        TryName::Committed { rest, k, name, shape, span, newpos } => {
            if !rest {
                let p_index = params.named[k].index;
                let already = p_index < temps.len() && temps[p_index].is_some();
                proof {
                    assert(temps_view(temps@).len() == temps@.len());
                    if p_index < temps@.len() {
                        assert(temps_view(temps@)[p_index as int] is Some == temps@[p_index as int]
                            is Some);
                    }
                    assert(named_params_view(params.named@)[k as int] == named_param_view(
                        params.named@[k as int],
                    ));
                }
                if already {
                    return Err(
                        MErr::around(
                            span,
                            "parameter `",
                            params.named[k].name.as_str(),
                            "` specified more than once",
                        ),
                    );
                }
                match payload(&params.named[k].nty, shape, toks, newpos) {
                    Ok((core, p2)) => {
                        let mut temps2 = temps;
                        let ghost old_temps = temps_view(temps2@);
                        if p_index < temps2.len() {
                            let ghost cv = arg_core_view(core);
                            temps2[p_index] = Some((span, core));
                            proof {
                                assert(temps_view(temps2@) =~= old_temps.update(
                                    p_index as int,
                                    Some((span as int, cv)),
                                ));
                            }
                        } else {
                            proof {
                                assert(temps_view(temps2@) =~= old_temps);
                            }
                        }
                        attr_loop(params, toks, p2, temps2, map, ui, true, true)
                    },
                    Err(e) => Err(e),
                }
            } else {
                match &params.rest {
                    Some(rp) => {
                        if map_contains(&map, name.as_str()) {
                            return Err(
                                MErr::around(
                                    span,
                                    "parameter `",
                                    name.as_str(),
                                    "` specified more than once",
                                ),
                            );
                        }
                        match payload(&rp.nty, shape, toks, newpos) {
                            Ok((core, p2)) => {
                                let mv = match shape {
                                    ArgShape::AFlag => MapVal::MSpan(span),
                                    ArgShape::ANameValue => MapVal::MNV(span, core),
                                    ArgShape::ANameArgs => MapVal::MNA(span, core),
                                };
                                let mut map2 = map;
                                let ghost old_map = map_view(map2@);
                                let ghost mvv = map_val_view(mv);
                                let ghost namev = name@;
                                map2.push((name, mv));
                                proof {
                                    assert(map_view(map2@) =~= old_map.push((namev, mvv)));
                                }
                                attr_loop(params, toks, p2, temps, map2, ui, true, true)
                            },
                            Err(e) => Err(e),
                        }
                    },
                    None => Err(MErr::new(span, "unexpected token")),
                }
            }
        },
        TryName::NotName => {
            if no_unnamed(params) {
                return Err(MErr::new(pos1, "cannot use unnamed parameter"));
            }
            if named_used {
                return Err(MErr::new(pos1, "cannot use unnamed parameter after named parameter"));
            }
            if ui < params.unnamed_optional.len() {
                let up_ty = &params.unnamed_optional[ui].ty;
                let up_index = params.unnamed_optional[ui].index;
                match crate::parse::parse_value(up_ty, toks, pos1) {
                    Ok(p2) => {
                        let sub = crate::token::clone_range(toks, pos1, p2);
                        let mut temps2 = temps;
                        let ghost old_temps = temps_view(temps2@);
                        proof {
                            assert(temps_view(temps2@).len() == temps2@.len());
                        }
                        if up_index < temps2.len() {
                            let ghost cv = arg_core_view(ArgCore::Toks(sub));
                            temps2[up_index] = Some((pos1, ArgCore::Toks(sub)));
                            proof {
                                assert(temps_view(temps2@) =~= old_temps.update(
                                    up_index as int,
                                    Some((pos1 as int, SArgCore::Toks(tv.subrange(pos1 as int, p2 as int)))),
                                ));
                            }
                        } else {
                            proof {
                                assert(temps_view(temps2@) =~= old_temps);
                            }
                        }
                        attr_loop(params, toks, p2, temps2, map, ui + 1, named_used, true)
                    },
                    Err(e) => Err(e),
                }
            } else {
                match &params.unnamed_variadic {
                    Some(vp) => {
                        let vp_index = vp.index;
                        match crate::parse::parse_value(&vp.ty, toks, pos1) {
                            Ok(p2) => {
                                let sub = crate::token::clone_range(toks, pos1, p2);
                                let mut temps2 = temps;
                                let ghost old_temps = temps_view(temps2@);
                                proof {
                                    assert(temps_view(temps2@).len() == temps2@.len());
                                }
                                if vp_index < temps2.len() {
                                    let mut items: Vec<Vec<Token>> = match temps2[vp_index].take() {
                                        Some((_, ArgCore::List(items))) => items,
                                        _ => Vec::new(),
                                    };
                                    let ghost old_items_view = items@.map_values(
                                        |v: Vec<Token>| toks_view(v@),
                                    );
                                    proof {
                                        assert(old_items_view =~= (match old_temps[vp_index as int] {
                                            Some((_, SArgCore::List(si))) => si,
                                            _ => Seq::<Seq<Tok>>::empty(),
                                        }));
                                    }
                                    items.push(sub);
                                    proof {
                                        assert(items@.map_values(|v: Vec<Token>| toks_view(v@))
                                            =~= old_items_view.push(
                                            tv.subrange(pos1 as int, p2 as int),
                                        ));
                                    }
                                    temps2[vp_index] = Some((pos1, ArgCore::List(items)));
                                    proof {
                                        assert(temps_view(temps2@) =~= old_temps.update(
                                            vp_index as int,
                                            Some(
                                                (
                                                    pos1 as int,
                                                    SArgCore::List(
                                                        old_items_view.push(
                                                            tv.subrange(pos1 as int, p2 as int),
                                                        ),
                                                    ),
                                                ),
                                            ),
                                        ));
                                    }
                                } else {
                                    proof {
                                        assert(temps_view(temps2@) =~= old_temps);
                                    }
                                }
                                attr_loop(params, toks, p2, temps2, map, ui + 1, named_used, true)
                            },
                            Err(e) => Err(e),
                        }
                    },
                    None => Err(MErr::new(pos1, "too many unnamed parameter")),
                }
            }
        },
    }
}

/// Reads the required positional parameters.
fn required_phase(
    params: &Params,
    toks: &Vec<Token>,
    k: usize,
    pos: usize,
    temps: Vec<Option<(usize, ArgCore)>>,
) -> (r: Result<(usize, Vec<Option<(usize, ArgCore)>>), MErr>)
    requires
        pos <= toks@.len(),
        k <= params.unnamed_required@.len(),
    ensures
        (r matches Ok(pt) ==> spec_required_phase(
            params@,
            toks_view(toks@),
            k as int,
            pos as int,
            temps_view(temps@),
        ) matches Ok(spt) && spt.0 == pt.0 as int && temps_view(pt.1@) == spt.1 && pt.0
            <= toks@.len()),
        (r matches Err(e) ==> spec_required_phase(
            params@,
            toks_view(toks@),
            k as int,
            pos as int,
            temps_view(temps@),
        ) == Err::<(int, Seq<Option<(int, SArgCore)>>), SpecErr>(merr_view(e))),
    decreases params.unnamed_required@.len() - k,
{
    let ghost tv = toks_view(toks@);
    proof {
        crate::token::lemma_toks_view_index(toks@);
    }
    if k >= params.unnamed_required.len() {
        return Ok((pos, temps));
    }
    let pos1: usize = if k > 0 {
        if pos >= toks.len() {
            let n_str = crate::keywords::usize_to_string(params.unnamed_required.len());
            let k_str = crate::keywords::usize_to_string(k);
            let mut m = "expected least ".to_owned();
            m.append(n_str.as_str());
            m.append(" arguments but ");
            m.append(k_str.as_str());
            m.append(" argument was supplied");
            return Err(MErr { pos, msg: m });
        }
        if !toks[pos].is_comma() {
            return Err(MErr::new(pos, "expected `,`"));
        }
        pos + 1
    } else {
        pos
    };
    let up_ty = &params.unnamed_required[k].ty;
    let up_index = params.unnamed_required[k].index;
    match crate::parse::parse_value(up_ty, toks, pos1) {
        Ok(p2) => {
            let sub = crate::token::clone_range(toks, pos1, p2);
            let mut temps2 = temps;
            let ghost old_temps = temps_view(temps2@);
            proof {
                assert(temps_view(temps2@).len() == temps2@.len());
            }
            if up_index < temps2.len() {
                temps2[up_index] = Some((pos1, ArgCore::Toks(sub)));
                proof {
                    assert(temps_view(temps2@) =~= old_temps.update(
                        up_index as int,
                        Some((pos1 as int, SArgCore::Toks(tv.subrange(pos1 as int, p2 as int)))),
                    ));
                }
            } else {
                proof {
                    assert(temps_view(temps2@) =~= old_temps);
                }
            }
            required_phase(params, toks, k + 1, p2, temps2)
        },
        Err(e) => Err(e),
    }
}

/// Finds the first positional parameter from index `k` that fills field `j`.
fn find_up(list: &Vec<UnnamedParam>, j: usize, k: usize) -> (r: Option<usize>)
    requires
        k <= list@.len(),
    ensures
        (r matches Some(kk) ==> spec_find_up(list@, j as int, k as int) == Some(kk as int) && kk
            < list@.len()),
        (r is None ==> spec_find_up(list@, j as int, k as int) is None),
    decreases list@.len() - k,
{
    if k >= list.len() {
        return None;
    }
    if list[k].index == j {
        Some(k)
    } else {
        find_up(list, j, k + 1)
    }
}

/// Finds the first named parameter from index `k` that fills field `j`.
fn find_np(named: &Vec<NamedParam>, j: usize, k: usize) -> (r: Option<usize>)
    requires
        k <= named@.len(),
    ensures
        (r matches Some(kk) ==> spec_find_np(named_params_view(named@), j as int, k as int) == Some(
            kk as int,
        ) && kk < named@.len()),
        (r is None ==> spec_find_np(named_params_view(named@), j as int, k as int) is None),
    decreases named@.len() - k,
{
    proof {
        assert(named_params_view(named@).len() == named@.len());
    }
    if k >= named.len() {
        return None;
    }
    proof {
        assert(named_params_view(named@)[k as int] == named_param_view(named@[k as int]));
    }
    if named[k].index == j {
        Some(k)
    } else {
        find_np(named, j, k + 1)
    }
}

/// Builds the final value of field `j` from the temporaries.
fn field_arg(
    params: &Params,
    temps: &Vec<Option<(usize, ArgCore)>>,
    map: &Vec<(String, MapVal)>,
    j: usize,
) -> (r: Result<Arg, MErr>)
    ensures
        (r matches Ok(a) ==> spec_field_arg(
            params@,
            temps_view(temps@),
            map_view(map@),
            j as int,
        ) matches Ok(sa) && arg_view(a) == sa),
        (r matches Err(e) ==> spec_field_arg(
            params@,
            temps_view(temps@),
            map_view(map@),
            j as int,
        ) == Err::<SArg, SpecErr>(merr_view(e))),
{
    proof {
        assert(temps_view(temps@).len() == temps@.len());
        if j < temps@.len() {
            assert(temps_view(temps@)[j as int] == (match temps@[j as int] {
                Some((s, c)) => Some((s as int, arg_core_view(c))),
                None => None,
            }));
        }
    }
    let t: Option<(usize, ArgCore)> = if j < temps.len() {
        match &temps[j] {
            Some((s, c)) => Some((*s, clone_core(c))),
            None => None,
        }
    } else {
        None
    };
    let ghost st = (if 0 <= j < temps_view(temps@).len() {
        temps_view(temps@)[j as int]
    } else {
        None
    });
    proof {
        assert(match (t, st) {
            (Some((s, c)), Some((ss, sc))) => ss == s as int && sc == arg_core_view(c),
            (None, None) => true,
            _ => false,
        });
    }
    if find_up(&params.unnamed_required, j, 0).is_some() {
        let core_val = match t {
            Some((_, core)) => core,
            None => {
                let v: Vec<Token> = Vec::new();
                proof {
                    assert(toks_view(v@) =~= Seq::<Tok>::empty());
                }
                ArgCore::Toks(v)
            },
        };
        return Ok(Arg::Val(core_val));
    }
    if find_up(&params.unnamed_optional, j, 0).is_some() {
        return Ok(
            Arg::OptVal(
                match t {
                    Some((_, core)) => Some(core),
                    None => None,
                },
            ),
        );
    }
    let mut is_variadic = false;
    if let Some(vp) = &params.unnamed_variadic {
        if vp.index == j {
            is_variadic = true;
        }
    }
    if is_variadic {
        let core_val = match t {
            Some((_, core)) => core,
            None => {
                let v: Vec<Vec<Token>> = Vec::new();
                proof {
                    assert(v@.map_values(|x: Vec<Token>| toks_view(x@)) =~= Seq::<
                        Seq<Tok>,
                    >::empty());
                }
                ArgCore::List(v)
            },
        };
        return Ok(Arg::Val(core_val));
    }
    let mut is_rest = false;
    if let Some(rp) = &params.rest {
        if rp.index == j {
            is_rest = true;
        }
    }
    if is_rest {
        let m = clone_map(map);
        return Ok(Arg::MapArg(m));
    }
    match find_np(&params.named, j, 0) {
        Some(k) => {
            let p = &params.named[k];
            proof {
                assert(named_params_view(params.named@)[k as int] == named_param_view(
                    params.named@[k as int],
                ));
            }
            if p.is_option {
                match &p.nty {
                    NamedTy::NNameValue { .. } => Ok(
                        Arg::OptNameValue(
                            match t {
                                Some((span, core)) => Some((span, core)),
                                None => None,
                            },
                        ),
                    ),
                    NamedTy::NNameArgs { .. } => Ok(
                        Arg::OptNameArgs(
                            match t {
                                Some((span, core)) => Some((span, core)),
                                None => None,
                            },
                        ),
                    ),
                    _ => Ok(
                        Arg::OptVal(
                            match t {
                                Some((_, core)) => Some(core),
                                None => None,
                            },
                        ),
                    ),
                }
            } else {
                match &p.nty {
                    NamedTy::NBool => Ok(Arg::BoolArg(t.is_some())),
                    NamedTy::NFlag => Ok(
                        Arg::FlagArg(
                            match t {
                                Some((span, _)) => Some(span),
                                None => None,
                            },
                        ),
                    ),
                    NamedTy::NNameArgs { .. } => {
                        match t {
                            Some((span, core)) => Ok(Arg::NameArgs(span, core)),
                            None => Err(
                                MErr::around(0, "missing argument `", p.name.as_str(), "(...)`"),
                            ),
                        }
                    },
                    NamedTy::NNameValue { .. } => {
                        match t {
                            Some((span, core)) => Ok(Arg::NameValue(span, core)),
                            None => Err(
                                MErr::around(0, "missing argument `", p.name.as_str(), " = ...`"),
                            ),
                        }
                    },
                    NamedTy::NValue { .. } => {
                        match t {
                            Some((_, core)) => Ok(Arg::Val(core)),
                            None => Err(
                                MErr::around(0, "missing argument `", p.name.as_str(), " = ...`"),
                            ),
                        }
                    },
                }
            }
        },
        None => Ok(Arg::Unset),
    }
}

/// Clones an argument payload.
fn clone_core(c: &ArgCore) -> (r: ArgCore)
    ensures
        arg_core_view(r) == arg_core_view(*c),
{
    match c {
        ArgCore::NoneV => ArgCore::NoneV,
        ArgCore::Toks(ts) => ArgCore::Toks(crate::token::clone_tokens(ts)),
        ArgCore::List(items) => {
            let mut out: Vec<Vec<Token>> = Vec::new();
            let mut i: usize = 0;
            while i < items.len()
                invariant
                    0 <= i <= items@.len(),
                    out@.len() == i,
                    forall|m: int|
                        0 <= m < i ==> toks_view((#[trigger] out@[m])@) == toks_view(items@[m]@),
                decreases items@.len() - i,
            {
                out.push(crate::token::clone_tokens(&items[i]));
                i += 1;
            }
            proof {
                assert(out@.map_values(|v: Vec<Token>| toks_view(v@)) =~= items@.map_values(
                    |v: Vec<Token>| toks_view(v@),
                ));
            }
            ArgCore::List(out)
        },
    }
}

/// Clones the rest map.
fn clone_map(m: &Vec<(String, MapVal)>) -> (r: Vec<(String, MapVal)>)
    ensures
        map_view(r@) == map_view(m@),
{
    let mut out: Vec<(String, MapVal)> = Vec::new();
    let mut i: usize = 0;
    while i < m.len()
        invariant
            0 <= i <= m@.len(),
            out@.len() == i,
            forall|k: int|
                0 <= k < i ==> (#[trigger] out@[k]).0@ == m@[k].0@ && map_val_view(out@[k].1)
                    == map_val_view(m@[k].1),
        decreases m@.len() - i,
    {
        let (name, v) = &m[i];
        let v2 = match v {
            MapVal::MSpan(s) => MapVal::MSpan(*s),
            MapVal::MNV(s, c) => MapVal::MNV(*s, clone_core(c)),
            MapVal::MNA(s, c) => MapVal::MNA(*s, clone_core(c)),
        };
        out.push((name.clone(), v2));
        i += 1;
    }
    proof {
        assert(map_view(out@) =~= map_view(m@));
    }
    out
}

/// Builds the final values of all fields.
fn finish(
    params: &Params,
    temps: &Vec<Option<(usize, ArgCore)>>,
    map: &Vec<(String, MapVal)>,
    j: usize,
    acc: Vec<Arg>,
) -> (r: Result<Vec<Arg>, MErr>)
    requires
        j <= params.n_fields,
    ensures
        (r matches Ok(v) ==> spec_finish(
            params@,
            temps_view(temps@),
            map_view(map@),
            j as int,
            args_view(acc@),
        ) matches Ok(sv) && args_view(v@) == sv),
        (r matches Err(e) ==> spec_finish(
            params@,
            temps_view(temps@),
            map_view(map@),
            j as int,
            args_view(acc@),
        ) == Err::<Seq<SArg>, SpecErr>(merr_view(e))),
    decreases params.n_fields - j,
{
    if j >= params.n_fields {
        return Ok(acc);
    }
    match field_arg(params, temps, map, j) {
        Ok(a) => {
            let ghost av = arg_view(a);
            let ghost old_acc = args_view(acc@);
            let mut acc2 = acc;
            acc2.push(a);
            proof {
                assert(args_view(acc2@) =~= old_acc.push(av));
            }
            finish(params, temps, map, j + 1, acc2)
        },
        Err(e) => Err(e),
    }
}

/// Parses an attribute-argument token list against classified parameters:
/// the required positional parameters first, then the dispatch loop over
/// named and remaining positional arguments, then the final construction
/// with defaults.
pub fn run_attr(params: &Params, toks: &Vec<Token>) -> (r: Result<Vec<Arg>, MErr>)
    ensures
        (r matches Ok(v) ==> spec_run_attr(params@, toks_view(toks@)) matches Ok(sv) && args_view(
            v@,
        ) == sv),
        (r matches Err(e) ==> spec_run_attr(params@, toks_view(toks@)) == Err::<Seq<SArg>, SpecErr>(
            merr_view(e),
        )),
{
    proof {
        crate::token::lemma_toks_view_index(toks@);
    }
    let mut temps: Vec<Option<(usize, ArgCore)>> = Vec::new();
    let mut j: usize = 0;
    while j < params.n_fields
        invariant
            0 <= j <= params.n_fields,
            temps@.len() == j,
            forall|m: int| 0 <= m < j ==> (#[trigger] temps@[m]) is None,
        decreases params.n_fields - j,
    {
        temps.push(None);
        j += 1;
    }
    proof {
        assert(temps_view(temps@) =~= spec_no_temps(params@.n_fields as nat));
    }
    match required_phase(params, toks, 0, 0, temps) {
        Ok((pos, temps1)) => {
            let empty_map: Vec<(String, MapVal)> = Vec::new();
            proof {
                assert(map_view(empty_map@) =~= Seq::<(Seq<char>, SMapVal)>::empty());
            }
            match attr_loop(
                params,
                toks,
                pos,
                temps1,
                empty_map,
                0,
                false,
                params.unnamed_required.len() > 0,
            ) {
                Ok((temps2, map)) => {
                    proof {
                        assert(args_view(Seq::<Arg>::empty()) =~= Seq::<SArg>::empty());
                    }
                    finish(params, &temps2, &map, 0, Vec::new())
                },
                Err(e) => Err(e),
            }
        },
        Err(e) => Err(e),
    }
}

/// Classifies a schema's fields and parses an attribute-argument token list
/// against them in one call.
pub fn parse_attr_args(fields: &Vec<FieldDef>, args: &ArgsForStruct, toks: &Vec<Token>) -> (r:
    Result<Vec<Arg>, MErr>)
    ensures
        (spec_classify_args(fields@, *args) matches Err(e) ==> (r matches Err(e2) && merr_view(e2)
            == e)),
        (spec_classify_args(fields@, *args) matches Ok(sp) ==> (match spec_run_attr(
            sp,
            toks_view(toks@),
        ) {
            Ok(sv) => r matches Ok(v) && args_view(v@) == sv,
            Err(e) => r matches Err(e2) && merr_view(e2) == e,
        })),
{
    match classify(fields, args) {
        Ok(params) => run_attr(&params, toks),
        Err(e) => Err(e),
    }
}

} // verus!
