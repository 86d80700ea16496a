//! The laws the generators and parsers obey, stated and proved over the
//! specification-level machines.

use vstd::prelude::*;
use crate::err::SpecErr;
use crate::parse::{
    SMode, SVariantPlan, spec_dispatch, spec_parse_variant, spec_peek_sat,
};
use crate::schema::{FieldDef, VariantDef};
use crate::scope::{fields_shape, spec_shape, SStep};
use crate::struct_meta::{
    ArgShape, NamedTy, SArg, SArgCore, SMapVal, SParams, STryName, UnnamedParam, spec_attr_loop,
    spec_classify, spec_empty_params, spec_field_arg, spec_find_np, spec_find_shape, spec_find_up,
    spec_from_fields, spec_map_contains, spec_payload, spec_try_name, NameFilter,
};
use crate::token::Tok;
use crate::value::FVal;

verus! {

/// The fields the dispatch hands to a variant's parse.
pub open spec fn vfields(variants: Seq<VariantDef>, v: int) -> Seq<FieldDef> {
    if 0 <= v < variants.len() {
        variants[v].fields@
    } else {
        Seq::empty()
    }
}

/// Whether trying variant `v` commits the dispatch: a direct variant always
/// does, a forking variant when its speculative parse succeeds, a peeking
/// variant when its predicates hold.
pub open spec fn variant_takes(
    variants: Seq<VariantDef>,
    plans: Seq<SVariantPlan>,
    v: int,
    toks: Seq<Tok>,
    pos: int,
) -> bool {
    match plans[v].mode {
        SMode::Direct => true,
        SMode::Fork => spec_parse_variant(vfields(variants, v), plans[v].steps, toks, pos) is Ok,
        SMode::Peek(tests) => spec_peek_sat(tests, toks, pos),
    }
}

/// Variant-order determinism: when no variant before `a` commits, the
/// dispatch's outcome is decided by variant `a` alone — its parse result
/// when it commits, and the next variants otherwise.
proof fn lemma_dispatch_reaches(
    variants: Seq<VariantDef>,
    plans: Seq<SVariantPlan>,
    v: int,
    a: int,
    toks: Seq<Tok>,
    pos: int,
)
    requires
        0 <= v <= a < plans.len(),
        forall|u: int| v <= u < a ==> !variant_takes(variants, plans, u, toks, pos),
    ensures
        spec_dispatch(variants, plans, v, toks, pos) == spec_dispatch(variants, plans, a, toks, pos),
    decreases a - v,
{
    if v < a {
        assert(!variant_takes(variants, plans, v, toks, pos));
        lemma_dispatch_reaches(variants, plans, v + 1, a, toks, pos);
    }
}

/// Enum ordering determinism: when variant `a` is the first to commit and
/// its speculative parse succeeds, the parser selects variant `a`, whatever
/// later variants would do.
pub proof fn lemma_enum_order(
    variants: Seq<VariantDef>,
    plans: Seq<SVariantPlan>,
    a: int,
    toks: Seq<Tok>,
    pos: int,
)
    requires
        0 <= a < plans.len(),
        forall|u: int| 0 <= u < a ==> !variant_takes(variants, plans, u, toks, pos),
        plans[a].mode is Fork || plans[a].mode is Direct,
        spec_parse_variant(vfields(variants, a), plans[a].steps, toks, pos) is Ok,
    ensures
        spec_dispatch(variants, plans, 0, toks, pos) matches Ok(out) && out.0 == a,
{
    lemma_dispatch_reaches(variants, plans, 0, a, toks, pos);
}

/// Peek short-circuit: when variant `a` is the first to commit and it
/// commits through its lookahead predicates, the parser commits to variant
/// `a` and surfaces that variant's parse outcome — a failure there is the
/// parser's failure, not a fall-through.
pub proof fn lemma_peek_commits(
    variants: Seq<VariantDef>,
    plans: Seq<SVariantPlan>,
    a: int,
    toks: Seq<Tok>,
    pos: int,
)
    requires
        0 <= a < plans.len(),
        forall|u: int| 0 <= u < a ==> !variant_takes(variants, plans, u, toks, pos),
        plans[a].mode matches SMode::Peek(tests) && spec_peek_sat(tests, toks, pos),
    ensures
        spec_dispatch(variants, plans, 0, toks, pos) == (match spec_parse_variant(
            vfields(variants, a),
            plans[a].steps,
            toks,
            pos,
        ) {
            Ok((p, vals)) => Ok::<(int, int, Seq<FVal>), SpecErr>((a, p, vals)),
            Err(e) => Err(e),
        }),
{
    lemma_dispatch_reaches(variants, plans, 0, a, toks, pos);
}

/// Mismatched delimiter detection is independent of field types: the scope
/// walk reads only the delimiter directives and the any-delimiter marks, so
/// two field lists that agree on those agree on the walk's outcome,
/// including every mismatched-delimiter error.
pub proof fn lemma_shape_depends_on_directives(f1: Seq<FieldDef>, f2: Seq<FieldDef>)
    requires
        fields_shape(f1) == fields_shape(f2),
    ensures
        spec_shape(fields_shape(f1)) == spec_shape(fields_shape(f2)),
{
}

/// The positional ordering invariant of a successful classification: every
/// required positional parameter is declared before every optional one, and
/// the variadic parameter after all of them.
pub proof fn lemma_positional_order(fields: Seq<FieldDef>, filter: NameFilter)
    requires
        fields.len() <= usize::MAX,
    ensures
        spec_classify(fields, filter) matches Ok(p) ==> (forall|r: int, o: int|
            0 <= r < p.unnamed_required.len() && 0 <= o < p.unnamed_optional.len() ==> (
            #[trigger] p.unnamed_required[r]).index < (#[trigger] p.unnamed_optional[o]).index)
            && (p.unnamed_variadic matches Some(vp) ==> (forall|r: int|
            0 <= r < p.unnamed_required.len() ==> (#[trigger] p.unnamed_required[r]).index
                < vp.index) && (forall|o: int|
            0 <= o < p.unnamed_optional.len() ==> (#[trigger] p.unnamed_optional[o]).index
                < vp.index)),
{
    lemma_positional_order_from(fields, 0, spec_empty_params(fields.len() as int, filter));
}

/// The fold invariant behind the positional ordering: indices already
/// collected are below the cursor and ordered, and the fold preserves that.
proof fn lemma_positional_order_from(fields: Seq<FieldDef>, i: int, acc: SParams)
    requires
        fields.len() <= usize::MAX,
        0 <= i <= fields.len(),
        forall|r: int|
            0 <= r < acc.unnamed_required.len() ==> (#[trigger] acc.unnamed_required[r]).index < i,
        forall|o: int|
            0 <= o < acc.unnamed_optional.len() ==> (#[trigger] acc.unnamed_optional[o]).index < i,
        acc.unnamed_variadic matches Some(vp) ==> vp.index < i,
        forall|r: int, o: int|
            0 <= r < acc.unnamed_required.len() && 0 <= o < acc.unnamed_optional.len() ==> (
            #[trigger] acc.unnamed_required[r]).index < (#[trigger] acc.unnamed_optional[o]).index,
        acc.unnamed_variadic matches Some(vp) ==> (forall|r: int|
            0 <= r < acc.unnamed_required.len() ==> (#[trigger] acc.unnamed_required[r]).index
                < vp.index) && (forall|o: int|
            0 <= o < acc.unnamed_optional.len() ==> (#[trigger] acc.unnamed_optional[o]).index
                < vp.index),
    ensures
        spec_from_fields(fields, i, acc) matches Ok(p) ==> (forall|r: int, o: int|
            0 <= r < p.unnamed_required.len() && 0 <= o < p.unnamed_optional.len() ==> (
            #[trigger] p.unnamed_required[r]).index < (#[trigger] p.unnamed_optional[o]).index)
            && (p.unnamed_variadic matches Some(vp) ==> (forall|r: int|
            0 <= r < p.unnamed_required.len() ==> (#[trigger] p.unnamed_required[r]).index
                < vp.index) && (forall|o: int|
            0 <= o < p.unnamed_optional.len() ==> (#[trigger] p.unnamed_optional[o]).index
                < vp.index)),
    decreases fields.len() - i,
{
    if i < fields.len() {
        match crate::struct_meta::spec_param_of_field(i, fields[i]) {
            Ok(prm) => {
                match prm {
                    crate::struct_meta::SParam::PUnnamed { index, ty, is_option, is_vec } => {
                        let up = UnnamedParam { index: index as usize, ty, is_option, is_vec };
                        assert(up.index == i);
                        if acc.unnamed_variadic is Some {
                        } else if is_vec {
                            lemma_positional_order_from(
                                fields,
                                i + 1,
                                SParams { unnamed_variadic: Some(up), ..acc },
                            );
                        } else if is_option {
                            let opt2 = acc.unnamed_optional.push(up);
                            assert(forall|o: int|
                                0 <= o < opt2.len() ==> (#[trigger] opt2[o]).index < i + 1) by {
                                assert(forall|o: int|
                                    0 <= o < acc.unnamed_optional.len() ==> opt2[o]
                                        == acc.unnamed_optional[o]);
                                assert(opt2[opt2.len() - 1] == up);
                            }
                            assert(forall|r: int, o: int|
                                0 <= r < acc.unnamed_required.len() && 0 <= o < opt2.len() ==> (
                                #[trigger] acc.unnamed_required[r]).index < (
                                #[trigger] opt2[o]).index) by {
                                assert(forall|o: int|
                                    0 <= o < acc.unnamed_optional.len() ==> opt2[o]
                                        == acc.unnamed_optional[o]);
                                assert(opt2[opt2.len() - 1] == up);
                            }
                            lemma_positional_order_from(
                                fields,
                                i + 1,
                                SParams { unnamed_optional: opt2, ..acc },
                            );
                        } else if acc.unnamed_optional.len() > 0 {
                        } else {
                            let req2 = acc.unnamed_required.push(up);
                            assert(forall|r: int|
                                0 <= r < req2.len() ==> (#[trigger] req2[r]).index < i + 1) by {
                                assert(forall|r: int|
                                    0 <= r < acc.unnamed_required.len() ==> req2[r]
                                        == acc.unnamed_required[r]);
                                assert(req2[req2.len() - 1] == up);
                            }
                            assert(forall|r: int, o: int|
                                0 <= r < req2.len() && 0 <= o < acc.unnamed_optional.len() ==> (
                                #[trigger] req2[r]).index < (
                                #[trigger] acc.unnamed_optional[o]).index) by {
                                assert(acc.unnamed_optional.len() == 0);
                            }
                            lemma_positional_order_from(
                                fields,
                                i + 1,
                                SParams { unnamed_required: req2, ..acc },
                            );
                        }
                    },
                    crate::struct_meta::SParam::PNamed { index, name, nty, is_option } => {
                        if !crate::struct_meta::spec_named_contains(acc.named, name) {
                            lemma_positional_order_from(
                                fields,
                                i + 1,
                                SParams {
                                    named: acc.named.push(
                                        crate::struct_meta::SNamedParam {
                                            index,
                                            name,
                                            nty,
                                            is_option,
                                        },
                                    ),
                                    ..acc
                                },
                            );
                        }
                    },
                    crate::struct_meta::SParam::PRest { index, nty } => {
                        if acc.rest is None {
                            lemma_positional_order_from(
                                fields,
                                i + 1,
                                SParams {
                                    rest: Some(
                                        crate::struct_meta::RestParam {
                                            index: index as usize,
                                            nty,
                                        },
                                    ),
                                    ..acc
                                },
                            );
                        }
                    },
                }
            },
            Err(_) => {},
        }
    }
}

/// Flag defaulting: a field backed only by a flag-shaped named parameter
/// yields its false or empty default when the parameter was never supplied,
/// and true, or the recorded position of its name, when it was.
pub proof fn lemma_flag_default(
    params: SParams,
    temps: Seq<Option<(int, SArgCore)>>,
    map: Seq<(Seq<char>, SMapVal)>,
    j: int,
    k: int,
)
    requires
        spec_find_up(params.unnamed_required, j, 0) is None,
        spec_find_up(params.unnamed_optional, j, 0) is None,
        params.unnamed_variadic matches Some(vp) ==> vp.index != j,
        params.rest matches Some(rp) ==> rp.index != j,
        spec_find_np(params.named, j, 0) == Some(k),
        0 <= k < params.named.len(),
        !params.named[k].is_option,
        0 <= j < temps.len(),
    ensures
        params.named[k].nty is NBool && temps[j] is None ==> spec_field_arg(params, temps, map, j)
            == Ok::<SArg, SpecErr>(SArg::BoolArg(false)),
        params.named[k].nty is NBool && temps[j] is Some ==> spec_field_arg(
            params,
            temps,
            map,
            j,
        ) == Ok::<SArg, SpecErr>(SArg::BoolArg(true)),
        params.named[k].nty is NFlag && temps[j] is None ==> spec_field_arg(params, temps, map, j)
            == Ok::<SArg, SpecErr>(SArg::FlagArg(None)),
        params.named[k].nty is NFlag ==> (temps[j] matches Some((s, c)) ==> spec_field_arg(
            params,
            temps,
            map,
            j,
        ) == Ok::<SArg, SpecErr>(SArg::FlagArg(Some(s)))),
{
}

/// Named-argument duplicate detection: when the cursor commits to a named
/// parameter that was already supplied, the loop fails with the
/// specified-more-than-once error, never overwriting the earlier value.
pub proof fn lemma_duplicate_named(
    params: SParams,
    toks: Seq<Tok>,
    pos: int,
    temps: Seq<Option<(int, SArgCore)>>,
    map: Seq<(Seq<char>, SMapVal)>,
    ui: int,
    named_used: bool,
)
    requires
        0 <= pos < toks.len(),
        spec_try_name(params, toks, pos) matches STryName::Committed { rest, k, span, name, shape, newpos } && !rest
            && 0 <= k < params.named.len() && 0 <= params.named[k].index < temps.len()
            && temps[params.named[k].index] is Some,
    ensures
        spec_attr_loop(params, toks, pos, temps, map, ui, named_used, false) matches Err(e)
            && e.msg == "parameter `"@ + (match spec_try_name(params, toks, pos) {
            STryName::Committed { k, .. } => params.named[k].name,
            _ => Seq::empty(),
        }) + "` specified more than once"@,
{
}

/// Rest-map absorption: an undeclared name committed to the rest map in a
/// shape it accepts is recorded under its own name text — a duplicate key
/// fails, and a recognized name is never the one absorbed.
#[verifier::rlimit(100)]
pub proof fn lemma_rest_absorption(
    params: SParams,
    toks: Seq<Tok>,
    pos: int,
    temps: Seq<Option<(int, SArgCore)>>,
    map: Seq<(Seq<char>, SMapVal)>,
    ui: int,
    named_used: bool,
)
    requires
        0 <= pos < toks.len(),
        spec_try_name(params, toks, pos) matches STryName::Committed { rest, k, name, shape, span, newpos } && rest,
        params.rest is Some,
    ensures
        // a recognized name in the committed shape is never absorbed
        spec_try_name(params, toks, pos) matches STryName::Committed { name, shape, rest, k, span, newpos }
            ==> spec_find_shape(params.named, shape, name, 0) is None,
        // a duplicate key fails with the specified-more-than-once error
        (spec_try_name(params, toks, pos) matches STryName::Committed { name, span, rest, k, shape, newpos }
            && spec_map_contains(map, name)) ==> (spec_attr_loop(
            params,
            toks,
            pos,
            temps,
            map,
            ui,
            named_used,
            false,
        ) matches Err(e) && e.msg == "parameter `"@ + (match spec_try_name(params, toks, pos) {
            STryName::Committed { name, .. } => name,
            _ => Seq::empty(),
        }) + "` specified more than once"@),
        // a fresh key is recorded under the name text, continuing after the
        // absorbed payload
        (spec_try_name(params, toks, pos) matches STryName::Committed { name, shape, span, newpos, rest, k }
            && !spec_map_contains(map, name) && (spec_payload(
            params.rest->0.nty,
            shape,
            toks,
            newpos,
        ) matches Ok(cp))) ==> spec_attr_loop(params, toks, pos, temps, map, ui, named_used, false)
            == spec_attr_loop(
            params,
            toks,
            (match spec_payload(params.rest->0.nty, (match spec_try_name(params, toks, pos) {
                STryName::Committed { shape, .. } => shape,
                _ => ArgShape::AFlag,
            }), toks, (match spec_try_name(params, toks, pos) {
                STryName::Committed { newpos, .. } => newpos,
                _ => 0,
            })) {
                Ok((_, p2)) => p2,
                Err(_) => 0,
            }),
            temps,
            map.push(
                (
                    (match spec_try_name(params, toks, pos) {
                        STryName::Committed { name, .. } => name,
                        _ => Seq::empty(),
                    }),
                    (match spec_try_name(params, toks, pos) {
                        STryName::Committed { shape, span, newpos, .. } => (match spec_payload(
                            params.rest->0.nty,
                            shape,
                            toks,
                            newpos,
                        ) {
                            Ok((core, _)) => (match shape {
                                ArgShape::AFlag => SMapVal::MSpan(span),
                                ArgShape::ANameValue => SMapVal::MNV(span, core),
                                ArgShape::ANameArgs => SMapVal::MNA(span, core),
                            }),
                            Err(_) => SMapVal::MSpan(0),
                        }),
                        _ => SMapVal::MSpan(0),
                    }),
                ),
            ),
            ui,
            true,
            true,
        ),
{
    if let STryName::Committed { rest, k, name, shape, span, newpos } = spec_try_name(
        params,
        toks,
        pos,
    ) {
        crate::struct_meta::lemma_try_name_bounds(params, toks, pos);
        if params.rest is Some {
            crate::struct_meta::lemma_payload_bounds(params.rest->0.nty, shape, toks, newpos);
        }
    }
}

/// A single-token read: the token shape a plain value read of the type
/// accepts.
pub open spec fn rt_tok_ok(ty: crate::schema::Ty, t: Tok) -> bool {
    match ty {
        crate::schema::Ty::Bool => crate::parse::tok_is_bool_lit(t),
        crate::schema::Ty::LitInt => crate::parse::tok_is_int_lit(t),
        crate::schema::Ty::LitStr => crate::parse::tok_is_str_lit(t),
        crate::schema::Ty::IdentTy => crate::parse::tok_is_plain_ident(t),
        crate::schema::Ty::PunctTy(c) => crate::parse::tok_is_punct_char(t, c),
        _ => false,
    }
}

/// A value well-formed for one step of a serializable shape: a plain field
/// holds exactly one token its type reads back, and a scope-opening field
/// holds a delimiter its group requirement accepts.
pub open spec fn rt_step_ok(fd: Seq<FieldDef>, s: SStep, vals: Seq<FVal>) -> bool
    decreases s, 1int,
{
    match s {
        SStep::Read(i) => {
            &&& 0 <= i < fd.len()
            &&& i < vals.len()
            &&& !fd[i].terminated
            &&& !fd[i].any
            &&& vals[i] matches FVal::Toks(ts) && ts.len() == 1 && rt_tok_ok(fd[i].ty, ts[0])
        },
        SStep::Group(i, kind, body) => {
            &&& 0 <= i < vals.len()
            &&& (match kind {
                crate::scope::GroupKind::Fixed(dd) => vals[i] == FVal::Delim(dd),
                crate::scope::GroupKind::AnyDelim => vals[i] matches FVal::Delim(d) && d
                    !is Invisible,
            })
            &&& rt_ok(fd, body, vals)
        },
    }
}

/// A value well-formed for a whole step list.
pub open spec fn rt_ok(fd: Seq<FieldDef>, ss: Seq<SStep>, vals: Seq<FVal>) -> bool
    decreases ss, 0int,
{
    if ss.len() == 0 {
        true
    } else {
        rt_step_ok(fd, ss[0], vals) && rt_ok(fd, ss.drop_first(), vals)
    }
}

/// Whether a step list assigns field `j`.
pub open spec fn writes_step(s: SStep, j: int) -> bool
    decreases s, 1int,
{
    match s {
        SStep::Read(i) => i == j,
        SStep::Group(i, _, body) => i == j || writes(body, j),
    }
}

/// Whether a step list assigns field `j`.
pub open spec fn writes(ss: Seq<SStep>, j: int) -> bool
    decreases ss, 0int,
{
    if ss.len() == 0 {
        false
    } else {
        writes_step(ss[0], j) || writes(ss.drop_first(), j)
    }
}

/// Parsing a step list from an index is parsing the remaining steps from
/// the start.
proof fn lemma_parse_steps_shift(
    fd: Seq<FieldDef>,
    ss: Seq<SStep>,
    k: int,
    toks: Seq<Tok>,
    pos: int,
    vcur: Seq<FVal>,
)
    requires
        0 <= k <= ss.len(),
    ensures
        crate::parse::spec_parse_steps(fd, ss, k, toks, pos, vcur) == crate::parse::spec_parse_steps(
            fd,
            ss.skip(k),
            0,
            toks,
            pos,
            vcur,
        ),
    decreases ss.len() - k,
{
    if k < ss.len() {
        assert(ss.skip(k)[0] == ss[k]);
        assert(ss.skip(k).len() == ss.len() - k);
        match ss[k] {
            SStep::Read(i) => {
                if 0 <= i < fd.len() {
                    match crate::parse::spec_read_field(fd[i], toks, pos) {
                        Ok(p) => {
                            let consumed = if 0 <= pos <= p <= toks.len() {
                                toks.subrange(pos, p)
                            } else {
                                Seq::empty()
                            };
                            let vals2 = if 0 <= i < vcur.len() {
                                vcur.update(i, FVal::Toks(consumed))
                            } else {
                                vcur
                            };
                            lemma_parse_steps_shift(fd, ss, k + 1, toks, p, vals2);
                            lemma_parse_steps_shift(fd, ss.skip(k), 1, toks, p, vals2);
                            assert(ss.skip(k).skip(1) =~= ss.skip(k + 1));
                        },
                        Err(_) => {},
                    }
                }
            },
            SStep::Group(i, kind, body) => {
                if 0 <= pos < toks.len() && (toks[pos] matches Tok::Group(d, inner)
                    && crate::parse::delim_matches(kind, d)) {
                    let inner = crate::parse::tok_group_body(toks[pos]);
                    match crate::parse::spec_parse_steps(fd, body, 0, inner, 0, vcur) {
                        Ok((pin, vals2)) => {
                            if pin == inner.len() {
                                let vals3 = if 0 <= i < vals2.len() {
                                    vals2.update(
                                        i,
                                        FVal::Delim(crate::parse::tok_group_delim(toks[pos])->0),
                                    )
                                } else {
                                    vals2
                                };
                                lemma_parse_steps_shift(fd, ss, k + 1, toks, pos + 1, vals3);
                                lemma_parse_steps_shift(fd, ss.skip(k), 1, toks, pos + 1, vals3);
                                assert(ss.skip(k).skip(1) =~= ss.skip(k + 1));
                            }
                        },
                        Err(_) => {},
                    }
                }
            },
        }
    } else {
        assert(ss.skip(k).len() == 0);
    }
}

/// The round trip of one step list: parsing the tokens a well-formed value
/// serializes to consumes exactly those tokens and recovers the value at
/// every field the steps assign.
proof fn lemma_rt_steps(
    fd: Seq<FieldDef>,
    ss: Seq<SStep>,
    toks: Seq<Tok>,
    pos: int,
    vcur: Seq<FVal>,
    vals: Seq<FVal>,
)
    requires
        rt_ok(fd, ss, vals),
        vcur.len() == vals.len(),
        0 <= pos,
        pos + crate::to_tokens::spec_ser_steps(ss, vals).len() <= toks.len(),
        toks.subrange(pos, pos + crate::to_tokens::spec_ser_steps(ss, vals).len())
            == crate::to_tokens::spec_ser_steps(ss, vals),
    ensures
        crate::parse::spec_parse_steps(fd, ss, 0, toks, pos, vcur) matches Ok(pw) && pw.0 == pos
            + crate::to_tokens::spec_ser_steps(ss, vals).len() && pw.1.len() == vcur.len() && (
        forall|j: int|
            0 <= j < vcur.len() ==> pw.1[j] == (if writes(ss, j) {
                vals[j]
            } else {
                vcur[j]
            })),
    decreases ss,
{
    let e = crate::to_tokens::spec_ser_steps(ss, vals);
    if ss.len() == 0 {
        assert(e.len() == 0);
    } else {
        let e0 = crate::to_tokens::spec_ser_step(ss[0], vals);
        let rest = ss.drop_first();
        let e_rest = crate::to_tokens::spec_ser_steps(rest, vals);
        assert(e == e0 + e_rest);
        assert(rt_step_ok(fd, ss[0], vals));
        match ss[0] {
            SStep::Read(i) => {
                assert(0 <= i < vals.len() && vals[i] is Toks);
                let ts = vals[i]->Toks_0;
                let t = ts[0];
                assert(ts.len() == 1);
                assert(e0 == ts);
                assert(e0 =~= seq![t]);
                assert(toks[pos] == e[0]);
                assert(e[0] == t);
                assert(crate::parse::spec_read_field(fd[i], toks, pos) == crate::parse::spec_parse_value(
                    fd[i].ty,
                    toks,
                    pos,
                ));
                assert(crate::parse::spec_parse_value(fd[i].ty, toks, pos) == Ok::<int, crate::err::SpecErr>(
                    pos + 1,
                ));
                let consumed = toks.subrange(pos, pos + 1);
                assert(consumed =~= seq![t]);
                assert(FVal::Toks(consumed) == vals[i]) by {
                    assert(consumed =~= ts);
                }
                let vcur2 = vcur.update(i, FVal::Toks(consumed));
                assert(vcur2[i] == vals[i]);
                lemma_parse_steps_shift(fd, ss, 1, toks, pos + 1, vcur2);
                assert(ss.skip(1) =~= rest);
                assert(decreases_to!(ss => rest)) by {
                    assert(rest =~= ss.subrange(1, ss.len() as int));
                }
                assert(toks.subrange(pos + 1, pos + 1 + e_rest.len()) =~= e_rest) by {
                    assert(forall|m: int|
                        0 <= m < e_rest.len() ==> toks[pos + 1 + m] == e[1 + m] && e[1 + m]
                            == e_rest[m]);
                }
                lemma_rt_steps(fd, rest, toks, pos + 1, vcur2, vals);
                assert(crate::parse::spec_parse_steps(fd, ss, 0, toks, pos, vcur)
                    == crate::parse::spec_parse_steps(fd, rest, 0, toks, pos + 1, vcur2));
                let pw = crate::parse::spec_parse_steps(fd, rest, 0, toks, pos + 1, vcur2)->Ok_0;
                assert forall|j: int| 0 <= j < vcur.len() implies pw.1[j] == (if writes(ss, j) {
                    vals[j]
                } else {
                    vcur[j]
                }) by {
                    assert(writes(ss, j) == (writes_step(ss[0], j) || writes(rest, j)));
                    if !writes(rest, j) && j == i {
                        assert(pw.1[j] == vcur2[i]);
                    }
                }
            },
            SStep::Group(i, kind, body) => {
                let e_body = crate::to_tokens::spec_ser_steps(body, vals);
                let d = match kind {
                    crate::scope::GroupKind::Fixed(dd) => dd,
                    crate::scope::GroupKind::AnyDelim => vals[i]->Delim_0,
                };
                assert(e0 =~= seq![Tok::Group(d, e_body)]);
                assert(toks[pos] == Tok::Group(d, e_body));
                assert(crate::parse::delim_matches(kind, d));
                assert(e_body.subrange(0, e_body.len() as int) =~= e_body);
                assert(decreases_to!(ss => body)) by {
                    assert(decreases_to!(ss => ss[0]));
                }
                lemma_rt_steps(fd, body, e_body, 0, vcur, vals);
                let w_in = crate::parse::spec_parse_steps(fd, body, 0, e_body, 0, vcur)->Ok_0.1;
                let vals3 = w_in.update(i, FVal::Delim(d));
                assert(vals3[i] == vals[i]);
                lemma_parse_steps_shift(fd, ss, 1, toks, pos + 1, vals3);
                assert(ss.skip(1) =~= rest);
                assert(decreases_to!(ss => rest)) by {
                    assert(rest =~= ss.subrange(1, ss.len() as int));
                }
                assert(toks.subrange(pos + 1, pos + 1 + e_rest.len()) =~= e_rest) by {
                    assert(forall|m: int|
                        0 <= m < e_rest.len() ==> toks[pos + 1 + m] == e[1 + m] && e[1 + m]
                            == e_rest[m]);
                }
                lemma_rt_steps(fd, rest, toks, pos + 1, vals3, vals);
                assert(crate::parse::spec_parse_steps(fd, ss, 0, toks, pos, vcur)
                    == crate::parse::spec_parse_steps(fd, rest, 0, toks, pos + 1, vals3));
                let pw = crate::parse::spec_parse_steps(fd, rest, 0, toks, pos + 1, vals3)->Ok_0;
                assert(vals3.len() == vcur.len());
                assert forall|j: int| 0 <= j < vcur.len() implies pw.1[j] == (if writes(ss, j) {
                    vals[j]
                } else {
                    vcur[j]
                }) by {
                    assert(writes(ss, j) == (writes_step(ss[0], j) || writes(rest, j)));
                    if !writes(rest, j) {
                        assert(pw.1[j] == vals3[j]);
                        if j == i {
                            assert(vals3[j] == vals[i]);
                        } else if writes(body, j) {
                            assert(vals3[j] == w_in[j]);
                            assert(w_in[j] == vals[j]);
                        } else {
                            assert(vals3[j] == w_in[j]);
                            assert(w_in[j] == vcur[j]);
                        }
                    }
                }
            },
        }
    }
}

/// Delimiter round trip, for the shapes this statement covers: a schema
/// whose first variant parses directly and whose steps read one token per
/// plain field, with arbitrarily nested delimiter groups. Parsing what a
/// well-formed value serializes to recovers the value, provided the steps
/// assign every field. Values with expression, terminated-list or relaxed
/// identifier reads, and enums whose serialized forms another variant also
/// parses, are outside this statement.
pub proof fn lemma_round_trip_direct(
    variants: Seq<VariantDef>,
    plans: Seq<SVariantPlan>,
    vals: Seq<FVal>,
)
    requires
        plans.len() >= 1,
        variants.len() >= 1,
        plans[0].mode is Direct,
        rt_ok(variants[0].fields@, plans[0].steps, vals),
        vals.len() == variants[0].fields@.len(),
        forall|j: int| 0 <= j < vals.len() ==> writes(plans[0].steps, j),
    ensures
        crate::parse::spec_run_parse(
            variants,
            plans,
            crate::to_tokens::spec_ser_steps(plans[0].steps, vals),
        ) matches Ok(sv) && sv.variant == 0 && sv.fields == vals,
{
    let ss = plans[0].steps;
    let fd = variants[0].fields@;
    let e = crate::to_tokens::spec_ser_steps(ss, vals);
    let dv = crate::parse::spec_default_vals(fd.len());
    assert(e.subrange(0, e.len() as int) =~= e);
    lemma_rt_steps(fd, ss, e, 0, dv, vals);
    let w = crate::parse::spec_parse_steps(fd, ss, 0, e, 0, dv)->Ok_0.1;
    assert(w =~= vals);
}

/// Assignment distributes over concatenation of step lists.
proof fn lemma_writes_concat(a: Seq<SStep>, b: Seq<SStep>, j: int)
    ensures
        writes(a + b, j) == (writes(a, j) || writes(b, j)),
    decreases a.len(),
{
    if a.len() == 0 {
        assert(a + b =~= b);
    } else {
        assert((a + b).drop_first() =~= a.drop_first() + b);
        assert((a + b)[0] == a[0]);
        lemma_writes_concat(a.drop_first(), b, j);
    }
}

/// Whether the walk state already carries an assignment of field `j`: in
/// the accumulated steps, in a frame's accumulated steps, or as the field
/// that opened a frame.
pub open spec fn state_writes(
    cur: Seq<SStep>,
    stack: Seq<crate::scope::SFrame>,
    j: int,
) -> bool {
    ||| writes(cur, j)
    ||| exists|k: int|
        0 <= k < stack.len() && ((#[trigger] stack[k]).field == j || writes(stack[k].done, j))
}

/// Closing the remaining scopes keeps every assignment the state carries.
proof fn lemma_close_all_writes(cur: Seq<SStep>, stack: Seq<crate::scope::SFrame>, j: int)
    requires
        state_writes(cur, stack, j),
    ensures
        writes(crate::scope::close_all(cur, stack), j),
    decreases stack.len(),
{
    if stack.len() == 0 {
    } else {
        let f = stack.last();
        let g = SStep::Group(f.field, f.kind, cur);
        let cur2 = f.done + seq![g];
        lemma_writes_concat(f.done, seq![g], j);
        assert(writes(seq![g], j) == writes_step(g, j)) by {
            assert(seq![g][0] == g);
            assert(seq![g].drop_first() =~= Seq::<SStep>::empty());
            assert(!writes(Seq::<SStep>::empty(), j));
        }
        if writes(cur, j) || f.field == j || writes(f.done, j) {
            assert(state_writes(cur2, stack.drop_last(), j));
        } else {
            let k = choose|k: int|
                0 <= k < stack.len() && ((#[trigger] stack[k]).field == j || writes(
                    stack[k].done,
                    j,
                ));
            assert(k < stack.len() - 1);
            assert(stack.drop_last()[k] == stack[k]);
            assert(state_writes(cur2, stack.drop_last(), j));
        }
        lemma_close_all_writes(cur2, stack.drop_last(), j);
    }
}

/// Every field the walk has yet to process, and every assignment the state
/// already carries, ends up assigned in the walk's result.
proof fn lemma_walk_writes(
    fs: Seq<crate::scope::FieldShape>,
    i: int,
    jc: int,
    cur: Seq<SStep>,
    stack: Seq<crate::scope::SFrame>,
    opened: bool,
    j: int,
)
    requires
        0 <= i <= fs.len(),
        0 <= jc,
        0 <= j < fs.len(),
        i < fs.len() ==> jc <= fs[i].dirs.len(),
        state_writes(cur, stack, j) || (i <= j < fs.len()),
        opened && i < fs.len() ==> state_writes(cur, stack, i),
    ensures
        crate::scope::walk_shape(fs, i, jc, cur, stack, opened) matches Ok(ss) ==> writes(ss, j),
    decreases fs.len() - i, fs[i].dirs.len() - jc,
{
    if i >= fs.len() {
        if crate::scope::walk_shape(fs, i, jc, cur, stack, opened) is Ok {
            lemma_close_all_writes(cur, stack, j);
        }
    } else if jc >= fs[i].dirs.len() {
        let cur2 = if opened {
            cur
        } else {
            cur + seq![SStep::Read(i)]
        };
        if !opened {
            lemma_writes_concat(cur, seq![SStep::Read(i)], j);
            assert(writes(seq![SStep::Read(i)], j) == (i == j)) by {
                assert(seq![SStep::Read(i)][0] == SStep::Read(i));
                assert(seq![SStep::Read(i)].drop_first() =~= Seq::<SStep>::empty());
                assert(!writes(Seq::<SStep>::empty(), j));
                assert(writes_step(SStep::Read(i), j) == (i == j));
            }
        }
        assert(state_writes(cur2, stack, j) || (i + 1 <= j < fs.len())) by {
            if j == i {
                if opened {
                    assert(state_writes(cur, stack, i));
                } else {
                    assert(writes(cur2, i));
                }
            }
        }
        lemma_walk_writes(fs, i + 1, 0, cur2, stack, false, j);
    } else {
        let c = fs[i].dirs[jc];
        if crate::scope::is_open_char(c) {
            if !opened {
                let kind = if fs[i].any_delim {
                    crate::scope::GroupKind::AnyDelim
                } else {
                    crate::scope::GroupKind::Fixed(crate::scope::spec_delim_of_open(c))
                };
                let frame = crate::scope::SFrame { field: i, open: c, kind, done: cur };
                let stack2 = stack.push(frame);
                assert(stack2[stack2.len() - 1] == frame);
                assert(state_writes(Seq::empty(), stack2, i));
                assert(state_writes(Seq::empty(), stack2, j) || (i <= j < fs.len())) by {
                    if state_writes(cur, stack, j) {
                        if writes(cur, j) {
                        } else {
                            let k = choose|k: int|
                                0 <= k < stack.len() && ((#[trigger] stack[k]).field == j
                                    || writes(stack[k].done, j));
                            assert(stack2[k] == stack[k]);
                        }
                    }
                }
                lemma_walk_writes(fs, i, jc + 1, Seq::empty(), stack2, true, j);
            }
        } else if crate::scope::is_close_char(c) {
            if stack.len() > 0 {
                let f = stack.last();
                if crate::scope::spec_to_close(f.open) == c {
                    let g = SStep::Group(f.field, f.kind, cur);
                    let cur2 = f.done + seq![g];
                    let stack2 = stack.drop_last();
                    lemma_close_step_preserves(cur, stack, f, g, cur2, stack2, j);
                    if opened {
                        lemma_close_step_preserves(cur, stack, f, g, cur2, stack2, i);
                    }
                    lemma_walk_writes(fs, i, jc + 1, cur2, stack2, opened, j);
                }
            }
        }
    }
}

/// Popping a frame and wrapping the accumulated steps into its group keeps
/// every assignment the state carries.
proof fn lemma_close_step_preserves(
    cur: Seq<SStep>,
    stack: Seq<crate::scope::SFrame>,
    f: crate::scope::SFrame,
    g: SStep,
    cur2: Seq<SStep>,
    stack2: Seq<crate::scope::SFrame>,
    j: int,
)
    requires
        stack.len() > 0,
        f == stack.last(),
        g == SStep::Group(f.field, f.kind, cur),
        cur2 == f.done + seq![g],
        stack2 == stack.drop_last(),
    ensures
        state_writes(cur, stack, j) ==> state_writes(cur2, stack2, j),
{
    if state_writes(cur, stack, j) {
        lemma_writes_concat(f.done, seq![g], j);
        assert(writes(seq![g], j) == writes_step(g, j)) by {
            assert(seq![g][0] == g);
            assert(seq![g].drop_first() =~= Seq::<SStep>::empty());
            assert(!writes(Seq::<SStep>::empty(), j));
        }
        if writes(cur, j) || f.field == j || writes(f.done, j) {
            assert(writes(cur2, j));
        } else {
            let k = choose|k: int|
                0 <= k < stack.len() && ((#[trigger] stack[k]).field == j || writes(
                    stack[k].done,
                    j,
                ));
            assert(k < stack.len() - 1);
            assert(stack2[k] == stack[k]);
        }
    }
}

/// The shape of a field list assigns every field: each field contributes
/// its read step or its group step to the tree.
pub proof fn lemma_shape_writes_all(fields: Seq<FieldDef>)
    ensures
        spec_shape(fields_shape(fields)) matches Ok(ss) ==> (forall|j: int|
            0 <= j < fields.len() ==> writes(ss, j)),
{
    if spec_shape(fields_shape(fields)) is Ok {
        assert forall|j: int| 0 <= j < fields.len() implies writes(
            spec_shape(fields_shape(fields))->Ok_0,
            j,
        ) by {
            lemma_walk_writes(
                fields_shape(fields),
                0,
                0,
                Seq::empty(),
                Seq::empty(),
                false,
                j,
            );
        }
    }
}

/// Delimiter round trip for a generated struct parser: for a single-variant
/// struct schema whose parser plan generates, and a value well-formed for
/// its steps, parsing the serialized tokens recovers the value. The
/// assignment of every field comes from the shape itself.
pub proof fn lemma_round_trip_struct_schema(schema: crate::schema::SchemaDef, vals: Seq<FVal>)
    requires
        schema.kind is Struct,
        schema.variants@.len() == 1,
        crate::parse::spec_gen_parse(schema) is Ok,
        rt_ok(
            schema.variants@[0].fields@,
            crate::parse::spec_gen_parse(schema)->Ok_0[0].steps,
            vals,
        ),
        vals.len() == schema.variants@[0].fields@.len(),
    ensures
        crate::parse::spec_run_parse(
            schema.variants@,
            crate::parse::spec_gen_parse(schema)->Ok_0,
            crate::to_tokens::spec_ser_steps(
                crate::parse::spec_gen_parse(schema)->Ok_0[0].steps,
                vals,
            ),
        ) matches Ok(sv) && sv.variant == 0 && sv.fields == vals,
{
    let plans = crate::parse::spec_gen_parse(schema)->Ok_0;
    let vd = schema.variants@[0];
    assert(crate::parse::spec_gen_variants(schema.variants@, 0, false, false) is Ok);
    assert(crate::parse::spec_gen_variants(schema.variants@, 1, false, false) == Ok::<
        Seq<SVariantPlan>,
        SpecErr,
    >(Seq::empty()));
    let sp = crate::parse::spec_gen_variant(vd, false)->Ok_0;
    assert(plans == seq![SVariantPlan { mode: crate::parse::SMode::Direct, steps: sp.0 }]
        + Seq::<SVariantPlan>::empty());
    assert(plans.len() == 1);
    assert(plans[0].mode is Direct);
    assert(plans[0].steps == sp.0);
    assert(spec_shape(fields_shape(vd.fields@)) == Ok::<Seq<SStep>, crate::scope::ScopeErr>(sp.0));
    lemma_shape_writes_all(vd.fields@);
    assert(fields_shape(vd.fields@).len() == vd.fields@.len());
    lemma_round_trip_direct(schema.variants@, plans, vals);
}

} // verus!
