//! The serializer generator: turns a schema into a per-variant emission plan,
//! and runs such a plan on a value, re-emitting the value's token sequence.
//! Fields emit their own tokens in declaration order; a field that opens a
//! delimiter scope instead emits a group whose body is the emission of the
//! enclosed fields. All validation happens at generation time; running a plan
//! cannot fail.

use vstd::prelude::*;
use vstd::string::StringExecFns;
use crate::err::MErr;
use crate::schema::{SchemaDef, SchemaKind};
use crate::scope::{
    build_shape, fields_shape, spec_shape, spec_to_close, steps_view, GroupKind, SStep, ScopeErr,
    ScopeErrKind, Step, lemma_steps_view_index,
};
use crate::token::{Delim, Token, Tok, token_view, toks_view, clone_tokens, lemma_toks_view_concat,
    lemma_toks_view_push};
use crate::value::{FVal, FieldVal, SVal, VariantVal, fval_view, fvals_view};

verus! {

/// A generated serializer: one step tree per variant.
#[derive(PartialEq, Eq, Debug)]
pub struct SerPlan {
    pub variants: Vec<Vec<Step>>,
}

/// The shapes of all variants of a schema, or the first scope error together
/// with the index of the variant it occurred in.
pub open spec fn spec_shapes(
    vs: Seq<crate::schema::VariantDef>,
    i: int,
) -> Result<Seq<Seq<SStep>>, (int, ScopeErr)>
    decreases vs.len() - i,
    when 0 <= i <= vs.len()
{
    if i >= vs.len() {
        Ok(Seq::empty())
    } else {
        match spec_shape(fields_shape(vs[i].fields@)) {
            Ok(ss) => match spec_shapes(vs, i + 1) {
                Ok(rest) => Ok(seq![ss] + rest),
                Err(e) => Err(e),
            },
            Err(e) => Err((i, e)),
        }
    }
}

/// The message of a scope error reported by the serializer generator.
pub open spec fn ser_scope_msg(k: ScopeErrKind) -> Seq<char> {
    match k {
        ScopeErrKind::BadChar(c) => "expected '(', ')', '[', ']', '{' or '}', found `"@ + seq![c]
            + "`."@,
        ScopeErrKind::Mismatch(Some(o), c) => "mismatched closing delimiter expected `"@ + seq![
            spec_to_close(o),
        ] + "`, found `"@ + seq![c] + "`."@,
        ScopeErrKind::Mismatch(None, c) => "mismatched closing delimiter `"@ + seq![c] + "`."@,
        ScopeErrKind::DoubleOpen => "cannot open more than one delimiter scope from one field."@,
    }
}

/// Builds the serializer error for a scope error.
pub fn ser_scope_err(v: ScopeErr) -> (r: MErr)
    ensures
        r.pos == v.field,
        r.msg@ == ser_scope_msg(v.kind),
{
    match v.kind {
        ScopeErrKind::BadChar(c) => MErr::around_char(
            v.field,
            "expected '(', ')', '[', ']', '{' or '}', found `",
            c,
            "`.",
        ),
        ScopeErrKind::Mismatch(Some(o), c) => {
            let cc: char = match o {
                '(' => ')',
                '[' => ']',
                _ => '}',
            };
            MErr::around_char2(v.field, "mismatched closing delimiter expected `", cc, "`, found `", c, "`.")
        },
        ScopeErrKind::Mismatch(None, c) => MErr::around_char(
            v.field,
            "mismatched closing delimiter `",
            c,
            "`.",
        ),
        ScopeErrKind::DoubleOpen => MErr::new(
            v.field,
            "cannot open more than one delimiter scope from one field.",
        ),
    }
}

/// Generates the serializer plan for a schema: the shape tree of every
/// variant. A union schema and any delimiter-scope error abort generation.
pub fn gen_to_tokens(schema: &SchemaDef) -> (r: Result<SerPlan, MErr>)
    ensures
        (schema.kind is Union ==> (r matches Err(e) && e.msg@ == "Not supported for union."@)),
        (schema.kind !is Union ==> match spec_shapes(schema.variants@, 0) {
            Ok(shapes) => (if schema.to_tokens_dump {
                r matches Err(me) && me.pos == 0 && me.msg@ == "macro result: "@
                    + crate::scope::spec_render_shapes(shapes, 0)
            } else {
                r matches Ok(plan) && plan.variants@.len() == shapes.len() && (forall|v: int|
                    0 <= v < shapes.len() ==> steps_view((#[trigger] plan.variants@[v])@)
                        == shapes[v])
            }),
            Err((v, e)) => (r matches Err(me) && me.pos == e.field && me.msg@ == ser_scope_msg(
                e.kind,
            )),
        }),
{
    if matches!(schema.kind, SchemaKind::Union) {
        return Err(MErr::new(0, "Not supported for union."));
    }
    let ghost vs = schema.variants@;
    let mut variants: Vec<Vec<Step>> = Vec::new();
    let ghost mut prefix: Seq<Seq<SStep>> = Seq::empty();
    let mut i: usize = 0;
    while i < schema.variants.len()
        invariant
            0 <= i <= vs.len(),
            vs == schema.variants@,
            schema.kind !is Union,
            variants@.len() == i,
            prefix.len() == i,
            forall|v: int| 0 <= v < i ==> steps_view((#[trigger] variants@[v])@) == prefix[v],
            (spec_shapes(vs, i as int) is Ok ==> spec_shapes(vs, 0) is Ok && spec_shapes(
                vs,
                0,
            )->Ok_0 == prefix + spec_shapes(vs, i as int)->Ok_0),
            (spec_shapes(vs, i as int) is Err ==> spec_shapes(vs, 0) == spec_shapes(
                vs,
                i as int,
            )),
        decreases vs.len() - i,
    {
        match build_shape(&schema.variants[i].fields) {
            Ok(steps) => {
                let ghost ss = steps_view(steps@);
                let ghost old_prefix = prefix;
                let ghost old_variants = variants@;
                variants.push(steps);
                proof {
                    prefix = prefix + seq![ss];
                    assert forall|v: int| 0 <= v < i + 1 implies steps_view(
                        (#[trigger] variants@[v])@,
                    ) == prefix[v] by {
                        if v < i {
                            assert(variants@[v] == old_variants[v]);
                            assert(steps_view(old_variants[v]@) == old_prefix[v]);
                        }
                    }
                    if spec_shapes(vs, i + 1) is Ok {
                        let rest = spec_shapes(vs, i + 1)->Ok_0;
                        assert(spec_shapes(vs, i as int) == Ok::<
                            Seq<Seq<SStep>>,
                            (int, ScopeErr),
                        >(seq![ss] + rest));
                        assert(old_prefix + (seq![ss] + rest) =~= prefix + rest);
                    }
                    if spec_shapes(vs, i + 1) is Err {
                        assert(spec_shapes(vs, i as int) == spec_shapes(vs, i + 1));
                    }
                }
            },
            Err(e) => {
                proof {
                    assert(spec_shapes(vs, i as int) == Err::<Seq<Seq<SStep>>, (int, ScopeErr)>(
                        (i as int, e),
                    ));
                }
                return Err(ser_scope_err(e));
            },
        }
        i += 1;
    }
    proof {
        assert(spec_shapes(vs, vs.len() as int) == Ok::<Seq<Seq<SStep>>, (int, ScopeErr)>(
            Seq::empty(),
        ));
        assert(prefix + Seq::<Seq<SStep>>::empty() =~= prefix);
    }
    if schema.to_tokens_dump {
        let rendering = crate::scope::render_shapes(&variants, 0);
        proof {
            assert(variants@.map_values(|ss: Vec<Step>| steps_view(ss@)) =~= prefix);
        }
        let mut m = "macro result: ".to_owned();
        m.append(rendering.as_str());
        return Err(MErr { pos: 0, msg: m });
    }
    Ok(SerPlan { variants })
}

/// The token sequence one step emits for a value's fields.
pub open spec fn spec_ser_step(s: SStep, fields: Seq<FVal>) -> Seq<Tok>
    decreases s, 1int,
{
    match s {
        SStep::Read(i) => {
            if 0 <= i < fields.len() && fields[i] is Toks {
                fields[i]->Toks_0
            } else {
                Seq::empty()
            }
        },
        SStep::Group(i, kind, body) => {
            let d = match kind {
                GroupKind::Fixed(d) => d,
                GroupKind::AnyDelim => {
                    if 0 <= i < fields.len() && fields[i] is Delim {
                        fields[i]->Delim_0
                    } else {
                        Delim::Paren
                    }
                },
            };
            seq![Tok::Group(d, spec_ser_steps(body, fields))]
        },
    }
}

/// The token sequence a step list emits for a value's fields.
pub open spec fn spec_ser_steps(ss: Seq<SStep>, fields: Seq<FVal>) -> Seq<Tok>
    decreases ss, 0int,
{
    if ss.len() == 0 {
        Seq::empty()
    } else {
        spec_ser_step(ss[0], fields) + spec_ser_steps(ss.drop_first(), fields)
    }
}

/// The token sequence a serializer plan emits for a value: the emission of
/// the steps of the variant the value holds.
pub open spec fn spec_run_to_tokens(plan: SerPlan, v: SVal) -> Seq<Tok> {
    if 0 <= v.variant < plan.variants@.len() {
        spec_ser_steps(steps_view(plan.variants@[v.variant]@), v.fields)
    } else {
        Seq::empty()
    }
}

/// Runs the steps of a serializer plan on a value's fields.
pub fn run_ser_steps(steps: &Vec<Step>, fields: &Vec<FieldVal>) -> (r: Vec<Token>)
    ensures
        toks_view(r@) == spec_ser_steps(steps_view(steps@), fvals_view(fields@)),
    decreases steps,
{
    let ghost sv = steps_view(steps@);
    let ghost fv = fvals_view(fields@);
    let mut out: Vec<Token> = Vec::new();
    let mut idx: usize = 0;
    proof {
        lemma_steps_view_index(steps@);
        assert(toks_view(out@) =~= Seq::<Tok>::empty());
        assert(sv.skip(0) =~= sv);
        assert(Seq::<Tok>::empty() + spec_ser_steps(sv, fv) =~= spec_ser_steps(sv, fv));
    }
    while idx < steps.len()
        invariant
            0 <= idx <= steps@.len(),
            sv == steps_view(steps@),
            fv == fvals_view(fields@),
            sv.len() == steps@.len(),
            forall|k: int| 0 <= k < steps@.len() ==> sv[k] == crate::scope::step_view(
                #[trigger] steps@[k],
            ),
            toks_view(out@) + spec_ser_steps(sv.skip(idx as int), fv) == spec_ser_steps(sv, fv),
        decreases steps@.len() - idx,
    {
        let ghost out0 = toks_view(out@);
        let ghost emitted = spec_ser_step(sv[idx as int], fv);
        proof {
            assert(sv.skip(idx as int).drop_first() =~= sv.skip(idx as int + 1));
            assert(sv.skip(idx as int)[0] == sv[idx as int]);
            assert(spec_ser_steps(sv.skip(idx as int), fv) == emitted + spec_ser_steps(
                sv.skip(idx as int + 1),
                fv,
            ));
            assert(fv.len() == fields@.len());
        }
        let step = &steps[idx];
        match step {
            Step::Read(i) => {
                if *i < fields.len() {
                    proof {
                        assert(fv[*i as int] == fval_view(fields@[*i as int]));
                    }
                    match &fields[*i] {
                        FieldVal::Toks(ts) => {
                            let mut cloned = clone_tokens(ts);
                            proof {
                                lemma_toks_view_concat(out@, cloned@);
                            }
                            out.append(&mut cloned);
                            proof {
                                assert(toks_view(out@) == out0 + emitted);
                            }
                        },
                        FieldVal::Delim(_) => {
                            proof {
                                assert(emitted =~= Seq::<Tok>::empty());
                                assert(toks_view(out@) =~= out0 + emitted);
                            }
                        },
                    }
                } else {
                    proof {
                        assert(emitted =~= Seq::<Tok>::empty());
                        assert(toks_view(out@) =~= out0 + emitted);
                    }
                }
            },
            Step::Group(i, kind, body) => {
                proof {
                    broadcast use vstd::std_specs::vec::axiom_vec_decreases_to_view;

                    assert(decreases_to!(steps@ => steps@[idx as int]));
                    assert(decreases_to!(steps@[idx as int] => *body));
                }
                let inner = run_ser_steps(body, fields);
                let d = match kind {
                    GroupKind::Fixed(d) => *d,
                    GroupKind::AnyDelim => {
                        if *i < fields.len() {
                            proof {
                                assert(fv[*i as int] == fval_view(fields@[*i as int]));
                            }
                            match &fields[*i] {
                                FieldVal::Delim(d) => *d,
                                FieldVal::Toks(_) => Delim::Paren,
                            }
                        } else {
                            Delim::Paren
                        }
                    },
                };
                proof {
                    lemma_toks_view_push(out@, Token::Group(d, inner));
                    assert(token_view(Token::Group(d, inner)) == Tok::Group(
                        d,
                        toks_view(inner@),
                    ));
                    assert(emitted =~= seq![Tok::Group(d, toks_view(inner@))]);
                }
                out.push(Token::Group(d, inner));
                proof {
                    assert(toks_view(out@) == out0 + emitted);
                }
            },
        }
        proof {
            assert(toks_view(out@) + spec_ser_steps(sv.skip(idx as int + 1), fv) =~= (out0
                + emitted) + spec_ser_steps(sv.skip(idx as int + 1), fv));
            assert((out0 + emitted) + spec_ser_steps(sv.skip(idx as int + 1), fv) =~= out0 + (
            emitted + spec_ser_steps(sv.skip(idx as int + 1), fv)));
        }
        idx += 1;
    }
    proof {
        assert(sv.skip(steps@.len() as int) =~= Seq::<SStep>::empty());
        assert(toks_view(out@) + Seq::<Tok>::empty() =~= toks_view(out@));
    }
    out
}

/// Runs a serializer plan on a value, emitting its token sequence.
pub fn run_to_tokens(plan: &SerPlan, v: &VariantVal) -> (r: Vec<Token>)
    ensures
        toks_view(r@) == spec_run_to_tokens(*plan, v@),
{
    if v.variant < plan.variants.len() {
        run_ser_steps(&plan.variants[v.variant], &v.fields)
    } else {
        Vec::new()
    }
}

} // verus!
