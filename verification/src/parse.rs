//! The parser generator: turns a schema into a per-variant parse plan, and
//! runs such a plan against a token sequence. A struct parses its fields in
//! order; an enum tries its variants in declaration order, each either by
//! speculative parsing against a fork of the cursor, or, when the variant
//! declares lookahead fields, by testing up to three token predicates against
//! the live cursor and committing to the variant when they hold.

use vstd::prelude::*;
use vstd::string::StringExecFns;
use crate::err::{MErr, SpecErr, merr_view};
use crate::keywords::{spec_decimal, usize_to_string};
use crate::schema::{FieldDef, SchemaDef, SchemaKind, Ty, VariantDef};
use crate::scope::{
    build_shape, fields_shape, spec_shape, steps_view, GroupKind, SStep, ScopeErr, ScopeErrKind,
    Step,
};
use crate::token::{Delim, Tok, is_int_lit_text, is_str_lit_text};
use crate::keywords::spec_is_keyword;
use crate::value::{FVal, FieldVal, SVal, VariantVal, fval_view, fvals_view};
use crate::token::{Token, toks_view};

verus! {

/// One lookahead predicate of a variant with peek fields: what the token at
/// the predicate's position must be.
#[derive(Clone, Copy, PartialEq, Eq, Structural, Debug)]
pub enum PeekTest {
    /// An identifier; when the flag is set, reserved words are accepted too.
    PIdent(bool),
    /// A lone punctuation character.
    PPunct(char),
    /// An integer literal.
    PLitInt,
    /// A string literal.
    PLitStr,
    /// A group with the given delimiter requirement.
    PGroup(GroupKind),
}

/// How the generated parser commits to one variant.
#[derive(PartialEq, Eq, Debug)]
pub enum Mode {
    /// Parse the variant against a fork; fall through to the next variant on
    /// failure.
    Fork,
    /// Parse the variant against the live cursor; its failure is the
    /// parser's failure.
    Direct,
    /// Test the predicates against the live cursor; when they all hold,
    /// commit to the variant.
    Peek(Vec<PeekTest>),
}

/// The plan for one variant: how to commit to it and the steps that parse
/// its fields.
#[derive(PartialEq, Eq, Debug)]
pub struct VariantPlan {
    pub mode: Mode,
    pub steps: Vec<Step>,
}

/// A generated parser: one plan per variant, tried in declaration order.
#[derive(PartialEq, Eq, Debug)]
pub struct ParsePlan {
    pub variants: Vec<VariantPlan>,
}

/// The mathematical value of a commitment mode.
pub enum SMode {
    Fork,
    Direct,
    Peek(Seq<PeekTest>),
}

/// Maps a commitment mode to its mathematical value.
pub open spec fn mode_view(m: Mode) -> SMode {
    match m {
        Mode::Fork => SMode::Fork,
        Mode::Direct => SMode::Direct,
        Mode::Peek(ts) => SMode::Peek(ts@),
    }
}

/// The mathematical value of a variant plan.
pub struct SVariantPlan {
    pub mode: SMode,
    pub steps: Seq<SStep>,
}

/// Maps a variant plan to its mathematical value.
pub open spec fn vplan_view(p: VariantPlan) -> SVariantPlan {
    SVariantPlan { mode: mode_view(p.mode), steps: steps_view(p.steps@) }
}

/// The mathematical values of a plan's variants.
pub open spec fn vplans_view(ps: Seq<VariantPlan>) -> Seq<SVariantPlan> {
    ps.map_values(|p: VariantPlan| vplan_view(p))
}

/// The message of a scope error reported by the parser generator.
pub open spec fn parse_scope_msg(k: ScopeErrKind) -> Seq<char> {
    match k {
        ScopeErrKind::BadChar(c) => "expected '(', ')', '[', ']', '{' or '}', found `"@ + seq![c]
            + "`."@,
        ScopeErrKind::Mismatch(_, c) => "mismatched closing delimiter `"@ + seq![c] + "`."@,
        ScopeErrKind::DoubleOpen => "cannot open more than one delimiter scope from one field."@,
    }
}

/// Builds the parser error for a scope error.
pub fn parse_scope_err(v: ScopeErr) -> (r: MErr)
    ensures
        r.pos == v.field,
        r.msg@ == parse_scope_msg(v.kind),
{
    match v.kind {
        ScopeErrKind::BadChar(c) => MErr::around_char(
            v.field,
            "expected '(', ')', '[', ']', '{' or '}', found `",
            c,
            "`.",
        ),
        ScopeErrKind::Mismatch(_, c) => MErr::around_char(
            v.field,
            "mismatched closing delimiter `",
            c,
            "`.",
        ),
        ScopeErrKind::DoubleOpen => MErr::new(
            v.field,
            "cannot open more than one delimiter scope from one field.",
        ),
    }
}

/// Whether a field stands at the root scope of a shape: it appears among the
/// top-level steps.
pub open spec fn spec_is_root(ss: Seq<SStep>, i: int) -> bool {
    exists|k: int|
        0 <= k < ss.len() && (match #[trigger] ss[k] {
            SStep::Read(f) => f == i,
            SStep::Group(f, _, _) => f == i,
        })
}

/// The display form of a field: its name, or its index for a tuple field.
pub open spec fn spec_field_display(f: FieldDef, i: int) -> Seq<char> {
    match f.name {
        Some(n) => n@,
        None => spec_decimal(i as nat),
    }
}

/// The lookahead predicate for a field type, when the type supports one.
pub open spec fn spec_peek_test(ty: Ty, any: bool) -> Option<PeekTest> {
    match ty {
        Ty::IdentTy => Some(PeekTest::PIdent(any)),
        Ty::PunctTy(c) => Some(PeekTest::PPunct(c)),
        Ty::LitInt => Some(PeekTest::PLitInt),
        Ty::LitStr => Some(PeekTest::PLitStr),
        Ty::ParenTok => Some(PeekTest::PGroup(GroupKind::Fixed(Delim::Paren))),
        Ty::BracketTok => Some(PeekTest::PGroup(GroupKind::Fixed(Delim::Bracket))),
        Ty::BraceTok => Some(PeekTest::PGroup(GroupKind::Fixed(Delim::Brace))),
        Ty::MacroDelim => Some(PeekTest::PGroup(GroupKind::AnyDelim)),
        _ => None,
    }
}

/// The lookahead-legality walk over an enum variant's fields: collects the
/// peek predicates, refusing a peek on a field inside a delimiter scope, a
/// peek after a root field without one, a fourth peek, and a peek on a type
/// without a predicate.
pub open spec fn spec_peek_walk(
    fields: Seq<FieldDef>,
    ss: Seq<SStep>,
    j: int,
    non_peek: Option<int>,
    acc: Seq<PeekTest>,
) -> Result<Seq<PeekTest>, SpecErr>
    decreases fields.len() - j,
    when 0 <= j <= fields.len()
{
    if j >= fields.len() {
        Ok(acc)
    } else {
        let f = fields[j];
        if f.peek {
            if !spec_is_root(ss, j) {
                Err(
                    SpecErr {
                        pos: j,
                        msg:
                            "`#[parse(peek)]` cannot be specified with a field enclosed by `[]`, `()` or `{}`."@,
                    },
                )
            } else {
                match non_peek {
                    Some(np) => Err(
                        SpecErr {
                            pos: j,
                            msg:
                                "you need to peek all previous tokens. consider specifying `#[parse(peek)]` for field `"@
                                + spec_field_display(fields[np], np) + "`."@,
                        },
                    ),
                    None => {
                        if acc.len() >= 3 {
                            Err(
                                SpecErr {
                                    pos: j,
                                    msg: "more than three `#[parse(peek)]` was specified."@,
                                },
                            )
                        } else {
                            match spec_peek_test(f.ty, f.any) {
                                Some(t) => spec_peek_walk(fields, ss, j + 1, non_peek, acc.push(t)),
                                None => Err(
                                    SpecErr {
                                        pos: j,
                                        msg: "this field type cannot be used with `#[parse(peek)]`."@,
                                    },
                                ),
                            }
                        }
                    },
                }
            }
        } else {
            let np = if non_peek is None && spec_is_root(ss, j) {
                Some(j)
            } else {
                non_peek
            };
            spec_peek_walk(fields, ss, j + 1, np, acc)
        }
    }
}

/// The generation of one variant's shape and peek predicates. A struct
/// variant skips the lookahead walk.
pub open spec fn spec_gen_variant(vd: VariantDef, is_enum: bool) -> Result<
    (Seq<SStep>, Seq<PeekTest>),
    SpecErr,
> {
    match spec_shape(fields_shape(vd.fields@)) {
        Ok(ss) => {
            if is_enum {
                match spec_peek_walk(vd.fields@, ss, 0, None, Seq::empty()) {
                    Ok(tests) => Ok((ss, tests)),
                    Err(e) => Err(e),
                }
            } else {
                Ok((ss, Seq::empty()))
            }
        },
        Err(e) => Err(SpecErr { pos: e.field as int, msg: parse_scope_msg(e.kind) }),
    }
}

/// The generation fold over an enum's variants: assigns each variant its
/// commitment mode. A variant without peek predicates forks, except the last
/// one when no earlier variant forked, which parses directly.
pub open spec fn spec_gen_variants(
    vs: Seq<VariantDef>,
    v: int,
    forked: bool,
    is_enum: bool,
) -> Result<Seq<SVariantPlan>, SpecErr>
    decreases vs.len() - v,
    when 0 <= v <= vs.len()
{
    if v >= vs.len() {
        Ok(Seq::empty())
    } else {
        match spec_gen_variant(vs[v], is_enum) {
            Ok((ss, tests)) => {
                let mode = if !is_enum {
                    SMode::Direct
                } else if tests.len() == 0 {
                    if v == vs.len() - 1 && !forked {
                        SMode::Direct
                    } else {
                        SMode::Fork
                    }
                } else {
                    SMode::Peek(tests)
                };
                let forked2 = forked || (is_enum && tests.len() == 0 && !(v == vs.len() - 1
                    && !forked));
                match spec_gen_variants(vs, v + 1, forked2, is_enum) {
                    Ok(rest) => Ok(seq![SVariantPlan { mode, steps: ss }] + rest),
                    Err(e) => Err(e),
                }
            },
            Err(e) => Err(e),
        }
    }
}

/// The parser plan of a schema, or the first generation error; with the
/// debugging escape hatch set, a successful generation is surfaced as an
/// error carrying the plan's rendering.
pub open spec fn spec_gen_parse(schema: SchemaDef) -> Result<Seq<SVariantPlan>, SpecErr> {
    if schema.kind is Union {
        Err(SpecErr { pos: 0, msg: "Not supported for union."@ })
    } else {
        match spec_gen_variants(schema.variants@, 0, false, schema.kind is Enum) {
            Ok(ps) => {
                if schema.parse_dump {
                    Err(
                        SpecErr {
                            pos: 0,
                            msg: "macro result: "@ + crate::scope::spec_render_shapes(
                                ps.map_values(|p: SVariantPlan| p.steps),
                                0,
                            ),
                        },
                    )
                } else {
                    Ok(ps)
                }
            },
            Err(e) => Err(e),
        }
    }
}

/// Tests whether a field stands at the root scope of a shape.
fn is_root_field(steps: &Vec<Step>, i: usize) -> (r: bool)
    ensures
        r == spec_is_root(steps_view(steps@), i as int),
{
    let ghost sv = steps_view(steps@);
    proof {
        crate::scope::lemma_steps_view_index(steps@);
    }
    let mut k: usize = 0;
    while k < steps.len()
        invariant
            0 <= k <= steps@.len(),
            sv == steps_view(steps@),
            sv.len() == steps@.len(),
            forall|m: int| 0 <= m < steps@.len() ==> sv[m] == crate::scope::step_view(
                #[trigger] steps@[m],
            ),
            forall|m: int|
                0 <= m < k ==> !(match #[trigger] sv[m] {
                    SStep::Read(f) => f == i as int,
                    SStep::Group(f, _, _) => f == i as int,
                }),
        decreases steps@.len() - k,
    {
        let hit = match &steps[k] {
            Step::Read(f) => *f == i,
            Step::Group(f, _, _) => *f == i,
        };
        if hit {
            proof {
                assert(match sv[k as int] {
                    SStep::Read(f) => f == i as int,
                    SStep::Group(f, _, _) => f == i as int,
                });
            }
            return true;
        }
        k += 1;
    }
    proof {
        if spec_is_root(sv, i as int) {
            let m = choose|m: int|
                0 <= m < sv.len() && (match #[trigger] sv[m] {
                    SStep::Read(f) => f == i as int,
                    SStep::Group(f, _, _) => f == i as int,
                });
            assert(false);
        }
    }
    false
}

/// Renders the display form of a field.
fn field_display(f: &FieldDef, i: usize) -> (r: String)
    ensures
        r@ == spec_field_display(*f, i as int),
{
    match &f.name {
        Some(n) => n.clone(),
        None => usize_to_string(i),
    }
}

/// The lookahead predicate for a field type, when the type supports one.
fn peek_test_of(ty: &Ty, any: bool) -> (r: Option<PeekTest>)
    ensures
        r == spec_peek_test(*ty, any),
{
    match ty {
        Ty::IdentTy => Some(PeekTest::PIdent(any)),
        Ty::PunctTy(c) => Some(PeekTest::PPunct(*c)),
        Ty::LitInt => Some(PeekTest::PLitInt),
        Ty::LitStr => Some(PeekTest::PLitStr),
        Ty::ParenTok => Some(PeekTest::PGroup(GroupKind::Fixed(Delim::Paren))),
        Ty::BracketTok => Some(PeekTest::PGroup(GroupKind::Fixed(Delim::Bracket))),
        Ty::BraceTok => Some(PeekTest::PGroup(GroupKind::Fixed(Delim::Brace))),
        Ty::MacroDelim => Some(PeekTest::PGroup(GroupKind::AnyDelim)),
        _ => None,
    }
}

/// Runs the lookahead-legality walk over an enum variant's fields.
fn peek_walk(
    fields: &Vec<FieldDef>,
    steps: &Vec<Step>,
    j: usize,
    non_peek: Option<usize>,
    acc: Vec<PeekTest>,
) -> (r: Result<Vec<PeekTest>, MErr>)
    requires
        j <= fields@.len(),
        non_peek matches Some(np) ==> np < fields@.len(),
    ensures
        (r matches Ok(ts) ==> spec_peek_walk(
            fields@,
            steps_view(steps@),
            j as int,
            match non_peek {
                Some(np) => Some(np as int),
                None => None,
            },
            acc@,
        ) == Ok::<Seq<PeekTest>, SpecErr>(ts@)),
        (r matches Err(e) ==> spec_peek_walk(
            fields@,
            steps_view(steps@),
            j as int,
            match non_peek {
                Some(np) => Some(np as int),
                None => None,
            },
            acc@,
        ) == Err::<Seq<PeekTest>, SpecErr>(merr_view(e))),
    decreases fields@.len() - j,
{
    if j >= fields.len() {
        return Ok(acc);
    }
    let f = &fields[j];
    if f.peek {
        if !is_root_field(steps, j) {
            return Err(
                MErr::new(
                    j,
                    "`#[parse(peek)]` cannot be specified with a field enclosed by `[]`, `()` or `{}`.",
                ),
            );
        }
        if let Some(np) = non_peek {
            let shown = field_display(&fields[np], np);
            return Err(
                MErr::around(
                    j,
                    "you need to peek all previous tokens. consider specifying `#[parse(peek)]` for field `",
                    shown.as_str(),
                    "`.",
                ),
            );
        }
        if acc.len() >= 3 {
            return Err(MErr::new(j, "more than three `#[parse(peek)]` was specified."));
        }
        match peek_test_of(&f.ty, f.any) {
            Some(t) => {
                let mut acc2 = acc;
                acc2.push(t);
                peek_walk(fields, steps, j + 1, non_peek, acc2)
            },
            None => Err(MErr::new(j, "this field type cannot be used with `#[parse(peek)]`.")),
        }
    } else {
        let np = if non_peek.is_none() && is_root_field(steps, j) {
            Some(j)
        } else {
            non_peek
        };
        peek_walk(fields, steps, j + 1, np, acc)
    }
}

/// Generates one variant's shape and peek predicates.
fn gen_variant(vd: &VariantDef, is_enum: bool) -> (r: Result<(Vec<Step>, Vec<PeekTest>), MErr>)
    ensures
        (r matches Ok(p) ==> spec_gen_variant(*vd, is_enum) matches Ok(sp) && steps_view(p.0@)
            == sp.0 && p.1@ == sp.1),
        (r matches Err(e) ==> spec_gen_variant(*vd, is_enum) == Err::<
            (Seq<SStep>, Seq<PeekTest>),
            SpecErr,
        >(merr_view(e))),
{
    match build_shape(&vd.fields) {
        Ok(steps) => {
            if is_enum {
                match peek_walk(&vd.fields, &steps, 0, None, Vec::new()) {
                    Ok(tests) => Ok((steps, tests)),
                    Err(e) => Err(e),
                }
            } else {
                Ok((steps, Vec::new()))
            }
        },
        Err(e) => Err(parse_scope_err(e)),
    }
}

/// Generates the plans of the variants from index `v` on, threading whether
/// an earlier variant already forks.
fn gen_variants(
    schema: &SchemaDef,
    v: usize,
    forked: bool,
    is_enum: bool,
) -> (r: Result<Vec<VariantPlan>, MErr>)
    requires
        v <= schema.variants@.len(),
    ensures
        (r matches Ok(ps) ==> spec_gen_variants(schema.variants@, v as int, forked, is_enum)
            matches Ok(sps) && vplans_view(ps@) == sps),
        (r matches Err(e) ==> spec_gen_variants(schema.variants@, v as int, forked, is_enum)
            == Err::<Seq<SVariantPlan>, SpecErr>(merr_view(e))),
    decreases schema.variants@.len() - v,
{
    if v >= schema.variants.len() {
        proof {
            assert(vplans_view(Seq::empty()) =~= Seq::<SVariantPlan>::empty());
        }
        return Ok(Vec::new());
    }
    match gen_variant(&schema.variants[v], is_enum) {
        Ok((steps, tests)) => {
            let no_tests = tests.len() == 0;
            let is_last = v == schema.variants.len() - 1;
            let mode = if !is_enum {
                Mode::Direct
            } else if no_tests {
                if is_last && !forked {
                    Mode::Direct
                } else {
                    Mode::Fork
                }
            } else {
                Mode::Peek(tests)
            };
            let forked2 = forked || (is_enum && no_tests && !(is_last && !forked));
            match gen_variants(schema, v + 1, forked2, is_enum) {
                Ok(rest) => {
                    let plan = VariantPlan { mode, steps };
                    let ghost pv = vplan_view(plan);
                    let mut out: Vec<VariantPlan> = Vec::new();
                    out.push(plan);
                    let mut rest2 = rest;
                    let ghost rest_view = vplans_view(rest2@);
                    out.append(&mut rest2);
                    proof {
                        assert(vplans_view(out@) =~= seq![pv] + rest_view);
                    }
                    Ok(out)
                },
                Err(e) => Err(e),
            }
        },
        Err(e) => Err(e),
    }
}

/// Generates the parser plan for a schema. A union schema, a delimiter-scope
/// error and an illegal lookahead marking abort generation.
pub fn gen_parse(schema: &SchemaDef) -> (r: Result<ParsePlan, MErr>)
    ensures
        (r matches Ok(plan) ==> spec_gen_parse(*schema) matches Ok(sps) && vplans_view(
            plan.variants@,
        ) == sps),
        (r matches Err(e) ==> spec_gen_parse(*schema) == Err::<Seq<SVariantPlan>, SpecErr>(
            merr_view(e),
        )),
{
    if matches!(schema.kind, SchemaKind::Union) {
        return Err(MErr::new(0, "Not supported for union."));
    }
    let is_enum = matches!(schema.kind, SchemaKind::Enum);
    match gen_variants(schema, 0, false, is_enum) {
        Ok(ps) => {
            if schema.parse_dump {
                let rendering = render_plans(&ps, 0);
                let mut m = "macro result: ".to_owned();
                m.append(rendering.as_str());
                Err(MErr { pos: 0, msg: m })
            } else {
                Ok(ParsePlan { variants: ps })
            }
        },
        Err(e) => Err(e),
    }
}

/// Renders the step trees of a plan's variants, for the debugging escape
/// hatch.
fn render_plans(ps: &Vec<VariantPlan>, v: usize) -> (r: String)
    requires
        v <= ps@.len(),
    ensures
        r@ == crate::scope::spec_render_shapes(
            vplans_view(ps@).map_values(|p: SVariantPlan| p.steps),
            v as int,
        ),
    decreases ps@.len() - v,
{
    let ghost shapes = vplans_view(ps@).map_values(|p: SVariantPlan| p.steps);
    proof {
        assert(vplans_view(ps@).len() == ps@.len());
        assert(shapes.len() == ps@.len());
    }
    if v >= ps.len() {
        let r = String::new();
        proof {
            assert(r@ =~= crate::scope::spec_render_shapes(shapes, v as int));
        }
        return r;
    }
    proof {
        assert(vplans_view(ps@)[v as int] == vplan_view(ps@[v as int]));
        assert(shapes[v as int] == steps_view(ps@[v as int].steps@));
    }
    let mut head = crate::scope::render_steps(&ps[v].steps);
    if v + 1 >= ps.len() {
        head
    } else {
        let rest = render_plans(ps, v + 1);
        crate::err::push_char(&mut head, '/');
        head.append(rest.as_str());
        head
    }
}

/// True when a token is a comma.
pub open spec fn tok_is_comma(t: Tok) -> bool {
    t matches Tok::Punct(c, _) && c == ','
}

/// True when a token is an integer literal.
pub open spec fn tok_is_int_lit(t: Tok) -> bool {
    t matches Tok::Lit(s) && is_int_lit_text(s)
}

/// True when a token is a string literal.
pub open spec fn tok_is_str_lit(t: Tok) -> bool {
    t matches Tok::Lit(s) && is_str_lit_text(s)
}

/// True when a token is an identifier that is not a reserved word.
pub open spec fn tok_is_plain_ident(t: Tok) -> bool {
    t matches Tok::Ident(s) && !spec_is_keyword(s)
}

/// True when a token is a boolean literal.
pub open spec fn tok_is_bool_lit(t: Tok) -> bool {
    t matches Tok::Ident(s) && (s == "true"@ || s == "false"@)
}

/// True when a token is the given punctuation character, not joined to the
/// next one.
pub open spec fn tok_is_punct_alone(t: Tok, c: char) -> bool {
    t matches Tok::Punct(c2, j) && c2 == c && j == false
}

/// True when a token is the given punctuation character, whatever its
/// spacing: a single-character punctuation read does not look at how the
/// character joins its neighbour.
pub open spec fn tok_is_punct_char(t: Tok, c: char) -> bool {
    t matches Tok::Punct(c2, _) && c2 == c
}

/// The delimiter of a group token.
pub open spec fn tok_group_delim(t: Tok) -> Option<Delim> {
    match t {
        Tok::Group(d, _) => Some(d),
        _ => None,
    }
}

/// The body of a group token.
pub open spec fn tok_group_body(t: Tok) -> Seq<Tok> {
    match t {
        Tok::Group(_, b) => b,
        _ => Seq::empty(),
    }
}

/// Whether a delimiter satisfies a group requirement. The invisible
/// delimiter satisfies none.
pub open spec fn delim_matches(kind: GroupKind, d: Delim) -> bool {
    match kind {
        GroupKind::Fixed(x) => x == d,
        GroupKind::AnyDelim => d !is Invisible,
    }
}

/// The message demanding the group a kind requires.
pub open spec fn group_expected_msg(kind: GroupKind) -> Seq<char> {
    match kind {
        GroupKind::Fixed(Delim::Paren) => "expected parentheses"@,
        GroupKind::Fixed(Delim::Bracket) => "expected square brackets"@,
        GroupKind::Fixed(Delim::Brace) => "expected curly braces"@,
        GroupKind::Fixed(Delim::Invisible) => "expected parentheses"@,
        GroupKind::AnyDelim => "expected `(`, `[` or `{`"@,
    }
}

/// The end of an expression read: scans from `q` to the first top-level
/// comma or the end of the tokens.
pub open spec fn spec_expr_scan(toks: Seq<Tok>, q: int) -> int
    decreases toks.len() - q,
    when 0 <= q <= toks.len()
{
    if q >= toks.len() || tok_is_comma(toks[q]) {
        q
    } else {
        spec_expr_scan(toks, q + 1)
    }
}

/// The expression scan stays within the tokens and never goes backwards.
pub proof fn lemma_expr_scan_bounds(toks: Seq<Tok>, q: int)
    requires
        0 <= q <= toks.len(),
    ensures
        q <= spec_expr_scan(toks, q) <= toks.len(),
    decreases toks.len() - q,
{
    if !(q >= toks.len() || tok_is_comma(toks[q])) {
        lemma_expr_scan_bounds(toks, q + 1);
    }
}

/// One plain value read, chosen by the field type.
pub open spec fn spec_parse_value(ty: Ty, toks: Seq<Tok>, pos: int) -> Result<int, SpecErr> {
    match ty {
        Ty::Bool => {
            if 0 <= pos < toks.len() && tok_is_bool_lit(toks[pos]) {
                Ok(pos + 1)
            } else {
                Err(SpecErr { pos, msg: "expected boolean literal"@ })
            }
        },
        Ty::LitInt => {
            if 0 <= pos < toks.len() && tok_is_int_lit(toks[pos]) {
                Ok(pos + 1)
            } else {
                Err(SpecErr { pos, msg: "expected integer literal"@ })
            }
        },
        Ty::LitStr => {
            if 0 <= pos < toks.len() && tok_is_str_lit(toks[pos]) {
                Ok(pos + 1)
            } else {
                Err(SpecErr { pos, msg: "expected string literal"@ })
            }
        },
        Ty::IdentTy => {
            if 0 <= pos < toks.len() && tok_is_plain_ident(toks[pos]) {
                Ok(pos + 1)
            } else {
                Err(SpecErr { pos, msg: "expected identifier"@ })
            }
        },
        Ty::PunctTy(c) => {
            if 0 <= pos < toks.len() && tok_is_punct_char(toks[pos], c) {
                Ok(pos + 1)
            } else {
                Err(SpecErr { pos, msg: "expected `"@ + seq![c] + "`"@ })
            }
        },
        Ty::ExprTy => {
            if 0 <= pos < toks.len() && !tok_is_comma(toks[pos]) {
                Ok(spec_expr_scan(toks, pos + 1))
            } else {
                Err(SpecErr { pos, msg: "expected an expression"@ })
            }
        },
        _ => Err(SpecErr { pos, msg: "cannot parse a value of this field type"@ }),
    }
}

/// A successful value read consumes at least one token and stays within the
/// tokens.
pub proof fn lemma_parse_value_advances(ty: Ty, toks: Seq<Tok>, pos: int)
    requires
        0 <= pos <= toks.len(),
    ensures
        spec_parse_value(ty, toks, pos) matches Ok(p) ==> pos < p <= toks.len(),
{
    if ty is ExprTy && 0 <= pos < toks.len() && !tok_is_comma(toks[pos]) {
        lemma_expr_scan_bounds(toks, pos + 1);
    }
}

/// One identifier read that also accepts reserved words.
pub open spec fn spec_any_ident(toks: Seq<Tok>, pos: int) -> Result<int, SpecErr> {
    if 0 <= pos < toks.len() && toks[pos] is Ident {
        Ok(pos + 1)
    } else {
        Err(SpecErr { pos, msg: "expected identifier"@ })
    }
}

/// A punctuation-terminated list read: elements separated by commas until
/// the end of the tokens, a trailing comma allowed.
pub open spec fn spec_parse_terminated(elem: Ty, any: bool, toks: Seq<Tok>, pos: int) -> Result<
    int,
    SpecErr,
>
    decreases toks.len() - pos,
    when 0 <= pos <= toks.len()
    via spec_parse_terminated_decreases
{
    if pos >= toks.len() {
        Ok(pos)
    } else {
        let item = if any {
            spec_any_ident(toks, pos)
        } else {
            spec_parse_value(elem, toks, pos)
        };
        match item {
            Ok(p1) => {
                if p1 >= toks.len() {
                    Ok(p1)
                } else if p1 <= pos {
                    Err(SpecErr { pos: p1, msg: "expected `,`"@ })
                } else if tok_is_comma(toks[p1]) {
                    spec_parse_terminated(elem, any, toks, p1 + 1)
                } else {
                    Err(SpecErr { pos: p1, msg: "expected `,`"@ })
                }
            },
            Err(e) => Err(e),
        }
    }
}

#[via_fn]
proof fn spec_parse_terminated_decreases(elem: Ty, any: bool, toks: Seq<Tok>, pos: int) {
    lemma_parse_value_advances(elem, toks, pos);
}

/// A terminated read ends within the tokens.
pub proof fn lemma_parse_terminated_bounds(elem: Ty, any: bool, toks: Seq<Tok>, pos: int)
    requires
        0 <= pos <= toks.len(),
    ensures
        spec_parse_terminated(elem, any, toks, pos) matches Ok(p) ==> pos <= p <= toks.len(),
    decreases toks.len() - pos,
{
    lemma_parse_value_advances(elem, toks, pos);
    if pos < toks.len() {
        let item = if any {
            spec_any_ident(toks, pos)
        } else {
            spec_parse_value(elem, toks, pos)
        };
        if let Ok(p1) = item {
            if p1 < toks.len() && p1 > pos && tok_is_comma(toks[p1]) {
                lemma_parse_terminated_bounds(elem, any, toks, p1 + 1);
            }
        }
    }
}

/// The default field values before any step assigns one.
pub open spec fn spec_default_vals(n: nat) -> Seq<FVal> {
    Seq::new(n, |i: int| FVal::Toks(Seq::empty()))
}

/// The read of one field, chosen by its directives: a terminated list, a
/// relaxed identifier, or a plain value.
pub open spec fn spec_read_field(f: FieldDef, toks: Seq<Tok>, pos: int) -> Result<int, SpecErr> {
    if f.terminated {
        match f.ty {
            Ty::PunctuatedOf(e) => spec_parse_terminated(*e, f.any, toks, pos),
            _ => Err(SpecErr { pos, msg: "cannot parse a value of this field type"@ }),
        }
    } else if f.any {
        match f.ty {
            Ty::IdentTy => spec_any_ident(toks, pos),
            _ => Err(SpecErr { pos, msg: "cannot parse a value of this field type"@ }),
        }
    } else {
        spec_parse_value(f.ty, toks, pos)
    }
}

/// A field read ends within the tokens.
pub proof fn lemma_read_field_bounds(f: FieldDef, toks: Seq<Tok>, pos: int)
    requires
        0 <= pos <= toks.len(),
    ensures
        spec_read_field(f, toks, pos) matches Ok(p) ==> pos <= p <= toks.len(),
{
    lemma_parse_value_advances(f.ty, toks, pos);
    if f.terminated {
        if let Ty::PunctuatedOf(e) = f.ty {
            lemma_parse_terminated_bounds(*e, f.any, toks, pos);
        }
    }
}

/// The parse of a step list from index `k`: reads each field in order,
/// entering a group for a scope-opening field and demanding that the group's
/// body is fully consumed.
pub open spec fn spec_parse_steps(
    fields: Seq<FieldDef>,
    ss: Seq<SStep>,
    k: int,
    toks: Seq<Tok>,
    pos: int,
    vals: Seq<FVal>,
) -> Result<(int, Seq<FVal>), SpecErr>
    decreases ss, ss.len() - k,
    when 0 <= k
{
    if k >= ss.len() {
        Ok((pos, vals))
    } else {
        match ss[k] {
            SStep::Read(i) => {
                if !(0 <= i < fields.len()) {
                    Err(SpecErr { pos, msg: "cannot parse a value of this field type"@ })
                } else {
                    match spec_read_field(fields[i], toks, pos) {
                        Ok(p) => {
                            let consumed = if 0 <= pos <= p <= toks.len() {
                                toks.subrange(pos, p)
                            } else {
                                Seq::empty()
                            };
                            let vals2 = if 0 <= i < vals.len() {
                                vals.update(i, FVal::Toks(consumed))
                            } else {
                                vals
                            };
                            spec_parse_steps(fields, ss, k + 1, toks, p, vals2)
                        },
                        Err(e) => Err(e),
                    }
                }
            },
            SStep::Group(i, kind, body) => {
                if 0 <= pos < toks.len() && (toks[pos] matches Tok::Group(d, inner)
                    && delim_matches(kind, d)) {
                    let d = tok_group_delim(toks[pos])->0;
                    let inner = tok_group_body(toks[pos]);
                    match spec_parse_steps(fields, body, 0, inner, 0, vals) {
                        Ok((pin, vals2)) => {
                            if pin == inner.len() {
                                let vals3 = if 0 <= i < vals2.len() {
                                    vals2.update(i, FVal::Delim(d))
                                } else {
                                    vals2
                                };
                                spec_parse_steps(fields, ss, k + 1, toks, pos + 1, vals3)
                            } else {
                                Err(SpecErr { pos: pin, msg: "unexpected token"@ })
                            }
                        },
                        Err(e) => Err(e),
                    }
                } else {
                    Err(SpecErr { pos, msg: group_expected_msg(kind) })
                }
            },
        }
    }
}

/// The parse of one variant's fields: its steps run against the tokens with
/// every field value defaulted.
pub open spec fn spec_parse_variant(
    fields: Seq<FieldDef>,
    steps: Seq<SStep>,
    toks: Seq<Tok>,
    pos: int,
) -> Result<(int, Seq<FVal>), SpecErr> {
    spec_parse_steps(fields, steps, 0, toks, pos, spec_default_vals(fields.len()))
}

/// Whether one lookahead predicate matches a token.
pub open spec fn peek_matches(t: PeekTest, tok: Tok) -> bool {
    match t {
        PeekTest::PIdent(any) => {
            if any {
                tok is Ident
            } else {
                tok_is_plain_ident(tok)
            }
        },
        PeekTest::PPunct(c) => tok_is_punct_char(tok, c),
        PeekTest::PLitInt => tok_is_int_lit(tok),
        PeekTest::PLitStr => tok_is_str_lit(tok),
        PeekTest::PGroup(kind) => tok_group_delim(tok) matches Some(d) && delim_matches(kind, d),
    }
}

/// Whether a variant's lookahead predicates all hold against the live
/// cursor.
pub open spec fn spec_peek_sat(tests: Seq<PeekTest>, toks: Seq<Tok>, pos: int) -> bool
    decreases tests.len(),
{
    if tests.len() == 0 {
        true
    } else {
        pos < toks.len() && peek_matches(tests[0], toks[pos]) && spec_peek_sat(
            tests.drop_first(),
            toks,
            pos + 1,
        )
    }
}

/// The dispatch over the variants from index `v` on: in declaration order,
/// a direct variant's parse decides, a forking variant falls through on
/// failure, and a peeking variant commits when its predicates hold. When no
/// variant commits, the parse fails.
pub open spec fn spec_dispatch(
    variants: Seq<VariantDef>,
    plans: Seq<SVariantPlan>,
    v: int,
    toks: Seq<Tok>,
    pos: int,
) -> Result<(int, int, Seq<FVal>), SpecErr>
    decreases plans.len() - v,
    when 0 <= v
{
    if v >= plans.len() {
        Err(SpecErr { pos, msg: "parse failed."@ })
    } else {
        let vfields = if 0 <= v < variants.len() {
            variants[v].fields@
        } else {
            Seq::empty()
        };
        match plans[v].mode {
            SMode::Direct => {
                match spec_parse_variant(vfields, plans[v].steps, toks, pos) {
                    Ok((p, vals)) => Ok((v, p, vals)),
                    Err(e) => Err(e),
                }
            },
            SMode::Fork => {
                match spec_parse_variant(vfields, plans[v].steps, toks, pos) {
                    Ok((p, vals)) => Ok((v, p, vals)),
                    Err(_) => spec_dispatch(variants, plans, v + 1, toks, pos),
                }
            },
            SMode::Peek(tests) => {
                if spec_peek_sat(tests, toks, pos) {
                    match spec_parse_variant(vfields, plans[v].steps, toks, pos) {
                        Ok((p, vals)) => Ok((v, p, vals)),
                        Err(e) => Err(e),
                    }
                } else {
                    spec_dispatch(variants, plans, v + 1, toks, pos)
                }
            },
        }
    }
}

/// The whole parse of a token sequence against a schema's plan: the
/// dispatch must commit to a variant and the tokens must be fully consumed.
pub open spec fn spec_run_parse(
    variants: Seq<VariantDef>,
    plans: Seq<SVariantPlan>,
    toks: Seq<Tok>,
) -> Result<SVal, SpecErr> {
    match spec_dispatch(variants, plans, 0, toks, 0) {
        Ok((v, p, vals)) => {
            if p == toks.len() {
                Ok(SVal { variant: v, fields: vals })
            } else {
                Err(SpecErr { pos: p, msg: "unexpected token"@ })
            }
        },
        Err(e) => Err(e),
    }
}

/// Scans to the end of an expression read.
fn expr_scan(toks: &Vec<Token>, q: usize) -> (r: usize)
    requires
        q <= toks@.len(),
    ensures
        r == spec_expr_scan(toks_view(toks@), q as int),
        q <= r <= toks@.len(),
    decreases toks@.len() - q,
{
    proof {
        crate::token::lemma_toks_view_index(toks@);
    }
    if q >= toks.len() {
        q
    } else if toks[q].is_comma() {
        q
    } else {
        expr_scan(toks, q + 1)
    }
}

/// Reads one plain value, chosen by the field type.
pub fn parse_value(ty: &Ty, toks: &Vec<Token>, pos: usize) -> (r: Result<usize, MErr>)
    requires
        pos <= toks@.len(),
    ensures
        (r matches Ok(p) ==> spec_parse_value(*ty, toks_view(toks@), pos as int) == Ok::<
            int,
            SpecErr,
        >(p as int) && pos < p <= toks@.len()),
        (r matches Err(e) ==> spec_parse_value(*ty, toks_view(toks@), pos as int) == Err::<
            int,
            SpecErr,
        >(merr_view(e))),
{
    proof {
        crate::token::lemma_toks_view_index(toks@);
    }
    match ty {
        Ty::Bool => {
            if pos < toks.len() && (toks[pos].is_ident_named("true") || toks[pos].is_ident_named(
                "false",
            )) {
                Ok(pos + 1)
            } else {
                Err(MErr::new(pos, "expected boolean literal"))
            }
        },
        Ty::LitInt => {
            if pos < toks.len() && toks[pos].is_int_lit() {
                Ok(pos + 1)
            } else {
                Err(MErr::new(pos, "expected integer literal"))
            }
        },
        Ty::LitStr => {
            if pos < toks.len() && toks[pos].is_str_lit() {
                Ok(pos + 1)
            } else {
                Err(MErr::new(pos, "expected string literal"))
            }
        },
        Ty::IdentTy => {
            if pos < toks.len() {
                match toks[pos].ident_text() {
                    Some(s) => {
                        if !crate::keywords::is_keyword(s.as_str()) {
                            Ok(pos + 1)
                        } else {
                            Err(MErr::new(pos, "expected identifier"))
                        }
                    },
                    None => Err(MErr::new(pos, "expected identifier")),
                }
            } else {
                Err(MErr::new(pos, "expected identifier"))
            }
        },
        Ty::PunctTy(c) => {
            if pos < toks.len() && toks[pos].is_punct_char(*c) {
                Ok(pos + 1)
            } else {
                Err(MErr::around_char(pos, "expected `", *c, "`"))
            }
        },
        Ty::ExprTy => {
            if pos < toks.len() && !toks[pos].is_comma() {
                Ok(expr_scan(toks, pos + 1))
            } else {
                Err(MErr::new(pos, "expected an expression"))
            }
        },
        _ => Err(MErr::new(pos, "cannot parse a value of this field type")),
    }
}

/// Reads one identifier, reserved words allowed.
fn any_ident(toks: &Vec<Token>, pos: usize) -> (r: Result<usize, MErr>)
    requires
        pos <= toks@.len(),
    ensures
        (r matches Ok(p) ==> spec_any_ident(toks_view(toks@), pos as int) == Ok::<int, SpecErr>(
            p as int,
        ) && pos < p <= toks@.len()),
        (r matches Err(e) ==> spec_any_ident(toks_view(toks@), pos as int) == Err::<int, SpecErr>(
            merr_view(e),
        )),
{
    proof {
        crate::token::lemma_toks_view_index(toks@);
    }
    if pos < toks.len() && matches!(&toks[pos], Token::Ident(_)) {
        Ok(pos + 1)
    } else {
        Err(MErr::new(pos, "expected identifier"))
    }
}

/// Reads a punctuation-terminated list of elements.
fn parse_terminated(elem: &Ty, any: bool, toks: &Vec<Token>, pos: usize) -> (r: Result<usize, MErr>)
    requires
        pos <= toks@.len(),
    ensures
        (r matches Ok(p) ==> spec_parse_terminated(*elem, any, toks_view(toks@), pos as int)
            == Ok::<int, SpecErr>(p as int) && pos <= p <= toks@.len()),
        (r matches Err(e) ==> spec_parse_terminated(*elem, any, toks_view(toks@), pos as int)
            == Err::<int, SpecErr>(merr_view(e))),
    decreases toks@.len() - pos,
{
    proof {
        crate::token::lemma_toks_view_index(toks@);
    }
    if pos >= toks.len() {
        return Ok(pos);
    }
    let item = if any {
        any_ident(toks, pos)
    } else {
        parse_value(elem, toks, pos)
    };
    match item {
        Ok(p1) => {
            if p1 >= toks.len() {
                Ok(p1)
            } else if toks[p1].is_comma() {
                parse_terminated(elem, any, toks, p1 + 1)
            } else {
                Err(MErr::new(p1, "expected `,`"))
            }
        },
        Err(e) => Err(e),
    }
}

/// Reads one field, chosen by its directives.
fn read_field(f: &FieldDef, toks: &Vec<Token>, pos: usize) -> (r: Result<usize, MErr>)
    requires
        pos <= toks@.len(),
    ensures
        (r matches Ok(p) ==> spec_read_field(*f, toks_view(toks@), pos as int) == Ok::<
            int,
            SpecErr,
        >(p as int) && pos <= p <= toks@.len()),
        (r matches Err(e) ==> spec_read_field(*f, toks_view(toks@), pos as int) == Err::<
            int,
            SpecErr,
        >(merr_view(e))),
{
    if f.terminated {
        match &f.ty {
            Ty::PunctuatedOf(e) => parse_terminated(e, f.any, toks, pos),
            _ => Err(MErr::new(pos, "cannot parse a value of this field type")),
        }
    } else if f.any {
        match &f.ty {
            Ty::IdentTy => any_ident(toks, pos),
            _ => Err(MErr::new(pos, "cannot parse a value of this field type")),
        }
    } else {
        parse_value(&f.ty, toks, pos)
    }
}

/// Builds the error demanding the group a kind requires.
fn group_expected_err(kind: GroupKind, pos: usize) -> (r: MErr)
    ensures
        r.pos == pos,
        r.msg@ == group_expected_msg(kind),
{
    match kind {
        GroupKind::Fixed(Delim::Paren) => MErr::new(pos, "expected parentheses"),
        GroupKind::Fixed(Delim::Bracket) => MErr::new(pos, "expected square brackets"),
        GroupKind::Fixed(Delim::Brace) => MErr::new(pos, "expected curly braces"),
        GroupKind::Fixed(Delim::Invisible) => MErr::new(pos, "expected parentheses"),
        GroupKind::AnyDelim => MErr::new(pos, "expected `(`, `[` or `{`"),
    }
}

/// Runs a step list from index `k` against the tokens, filling field values.
fn parse_steps(
    fields: &Vec<FieldDef>,
    steps: &Vec<Step>,
    k: usize,
    toks: &Vec<Token>,
    pos: usize,
    vals: Vec<FieldVal>,
) -> (r: Result<(usize, Vec<FieldVal>), MErr>)
    requires
        k <= steps@.len(),
        pos <= toks@.len(),
    ensures
        (r matches Ok(pv) ==> spec_parse_steps(
            fields@,
            steps_view(steps@),
            k as int,
            toks_view(toks@),
            pos as int,
            fvals_view(vals@),
        ) matches Ok(spv) && spv.0 == pv.0 as int && fvals_view(pv.1@) == spv.1 && pv.0
            <= toks@.len()),
        (r matches Err(e) ==> spec_parse_steps(
            fields@,
            steps_view(steps@),
            k as int,
            toks_view(toks@),
            pos as int,
            fvals_view(vals@),
        ) == Err::<(int, Seq<FVal>), SpecErr>(merr_view(e))),
    decreases *steps, steps@.len() - k,
{
    let ghost sv = steps_view(steps@);
    let ghost tv = toks_view(toks@);
    let ghost v0 = fvals_view(vals@);
    proof {
        crate::scope::lemma_steps_view_index(steps@);
        crate::token::lemma_toks_view_index(toks@);
    }
    if k >= steps.len() {
        return Ok((pos, vals));
    }
    proof {
        assert(sv[k as int] == crate::scope::step_view(steps@[k as int]));
    }
    match &steps[k] {
        Step::Read(i) => {
            if !(*i < fields.len()) {
                return Err(MErr::new(pos, "cannot parse a value of this field type"));
            }
            match read_field(&fields[*i], toks, pos) {
                Ok(p) => {
                    let consumed = crate::token::clone_range(toks, pos, p);
                    let mut vals2 = vals;
                    let ghost old_vals = fvals_view(vals2@);
                    if *i < vals2.len() {
                        vals2[*i] = FieldVal::Toks(consumed);
                        proof {
                            assert(fvals_view(vals2@) =~= old_vals.update(
                                *i as int,
                                FVal::Toks(tv.subrange(pos as int, p as int)),
                            ));
                        }
                    } else {
                        proof {
                            assert(fvals_view(vals2@) =~= old_vals);
                        }
                    }
                    proof {
                        assert(spec_parse_steps(fields@, sv, k as int, tv, pos as int, v0)
                            == spec_parse_steps(
                            fields@,
                            sv,
                            k as int + 1,
                            tv,
                            p as int,
                            fvals_view(vals2@),
                        ));
                    }
                    parse_steps(fields, steps, k + 1, toks, p, vals2)
                },
                Err(e) => Err(e),
            }
        },
        Step::Group(i, kind, body) => {
            if pos >= toks.len() {
                return Err(group_expected_err(*kind, pos));
            }
            match &toks[pos] {
                Token::Group(d, inner) => {
                    let ok_delim = match kind {
                        GroupKind::Fixed(x) => *x == *d,
                        GroupKind::AnyDelim => !matches!(d, Delim::Invisible),
                    };
                    if !ok_delim {
                        return Err(group_expected_err(*kind, pos));
                    }
                    let d = *d;
                    proof {
                        assert(tv[pos as int] == Tok::Group(d, toks_view(inner@)));
                        crate::token::lemma_toks_view_index(inner@);
                        broadcast use vstd::std_specs::vec::axiom_vec_decreases_to_view;

                        assert(decreases_to!(steps@ => steps@[k as int]));
                        assert(decreases_to!(steps@[k as int] => *body));
                    }
                    match parse_steps(fields, body, 0, inner, 0, vals) {
                        Ok((pin, vals2)) => {
                            if pin == inner.len() {
                                let mut vals3 = vals2;
                                let ghost old_vals = fvals_view(vals3@);
                                if *i < vals3.len() {
                                    vals3[*i] = FieldVal::Delim(d);
                                    proof {
                                        assert(fvals_view(vals3@) =~= old_vals.update(
                                            *i as int,
                                            FVal::Delim(d),
                                        ));
                                    }
                                } else {
                                    proof {
                                        assert(fvals_view(vals3@) =~= old_vals);
                                    }
                                }
                                proof {
                                    assert(spec_parse_steps(
                                        fields@,
                                        sv,
                                        k as int,
                                        tv,
                                        pos as int,
                                        v0,
                                    ) == spec_parse_steps(
                                        fields@,
                                        sv,
                                        k as int + 1,
                                        tv,
                                        pos as int + 1,
                                        fvals_view(vals3@),
                                    ));
                                }
                                parse_steps(fields, steps, k + 1, toks, pos + 1, vals3)
                            } else {
                                Err(MErr::new(pin, "unexpected token"))
                            }
                        },
                        Err(e) => Err(e),
                    }
                },
                _ => Err(group_expected_err(*kind, pos)),
            }
        },
    }
}

/// Runs one variant's steps with every field value defaulted.
fn parse_variant(
    fields: &Vec<FieldDef>,
    steps: &Vec<Step>,
    toks: &Vec<Token>,
    pos: usize,
) -> (r: Result<(usize, Vec<FieldVal>), MErr>)
    requires
        pos <= toks@.len(),
    ensures
        (r matches Ok(pv) ==> spec_parse_variant(
            fields@,
            steps_view(steps@),
            toks_view(toks@),
            pos as int,
        ) matches Ok(spv) && spv.0 == pv.0 as int && fvals_view(pv.1@) == spv.1 && pv.0
            <= toks@.len()),
        (r matches Err(e) ==> spec_parse_variant(
            fields@,
            steps_view(steps@),
            toks_view(toks@),
            pos as int,
        ) == Err::<(int, Seq<FVal>), SpecErr>(merr_view(e))),
{
    let n = fields.len();
    let mut vals: Vec<FieldVal> = Vec::new();
    let mut j: usize = 0;
    while j < n
        invariant
            0 <= j <= n,
            vals@.len() == j,
            forall|m: int|
                0 <= m < j ==> fval_view(#[trigger] vals@[m]) == FVal::Toks(Seq::<Tok>::empty()),
        decreases n - j,
    {
        vals.push(FieldVal::Toks(Vec::new()));
        j += 1;
    }
    proof {
        assert(fvals_view(vals@) =~= spec_default_vals(fields@.len()));
    }
    parse_steps(fields, steps, 0, toks, pos, vals)
}

/// Evaluates one lookahead predicate against the token at a position.
fn peek_matches_at(t: &PeekTest, toks: &Vec<Token>, pos: usize) -> (r: bool)
    ensures
        r == (pos < toks@.len() && peek_matches(*t, toks_view(toks@)[pos as int])),
{
    proof {
        crate::token::lemma_toks_view_index(toks@);
    }
    if pos >= toks.len() {
        return false;
    }
    match t {
        PeekTest::PIdent(any) => {
            if *any {
                matches!(&toks[pos], Token::Ident(_))
            } else {
                match toks[pos].ident_text() {
                    Some(s) => !crate::keywords::is_keyword(s.as_str()),
                    None => false,
                }
            }
        },
        PeekTest::PPunct(c) => toks[pos].is_punct_char(*c),
        PeekTest::PLitInt => toks[pos].is_int_lit(),
        PeekTest::PLitStr => toks[pos].is_str_lit(),
        PeekTest::PGroup(kind) => {
            match &toks[pos] {
                Token::Group(d, _) => {
                    match kind {
                        GroupKind::Fixed(x) => *x == *d,
                        GroupKind::AnyDelim => !matches!(d, Delim::Invisible),
                    }
                },
                _ => false,
            }
        },
    }
}

/// Evaluates a variant's lookahead predicates, from index `k` on, against
/// the cursor.
fn peek_sat_from(tests: &Vec<PeekTest>, k: usize, toks: &Vec<Token>, pos: usize) -> (r: bool)
    requires
        k <= tests@.len(),
        pos <= toks@.len(),
    ensures
        r == spec_peek_sat(tests@.skip(k as int), toks_view(toks@), pos as int),
    decreases tests@.len() - k,
{
    proof {
        crate::token::lemma_toks_view_index(toks@);
        assert(tests@.skip(k as int).len() == tests@.len() - k);
    }
    if k >= tests.len() {
        return true;
    }
    proof {
        assert(tests@.skip(k as int)[0] == tests@[k as int]);
        assert(tests@.skip(k as int).drop_first() =~= tests@.skip(k as int + 1));
    }
    if pos >= toks.len() {
        return false;
    }
    if !peek_matches_at(&tests[k], toks, pos) {
        return false;
    }
    peek_sat_from(tests, k + 1, toks, pos + 1)
}

/// Evaluates a variant's lookahead predicates against the live cursor.
fn peek_sat(tests: &Vec<PeekTest>, toks: &Vec<Token>, pos: usize) -> (r: bool)
    requires
        pos <= toks@.len(),
    ensures
        r == spec_peek_sat(tests@, toks_view(toks@), pos as int),
{
    proof {
        assert(tests@.skip(0) =~= tests@);
    }
    peek_sat_from(tests, 0, toks, pos)
}

/// Tries the variants from index `v` on, in order.
fn dispatch(
    schema: &SchemaDef,
    plan: &ParsePlan,
    v: usize,
    toks: &Vec<Token>,
    pos: usize,
) -> (r: Result<(usize, usize, Vec<FieldVal>), MErr>)
    requires
        v <= plan.variants@.len(),
        pos <= toks@.len(),
    ensures
        (r matches Ok(out) ==> spec_dispatch(
            schema.variants@,
            vplans_view(plan.variants@),
            v as int,
            toks_view(toks@),
            pos as int,
        ) matches Ok(sout) && sout.0 == out.0 as int && sout.1 == out.1 as int && fvals_view(
            out.2@,
        ) == sout.2 && out.1 <= toks@.len()),
        (r matches Err(e) ==> spec_dispatch(
            schema.variants@,
            vplans_view(plan.variants@),
            v as int,
            toks_view(toks@),
            pos as int,
        ) == Err::<(int, int, Seq<FVal>), SpecErr>(merr_view(e))),
    decreases plan.variants@.len() - v,
{
    let ghost pv = vplans_view(plan.variants@);
    if v >= plan.variants.len() {
        return Err(MErr::new(pos, "parse failed."));
    }
    proof {
        assert(pv[v as int] == vplan_view(plan.variants@[v as int]));
    }
    let empty_fields: Vec<FieldDef> = Vec::new();
    let vfields = if v < schema.variants.len() {
        &schema.variants[v].fields
    } else {
        &empty_fields
    };
    let vp = &plan.variants[v];
    match &vp.mode {
        Mode::Direct => {
            match parse_variant(vfields, &vp.steps, toks, pos) {
                Ok((p, vals)) => Ok((v, p, vals)),
                Err(e) => Err(e),
            }
        },
        Mode::Fork => {
            match parse_variant(vfields, &vp.steps, toks, pos) {
                Ok((p, vals)) => Ok((v, p, vals)),
                Err(_) => dispatch(schema, plan, v + 1, toks, pos),
            }
        },
        Mode::Peek(tests) => {
            if peek_sat(tests, toks, pos) {
                match parse_variant(vfields, &vp.steps, toks, pos) {
                    Ok((p, vals)) => Ok((v, p, vals)),
                    Err(e) => Err(e),
                }
            } else {
                dispatch(schema, plan, v + 1, toks, pos)
            }
        },
    }
}

/// Parses a whole token sequence against a schema's plan: the variants are
/// tried in declaration order and the tokens must be fully consumed.
pub fn run_parse(schema: &SchemaDef, plan: &ParsePlan, toks: &Vec<Token>) -> (r: Result<
    VariantVal,
    MErr,
>)
    ensures
        (r matches Ok(vv) ==> spec_run_parse(
            schema.variants@,
            vplans_view(plan.variants@),
            toks_view(toks@),
        ) matches Ok(sval) && vv@ == sval),
        (r matches Err(e) ==> spec_run_parse(
            schema.variants@,
            vplans_view(plan.variants@),
            toks_view(toks@),
        ) == Err::<SVal, SpecErr>(merr_view(e))),
{
    proof {
        crate::token::lemma_toks_view_index(toks@);
    }
    match dispatch(schema, plan, 0, toks, 0) {
        Ok((v, p, vals)) => {
            if p == toks.len() {
                Ok(VariantVal { variant: v, fields: vals })
            } else {
                Err(MErr::new(p, "unexpected token"))
            }
        },
        Err(e) => Err(e),
    }
}

} // verus!
