//! The delimiter scope tracker shared by the serializer and parser
//! generators. Walking a variant's fields in order, the delimiter characters
//! in each field's directives open and close nested scopes; the walk yields a
//! tree of steps: a leaf read/emit step for each ordinary field, and a group
//! step (with its nested steps) for each field that opens a scope. A close
//! character must match the most recently opened scope; scopes still open at
//! the end of the field list are closed implicitly, innermost first.

use vstd::prelude::*;
use vstd::string::StringExecFns;
use crate::schema::{FieldDef, Ty};
use crate::token::Delim;

verus! {

/// The closing delimiter character paired with an opening one.
pub open spec fn spec_to_close(c: char) -> char {
    match c {
        '(' => ')',
        '[' => ']',
        _ => '}',
    }
}

/// True for the three opening delimiter characters.
pub open spec fn is_open_char(c: char) -> bool {
    c == '(' || c == '[' || c == '{'
}

/// True for the three closing delimiter characters.
pub open spec fn is_close_char(c: char) -> bool {
    c == ')' || c == ']' || c == '}'
}

/// The delimiter kind opened by an opening character.
pub open spec fn spec_delim_of_open(c: char) -> Delim {
    match c {
        '(' => Delim::Paren,
        '[' => Delim::Bracket,
        _ => Delim::Brace,
    }
}

/// Returns the closing delimiter character matching the opening one.
pub fn to_close(c: char) -> (r: char)
    requires
        is_open_char(c),
    ensures
        r == spec_to_close(c),
{
    match c {
        '(' => ')',
        '[' => ']',
        _ => '}',
    }
}

/// Returns the delimiter kind opened by an opening character.
pub fn delim_of_open(c: char) -> (r: Delim)
    requires
        is_open_char(c),
    ensures
        r == spec_delim_of_open(c),
{
    match c {
        '(' => Delim::Paren,
        '[' => Delim::Bracket,
        _ => Delim::Brace,
    }
}

/// How a group step matches a delimiter at runtime: a fixed delimiter kind,
/// or any of the three kinds, recording which one appeared.
#[derive(Clone, Copy, PartialEq, Eq, Structural, Debug)]
pub enum GroupKind {
    Fixed(Delim),
    AnyDelim,
}

/// One step of a variant's shape: read or emit a field's own tokens, or
/// enter a delimited group opened by a field and run the nested steps inside
/// it.
#[derive(PartialEq, Eq, Debug)]
pub enum Step {
    /// Handle the field with the given index directly.
    Read(usize),
    /// The field with the given index opens a group of the given kind; the
    /// nested steps run inside it.
    Group(usize, GroupKind, Vec<Step>),
}

/// The mathematical value of a step.
pub enum SStep {
    Read(int),
    Group(int, GroupKind, Seq<SStep>),
}

/// Maps one step to its mathematical value.
pub open spec fn step_view(s: Step) -> SStep
    decreases s, 1int,
    via step_view_decreases
{
    match s {
        Step::Read(i) => SStep::Read(i as int),
        Step::Group(i, k, body) => SStep::Group(i as int, k, steps_view(body@)),
    }
}

/// The mathematical value of a step list.
pub open spec fn steps_view(ss: Seq<Step>) -> Seq<SStep>
    decreases ss, 0int,
{
    if ss.len() == 0 {
        Seq::empty()
    } else {
        seq![step_view(ss[0])] + steps_view(ss.drop_first())
    }
}

#[via_fn]
proof fn step_view_decreases(s: Step) {
    broadcast use vstd::std_specs::vec::axiom_vec_decreases_to_view;

    if let Step::Group(i, k, body) = s {
        assert(decreases_to!(s => body));
        assert(decreases_to!(body => body@));
    }
}

/// The value of a step list indexes pointwise into the values of its steps.
pub proof fn lemma_steps_view_index(ss: Seq<Step>)
    ensures
        steps_view(ss).len() == ss.len(),
        forall|i: int| 0 <= i < ss.len() ==> steps_view(ss)[i] == step_view(#[trigger] ss[i]),
    decreases ss.len(),
{
    if ss.len() > 0 {
        lemma_steps_view_index(ss.drop_first());
        assert forall|i: int| 0 <= i < ss.len() implies steps_view(ss)[i] == step_view(
            #[trigger] ss[i],
        ) by {
            if i > 0 {
                assert(steps_view(ss.drop_first())[i - 1] == step_view(ss.drop_first()[i - 1]));
            }
        }
    }
}

/// What went wrong while tracking delimiter scopes.
#[derive(Clone, Copy, PartialEq, Eq, Structural, Debug)]
pub enum ScopeErrKind {
    /// A directive character that is not one of the six delimiter characters.
    BadChar(char),
    /// A closing character that does not match the innermost open scope: the
    /// opening character of that scope (nothing when no scope is open), and
    /// the closing character found.
    Mismatch(Option<char>, char),
    /// A field that opens a second scope of its own.
    DoubleOpen,
}

/// A scope tracking error: the index of the offending field and what went
/// wrong there.
#[derive(Clone, Copy, PartialEq, Eq, Structural, Debug)]
pub struct ScopeErr {
    pub field: usize,
    pub kind: ScopeErrKind,
}

/// What the scope walk needs of one field: its delimiter directive
/// characters, and whether its type matches any delimiter kind rather than a
/// fixed one.
pub struct FieldShape {
    pub dirs: Seq<char>,
    pub any_delim: bool,
}

/// The shape inputs of a field list.
pub open spec fn fields_shape(fields: Seq<FieldDef>) -> Seq<FieldShape> {
    fields.map_values(
        |f: FieldDef| FieldShape { dirs: f.delims@, any_delim: f.ty is MacroDelim },
    )
}

/// One open scope during the walk: the field that opened it, its opening
/// character and group kind, and the steps accumulated in the enclosing
/// scope before it opened.
pub struct SFrame {
    pub field: int,
    pub open: char,
    pub kind: GroupKind,
    pub done: Seq<SStep>,
}

/// Closes every scope still open at the end of the field list, innermost
/// first, wrapping the accumulated steps.
pub open spec fn close_all(cur: Seq<SStep>, stack: Seq<SFrame>) -> Seq<SStep>
    decreases stack.len(),
{
    if stack.len() == 0 {
        cur
    } else {
        let f = stack.last();
        close_all(f.done + seq![SStep::Group(f.field, f.kind, cur)], stack.drop_last())
    }
}

/// The scope walk: processes the directive characters of field `i` from
/// position `j` on, then the field itself, then the remaining fields.
/// `opened` records whether field `i` has already opened a scope of its own:
/// such a field contributes its group step instead of a read step.
pub open spec fn walk_shape(
    fs: Seq<FieldShape>,
    i: int,
    j: int,
    cur: Seq<SStep>,
    stack: Seq<SFrame>,
    opened: bool,
) -> Result<Seq<SStep>, ScopeErr>
    decreases fs.len() - i, fs[i].dirs.len() - j,
    when 0 <= i <= fs.len() && 0 <= j && (i < fs.len() ==> j <= fs[i].dirs.len())
{
    if i >= fs.len() {
        Ok(close_all(cur, stack))
    } else if j >= fs[i].dirs.len() {
        let cur2 = if opened {
            cur
        } else {
            cur + seq![SStep::Read(i)]
        };
        walk_shape(fs, i + 1, 0, cur2, stack, false)
    } else {
        let c = fs[i].dirs[j];
        if is_open_char(c) {
            if opened {
                Err(ScopeErr { field: i as usize, kind: ScopeErrKind::DoubleOpen })
            } else {
                let kind = if fs[i].any_delim {
                    GroupKind::AnyDelim
                } else {
                    GroupKind::Fixed(spec_delim_of_open(c))
                };
                let frame = SFrame { field: i, open: c, kind, done: cur };
                walk_shape(fs, i, j + 1, Seq::empty(), stack.push(frame), true)
            }
        } else if is_close_char(c) {
            if stack.len() == 0 {
                Err(ScopeErr { field: i as usize, kind: ScopeErrKind::Mismatch(None, c) })
            } else {
                let f = stack.last();
                if spec_to_close(f.open) == c {
                    walk_shape(
                        fs,
                        i,
                        j + 1,
                        f.done + seq![SStep::Group(f.field, f.kind, cur)],
                        stack.drop_last(),
                        opened,
                    )
                } else {
                    Err(
                        ScopeErr {
                            field: i as usize,
                            kind: ScopeErrKind::Mismatch(Some(f.open), c),
                        },
                    )
                }
            }
        } else {
            Err(ScopeErr { field: i as usize, kind: ScopeErrKind::BadChar(c) })
        }
    }
}

/// The shape of a field list: the step tree produced by the scope walk, or
/// the first scope error.
pub open spec fn spec_shape(fs: Seq<FieldShape>) -> Result<Seq<SStep>, ScopeErr> {
    walk_shape(fs, 0, 0, Seq::empty(), Seq::empty(), false)
}

/// An exec frame of the scope walk.
struct Frame {
    field: usize,
    open: char,
    kind: GroupKind,
    done: Vec<Step>,
}

/// The value of one exec frame.
spec fn frame_view(f: Frame) -> SFrame {
    SFrame {
        field: f.field as int,
        open: f.open,
        kind: f.kind,
        done: steps_view(f.done@),
    }
}

/// The values of an exec frame stack.
spec fn frames_view(fr: Seq<Frame>) -> Seq<SFrame> {
    fr.map_values(|f: Frame| frame_view(f))
}

/// Builds the shape tree of a field list by tracking delimiter scopes, or
/// reports the first scope error.
pub fn build_shape(fields: &Vec<FieldDef>) -> (r: Result<Vec<Step>, ScopeErr>)
    ensures
        (r matches Ok(steps) ==> spec_shape(fields_shape(fields@)) matches Ok(ss) && steps_view(
            steps@,
        ) == ss),
        (r matches Err(e) ==> spec_shape(fields_shape(fields@)) == Err::<Seq<SStep>, ScopeErr>(e)),
{
    let ghost fs = fields_shape(fields@);
    let mut cur: Vec<Step> = Vec::new();
    let mut stack: Vec<Frame> = Vec::new();
    let mut i: usize = 0;
    proof {
        assert(steps_view(cur@) =~= Seq::<SStep>::empty());
        assert(frames_view(stack@) =~= Seq::<SFrame>::empty());
    }
    while i < fields.len()
        invariant
            0 <= i <= fields@.len(),
            fs == fields_shape(fields@),
            fs.len() == fields@.len(),
            forall|k: int| 0 <= k < stack@.len() ==> is_open_char(#[trigger] stack@[k].open),
            walk_shape(fs, i as int, 0, steps_view(cur@), frames_view(stack@), false)
                == spec_shape(fs),
        decreases fields@.len() - i,
    {
        let ndirs = fields[i].delims.len();
        let mut j: usize = 0;
        let mut opened = false;
        while j < ndirs
            invariant
                0 <= i < fields@.len(),
                0 <= j <= ndirs,
                fs == fields_shape(fields@),
                fs.len() == fields@.len(),
                ndirs == fields@[i as int].delims@.len(),
                forall|k: int| 0 <= k < stack@.len() ==> is_open_char(#[trigger] stack@[k].open),
                walk_shape(fs, i as int, j as int, steps_view(cur@), frames_view(stack@), opened)
                    == spec_shape(fs),
            decreases ndirs - j,
        {
            proof {
                assert(fs[i as int].dirs == fields@[i as int].delims@);
                assert(fs[i as int].any_delim == (fields@[i as int].ty is MacroDelim));
            }
            let c = fields[i].delims[j];
            if c == '(' || c == '[' || c == '{' {
                if opened {
                    return Err(ScopeErr { field: i, kind: ScopeErrKind::DoubleOpen });
                }
                let kind = if fields[i].ty.is_macro_delimiter() {
                    GroupKind::AnyDelim
                } else {
                    GroupKind::Fixed(delim_of_open(c))
                };
                let frame = Frame { field: i, open: c, kind, done: cur };
                proof {
                    assert(frames_view(stack@.push(frame)) =~= frames_view(stack@).push(
                        frame_view(frame),
                    ));
                }
                stack.push(frame);
                cur = Vec::new();
                opened = true;
                proof {
                    assert(steps_view(cur@) =~= Seq::<SStep>::empty());
                }
            } else if c == ')' || c == ']' || c == '}' {
                if stack.len() == 0 {
                    proof {
                        assert(frames_view(stack@).len() == 0);
                    }
                    return Err(ScopeErr { field: i, kind: ScopeErrKind::Mismatch(None, c) });
                }
                let ghost old_stack = stack@;
                let f = stack.pop().unwrap();
                proof {
                    assert(old_stack.drop_last() =~= stack@);
                    assert(frames_view(old_stack) =~= frames_view(stack@).push(frame_view(f)));
                    assert(frames_view(old_stack).last() == frame_view(f));
                    assert(frames_view(old_stack).drop_last() =~= frames_view(stack@));
                }
                if to_close(f.open) == c {
                    let mut done = f.done;
                    let body = cur;
                    proof {
                        lemma_steps_view_push(done@, Step::Group(f.field, f.kind, body));
                    }
                    done.push(Step::Group(f.field, f.kind, body));
                    cur = done;
                } else {
                    return Err(ScopeErr { field: i, kind: ScopeErrKind::Mismatch(Some(f.open), c) });
                }
            } else {
                return Err(ScopeErr { field: i, kind: ScopeErrKind::BadChar(c) });
            }
            j += 1;
        }
        if !opened {
            proof {
                lemma_steps_view_push(cur@, Step::Read(i));
            }
            cur.push(Step::Read(i));
        }
        i += 1;
    }
    while stack.len() > 0
        invariant
            fs == fields_shape(fields@),
            forall|k: int| 0 <= k < stack@.len() ==> is_open_char(#[trigger] stack@[k].open),
            walk_shape(
                fs,
                fs.len() as int,
                0,
                steps_view(cur@),
                frames_view(stack@),
                false,
            ) == spec_shape(fs),
        decreases stack@.len(),
    {
        let ghost old_stack = stack@;
        let ghost old_cur = steps_view(cur@);
        let f = stack.pop().unwrap();
        proof {
            assert(old_stack.drop_last() =~= stack@);
            assert(frames_view(old_stack) =~= frames_view(stack@).push(frame_view(f)));
            assert(frames_view(old_stack).last() == frame_view(f));
            assert(frames_view(old_stack).drop_last() =~= frames_view(stack@));
            assert(close_all(old_cur, frames_view(old_stack)) == close_all(
                frame_view(f).done + seq![
                    SStep::Group(frame_view(f).field, frame_view(f).kind, old_cur),
                ],
                frames_view(stack@),
            ));
        }
        let mut done = f.done;
        let body = cur;
        proof {
            lemma_steps_view_push(done@, Step::Group(f.field, f.kind, body));
            assert(steps_view(done@.push(Step::Group(f.field, f.kind, body))) =~= frame_view(
                f,
            ).done + seq![SStep::Group(frame_view(f).field, frame_view(f).kind, old_cur)]);
        }
        done.push(Step::Group(f.field, f.kind, body));
        cur = done;
    }
    proof {
        assert(frames_view(stack@).len() == 0);
        assert(close_all(steps_view(cur@), frames_view(stack@)) == steps_view(cur@));
    }
    Ok(cur)
}

/// Appending one step appends its value to the list's value.
pub proof fn lemma_steps_view_push(ss: Seq<Step>, s: Step)
    ensures
        steps_view(ss.push(s)) == steps_view(ss) + seq![step_view(s)],
    decreases ss.len(),
{
    if ss.len() == 0 {
        assert(ss.push(s).drop_first() =~= ss);
        assert(steps_view(ss.push(s)) =~= steps_view(ss) + seq![step_view(s)]);
    } else {
        assert(ss.push(s).drop_first() =~= ss.drop_first().push(s));
        lemma_steps_view_push(ss.drop_first(), s);
        assert(steps_view(ss.push(s)) =~= steps_view(ss) + seq![step_view(s)]);
    }
}

/// The textual rendering of one step, for the debugging escape hatch: a
/// plain field as its index, a scope-opening field as its index followed by
/// its body in brackets.
pub open spec fn spec_render_step(s: SStep) -> Seq<char>
    decreases s, 1int,
{
    match s {
        SStep::Read(i) => crate::keywords::spec_decimal(
            if i >= 0 {
                i as nat
            } else {
                0
            },
        ),
        SStep::Group(i, kind, body) => crate::keywords::spec_decimal(
            if i >= 0 {
                i as nat
            } else {
                0
            },
        ) + seq!['['] + spec_render_steps(body) + seq![']'],
    }
}

/// The textual rendering of a step list: the steps separated by spaces.
pub open spec fn spec_render_steps(ss: Seq<SStep>) -> Seq<char>
    decreases ss, 0int,
{
    if ss.len() == 0 {
        Seq::empty()
    } else if ss.len() == 1 {
        spec_render_step(ss[0])
    } else {
        spec_render_step(ss[0]) + seq![' '] + spec_render_steps(ss.drop_first())
    }
}

/// Renders one step list.
pub fn render_steps(ss: &Vec<Step>) -> (r: String)
    ensures
        r@ == spec_render_steps(steps_view(ss@)),
{
    proof {
        assert(steps_view(ss@).skip(0) =~= steps_view(ss@));
    }
    render_steps_from(ss, 0)
}

fn render_steps_from(ss: &Vec<Step>, k: usize) -> (r: String)
    requires
        k <= ss@.len(),
    ensures
        r@ == spec_render_steps(steps_view(ss@).skip(k as int)),
    decreases ss, ss@.len() - k,
{
    let ghost sv = steps_view(ss@);
    proof {
        lemma_steps_view_index(ss@);
        assert(sv.skip(k as int).len() == sv.len() - k);
    }
    if k >= ss.len() {
        let r = String::new();
        proof {
            assert(r@ =~= spec_render_steps(sv.skip(k as int)));
        }
        return r;
    }
    proof {
        assert(sv.skip(k as int)[0] == sv[k as int]);
        assert(sv.skip(k as int).drop_first() =~= sv.skip(k as int + 1));
    }
    let mut head: String = match &ss[k] {
        Step::Read(i) => {
            let h = crate::keywords::usize_to_string(*i);
            proof {
                assert(h@ =~= spec_render_step(sv[k as int]));
            }
            h
        },
        Step::Group(i, kind, body) => {
            proof {
                broadcast use vstd::std_specs::vec::axiom_vec_decreases_to_view;

                assert(decreases_to!(ss@ => ss@[k as int]));
                assert(decreases_to!(ss@[k as int] => *body));
            }
            let inner = render_steps_from(body, 0);
            let mut h = crate::keywords::usize_to_string(*i);
            crate::err::push_char(&mut h, '[');
            h.append(inner.as_str());
            crate::err::push_char(&mut h, ']');
            proof {
                assert(steps_view(body@).skip(0) =~= steps_view(body@));
                assert(h@ =~= spec_render_step(sv[k as int]));
            }
            h
        },
    };
    if k + 1 >= ss.len() {
        proof {
            assert(head@ =~= spec_render_steps(sv.skip(k as int)));
        }
        head
    } else {
        let rest = render_steps_from(ss, k + 1);
        crate::err::push_char(&mut head, ' ');
        head.append(rest.as_str());
        proof {
            assert(head@ =~= spec_render_steps(sv.skip(k as int)));
        }
        head
    }
}

/// The textual rendering of a list of variant step trees: the variants
/// separated by slashes.
pub open spec fn spec_render_shapes(shapes: Seq<Seq<SStep>>, v: int) -> Seq<char>
    decreases shapes.len() - v,
    when 0 <= v
{
    if v >= shapes.len() {
        Seq::empty()
    } else if v == shapes.len() - 1 {
        spec_render_steps(shapes[v])
    } else {
        spec_render_steps(shapes[v]) + seq!['/'] + spec_render_shapes(shapes, v + 1)
    }
}

/// Renders the step trees of all variants.
pub fn render_shapes(variants: &Vec<Vec<Step>>, v: usize) -> (r: String)
    requires
        v <= variants@.len(),
    ensures
        r@ == spec_render_shapes(
            variants@.map_values(|ss: Vec<Step>| steps_view(ss@)),
            v as int,
        ),
    decreases variants@.len() - v,
{
    let ghost shapes = variants@.map_values(|ss: Vec<Step>| steps_view(ss@));
    proof {
        assert(shapes.len() == variants@.len());
    }
    if v >= variants.len() {
        let r = String::new();
        proof {
            assert(r@ =~= spec_render_shapes(shapes, v as int));
        }
        return r;
    }
    proof {
        assert(shapes[v as int] == steps_view(variants@[v as int]@));
    }
    let mut head = render_steps(&variants[v]);
    if v + 1 >= variants.len() {
        head
    } else {
        let rest = render_shapes(variants, v + 1);
        crate::err::push_char(&mut head, '/');
        head.append(rest.as_str());
        head
    }
}

} // verus!
