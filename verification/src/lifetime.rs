//! No environment is given up while anything still refers to it.
//!
//! The interpreter gives an environment up when its scope ends, unless a
//! function was declared in it. This module states what that relies on, as a
//! property of the machine's state, and shows that every step keeps it: a
//! closure's environment, an environment's parent and the environments that
//! the frames go back to are always there.

use vstd::prelude::*;
use crate::ast::{ExprView, FunctionDeclView, StatementView};
use crate::environment::{
    bind, lemma_position, lemma_target_in_range, lookup, position, rebind, target,
    EnvironmentView, Function, ValueView,
};
use crate::error::ErrorView;
use crate::interpreter::{
    bind_all, capture, describe, enter, idle, leave, push, returned, reversed, spec_arguments,
    spec_binary, spec_callee, spec_eval, spec_exec, spec_give, spec_invoke, spec_raise,
    spec_render, spec_step, spec_texts, ControlView, EventView, FrameView, Interpreter, State,
    MAX_CALL_DEPTH,
};
use crate::scanner::TokenType;

verus! {

/// Whether what `value` refers to is there: the declaration and the
/// environment of a closure, which is marked as captured.
pub open spec fn alive(envs: Seq<EnvironmentView>, functions: nat, value: ValueView) -> bool {
    value matches ValueView::Function(f) ==> f.decl < functions && f.closure < envs.len()
        && envs[f.closure as int].captured
}

pub open spec fn all_alive(envs: Seq<EnvironmentView>, functions: nat, values: Seq<ValueView>) -> bool {
    forall|i: int| 0 <= i < values.len() ==> alive(envs, functions, #[trigger] values[i])
}

pub open spec fn bindings_alive(
    envs: Seq<EnvironmentView>,
    functions: nat,
    bindings: Seq<(Seq<char>, ValueView)>,
) -> bool {
    forall|i: int| 0 <= i < bindings.len() ==> alive(envs, functions, (#[trigger] bindings[i]).1)
}

pub open spec fn frame_alive(envs: Seq<EnvironmentView>, functions: nat, frame: FrameView) -> bool {
    match frame {
        FrameView::Apply(_, left) => alive(envs, functions, left),
        FrameView::Args(callee, done, _) => alive(envs, functions, callee) && all_alive(
            envs,
            functions,
            done,
        ),
        _ => true,
    }
}

pub open spec fn control_alive(
    envs: Seq<EnvironmentView>,
    functions: nat,
    control: ControlView,
) -> bool {
    match control {
        ControlView::Give(value) => alive(envs, functions, value),
        ControlView::Raise(ErrorView::EarlyReturn(value)) => alive(envs, functions, value),
        ControlView::Render(values, _) => all_alive(envs, functions, values),
        ControlView::AwaitText(values, _) => all_alive(envs, functions, values),
        _ => true,
    }
}

/// The environment that a frame goes back to, if it is one that does.
pub open spec fn saved(frame: FrameView) -> Option<usize> {
    match frame {
        FrameView::Scope(env) => Some(env),
        FrameView::Call(env) => Some(env),
        _ => None,
    }
}

/// The environments that the frames go back to were made one after the
/// other, and all before the current one.
pub open spec fn nested(frames: Seq<FrameView>, current: usize) -> bool {
    &&& forall|i: int|
        0 <= i < frames.len() ==> (saved(#[trigger] frames[i]) matches Some(env) ==> env < current)
    &&& forall|i: int, j: int|
        0 <= i < j < frames.len() ==> (saved(#[trigger] frames[i]) matches Some(outer) ==> (saved(
            #[trigger] frames[j],
        ) matches Some(inner) ==> outer < inner))
}

/// What every state of a run has, whatever it does next: the current
/// environment is there, a parent was made before its child, and whatever a
/// value in an environment or in a frame refers to is there.
pub open spec fn sound(s: State) -> bool {
    &&& s.current < s.envs.len()
    &&& forall|i: int|
        0 <= i < s.envs.len() ==> ((#[trigger] s.envs[i]).parent matches Some(parent) ==> parent
            < i)
    &&& forall|i: int|
        0 <= i < s.envs.len() ==> bindings_alive(
            s.envs,
            s.functions.len(),
            (#[trigger] s.envs[i]).bindings,
        )
    &&& forall|k: int|
        0 <= k < s.frames.len() ==> frame_alive(s.envs, s.functions.len(), #[trigger] s.frames[k])
    &&& nested(s.frames, s.current)
}

/// What every state of a run has: it is sound, and so is what it does next.
pub open spec fn well_formed(s: State) -> bool {
    sound(s) && control_alive(s.envs, s.functions.len(), s.control)
}

/// Whether every captured environment of `a` is one of `b` too.
pub open spec fn keeps(a: Seq<EnvironmentView>, b: Seq<EnvironmentView>) -> bool {
    forall|c: int| 0 <= c < a.len() && (#[trigger] a[c]).captured ==> c < b.len() && b[c].captured
}

pub proof fn lemma_alive_is_kept(
    a: Seq<EnvironmentView>,
    b: Seq<EnvironmentView>,
    functions: nat,
    more: nat,
)
    requires
        keeps(a, b),
        functions <= more,
    ensures
        forall|value: ValueView| #[trigger] alive(a, functions, value) ==> alive(b, more, value),
        forall|values: Seq<ValueView>| #[trigger]
            all_alive(a, functions, values) ==> all_alive(b, more, values),
        forall|bindings: Seq<(Seq<char>, ValueView)>| #[trigger]
            bindings_alive(a, functions, bindings) ==> bindings_alive(b, more, bindings),
        forall|frame: FrameView| #[trigger]
            frame_alive(a, functions, frame) ==> frame_alive(b, more, frame),
        forall|control: ControlView| #[trigger]
            control_alive(a, functions, control) ==> control_alive(b, more, control),
{
    assert forall|value: ValueView| #[trigger] alive(a, functions, value) implies alive(
        b,
        more,
        value,
    ) by {
        if let ValueView::Function(f) = value {
            assert(a[f.closure as int].captured);
        }
    }
    assert forall|values: Seq<ValueView>| #[trigger]
        all_alive(a, functions, values) implies all_alive(b, more, values) by {
        assert forall|i: int| 0 <= i < values.len() implies alive(b, more, #[trigger] values[i]) by {
            assert(alive(a, functions, values[i]));
        }
    }
    assert forall|bindings: Seq<(Seq<char>, ValueView)>| #[trigger]
        bindings_alive(a, functions, bindings) implies bindings_alive(b, more, bindings) by {
        assert forall|i: int| 0 <= i < bindings.len() implies alive(
            b,
            more,
            (#[trigger] bindings[i]).1,
        ) by {
            assert(alive(a, functions, bindings[i].1));
        }
    }
}

/// Binding a value whose referents are there keeps all of them there.
pub proof fn lemma_bind_alive(
    envs: Seq<EnvironmentView>,
    functions: nat,
    bindings: Seq<(Seq<char>, ValueView)>,
    name: Seq<char>,
    value: ValueView,
)
    requires
        bindings_alive(envs, functions, bindings),
        alive(envs, functions, value),
    ensures
        bindings_alive(envs, functions, bind(bindings, name, value)),
{
    let after = bind(bindings, name, value);
    let at = position(bindings, name, 0);
    lemma_position(bindings, name, 0);
    assert forall|i: int| 0 <= i < after.len() implies alive(
        envs,
        functions,
        (#[trigger] after[i]).1,
    ) by {
        if i != at {
            assert(after[i] == bindings[i]);
        }
    }
}

/// A frame that goes back to no environment can be put on top.
pub proof fn lemma_push_keeps_sound(s: State, frame: FrameView)
    requires
        sound(s),
        frame_alive(s.envs, s.functions.len(), frame),
        saved(frame) is None,
    ensures
        sound(push(s, frame)),
{
    let after = push(s, frame);
    assert forall|k: int| 0 <= k < after.frames.len() implies frame_alive(
        after.envs,
        after.functions.len(),
        #[trigger] after.frames[k],
    ) by {
        if k < s.frames.len() {
            assert(after.frames[k] == s.frames[k]);
        }
    }
    assert(nested(after.frames, after.current)) by {
        assert forall|i: int| 0 <= i < after.frames.len() implies (saved(
            #[trigger] after.frames[i],
        ) matches Some(env) ==> env < after.current) by {
            if i < s.frames.len() {
                assert(after.frames[i] == s.frames[i]);
            }
        }
        assert forall|i: int, j: int| 0 <= i < j < after.frames.len() implies (saved(
            #[trigger] after.frames[i],
        ) matches Some(outer) ==> (saved(#[trigger] after.frames[j]) matches Some(inner)
            ==> outer < inner)) by {
            assert(after.frames[i] == s.frames[i]);
            if j < s.frames.len() {
                assert(after.frames[j] == s.frames[j]);
            }
        }
    }
}

/// The frame on top can be taken off, and what it refers to is there.
pub proof fn lemma_pop_keeps_sound(s: State)
    requires
        sound(s),
        s.frames.len() > 0,
    ensures
        sound(State { frames: s.frames.drop_last(), ..s }),
        frame_alive(s.envs, s.functions.len(), s.frames.last()),
        saved(s.frames.last()) matches Some(env) ==> env < s.current,
        saved(s.frames.last()) matches Some(env) ==> forall|i: int|
            0 <= i < s.frames.len() - 1 ==> (saved(#[trigger] s.frames.drop_last()[i])
                 matches Some(outer) ==> outer < env),
{
    let after = State { frames: s.frames.drop_last(), ..s };
    assert(s.frames.last() == s.frames[s.frames.len() - 1]);
    if let Some(env) = saved(s.frames.last()) {
        assert forall|i: int| 0 <= i < s.frames.len() - 1 implies (saved(
            #[trigger] s.frames.drop_last()[i],
        ) matches Some(outer) ==> outer < env) by {
            assert(s.frames.drop_last()[i] == s.frames[i]);
        }
    }
    assert forall|k: int| 0 <= k < after.frames.len() implies frame_alive(
        after.envs,
        after.functions.len(),
        #[trigger] after.frames[k],
    ) by {
        assert(after.frames[k] == s.frames[k]);
    }
    assert(nested(after.frames, after.current)) by {
        assert forall|i: int| 0 <= i < after.frames.len() implies (saved(
            #[trigger] after.frames[i],
        ) matches Some(env) ==> env < after.current) by {
            assert(after.frames[i] == s.frames[i]);
        }
        assert forall|i: int, j: int| 0 <= i < j < after.frames.len() implies (saved(
            #[trigger] after.frames[i],
        ) matches Some(outer) ==> (saved(#[trigger] after.frames[j]) matches Some(inner)
            ==> outer < inner)) by {
            assert(after.frames[i] == s.frames[i]);
            assert(after.frames[j] == s.frames[j]);
        }
    }
}

/// Environments may change as long as every captured one stays: what the
/// frames refer to is still there.
pub proof fn lemma_new_envs_keep_sound(s: State, envs: Seq<EnvironmentView>, functions: nat)
    requires
        sound(s),
        keeps(s.envs, envs),
        s.functions.len() <= functions,
    ensures
        forall|k: int|
            0 <= k < s.frames.len() ==> frame_alive(envs, functions, #[trigger] s.frames[k]),
{
    lemma_alive_is_kept(s.envs, envs, s.functions.len(), functions);
    assert forall|k: int| 0 <= k < s.frames.len() implies frame_alive(
        envs,
        functions,
        #[trigger] s.frames[k],
    ) by {
        assert(frame_alive(s.envs, s.functions.len(), s.frames[k]));
    }
}

/// Binding a name, in any environment, to a value whose referents are there.
pub proof fn lemma_rebind_keeps_sound(s: State, at: int, name: Seq<char>, value: ValueView)
    requires
        sound(s),
        alive(s.envs, s.functions.len(), value),
    ensures
        sound(State { envs: rebind(s.envs, at, name, value), ..s }),
        keeps(s.envs, rebind(s.envs, at, name, value)),
        rebind(s.envs, at, name, value).len() == s.envs.len(),
{
    let envs = rebind(s.envs, at, name, value);
    let after = State { envs, ..s };
    assert(keeps(s.envs, envs)) by {
        assert forall|c: int| 0 <= c < s.envs.len() && (#[trigger] s.envs[c]).captured implies c
            < envs.len() && envs[c].captured by {}
    }
    lemma_alive_is_kept(s.envs, envs, s.functions.len(), s.functions.len());
    assert forall|i: int| 0 <= i < envs.len() implies bindings_alive(
        envs,
        s.functions.len(),
        (#[trigger] envs[i]).bindings,
    ) by {
        assert(bindings_alive(s.envs, s.functions.len(), s.envs[i].bindings));
        if i == at {
            lemma_bind_alive(s.envs, s.functions.len(), s.envs[i].bindings, name, value);
        }
    }
    assert forall|i: int| 0 <= i < envs.len() implies ((#[trigger] envs[i]).parent matches Some(
        parent,
    ) ==> parent < i) by {
        assert(s.envs[i].parent == envs[i].parent);
    }
    lemma_new_envs_keep_sound(s, envs, s.functions.len());
}

/// Going into a new environment, with a frame on top that goes back to the
/// one left.
pub proof fn lemma_open_keeps_sound(s: State, env: EnvironmentView, frame: FrameView)
    requires
        sound(s),
        s.envs.len() <= usize::MAX,
        env.parent matches Some(parent) ==> parent < s.envs.len(),
        bindings_alive(s.envs, s.functions.len(), env.bindings),
        saved(frame) == Some(s.current),
    ensures
        sound(
            State {
                envs: s.envs.push(env),
                current: s.envs.len() as usize,
                frames: s.frames.push(frame),
                ..s
            },
        ),
        keeps(s.envs, s.envs.push(env)),
{
    let envs = s.envs.push(env);
    let after = State {
        envs,
        current: s.envs.len() as usize,
        frames: s.frames.push(frame),
        ..s
    };
    assert(keeps(s.envs, envs)) by {
        assert forall|c: int| 0 <= c < s.envs.len() && (#[trigger] s.envs[c]).captured implies c
            < envs.len() && envs[c].captured by {}
    }
    lemma_alive_is_kept(s.envs, envs, s.functions.len(), s.functions.len());
    assert forall|i: int| 0 <= i < envs.len() implies bindings_alive(
        envs,
        s.functions.len(),
        (#[trigger] envs[i]).bindings,
    ) by {
        if i < s.envs.len() {
            assert(bindings_alive(s.envs, s.functions.len(), s.envs[i].bindings));
        }
    }
    assert forall|i: int| 0 <= i < envs.len() implies ((#[trigger] envs[i]).parent matches Some(
        p,
    ) ==> p < i) by {
        if i < s.envs.len() {
            assert(s.envs[i].parent == envs[i].parent);
        }
    }
    lemma_new_envs_keep_sound(s, envs, s.functions.len());
    assert forall|k: int| 0 <= k < after.frames.len() implies frame_alive(
        after.envs,
        after.functions.len(),
        #[trigger] after.frames[k],
    ) by {
        if k < s.frames.len() {
            assert(after.frames[k] == s.frames[k]);
        }
    }
    assert(nested(after.frames, after.current)) by {
        assert forall|i: int| 0 <= i < after.frames.len() implies (saved(
            #[trigger] after.frames[i],
        ) matches Some(e) ==> e < after.current) by {
            if i < s.frames.len() {
                assert(after.frames[i] == s.frames[i]);
            } else {
                assert(after.frames[i] == frame);
            }
        }
        assert forall|i: int, j: int| 0 <= i < j < after.frames.len() implies (saved(
            #[trigger] after.frames[i],
        ) matches Some(outer) ==> (saved(#[trigger] after.frames[j]) matches Some(inner)
            ==> outer < inner)) by {
            assert(after.frames[i] == s.frames[i]);
            if j < s.frames.len() {
                assert(after.frames[j] == s.frames[j]);
            } else {
                assert(after.frames[j] == frame);
            }
        }
    }
}

/// Going back to the environment of a frame just taken off. The environment
/// left is given up only where nothing refers to it: every captured
/// environment stays.
pub proof fn lemma_leave_keeps_sound(s: State, back: usize)
    requires
        sound(s),
        back < s.current,
        forall|i: int|
            0 <= i < s.frames.len() ==> (saved(#[trigger] s.frames[i]) matches Some(env) ==> env
                < back),
    ensures
        sound(leave(s, back)),
        sound(returned(leave(s, back))),
        keeps(s.envs, leave(s, back).envs),
{
    let after = leave(s, back);
    assert(keeps(s.envs, after.envs)) by {
        assert forall|c: int| 0 <= c < s.envs.len() && (#[trigger] s.envs[c]).captured implies c
            < after.envs.len() && after.envs[c].captured by {}
    }
    lemma_alive_is_kept(s.envs, after.envs, s.functions.len(), s.functions.len());
    assert forall|i: int| 0 <= i < after.envs.len() implies bindings_alive(
        after.envs,
        s.functions.len(),
        (#[trigger] after.envs[i]).bindings,
    ) by {
        assert(after.envs[i] == s.envs[i]);
        assert(bindings_alive(s.envs, s.functions.len(), s.envs[i].bindings));
    }
    assert forall|i: int| 0 <= i < after.envs.len() implies ((#[trigger] after.envs[i]).parent
         matches Some(p) ==> p < i) by {
        assert(after.envs[i] == s.envs[i]);
    }
    lemma_new_envs_keep_sound(s, after.envs, s.functions.len());
    assert(nested(after.frames, after.current));
}

/// Marking an environment as captured, and adding a declaration.
pub proof fn lemma_capture_keeps_sound(s: State, at: int, functions: Seq<FunctionDeclView>)
    requires
        sound(s),
        s.functions.len() <= functions.len(),
    ensures
        sound(State { envs: capture(s.envs, at), functions, ..s }),
        keeps(s.envs, capture(s.envs, at)),
{
    let envs = capture(s.envs, at);
    let after = State { envs, functions, ..s };
    assert(keeps(s.envs, envs)) by {
        assert forall|c: int| 0 <= c < s.envs.len() && (#[trigger] s.envs[c]).captured implies c
            < envs.len() && envs[c].captured by {}
    }
    lemma_alive_is_kept(s.envs, envs, s.functions.len(), functions.len());
    assert forall|i: int| 0 <= i < envs.len() implies bindings_alive(
        envs,
        functions.len(),
        (#[trigger] envs[i]).bindings,
    ) by {
        assert(bindings_alive(s.envs, s.functions.len(), s.envs[i].bindings));
        assert(envs[i].bindings == s.envs[i].bindings);
    }
    assert forall|i: int| 0 <= i < envs.len() implies ((#[trigger] envs[i]).parent matches Some(
        p,
    ) ==> p < i) by {
        assert(s.envs[i].parent == envs[i].parent);
    }
    lemma_new_envs_keep_sound(s, envs, functions.len());
}

/// What a name reads as refers to what is there.
pub proof fn lemma_lookup_alive(s: State, name: Seq<char>, depth: Option<usize>)
    requires
        sound(s),
    ensures
        lookup(s.envs, s.current as int, name, depth) matches Some(value) ==> alive(
            s.envs,
            s.functions.len(),
            value,
        ),
{
    lemma_target_in_range(s.envs, s.current as int, name, depth);
    if let Some(at) = target(s.envs, s.current as int, name, depth) {
        let bindings = s.envs[at].bindings;
        lemma_position(bindings, name, 0);
        assert(bindings_alive(s.envs, s.functions.len(), bindings));
        assert(alive(s.envs, s.functions.len(), bindings[position(bindings, name, 0)].1));
    }
}

/// Binding parameters to arguments that refer to what is there.
pub proof fn lemma_bind_all_alive(
    envs: Seq<EnvironmentView>,
    functions: nat,
    bindings: Seq<(Seq<char>, ValueView)>,
    params: Seq<Seq<char>>,
    args: Seq<ValueView>,
    from: int,
)
    requires
        bindings_alive(envs, functions, bindings),
        all_alive(envs, functions, args),
    ensures
        bindings_alive(envs, functions, bind_all(bindings, params, args, from)),
    decreases params.len() - from,
{
    if 0 <= from < params.len() && from < args.len() {
        lemma_bind_alive(envs, functions, bindings, params[from], args[from]);
        lemma_bind_all_alive(
            envs,
            functions,
            bind(bindings, params[from], args[from]),
            params,
            args,
            from + 1,
        );
    }
}

/// Whether the lists of the state have room for one more entry each, as the
/// lists of a running interpreter always have.
pub open spec fn roomy(s: State) -> bool {
    s.envs.len() < usize::MAX && s.functions.len() < usize::MAX
}

pub proof fn lemma_eval_keeps_well_formed(s: State, expr: ExprView)
    requires
        sound(s),
    ensures
        well_formed(spec_eval(s, expr).0),
{
    match expr {
        ExprView::Identifier(name, depth) => {
            lemma_lookup_alive(s, name, depth);
        },
        ExprView::Unary(op, operand) => {
            lemma_push_keeps_sound(s, FrameView::Unary(op));
        },
        ExprView::Binary(left, op, right) => {
            lemma_push_keeps_sound(s, FrameView::Right(op, *right));
        },
        ExprView::Assignment(name, depth, value) => {
            lemma_push_keeps_sound(s, FrameView::Assign(name, depth));
        },
        ExprView::Call(callee, args) => {
            lemma_push_keeps_sound(s, FrameView::Callee(reversed(args)));
        },
        _ => {},
    }
}

pub proof fn lemma_exec_keeps_well_formed(s: State, statement: StatementView)
    requires
        sound(s),
        roomy(s),
    ensures
        well_formed(spec_exec(s, statement).0),
{
    match statement {
        StatementView::Print(e) => {
            lemma_push_keeps_sound(s, FrameView::Print);
        },
        StatementView::VariableDecl(name, init) => {
            lemma_push_keeps_sound(s, FrameView::Declare(name));
        },
        StatementView::Block(items) => {
            let env = EnvironmentView {
                bindings: Seq::empty(),
                parent: Some(s.current),
                captured: false,
            };
            lemma_open_keeps_sound(s, env, FrameView::Scope(s.current));
            let opened = push(enter(s, s.current), FrameView::Scope(s.current));
            lemma_push_keeps_sound(opened, FrameView::Sequence(reversed(items)));
        },
        StatementView::If(cond, then_branch, else_branch) => {
            lemma_push_keeps_sound(
                s,
                FrameView::Branch(
                    *then_branch,
                    match else_branch {
                        Some(other) => Some(*other),
                        None => None,
                    },
                ),
            );
        },
        StatementView::While(cond, body) => {
            lemma_push_keeps_sound(s, FrameView::Loop(cond, *body));
        },
        StatementView::FunDecl(decl) => {
            let functions = s.functions.push(decl);
            let value = ValueView::Function(
                Function { decl: s.functions.len() as usize, closure: s.current },
            );
            lemma_capture_keeps_sound(s, s.current as int, functions);
            let captured = State { envs: capture(s.envs, s.current as int), functions, ..s };
            lemma_rebind_keeps_sound(captured, s.current as int, decl.name, value);
            assert(rebind(captured.envs, s.current as int, decl.name, value) =~= capture(
                rebind(s.envs, s.current as int, decl.name, value),
                s.current as int,
            ));
        },
        StatementView::Return(e) => {
            lemma_push_keeps_sound(s, FrameView::Return);
        },
        _ => {},
    }
}

pub proof fn lemma_describe_keeps_well_formed(s: State, frame: FrameView, values: Seq<ValueView>)
    requires
        sound(s),
        saved(frame) is None,
        frame_alive(s.envs, s.functions.len(), frame),
        all_alive(s.envs, s.functions.len(), values),
    ensures
        well_formed(describe(s, frame, values).0),
{
    lemma_push_keeps_sound(s, frame);
}

pub proof fn lemma_binary_keeps_well_formed(
    s: State,
    op: TokenType,
    left: ValueView,
    right: ValueView,
)
    requires
        sound(s),
        alive(s.envs, s.functions.len(), left),
        alive(s.envs, s.functions.len(), right),
    ensures
        well_formed(spec_binary(s, op, left, right).0),
{
    assert(all_alive(s.envs, s.functions.len(), seq![right, left]));
    lemma_describe_keeps_well_formed(s, FrameView::Operator(op), seq![right, left]);
}

pub proof fn lemma_invoke_keeps_well_formed(s: State, callee: ValueView, args: Seq<ValueView>)
    requires
        sound(s),
        roomy(s),
        alive(s.envs, s.functions.len(), callee),
        all_alive(s.envs, s.functions.len(), args),
    ensures
        well_formed(spec_invoke(s, callee, args).0),
{
    if let ValueView::Function(f) = callee {
        if s.depth < MAX_CALL_DEPTH && f.decl < s.functions.len() {
            let decl = s.functions[f.decl as int];
            let env = EnvironmentView {
                bindings: bind_all(Seq::empty(), decl.params, args, 0),
                parent: Some(f.closure),
                captured: false,
            };
            assert(bindings_alive(s.envs, s.functions.len(), Seq::empty()));
            lemma_bind_all_alive(s.envs, s.functions.len(), Seq::empty(), decl.params, args, 0);
            lemma_open_keeps_sound(s, env, FrameView::Call(s.current));
            let opened = State {
                envs: s.envs.push(env),
                current: s.envs.len() as usize,
                frames: s.frames.push(FrameView::Call(s.current)),
                ..s
            };
            lemma_push_keeps_sound(opened, FrameView::Sequence(reversed(decl.body)));
            let called = State { depth: (s.depth + 1) as usize, ..push(
                opened,
                FrameView::Sequence(reversed(decl.body)),
            ) };
            assert(sound(called));
            assert(spec_invoke(s, callee, args).0 == State {
                control: ControlView::Give(ValueView::Nil),
                ..called
            });
        }
    }
}

pub proof fn lemma_arguments_keep_well_formed(
    s: State,
    callee: ValueView,
    done: Seq<ValueView>,
    rest: Seq<ExprView>,
)
    requires
        sound(s),
        roomy(s),
        alive(s.envs, s.functions.len(), callee),
        all_alive(s.envs, s.functions.len(), done),
    ensures
        well_formed(spec_arguments(s, callee, done, rest).0),
{
    if rest.len() == 0 {
        lemma_invoke_keeps_well_formed(s, callee, done);
    } else {
        lemma_push_keeps_sound(s, FrameView::Args(callee, done, rest.drop_last()));
    }
}

pub proof fn lemma_callee_keeps_well_formed(s: State, callee: ValueView, args: Seq<ExprView>)
    requires
        sound(s),
        roomy(s),
        alive(s.envs, s.functions.len(), callee),
    ensures
        well_formed(spec_callee(s, callee, args).0),
{
    assert(all_alive(s.envs, s.functions.len(), Seq::<ValueView>::empty()));
    lemma_arguments_keep_well_formed(s, callee, Seq::empty(), args);
    assert(all_alive(s.envs, s.functions.len(), seq![callee]));
    lemma_describe_keeps_well_formed(s, FrameView::NotCallable, seq![callee]);
}

pub proof fn lemma_give_keeps_well_formed(s: State, value: ValueView)
    requires
        sound(s),
        roomy(s),
        alive(s.envs, s.functions.len(), value),
    ensures
        well_formed(spec_give(s, value).0),
{
    if s.frames.len() > 0 {
        lemma_pop_keeps_sound(s);
        let r = State { frames: s.frames.drop_last(), ..s };
        let envs = s.envs;
        let functions = s.functions.len();
        assert(all_alive(envs, functions, seq![value]));
        match s.frames.last() {
            FrameView::Unary(op) => {
                lemma_describe_keeps_well_formed(r, FrameView::Mismatch("number"@), seq![value]);
                lemma_describe_keeps_well_formed(r, FrameView::Mismatch("boolean"@), seq![value]);
            },
            FrameView::Right(op, right) => {
                lemma_push_keeps_sound(r, FrameView::Truth);
                lemma_push_keeps_sound(r, FrameView::Apply(op, value));
            },
            FrameView::Apply(op, left) => {
                lemma_binary_keeps_well_formed(r, op, left, value);
            },
            FrameView::Assign(name, depth) => {
                lemma_target_in_range(r.envs, r.current as int, name, depth);
                if let Some(at) = target(r.envs, r.current as int, name, depth) {
                    lemma_rebind_keeps_sound(r, at, name, value);
                    lemma_alive_is_kept(
                        r.envs,
                        rebind(r.envs, at, name, value),
                        functions,
                        functions,
                    );
                }
            },
            FrameView::Callee(args) => {
                lemma_callee_keeps_well_formed(r, value, args);
            },
            FrameView::Args(callee, done, rest) => {
                assert forall|i: int| 0 <= i < done.push(value).len() implies alive(
                    envs,
                    functions,
                    #[trigger] done.push(value)[i],
                ) by {
                    if i < done.len() {
                        assert(done.push(value)[i] == done[i]);
                    }
                }
                lemma_arguments_keep_well_formed(r, callee, done.push(value), rest);
            },
            FrameView::Call(back) => {
                lemma_leave_keeps_sound(r, back);
            },
            FrameView::Print => {
                lemma_describe_keeps_well_formed(r, FrameView::Show, seq![value]);
            },
            FrameView::Declare(name) => {
                lemma_rebind_keeps_sound(r, r.current as int, name, value);
            },
            FrameView::Sequence(rest) => {
                if rest.len() > 0 {
                    lemma_push_keeps_sound(r, FrameView::Sequence(rest.drop_last()));
                }
            },
            FrameView::Scope(back) => {
                lemma_leave_keeps_sound(r, back);
                lemma_alive_is_kept(r.envs, leave(r, back).envs, functions, functions);
            },
            FrameView::Branch(then_branch, else_branch) => {
                lemma_push_keeps_sound(r, FrameView::Sequence(Seq::empty()));
            },
            FrameView::Loop(cond, body) => {
                lemma_push_keeps_sound(r, FrameView::Again(cond, body));
            },
            FrameView::Again(cond, body) => {
                lemma_push_keeps_sound(r, FrameView::Loop(cond, body));
            },
            _ => {},
        }
    }
}

pub proof fn lemma_raise_keeps_well_formed(s: State, error: ErrorView)
    requires
        sound(s),
        control_alive(s.envs, s.functions.len(), ControlView::Raise(error)),
    ensures
        well_formed(spec_raise(s, error).0),
{
    if s.frames.len() > 0 {
        lemma_pop_keeps_sound(s);
        let r = State { frames: s.frames.drop_last(), ..s };
        let functions = s.functions.len();
        match s.frames.last() {
            FrameView::Scope(back) => {
                lemma_leave_keeps_sound(r, back);
                lemma_alive_is_kept(r.envs, leave(r, back).envs, functions, functions);
            },
            FrameView::Call(back) => {
                lemma_leave_keeps_sound(r, back);
                lemma_alive_is_kept(r.envs, leave(r, back).envs, functions, functions);
            },
            _ => {},
        }
    }
}

pub proof fn lemma_texts_keep_well_formed(s: State, texts: Seq<Seq<char>>)
    requires
        sound(s),
    ensures
        well_formed(spec_texts(s, texts).0),
{
    if s.frames.len() > 0 {
        lemma_pop_keeps_sound(s);
    }
}

pub proof fn lemma_render_keeps_well_formed(
    s: State,
    values: Seq<ValueView>,
    texts: Seq<Seq<char>>,
)
    requires
        sound(s),
        all_alive(s.envs, s.functions.len(), values),
    ensures
        well_formed(spec_render(s, values, texts).0),
{
    if values.len() == 0 {
        lemma_texts_keep_well_formed(s, texts);
    } else {
        assert forall|i: int| 0 <= i < values.drop_last().len() implies alive(
            s.envs,
            s.functions.len(),
            #[trigger] values.drop_last()[i],
        ) by {
            assert(values.drop_last()[i] == values[i]);
        }
    }
}

/// Every step keeps the state well formed: whatever a closure, a parent or a
/// frame refers to is still there after it, so no environment is ever given
/// up while something holds it.
pub proof fn lemma_step_keeps_well_formed(s: State, event: EventView)
    requires
        well_formed(s),
        roomy(s),
    ensures
        well_formed(spec_step(s, event).0),
{
    assert(sound(idle(s)));
    match s.control {
        ControlView::Eval(expr) => lemma_eval_keeps_well_formed(idle(s), expr),
        ControlView::Exec(statement) => lemma_exec_keeps_well_formed(idle(s), statement),
        ControlView::Give(value) => lemma_give_keeps_well_formed(idle(s), value),
        ControlView::Raise(error) => lemma_raise_keeps_well_formed(idle(s), error),
        ControlView::Render(values, texts) => lemma_render_keeps_well_formed(
            idle(s),
            values,
            texts,
        ),
        _ => {},
    }
}

/// A new machine is well formed, and loading keeps it so.
pub proof fn lemma_loading_keeps_well_formed(s: State, control: ControlView)
    requires
        well_formed(s),
        control is Exec || control is Eval,
    ensures
        well_formed(Interpreter::loaded(s, control)),
{
    let after = Interpreter::loaded(s, control);
    assert forall|i: int| 0 <= i < after.envs.len() implies bindings_alive(
        after.envs,
        after.functions.len(),
        (#[trigger] after.envs[i]).bindings,
    ) by {
        assert(after.envs[i] == s.envs[i]);
    }
}

/// A machine starts out well formed.
pub proof fn lemma_new_is_well_formed(s: State)
    requires
        s.envs.len() == 1,
        s.envs[0].parent is None,
        s.envs[0].bindings == seq![("clock"@, ValueView::NativeFunction("clock"@, 0))],
        s.current == 0,
        s.frames.len() == 0,
        s.control == ControlView::Idle,
    ensures
        well_formed(s),
{
}

} // verus!
