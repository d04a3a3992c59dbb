//! The machine never finds itself where it should not be.
//!
//! An internal error stands for a state that the interpreter should make
//! impossible. This module states the order that the machine keeps among its
//! frames and what it does next, shows that every step keeps it, and that in
//! such a state no step runs into an internal error of its own making: the
//! only ones left are an operator that is not unary where one is asked for,
//! which no parse gives, and an answer of the host that is not the one asked
//! for.

use vstd::prelude::*;
use crate::ast::{ExprView, StatementView};
use crate::environment::ValueView;
use crate::error::ErrorView;
use crate::interpreter::{
    describe, idle, push, reversed, spec_arguments, spec_binary, spec_callee, spec_eval,
    spec_exec, spec_give, spec_invoke, spec_raise, spec_render, spec_step, spec_texts,
    ControlView, EventView, FrameView, State,
};
use crate::lifetime::{alive, sound, well_formed};
use crate::scanner::TokenType;

verus! {

/// Whether a frame waits for texts, not for a value.
pub open spec fn takes_texts(frame: FrameView) -> bool {
    frame is Show || frame is Mismatch || frame is Operator || frame is NotCallable
}

/// Whether a value can be called.
pub open spec fn callable(value: ValueView) -> bool {
    value is Function || value is NativeFunction
}

/// Whether `count` texts are as many as `frame` takes.
pub open spec fn enough(frame: FrameView, count: nat) -> bool {
    count >= 1 && (frame is Operator ==> count >= 2)
}

/// Whether what is called in a frame can be called.
pub open spec fn calls_a_function(frame: FrameView) -> bool {
    frame matches FrameView::Args(callee, _, _) ==> callable(callee)
}

/// The order among the frames and what the machine does next: a frame that
/// waits for texts is on top, and only while texts are being made, when
/// enough of them are to come, or while an error unwinds.
pub open spec fn in_order(s: State) -> bool {
    &&& forall|k: int| 0 <= k < s.frames.len() - 1 ==> !takes_texts(#[trigger] s.frames[k])
    &&& forall|k: int| 0 <= k < s.frames.len() ==> calls_a_function(#[trigger] s.frames[k])
    &&& match s.control {
        ControlView::Render(values, texts) => s.frames.len() > 0 && takes_texts(s.frames.last())
            && enough(s.frames.last(), values.len() + texts.len()),
        ControlView::AwaitText(values, texts) => s.frames.len() > 0 && takes_texts(
            s.frames.last(),
        ) && enough(s.frames.last(), values.len() + texts.len() + 1),
        ControlView::Raise(_) => true,
        _ => s.frames.len() > 0 ==> !takes_texts(s.frames.last()),
    }
}

/// The order among the frames alone: none waits for texts.
pub open spec fn settled(s: State) -> bool {
    &&& forall|k: int| 0 <= k < s.frames.len() ==> !takes_texts(#[trigger] s.frames[k])
    &&& forall|k: int| 0 <= k < s.frames.len() ==> calls_a_function(#[trigger] s.frames[k])
}

/// Whether what the machine does next is an internal error.
pub open spec fn failed(s: State) -> bool {
    s.control matches ControlView::Raise(ErrorView::ICE(_))
}

proof fn lemma_push_settled(s: State, frame: FrameView)
    requires
        settled(s),
        !takes_texts(frame),
        calls_a_function(frame),
    ensures
        settled(push(s, frame)),
{
    let after = push(s, frame);
    assert forall|k: int| 0 <= k < after.frames.len() implies !takes_texts(
        #[trigger] after.frames[k],
    ) && calls_a_function(after.frames[k]) by {
        if k < s.frames.len() {
            assert(after.frames[k] == s.frames[k]);
        }
    }
}

proof fn lemma_pop_settled(s: State)
    requires
        settled(s),
        s.frames.len() > 0,
    ensures
        settled(State { frames: s.frames.drop_last(), ..s }),
        !takes_texts(s.frames.last()),
        calls_a_function(s.frames.last()),
{
    let after = State { frames: s.frames.drop_last(), ..s };
    assert(s.frames.last() == s.frames[s.frames.len() - 1]);
    assert forall|k: int| 0 <= k < after.frames.len() implies !takes_texts(
        #[trigger] after.frames[k],
    ) && calls_a_function(after.frames[k]) by {
        assert(after.frames[k] == s.frames[k]);
    }
}

/// Putting a frame that waits for texts on top, with the values to show.
proof fn lemma_describe_in_order(s: State, frame: FrameView, values: Seq<ValueView>)
    requires
        settled(s),
        takes_texts(frame),
        enough(frame, values.len()),
    ensures
        in_order(describe(s, frame, values).0),
        !failed(describe(s, frame, values).0),
{
    let after = describe(s, frame, values).0;
    assert(after.frames.last() == frame);
    assert forall|k: int| 0 <= k < after.frames.len() - 1 implies !takes_texts(
        #[trigger] after.frames[k],
    ) by {
        assert(after.frames[k] == s.frames[k]);
    }
    assert forall|k: int| 0 <= k < after.frames.len() implies calls_a_function(
        #[trigger] after.frames[k],
    ) by {
        if k < s.frames.len() {
            assert(after.frames[k] == s.frames[k]);
        }
    }
}

/// A settled state that goes on with anything but the making of texts is in
/// order.
proof fn lemma_settled_is_in_order(s: State)
    requires
        settled(s),
        !(s.control is Render),
        !(s.control is AwaitText),
    ensures
        in_order(s),
{
    if s.frames.len() > 0 {
        assert(s.frames.last() == s.frames[s.frames.len() - 1]);
    }
}

proof fn lemma_eval_in_order(s: State, expr: ExprView)
    requires
        settled(s),
    ensures
        in_order(spec_eval(s, expr).0),
        failed(spec_eval(s, expr).0) ==> (expr matches ExprView::Unary(op, _) && op
            != TokenType::Minus && op != TokenType::Bang),
{
    let after = spec_eval(s, expr).0;
    match expr {
        ExprView::Unary(op, operand) => {
            lemma_push_settled(s, FrameView::Unary(op));
        },
        ExprView::Binary(left, op, right) => {
            lemma_push_settled(s, FrameView::Right(op, *right));
        },
        ExprView::Assignment(name, depth, value) => {
            lemma_push_settled(s, FrameView::Assign(name, depth));
        },
        ExprView::Call(callee, args) => {
            lemma_push_settled(s, FrameView::Callee(reversed(args)));
        },
        _ => {},
    }
    assert(settled(State { control: ControlView::Idle, ..after }));
    lemma_settled_is_in_order(after);
}

proof fn lemma_exec_in_order(s: State, statement: StatementView)
    requires
        settled(s),
    ensures
        in_order(spec_exec(s, statement).0),
        !failed(spec_exec(s, statement).0),
{
    let after = spec_exec(s, statement).0;
    match statement {
        StatementView::Print(e) => {
            lemma_push_settled(s, FrameView::Print);
        },
        StatementView::VariableDecl(name, init) => {
            lemma_push_settled(s, FrameView::Declare(name));
        },
        StatementView::Block(items) => {
            lemma_push_settled(s, FrameView::Scope(s.current));
            lemma_push_settled(
                push(s, FrameView::Scope(s.current)),
                FrameView::Sequence(reversed(items)),
            );
        },
        StatementView::If(cond, then_branch, else_branch) => {
            lemma_push_settled(
                s,
                FrameView::Branch(
                    *then_branch,
                    match else_branch {
                        Some(other) => Some(*other),
                        None => None,
                    },
                ),
            );
        },
        StatementView::While(cond, body) => {
            lemma_push_settled(s, FrameView::Loop(cond, *body));
        },
        StatementView::Return(e) => {
            lemma_push_settled(s, FrameView::Return);
        },
        _ => {},
    }
    assert(settled(State { control: ControlView::Idle, ..after }));
    lemma_settled_is_in_order(after);
}

proof fn lemma_invoke_in_order(s: State, callee: ValueView, args: Seq<ValueView>)
    requires
        settled(s),
        callable(callee),
        alive(s.envs, s.functions.len(), callee),
    ensures
        in_order(spec_invoke(s, callee, args).0),
        !failed(spec_invoke(s, callee, args).0),
{
    let after = spec_invoke(s, callee, args).0;
    if let ValueView::Function(f) = callee {
        if s.depth < crate::interpreter::MAX_CALL_DEPTH {
            let decl = s.functions[f.decl as int];
            lemma_push_settled(s, FrameView::Call(s.current));
            lemma_push_settled(
                push(s, FrameView::Call(s.current)),
                FrameView::Sequence(reversed(decl.body)),
            );
        }
    }
    assert(settled(State { control: ControlView::Idle, ..after }));
    lemma_settled_is_in_order(after);
}

proof fn lemma_arguments_in_order(
    s: State,
    callee: ValueView,
    done: Seq<ValueView>,
    rest: Seq<ExprView>,
)
    requires
        settled(s),
        callable(callee),
        alive(s.envs, s.functions.len(), callee),
    ensures
        in_order(spec_arguments(s, callee, done, rest).0),
        !failed(spec_arguments(s, callee, done, rest).0),
{
    if rest.len() == 0 {
        lemma_invoke_in_order(s, callee, done);
    } else {
        let after = spec_arguments(s, callee, done, rest).0;
        lemma_push_settled(s, FrameView::Args(callee, done, rest.drop_last()));
        assert(settled(State { control: ControlView::Idle, ..after }));
        lemma_settled_is_in_order(after);
    }
}

proof fn lemma_give_in_order(s: State, value: ValueView)
    requires
        settled(s),
        sound(s),
        alive(s.envs, s.functions.len(), value),
    ensures
        in_order(spec_give(s, value).0),
        !failed(spec_give(s, value).0),
{
    let after = spec_give(s, value).0;
    if s.frames.len() == 0 {
        lemma_settled_is_in_order(after);
    } else {
        lemma_pop_settled(s);
        crate::lifetime::lemma_pop_keeps_sound(s);
        let r = State { frames: s.frames.drop_last(), ..s };
        match s.frames.last() {
            FrameView::Unary(op) => {
                lemma_describe_in_order(r, FrameView::Mismatch("number"@), seq![value]);
                lemma_describe_in_order(r, FrameView::Mismatch("boolean"@), seq![value]);
                if !(after.control is Render) {
                    lemma_settled_is_in_order(after);
                }
            },
            FrameView::Right(op, right) => {
                lemma_push_settled(r, FrameView::Truth);
                lemma_push_settled(r, FrameView::Apply(op, value));
                assert(settled(State { control: ControlView::Idle, ..after }));
                lemma_settled_is_in_order(after);
            },
            FrameView::Apply(op, left) => {
                lemma_describe_in_order(r, FrameView::Operator(op), seq![value, left]);
                assert(after == spec_binary(r, op, left, value).0);
                if !(after.control is Render) {
                    assert(settled(State { control: ControlView::Idle, ..after }));
                    lemma_settled_is_in_order(after);
                }
            },
            FrameView::Callee(args) => {
                assert(after == spec_callee(r, value, args).0);
                if callable(value) {
                    if !(after.control is Raise) {
                        lemma_arguments_in_order(r, value, Seq::empty(), args);
                    } else {
                        lemma_settled_is_in_order(after);
                        if let ValueView::Function(f) = value {
                            assert(f.decl < r.functions.len());
                        }
                    }
                } else {
                    lemma_describe_in_order(r, FrameView::NotCallable, seq![value]);
                }
            },
            FrameView::Args(callee, done, rest) => {
                lemma_arguments_in_order(r, callee, done.push(value), rest);
            },
            FrameView::Sequence(rest) => {
                if rest.len() > 0 {
                    lemma_push_settled(r, FrameView::Sequence(rest.drop_last()));
                }
                assert(settled(State { control: ControlView::Idle, ..after }));
                lemma_settled_is_in_order(after);
            },
            FrameView::Print => {
                lemma_describe_in_order(r, FrameView::Show, seq![value]);
            },
            FrameView::Branch(then_branch, else_branch) => {
                lemma_push_settled(r, FrameView::Sequence(Seq::empty()));
                assert(settled(State { control: ControlView::Idle, ..after }));
                lemma_settled_is_in_order(after);
            },
            FrameView::Loop(cond, body) => {
                lemma_push_settled(r, FrameView::Again(cond, body));
                assert(settled(State { control: ControlView::Idle, ..after }));
                lemma_settled_is_in_order(after);
            },
            FrameView::Again(cond, body) => {
                lemma_push_settled(r, FrameView::Loop(cond, body));
                assert(settled(State { control: ControlView::Idle, ..after }));
                lemma_settled_is_in_order(after);
            },
            _ => {
                assert(settled(State { control: ControlView::Idle, ..after }));
                lemma_settled_is_in_order(after);
            },
        }
    }
}

proof fn lemma_raise_in_order(s: State, error: ErrorView)
    requires
        in_order(State { control: ControlView::Raise(error), ..s }),
    ensures
        in_order(spec_raise(s, error).0),
        failed(spec_raise(s, error).0) ==> error is ICE,
{
    let after = spec_raise(s, error).0;
    let before = State { control: ControlView::Raise(error), ..s };
    if s.frames.len() > 0 {
        assert(after.frames =~= s.frames.drop_last());
        assert forall|k: int| 0 <= k < after.frames.len() implies !takes_texts(
            #[trigger] after.frames[k],
        ) && calls_a_function(after.frames[k]) by {
            assert(after.frames[k] == before.frames[k]);
            assert(!takes_texts(before.frames[k]));
            assert(calls_a_function(before.frames[k]));
        }
    } else {
        assert(after.frames =~= s.frames);
    }
    assert(settled(State { control: ControlView::Idle, ..after }));
    if after.frames.len() > 0 {
        assert(after.frames.last() == after.frames[after.frames.len() - 1]);
    }
}

proof fn lemma_texts_in_order(s: State, texts: Seq<Seq<char>>)
    requires
        in_order(State { control: ControlView::Render(Seq::empty(), texts), ..s }),
    ensures
        in_order(spec_texts(s, texts).0),
        !failed(spec_texts(s, texts).0),
{
    let after = spec_texts(s, texts).0;
    assert(s.frames.last() == s.frames[s.frames.len() - 1]);
    let r = State { frames: s.frames.drop_last(), ..s };
    assert forall|k: int| 0 <= k < r.frames.len() implies !takes_texts(#[trigger] r.frames[k])
        && calls_a_function(r.frames[k]) by {
        assert(r.frames[k] == s.frames[k]);
    }
    assert(settled(r));
    assert(settled(State { control: ControlView::Idle, ..after }));
    lemma_settled_is_in_order(after);
}

proof fn lemma_render_in_order(s: State, values: Seq<ValueView>, texts: Seq<Seq<char>>)
    requires
        in_order(State { control: ControlView::Render(values, texts), ..s }),
    ensures
        in_order(spec_render(s, values, texts).0),
        !failed(spec_render(s, values, texts).0),
{
    if values.len() == 0 {
        assert(values =~= Seq::<ValueView>::empty());
        lemma_texts_in_order(s, texts);
    }
}

/// Every step keeps the machine in order.
pub proof fn lemma_step_keeps_order(s: State, event: EventView)
    requires
        in_order(s),
        well_formed(s),
    ensures
        in_order(spec_step(s, event).0),
{
    lemma_step_in_order(s, event);
}

/// In a state that is well formed and in order, a step runs into no internal
/// error of the machine's making. What is left is an operator that is not
/// unary where a unary one is asked for, an answer of the host that is not the
/// one asked for, and an internal error that is already on its way.
pub proof fn lemma_no_internal_error(s: State, event: EventView)
    requires
        in_order(s),
        well_formed(s),
        failed(spec_step(s, event).0),
    ensures
        (s.control matches ControlView::Eval(ExprView::Unary(op, _)) && op != TokenType::Minus
            && op != TokenType::Bang) || s.control is AwaitNumber || s.control is AwaitText
            || s.control is AwaitPrint || failed(s),
{
    lemma_step_in_order(s, event);
}

proof fn lemma_step_in_order(s: State, event: EventView)
    requires
        in_order(s),
        well_formed(s),
    ensures
        in_order(spec_step(s, event).0),
        failed(spec_step(s, event).0) ==> ((s.control matches ControlView::Eval(
            ExprView::Unary(op, _),
        ) && op != TokenType::Minus && op != TokenType::Bang) || s.control is AwaitNumber
            || s.control is AwaitText || s.control is AwaitPrint || failed(s)),
{
    let after = spec_step(s, event).0;
    if s.frames.len() > 0 {
        assert(s.frames.last() == s.frames[s.frames.len() - 1]);
    }
    match s.control {
        ControlView::Idle => {},
        ControlView::Eval(expr) => {
            assert(settled(idle(s)));
            lemma_eval_in_order(idle(s), expr);
        },
        ControlView::Exec(statement) => {
            assert(settled(idle(s)));
            lemma_exec_in_order(idle(s), statement);
        },
        ControlView::Give(value) => {
            assert(settled(idle(s)));
            lemma_give_in_order(idle(s), value);
        },
        ControlView::Raise(error) => {
            lemma_raise_in_order(idle(s), error);
        },
        ControlView::Render(values, texts) => {
            lemma_render_in_order(idle(s), values, texts);
        },
        ControlView::AwaitNumber => {
            assert(settled(State { control: ControlView::Idle, ..after }));
            lemma_settled_is_in_order(after);
        },
        ControlView::AwaitText(values, texts) => {},
        ControlView::AwaitPrint => {
            assert(settled(State { control: ControlView::Idle, ..after }));
            lemma_settled_is_in_order(after);
        },
    }
}

} // verus!
