//! Evaluates the syntax tree, one small step at a time.
//!
//! The interpreter is a machine: `exec_stmt` or `calc_expr` loads it, and each
//! call of `step` makes one move and says what the host is to do before the
//! next: nothing, some arithmetic, the text of a number, writing a line,
//! running a native function, or taking the result. Whatever the host was
//! asked for it hands to the next `step` as an event. The machine keeps its
//! own stack of what is left to do, so no program can exhaust the host's.

use vstd::prelude::*;
use vstd::string::StringExecFns;
use std::rc::Rc;
use crate::ast::{
    clone_expr, clone_statement, clone_statements, exprs_view, names_view, statements_view, Expr,
    ExprView, FunctionDecl, FunctionDeclView, LiteralExpr, LiteralView, Statement, StatementView,
};
use crate::environment::{
    bind, environments_view, lookup, rebind, target, Environment, EnvironmentView, Function,
    NativeFunction, Value, ValueView,
};
use crate::error::{
    ErrorOrEarlyReturn, ErrorView, ICEView, RuntimeError, RuntimeErrorView, ICE,
};
use crate::lifetime::{
    lemma_loading_keeps_well_formed, lemma_new_is_well_formed, lemma_step_keeps_well_formed,
    roomy, well_formed,
};
use crate::number;
use crate::protocol::{in_order, lemma_step_keeps_order};
use crate::scanner::TokenType;
use crate::Result;

verus! {

/// How many calls may be under way at once.
pub const MAX_CALL_DEPTH: usize = 1024;

/// What the host hands to a step: the answer to what the step before asked.
#[derive(Debug, PartialEq)]
pub enum Event {
    /// Nothing was asked.
    Proceed,
    /// The number asked for, by its bits.
    Number(u64),
    /// The text asked for.
    Text(String),
    /// The line was written.
    Done,
    /// The line could not be written; why.
    Failed(String),
}

pub enum EventView {
    Proceed,
    Number(u64),
    Text(Seq<char>),
    Done,
    Failed(Seq<char>),
}

impl View for Event {
    type V = EventView;

    open spec fn view(&self) -> EventView {
        match self {
            Event::Proceed => EventView::Proceed,
            Event::Number(n) => EventView::Number(*n),
            Event::Text(t) => EventView::Text(t@),
            Event::Done => EventView::Done,
            Event::Failed(m) => EventView::Failed(m@),
        }
    }
}

/// What a step asks of the host.
#[derive(Debug, PartialEq)]
pub enum Action {
    /// Nothing: step again, with `Event::Proceed`.
    Continue,
    /// Apply the operator (`+`, `-`, `*` or `/`) to the two numbers and
    /// answer with `Event::Number`.
    Arithmetic(TokenType, u64, u64),
    /// Answer with the number's text, as `Event::Text`.
    Format(u64),
    /// Write the text and answer with `Event::Done` or `Event::Failed`.
    Print(String),
    /// Run the native function of this name and answer with `Event::Number`.
    Native(String),
    /// The run is over; this is its result.
    Finished(Result<Value>),
}

pub enum ActionView {
    Continue,
    Arithmetic(TokenType, u64, u64),
    Format(u64),
    Print(Seq<char>),
    Native(Seq<char>),
    Finished(std::result::Result<ValueView, ErrorView>),
}

impl View for Action {
    type V = ActionView;

    open spec fn view(&self) -> ActionView {
        match self {
            Action::Continue => ActionView::Continue,
            Action::Arithmetic(op, l, r) => ActionView::Arithmetic(*op, *l, *r),
            Action::Format(n) => ActionView::Format(*n),
            Action::Print(t) => ActionView::Print(t@),
            Action::Native(n) => ActionView::Native(n@),
            Action::Finished(Ok(v)) => ActionView::Finished(Ok(v@)),
            Action::Finished(Err(e)) => ActionView::Finished(Err(e@)),
        }
    }
}

/// What is left to do once a value arrives.
pub enum Frame {
    /// Apply the unary operator to it.
    Unary(TokenType),
    /// It is the left operand: go on to the right one.
    Right(TokenType, Expr),
    /// It is the right operand: apply the operator to this left one and it.
    Apply(TokenType, Value),
    /// Give whether it is truthy.
    Truth,
    /// Assign it to the name.
    Assign(String, Option<usize>),
    /// It is the callee: go on to these arguments, the last one first.
    Callee(Vec<Expr>),
    /// It is an argument of this callee, after those already evaluated and
    /// before these, the last one first.
    Args(Value, Vec<Value>, Vec<Expr>),
    /// The body of a call is done: go back to this environment.
    Call(usize),
    /// Print it.
    Print,
    /// Declare the name with it.
    Declare(String),
    /// Throw it away and go on with these statements, the last one first.
    Sequence(Vec<Statement>),
    /// A block is done: go back to this environment.
    Scope(usize),
    /// It is a condition: take this branch, or the other.
    Branch(Statement, Option<Statement>),
    /// It is the condition of this loop: run the body, or leave.
    Loop(Expr, Statement),
    /// The body of this loop is done: try the condition again.
    Again(Expr, Statement),
    /// Return it from the function.
    Return,
    /// The texts of values arrive: write the first as a line.
    Show,
    /// The texts of values arrive: the first was not of the type named here.
    Mismatch(String),
    /// The texts of values arrive: the operator does not take those two.
    Operator(TokenType),
    /// The texts of values arrive: the first was called and is no function.
    NotCallable,
}

pub enum FrameView {
    Unary(TokenType),
    Right(TokenType, ExprView),
    Apply(TokenType, ValueView),
    Truth,
    Assign(Seq<char>, Option<usize>),
    Callee(Seq<ExprView>),
    Args(ValueView, Seq<ValueView>, Seq<ExprView>),
    Call(usize),
    Print,
    Declare(Seq<char>),
    Sequence(Seq<StatementView>),
    Scope(usize),
    Branch(StatementView, Option<StatementView>),
    Loop(ExprView, StatementView),
    Again(ExprView, StatementView),
    Return,
    Show,
    Mismatch(Seq<char>),
    Operator(TokenType),
    NotCallable,
}

/// The views of a run of values.
pub open spec fn values_view(values: Seq<Value>) -> Seq<ValueView> {
    Seq::new(values.len(), |i: int| values[i]@)
}

impl View for Frame {
    type V = FrameView;

    open spec fn view(&self) -> FrameView {
        match self {
            Frame::Unary(op) => FrameView::Unary(*op),
            Frame::Right(op, right) => FrameView::Right(*op, right@),
            Frame::Apply(op, left) => FrameView::Apply(*op, left@),
            Frame::Truth => FrameView::Truth,
            Frame::Assign(name, depth) => FrameView::Assign(name@, *depth),
            Frame::Callee(args) => FrameView::Callee(exprs_view(args@)),
            Frame::Args(callee, done, rest) => FrameView::Args(
                callee@,
                values_view(done@),
                exprs_view(rest@),
            ),
            Frame::Call(env) => FrameView::Call(*env),
            Frame::Print => FrameView::Print,
            Frame::Declare(name) => FrameView::Declare(name@),
            Frame::Sequence(rest) => FrameView::Sequence(statements_view(rest@)),
            Frame::Scope(env) => FrameView::Scope(*env),
            Frame::Branch(then_branch, else_branch) => FrameView::Branch(
                then_branch@,
                match else_branch {
                    Some(other) => Some(other@),
                    None => None,
                },
            ),
            Frame::Loop(cond, body) => FrameView::Loop(cond@, body@),
            Frame::Again(cond, body) => FrameView::Again(cond@, body@),
            Frame::Return => FrameView::Return,
            Frame::Show => FrameView::Show,
            Frame::Mismatch(expected) => FrameView::Mismatch(expected@),
            Frame::Operator(op) => FrameView::Operator(*op),
            Frame::NotCallable => FrameView::NotCallable,
        }
    }
}

/// What the machine does next.
pub enum Control {
    /// Nothing is loaded.
    Idle,
    /// Evaluate the expression.
    Eval(Expr),
    /// Execute the statement.
    Exec(Statement),
    /// Hand the value to the frame on top.
    Give(Value),
    /// Unwind with the error, or the early return.
    Raise(ErrorOrEarlyReturn),
    /// Turn the values, the last one first, into texts after those here, and
    /// hand the texts to the frame on top.
    Render(Vec<Value>, Vec<String>),
    /// The host was asked for a number.
    AwaitNumber,
    /// The host was asked for the text of a number, which comes after the
    /// texts here and before those of the values here.
    AwaitText(Vec<Value>, Vec<String>),
    /// The host was asked to write a line.
    AwaitPrint,
}

pub enum ControlView {
    Idle,
    Eval(ExprView),
    Exec(StatementView),
    Give(ValueView),
    Raise(ErrorView),
    Render(Seq<ValueView>, Seq<Seq<char>>),
    AwaitNumber,
    AwaitText(Seq<ValueView>, Seq<Seq<char>>),
    AwaitPrint,
}

impl View for Control {
    type V = ControlView;

    open spec fn view(&self) -> ControlView {
        match self {
            Control::Idle => ControlView::Idle,
            Control::Eval(e) => ControlView::Eval(e@),
            Control::Exec(s) => ControlView::Exec(s@),
            Control::Give(v) => ControlView::Give(v@),
            Control::Raise(e) => ControlView::Raise(e@),
            Control::Render(values, texts) => ControlView::Render(
                values_view(values@),
                names_view(texts@),
            ),
            Control::AwaitNumber => ControlView::AwaitNumber,
            Control::AwaitText(values, texts) => ControlView::AwaitText(
                values_view(values@),
                names_view(texts@),
            ),
            Control::AwaitPrint => ControlView::AwaitPrint,
        }
    }
}

/// The views of a stack of frames.
pub open spec fn frames_view(frames: Seq<Frame>) -> Seq<FrameView> {
    Seq::new(frames.len(), |i: int| frames[i]@)
}

/// The views of a list of declarations.
pub open spec fn functions_view(functions: Seq<Rc<FunctionDecl>>) -> Seq<FunctionDeclView> {
    Seq::new(functions.len(), |i: int| (*functions[i])@)
}

/// The machine.
pub struct Interpreter {
    /// Every environment made so far and still in use; the first is global.
    pub envs: Vec<Environment>,
    /// The declaration of every closure made so far.
    pub functions: Vec<Rc<FunctionDecl>>,
    /// The environment that the code under way runs in.
    pub current: usize,
    /// What is left to do, the nearest last.
    pub frames: Vec<Frame>,
    pub control: Control,
    /// How many calls are under way.
    pub depth: usize,
}

/// The machine as the contracts speak of it.
pub struct State {
    pub envs: Seq<EnvironmentView>,
    pub functions: Seq<FunctionDeclView>,
    pub current: usize,
    pub frames: Seq<FrameView>,
    pub control: ControlView,
    pub depth: usize,
}

impl View for Interpreter {
    type V = State;

    open spec fn view(&self) -> State {
        State {
            envs: environments_view(self.envs@),
            functions: functions_view(self.functions@),
            current: self.current,
            frames: frames_view(self.frames@),
            control: self.control@,
            depth: self.depth,
        }
    }
}

// ---------------------------------------------------------------------------
// The rules
// ---------------------------------------------------------------------------

/// Everything is truthy but `false` and `nil`.
pub open spec fn truthy(value: ValueView) -> bool {
    value != ValueView::Boolean(false) && value != ValueView::Nil
}

/// Whether two values are equal: numbers as numbers, all else part by part.
/// Values of different kinds are never equal.
pub open spec fn values_equal(a: ValueView, b: ValueView) -> bool {
    match (a, b) {
        (ValueView::Number(x), ValueView::Number(y)) => number::spec_equal(x, y),
        _ => a == b,
    }
}

pub open spec fn literal_value(literal: LiteralView) -> ValueView {
    match literal {
        LiteralView::Number(n) => ValueView::Number(n),
        LiteralView::String(s) => ValueView::String(s),
        LiteralView::Boolean(b) => ValueView::Boolean(b),
        LiteralView::Nil => ValueView::Nil,
    }
}

/// How a value that is no number shows.
pub open spec fn plain_text(functions: Seq<FunctionDeclView>, value: ValueView) -> Seq<char> {
    match value {
        ValueView::Nil => "Nil"@,
        ValueView::Boolean(b) => if b {
            "true"@
        } else {
            "false"@
        },
        ValueView::Number(_) => Seq::empty(),
        ValueView::String(s) => s,
        ValueView::Object => "Object"@,
        ValueView::Function(f) => "fun "@ + if f.decl < functions.len() {
            functions[f.decl as int].name
        } else {
            Seq::empty()
        },
        ValueView::NativeFunction(name, _) => "native fun "@ + name,
    }
}

/// `s` the other way round.
pub open spec fn reversed<T>(s: Seq<T>) -> Seq<T> {
    Seq::new(s.len(), |i: int| s[s.len() - 1 - i])
}

pub open spec fn internal(message: Seq<char>) -> ControlView {
    ControlView::Raise(ErrorView::ICE(ICEView::Generic(message)))
}

pub open spec fn failure(error: RuntimeErrorView) -> ControlView {
    ControlView::Raise(ErrorView::RuntimeError(error))
}

/// The machine goes on with `control`, and asks nothing of the host.
pub open spec fn go(s: State, control: ControlView) -> (State, ActionView) {
    (State { control, ..s }, ActionView::Continue)
}

pub open spec fn push(s: State, frame: FrameView) -> State {
    State { frames: s.frames.push(frame), ..s }
}

pub open spec fn idle(s: State) -> State {
    State { control: ControlView::Idle, ..s }
}

/// `s` in a new, empty environment whose parent is `parent`.
pub open spec fn enter(s: State, parent: usize) -> State {
    State {
        envs: s.envs.push(
            EnvironmentView { bindings: Seq::empty(), parent: Some(parent), captured: false },
        ),
        current: s.envs.len() as usize,
        ..s
    }
}

/// `s` back in the environment `saved`. The environment left is given up if
/// it is the last that was made and no function was declared in it.
pub open spec fn leave(s: State, saved: usize) -> State {
    let gone = s.current;
    State {
        envs: if saved < gone && gone + 1 == s.envs.len() && !s.envs[gone as int].captured {
            s.envs.drop_last()
        } else {
            s.envs
        },
        current: saved,
        ..s
    }
}

/// `s` with one call fewer under way.
pub open spec fn returned(s: State) -> State {
    State {
        depth: if s.depth > 0 {
            (s.depth - 1) as usize
        } else {
            0
        },
        ..s
    }
}

/// `envs` with the environment at `at` marked as holding a declaration.
pub open spec fn capture(envs: Seq<EnvironmentView>, at: int) -> Seq<EnvironmentView> {
    if 0 <= at < envs.len() {
        envs.update(at, EnvironmentView { captured: true, ..envs[at] })
    } else {
        envs
    }
}

/// `bindings` with each of `params` from `from` on bound to the argument at
/// its position.
pub open spec fn bind_all(
    bindings: Seq<(Seq<char>, ValueView)>,
    params: Seq<Seq<char>>,
    args: Seq<ValueView>,
    from: int,
) -> Seq<(Seq<char>, ValueView)>
    decreases params.len() - from,
{
    if 0 <= from < params.len() && from < args.len() {
        bind_all(bind(bindings, params[from], args[from]), params, args, from + 1)
    } else {
        bindings
    }
}

/// Reading a name: its value, or `UndefinedVariable`.
pub open spec fn spec_identifier(s: State, name: Seq<char>, depth: Option<usize>) -> (
    State,
    ActionView,
) {
    match lookup(s.envs, s.current as int, name, depth) {
        Some(value) => go(s, ControlView::Give(value)),
        None => go(s, failure(RuntimeErrorView::UndefinedVariable(name))),
    }
}

/// Opening a block: its statements run in a new environment inside the
/// current one, which is come back to when they are done.
pub open spec fn spec_block(s: State, items: Seq<StatementView>) -> (State, ActionView) {
    go(
        push(
            push(enter(s, s.current), FrameView::Scope(s.current)),
            FrameView::Sequence(reversed(items)),
        ),
        ControlView::Give(ValueView::Nil),
    )
}

/// Declaring a function: its name is bound, in the current environment, to a
/// closure over that same environment.
pub open spec fn spec_declare_fun(s: State, decl: FunctionDeclView) -> (State, ActionView) {
    go(
        State {
            functions: s.functions.push(decl),
            envs: capture(
                rebind(
                    s.envs,
                    s.current as int,
                    decl.name,
                    ValueView::Function(
                        Function { decl: s.functions.len() as usize, closure: s.current },
                    ),
                ),
                s.current as int,
            ),
            ..s
        },
        ControlView::Give(ValueView::Nil),
    )
}

/// Evaluating an expression.
pub open spec fn spec_eval(s: State, expr: ExprView) -> (State, ActionView) {
    match expr {
        ExprView::Literal(literal) => go(s, ControlView::Give(literal_value(literal))),
        ExprView::Identifier(name, depth) => spec_identifier(s, name, depth),
        ExprView::Unary(op, operand) => if op == TokenType::Minus || op == TokenType::Bang {
            go(push(s, FrameView::Unary(op)), ControlView::Eval(*operand))
        } else {
            go(s, internal("Invalid unary operator"@))
        },
        ExprView::Binary(left, op, right) => go(
            push(s, FrameView::Right(op, *right)),
            ControlView::Eval(*left),
        ),
        ExprView::Grouping(inner) => go(s, ControlView::Eval(*inner)),
        ExprView::Assignment(name, depth, value) => go(
            push(s, FrameView::Assign(name, depth)),
            ControlView::Eval(*value),
        ),
        ExprView::Call(callee, args) => go(
            push(s, FrameView::Callee(reversed(args))),
            ControlView::Eval(*callee),
        ),
    }
}

/// Executing a statement.
pub open spec fn spec_exec(s: State, statement: StatementView) -> (State, ActionView) {
    match statement {
        StatementView::Expr(e) => go(s, ControlView::Eval(e)),
        StatementView::Print(e) => go(push(s, FrameView::Print), ControlView::Eval(e)),
        StatementView::VariableDecl(name, init) => match init {
            Some(e) => go(push(s, FrameView::Declare(name)), ControlView::Eval(e)),
            None => go(push(s, FrameView::Declare(name)), ControlView::Give(ValueView::Nil)),
        },
        StatementView::Block(items) => spec_block(s, items),
        StatementView::If(cond, then_branch, else_branch) => go(
            push(
                s,
                FrameView::Branch(
                    *then_branch,
                    match else_branch {
                        Some(other) => Some(*other),
                        None => None,
                    },
                ),
            ),
            ControlView::Eval(cond),
        ),
        StatementView::While(cond, body) => go(
            push(s, FrameView::Loop(cond, *body)),
            ControlView::Eval(cond),
        ),
        StatementView::FunDecl(decl) => spec_declare_fun(s, decl),
        StatementView::Return(e) => match e {
            Some(value) => go(push(s, FrameView::Return), ControlView::Eval(value)),
            None => go(s, ControlView::Raise(ErrorView::EarlyReturn(ValueView::Nil))),
        },
    }
}

/// The machine asks for the texts of `values`, the last one first, for the
/// frame `frame`.
pub open spec fn describe(s: State, frame: FrameView, values: Seq<ValueView>) -> (
    State,
    ActionView,
) {
    go(push(s, frame), ControlView::Render(values, Seq::empty()))
}

/// Applying a binary operator that is not `and` or `or` to two values.
pub open spec fn spec_binary(s: State, op: TokenType, left: ValueView, right: ValueView) -> (
    State,
    ActionView,
) {
    match (left, right) {
        (ValueView::Number(l), ValueView::Number(r)) => match op {
            TokenType::Plus | TokenType::Minus | TokenType::Star => (
                State { control: ControlView::AwaitNumber, ..s },
                ActionView::Arithmetic(op, l, r),
            ),
            TokenType::Slash => if number::spec_is_zero(r) {
                go(s, failure(RuntimeErrorView::DivisionByZero))
            } else {
                (
                    State { control: ControlView::AwaitNumber, ..s },
                    ActionView::Arithmetic(op, l, r),
                )
            },
            TokenType::EqualEqual => go(
                s,
                ControlView::Give(ValueView::Boolean(number::spec_equal(l, r))),
            ),
            TokenType::BangEqual => go(
                s,
                ControlView::Give(ValueView::Boolean(!number::spec_equal(l, r))),
            ),
            TokenType::Greater => go(
                s,
                ControlView::Give(ValueView::Boolean(number::spec_less(r, l))),
            ),
            TokenType::GreaterEqual => go(
                s,
                ControlView::Give(
                    ValueView::Boolean(number::spec_less(r, l) || number::spec_equal(l, r)),
                ),
            ),
            TokenType::Less => go(
                s,
                ControlView::Give(ValueView::Boolean(number::spec_less(l, r))),
            ),
            TokenType::LessEqual => go(
                s,
                ControlView::Give(
                    ValueView::Boolean(number::spec_less(l, r) || number::spec_equal(l, r)),
                ),
            ),
            _ => describe(s, FrameView::Operator(op), seq![right, left]),
        },
        _ => if op == TokenType::EqualEqual {
            go(s, ControlView::Give(ValueView::Boolean(values_equal(left, right))))
        } else if op == TokenType::BangEqual {
            go(s, ControlView::Give(ValueView::Boolean(!values_equal(left, right))))
        } else {
            match (left, right) {
                (ValueView::String(l), ValueView::String(r)) => if op == TokenType::Plus {
                    go(s, ControlView::Give(ValueView::String(l + r)))
                } else {
                    describe(s, FrameView::Operator(op), seq![right, left])
                },
                _ => describe(s, FrameView::Operator(op), seq![right, left]),
            }
        },
    }
}

/// Calling `callee` with `args`, all evaluated. A call of a function runs its
/// body in a new environment inside the one the function was declared in.
pub open spec fn spec_invoke(s: State, callee: ValueView, args: Seq<ValueView>) -> (
    State,
    ActionView,
) {
    match callee {
        ValueView::Function(f) => if s.depth >= MAX_CALL_DEPTH {
            go(s, failure(RuntimeErrorView::StackOverflow))
        } else if f.decl >= s.functions.len() {
            go(s, internal("Unknown function"@))
        } else {
            let decl = s.functions[f.decl as int];
            go(
                State {
                    envs: s.envs.push(
                        EnvironmentView {
                            bindings: bind_all(Seq::empty(), decl.params, args, 0),
                            parent: Some(f.closure),
                            captured: false,
                        },
                    ),
                    current: s.envs.len() as usize,
                    depth: (s.depth + 1) as usize,
                    frames: s.frames.push(FrameView::Call(s.current)).push(
                        FrameView::Sequence(reversed(decl.body)),
                    ),
                    ..s
                },
                ControlView::Give(ValueView::Nil),
            )
        },
        ValueView::NativeFunction(name, _) => (
            State { control: ControlView::AwaitNumber, ..s },
            ActionView::Native(name),
        ),
        _ => go(s, internal("Not a function"@)),
    }
}

/// Going on with the arguments of a call: `done` are evaluated, `rest` are
/// still to come, the last one first.
pub open spec fn spec_arguments(
    s: State,
    callee: ValueView,
    done: Seq<ValueView>,
    rest: Seq<ExprView>,
) -> (State, ActionView) {
    if rest.len() == 0 {
        spec_invoke(s, callee, done)
    } else {
        go(
            push(s, FrameView::Args(callee, done, rest.drop_last())),
            ControlView::Eval(rest.last()),
        )
    }
}

/// The callee of a call has its value: it must be a function, and take as
/// many arguments as the call has.
pub open spec fn spec_callee(s: State, callee: ValueView, args: Seq<ExprView>) -> (
    State,
    ActionView,
) {
    match callee {
        ValueView::Function(f) => if f.decl >= s.functions.len() {
            go(s, internal("Unknown function"@))
        } else if s.functions[f.decl as int].params.len() != args.len() {
            go(
                s,
                failure(
                    RuntimeErrorView::NumberOfArgumentsMismatch(
                        s.functions[f.decl as int].params.len() as usize,
                        s.functions[f.decl as int].name,
                        args.len() as usize,
                    ),
                ),
            )
        } else {
            spec_arguments(s, callee, Seq::empty(), args)
        },
        ValueView::NativeFunction(name, arity) => if arity != args.len() {
            go(
                s,
                failure(
                    RuntimeErrorView::NumberOfArgumentsMismatch(arity, name, args.len() as usize),
                ),
            )
        } else {
            spec_arguments(s, callee, Seq::empty(), args)
        },
        _ => describe(s, FrameView::NotCallable, seq![callee]),
    }
}

/// Applying a unary operator: `-` takes a number, `!` a boolean.
pub open spec fn spec_unary(s: State, op: TokenType, value: ValueView) -> (State, ActionView) {
    if op == TokenType::Minus {
        match value {
            ValueView::Number(n) => go(
                s,
                ControlView::Give(ValueView::Number(number::spec_negate(n))),
            ),
            _ => describe(s, FrameView::Mismatch("number"@), seq![value]),
        }
    } else {
        match value {
            ValueView::Boolean(b) => go(s, ControlView::Give(ValueView::Boolean(!b))),
            _ => describe(s, FrameView::Mismatch("boolean"@), seq![value]),
        }
    }
}

/// Going on after the left operand of a binary operator. `and` and `or` stop
/// here where the left operand decides.
pub open spec fn spec_right(s: State, op: TokenType, left: ValueView, right: ExprView) -> (
    State,
    ActionView,
) {
    if op == TokenType::And {
        if truthy(left) {
            go(push(s, FrameView::Truth), ControlView::Eval(right))
        } else {
            go(s, ControlView::Give(ValueView::Boolean(false)))
        }
    } else if op == TokenType::Or {
        if truthy(left) {
            go(s, ControlView::Give(ValueView::Boolean(true)))
        } else {
            go(push(s, FrameView::Truth), ControlView::Eval(right))
        }
    } else {
        go(push(s, FrameView::Apply(op, left)), ControlView::Eval(right))
    }
}

/// Assigning to a name: the value is also the value of the assignment. A
/// name that is not declared is an error.
pub open spec fn spec_assignment(
    s: State,
    name: Seq<char>,
    depth: Option<usize>,
    value: ValueView,
) -> (State, ActionView) {
    match target(s.envs, s.current as int, name, depth) {
        Some(at) => go(
            State { envs: rebind(s.envs, at, name, value), ..s },
            ControlView::Give(value),
        ),
        None => go(s, failure(RuntimeErrorView::UndefinedVariable(name))),
    }
}

/// Declaring a variable, in the current environment, whether or not the name
/// was declared there before.
pub open spec fn spec_var_decl(s: State, name: Seq<char>, value: ValueView) -> (State, ActionView) {
    go(
        State { envs: rebind(s.envs, s.current as int, name, value), ..s },
        ControlView::Give(ValueView::Nil),
    )
}

/// Going on after the condition of an `if`.
pub open spec fn spec_if(
    s: State,
    cond: ValueView,
    then_branch: StatementView,
    else_branch: Option<StatementView>,
) -> (State, ActionView) {
    if truthy(cond) {
        go(push(s, FrameView::Sequence(Seq::empty())), ControlView::Exec(then_branch))
    } else {
        match else_branch {
            Some(other) => go(
                push(s, FrameView::Sequence(Seq::empty())),
                ControlView::Exec(other),
            ),
            None => go(s, ControlView::Give(ValueView::Nil)),
        }
    }
}

/// Going on after the condition of a `while`.
pub open spec fn spec_while(s: State, cond_value: ValueView, cond: ExprView, body: StatementView) -> (
    State,
    ActionView,
) {
    if truthy(cond_value) {
        go(push(s, FrameView::Again(cond, body)), ControlView::Exec(body))
    } else {
        go(s, ControlView::Give(ValueView::Nil))
    }
}

/// A value arrives at the frame on top; with no frame left, it is the result.
pub open spec fn spec_give(s: State, value: ValueView) -> (State, ActionView) {
    if s.frames.len() == 0 {
        (idle(s), ActionView::Finished(Ok(value)))
    } else {
        let r = State { frames: s.frames.drop_last(), ..s };
        match s.frames.last() {
            FrameView::Unary(op) => spec_unary(r, op, value),
            FrameView::Right(op, right) => spec_right(r, op, value, right),
            FrameView::Apply(op, left) => spec_binary(r, op, left, value),
            FrameView::Truth => go(r, ControlView::Give(ValueView::Boolean(truthy(value)))),
            FrameView::Assign(name, depth) => spec_assignment(r, name, depth, value),
            FrameView::Callee(args) => spec_callee(r, value, args),
            FrameView::Args(callee, done, rest) => spec_arguments(
                r,
                callee,
                done.push(value),
                rest,
            ),
            FrameView::Call(saved) => go(
                returned(leave(r, saved)),
                ControlView::Give(ValueView::Nil),
            ),
            FrameView::Print => describe(r, FrameView::Show, seq![value]),
            FrameView::Declare(name) => spec_var_decl(r, name, value),
            FrameView::Sequence(rest) => if rest.len() == 0 {
                go(r, ControlView::Give(ValueView::Nil))
            } else {
                go(push(r, FrameView::Sequence(rest.drop_last())), ControlView::Exec(rest.last()))
            },
            FrameView::Scope(saved) => go(leave(r, saved), ControlView::Give(value)),
            FrameView::Branch(then_branch, else_branch) => spec_if(
                r,
                value,
                then_branch,
                else_branch,
            ),
            FrameView::Loop(cond, body) => spec_while(r, value, cond, body),
            FrameView::Again(cond, body) => go(
                push(r, FrameView::Loop(cond, body)),
                ControlView::Eval(cond),
            ),
            FrameView::Return => go(r, ControlView::Raise(ErrorView::EarlyReturn(value))),
            _ => go(r, internal("Unexpected value"@)),
        }
    }
}

/// An error, or an early return, unwinds by one frame. Scopes and calls are
/// left on the way; a call stops an early return and takes its value. With no
/// frame left the error is the result, and an early return that got this far
/// is an error of the interpreter.
pub open spec fn spec_raise(s: State, error: ErrorView) -> (State, ActionView) {
    if s.frames.len() == 0 {
        (
            idle(s),
            ActionView::Finished(
                Err(
                    match error {
                        ErrorView::EarlyReturn(_) => ErrorView::ICE(
                            ICEView::Generic("Return outside of a function"@),
                        ),
                        _ => error,
                    },
                ),
            ),
        )
    } else {
        let r = State { frames: s.frames.drop_last(), ..s };
        match s.frames.last() {
            FrameView::Scope(saved) => go(leave(r, saved), ControlView::Raise(error)),
            FrameView::Call(saved) => match error {
                ErrorView::EarlyReturn(value) => go(
                    returned(leave(r, saved)),
                    ControlView::Give(value),
                ),
                _ => go(returned(leave(r, saved)), ControlView::Raise(error)),
            },
            _ => go(r, ControlView::Raise(error)),
        }
    }
}

/// The texts asked for arrive at the frame on top.
pub open spec fn spec_texts(s: State, texts: Seq<Seq<char>>) -> (State, ActionView) {
    if s.frames.len() == 0 || texts.len() == 0 {
        go(s, internal("Unexpected texts"@))
    } else {
        let r = State { frames: s.frames.drop_last(), ..s };
        match s.frames.last() {
            FrameView::Show => (
                State { control: ControlView::AwaitPrint, ..r },
                ActionView::Print(texts[0] + "\n"@),
            ),
            FrameView::Mismatch(expected) => go(
                r,
                failure(RuntimeErrorView::TypeMismatch(expected, texts[0])),
            ),
            FrameView::Operator(op) => if texts.len() >= 2 {
                go(r, failure(RuntimeErrorView::InvalidOperator(op, texts[0], texts[1])))
            } else {
                go(r, internal("Unexpected texts"@))
            },
            FrameView::NotCallable => go(
                r,
                failure(RuntimeErrorView::UndefinedFunction(texts[0])),
            ),
            _ => go(r, internal("Unexpected texts"@)),
        }
    }
}

/// Turning values into texts: the host is asked for the text of a number,
/// every other text is `plain_text`.
pub open spec fn spec_render(s: State, values: Seq<ValueView>, texts: Seq<Seq<char>>) -> (
    State,
    ActionView,
) {
    if values.len() == 0 {
        spec_texts(s, texts)
    } else {
        match values.last() {
            ValueView::Number(n) => (
                State { control: ControlView::AwaitText(values.drop_last(), texts), ..s },
                ActionView::Format(n),
            ),
            other => go(
                s,
                ControlView::Render(values.drop_last(), texts.push(plain_text(s.functions, other))),
            ),
        }
    }
}

/// One step of the machine: the state after it and what it asks of the host.
pub open spec fn spec_step(s: State, event: EventView) -> (State, ActionView) {
    match s.control {
        ControlView::Idle => (s, ActionView::Finished(Ok(ValueView::Nil))),
        ControlView::Eval(expr) => spec_eval(idle(s), expr),
        ControlView::Exec(statement) => spec_exec(idle(s), statement),
        ControlView::Give(value) => spec_give(idle(s), value),
        ControlView::Raise(error) => spec_raise(idle(s), error),
        ControlView::Render(values, texts) => spec_render(idle(s), values, texts),
        ControlView::AwaitNumber => match event {
            EventView::Number(n) => go(s, ControlView::Give(ValueView::Number(n))),
            _ => go(s, internal("Expected a number from the host"@)),
        },
        ControlView::AwaitText(values, texts) => match event {
            EventView::Text(text) => go(s, ControlView::Render(values, texts.push(text))),
            _ => go(s, internal("Expected a text from the host"@)),
        },
        ControlView::AwaitPrint => match event {
            EventView::Done => go(s, ControlView::Give(ValueView::Nil)),
            EventView::Failed(message) => go(
                s,
                ControlView::Raise(ErrorView::ICE(ICEView::IOError(message))),
            ),
            _ => go(s, internal("Expected the host to print"@)),
        },
    }
}

// ---------------------------------------------------------------------------
// The machine
// ---------------------------------------------------------------------------

fn internal_error(message: &str) -> (control: Control)
    ensures
        control@ == internal(message@),
{
    Control::Raise(ErrorOrEarlyReturn::ICE(ICE::Generic(String::from_str(message))))
}

fn runtime_failure(error: RuntimeError) -> (control: Control)
    ensures
        control@ == failure(error@),
{
    Control::Raise(ErrorOrEarlyReturn::RuntimeError(error))
}

/// Whether a value counts as true: every value does but `false` and `nil`.
pub fn is_truthy(value: &Value) -> (r: bool)
    ensures
        r == truthy(value@),
{
    match value {
        Value::Boolean(b) => *b,
        Value::Nil => false,
        _ => true,
    }
}

/// The value of a literal.
pub fn calc_lit(lit: &LiteralExpr) -> (value: Value)
    ensures
        value@ == literal_value(lit@),
{
    match lit {
        LiteralExpr::Boolean(b) => Value::Boolean(*b),
        LiteralExpr::Number(n) => Value::Number(*n),
        LiteralExpr::String(s) => Value::String(s.clone()),
        LiteralExpr::Nil => Value::Nil,
    }
}

/// Whether two values are equal.
pub fn equal_values(a: &Value, b: &Value) -> (r: bool)
    ensures
        r == values_equal(a@, b@),
{
    match (a, b) {
        (Value::Number(x), Value::Number(y)) => number::equal(*x, *y),
        (Value::Nil, Value::Nil) => true,
        (Value::Boolean(x), Value::Boolean(y)) => *x == *y,
        (Value::String(x), Value::String(y)) => *x == *y,
        (Value::Object, Value::Object) => true,
        (Value::Function(x), Value::Function(y)) => x.decl == y.decl && x.closure == y.closure,
        (Value::NativeFunction(x), Value::NativeFunction(y)) => x.name == y.name && x.arity
            == y.arity,
        _ => false,
    }
}

/// `items` the other way round.
fn reverse_exprs(items: Vec<Expr>) -> (r: Vec<Expr>)
    ensures
        exprs_view(r@) == reversed(exprs_view(items@)),
{
    let mut items = items;
    let ghost all = exprs_view(items@);
    let mut r: Vec<Expr> = Vec::new();
    while items.len() > 0
        invariant
            items.len() + r.len() == all.len(),
            forall|i: int| 0 <= i < items.len() ==> (#[trigger] items[i])@ == all[i],
            forall|i: int| 0 <= i < r.len() ==> (#[trigger] r[i])@ == all[all.len() - 1 - i],
        decreases items.len(),
    {
        match items.pop() {
            Some(item) => {
                r.push(item);
            },
            None => {},
        }
    }
    proof {
        assert(exprs_view(r@) =~= reversed(all));
    }
    r
}

/// `items` the other way round.
fn reverse_statements(items: Vec<Statement>) -> (r: Vec<Statement>)
    ensures
        statements_view(r@) == reversed(statements_view(items@)),
{
    let mut items = items;
    let ghost all = statements_view(items@);
    let mut r: Vec<Statement> = Vec::new();
    while items.len() > 0
        invariant
            items.len() + r.len() == all.len(),
            forall|i: int| 0 <= i < items.len() ==> (#[trigger] items[i])@ == all[i],
            forall|i: int| 0 <= i < r.len() ==> (#[trigger] r[i])@ == all[all.len() - 1 - i],
        decreases items.len(),
    {
        match items.pop() {
            Some(item) => {
                r.push(item);
            },
            None => {},
        }
    }
    proof {
        assert(statements_view(r@) =~= reversed(all));
    }
    r
}

impl Interpreter {
    /// A machine with nothing loaded, and a global environment that holds the
    /// native functions.
    pub fn new() -> (interpreter: Self)
        ensures
            interpreter@ == (State {
                envs: seq![
                    EnvironmentView {
                        bindings: seq![("clock"@, ValueView::NativeFunction("clock"@, 0))],
                        parent: None,
                        captured: false,
                    },
                ],
                functions: Seq::empty(),
                current: 0,
                frames: Seq::empty(),
                control: ControlView::Idle,
                depth: 0,
            }),
            well_formed(interpreter@),
            in_order(interpreter@),
    {
        let mut envs: Vec<Environment> = Vec::new();
        envs.push(Environment::new(None));
        let ghost empty = environments_view(envs@);
        Environment::define(
            &mut envs,
            0,
            &String::from_str("clock"),
            Value::NativeFunction(NativeFunction { name: String::from_str("clock"), arity: 0 }),
        );
        proof {
            assert(empty[0].bindings =~= Seq::empty());
            assert(bind(Seq::empty(), "clock"@, ValueView::NativeFunction("clock"@, 0)) =~= seq![
                ("clock"@, ValueView::NativeFunction("clock"@, 0)),
            ]);
        }
        let interpreter = Interpreter {
            envs,
            functions: Vec::new(),
            current: 0,
            frames: Vec::new(),
            control: Control::Idle,
            depth: 0,
        };
        proof {
            assert(interpreter@.envs =~= seq![
                EnvironmentView {
                    bindings: seq![("clock"@, ValueView::NativeFunction("clock"@, 0))],
                    parent: None,
                    captured: false,
                },
            ]);
            assert(interpreter@.functions =~= Seq::empty());
            assert(interpreter@.frames =~= Seq::empty());
            lemma_new_is_well_formed(interpreter@);
        }
        interpreter
    }

    /// The state that loading `control` gives: whatever was under way is
    /// dropped, and the machine stands in the global environment.
    pub open spec fn loaded(s: State, control: ControlView) -> State {
        State { current: 0, frames: Seq::empty(), control, depth: 0, ..s }
    }

    /// Loads a statement. The run's result is what the statement gives: the
    /// value of an expression statement, `nil` for any other.
    pub fn exec_stmt(&mut self, stmt: &Statement)
        ensures
            final(self)@ == Self::loaded(old(self)@, ControlView::Exec(stmt@)),
            well_formed(old(self)@) ==> well_formed(final(self)@),
            in_order(final(self)@),
    {
        proof {
            if well_formed(self@) {
                lemma_loading_keeps_well_formed(self@, ControlView::Exec(stmt@));
            }
        }
        self.load(Control::Exec(clone_statement(stmt)));
    }

    /// Loads an expression. The run's result is its value.
    pub fn calc_expr(&mut self, expr: &Expr)
        ensures
            final(self)@ == Self::loaded(old(self)@, ControlView::Eval(expr@)),
            well_formed(old(self)@) ==> well_formed(final(self)@),
            in_order(final(self)@),
    {
        proof {
            if well_formed(self@) {
                lemma_loading_keeps_well_formed(self@, ControlView::Eval(expr@));
            }
        }
        self.load(Control::Eval(clone_expr(expr)));
    }

    /// Loads the printing of an expression's value. The run's result is `nil`.
    pub fn print_stmt(&mut self, expr: &Expr)
        ensures
            final(self)@ == Self::loaded(
                old(self)@,
                ControlView::Exec(StatementView::Print(expr@)),
            ),
            well_formed(old(self)@) ==> well_formed(final(self)@),
            in_order(final(self)@),
    {
        proof {
            if well_formed(self@) {
                lemma_loading_keeps_well_formed(
                    self@,
                    ControlView::Exec(StatementView::Print(expr@)),
                );
            }
        }
        self.load(Control::Exec(Statement::Print(clone_expr(expr))));
    }

    fn load(&mut self, control: Control)
        ensures
            final(self)@ == Self::loaded(old(self)@, control@),
    {
        self.current = 0;
        self.frames = Vec::new();
        self.control = control;
        self.depth = 0;
        proof {
            assert(self@.frames =~= Seq::empty());
        }
    }

    fn push_frame(&mut self, frame: Frame)
        ensures
            final(self)@ == push(old(self)@, frame@),
    {
        let ghost before = self@.frames;
        self.frames.push(frame);
        proof {
            assert(self@.frames =~= before.push(frame@));
        }
    }

    /// Goes on with `control`.
    fn go(&mut self, control: Control) -> (action: Action)
        ensures
            (final(self)@, action@) == go(old(self)@, control@),
    {
        self.control = control;
        Action::Continue
    }

    fn enter(&mut self, parent: usize)
        ensures
            final(self)@ == enter(old(self)@, parent),
    {
        let ghost before = self@.envs;
        let env = self.envs.len();
        self.envs.push(Environment::new(Some(parent)));
        self.current = env;
        proof {
            assert(self@.envs =~= before.push(
                EnvironmentView { bindings: Seq::empty(), parent: Some(parent), captured: false },
            ));
        }
    }

    fn leave(&mut self, saved: usize)
        ensures
            final(self)@ == leave(old(self)@, saved),
    {
        let ghost before = self@.envs;
        let gone = self.current;
        if saved < gone && gone < self.envs.len() && gone + 1 == self.envs.len()
            && !self.envs[gone].captured {
            self.envs.pop();
            proof {
                assert(self@.envs =~= before.drop_last());
            }
        }
        self.current = saved;
    }

    fn returned(&mut self)
        ensures
            final(self)@ == returned(old(self)@),
    {
        if self.depth > 0 {
            self.depth -= 1;
        }
    }

    /// How a value that is no number shows.
    fn plain_text(&self, value: &Value) -> (text: String)
        ensures
            text@ == plain_text(self@.functions, value@),
    {
        match value {
            Value::Nil => String::from_str("Nil"),
            Value::Boolean(b) => if *b {
                String::from_str("true")
            } else {
                String::from_str("false")
            },
            Value::Number(_) => String::new(),
            Value::String(s) => s.clone(),
            Value::Object => String::from_str("Object"),
            Value::Function(f) => {
                let mut text = String::from_str("fun ");
                if f.decl < self.functions.len() {
                    text.append(self.functions[f.decl].name.as_str());
                } else {
                    proof {
                        assert("fun "@ + Seq::<char>::empty() =~= "fun "@);
                    }
                }
                text
            },
            Value::NativeFunction(f) => {
                let mut text = String::from_str("native fun ");
                text.append(f.name.as_str());
                text
            },
        }
    }

    fn calc_identifier(&mut self, name: String, depth: Option<usize>) -> (action: Action)
        ensures
            (final(self)@, action@) == spec_identifier(old(self)@, name@, depth),
    {
        match Environment::get(&self.envs, self.current, &name, depth) {
            Some(value) => self.go(Control::Give(value)),
            None => self.go(runtime_failure(RuntimeError::UndefinedVariable(name))),
        }
    }

    fn exec_block(&mut self, statements: Vec<Statement>) -> (action: Action)
        ensures
            (final(self)@, action@) == spec_block(old(self)@, statements_view(statements@)),
    {
        let saved = self.current;
        self.enter(saved);
        self.push_frame(Frame::Scope(saved));
        self.push_frame(Frame::Sequence(reverse_statements(statements)));
        self.go(Control::Give(Value::Nil))
    }

    fn declare_fun(&mut self, function: Rc<FunctionDecl>) -> (action: Action)
        ensures
            (final(self)@, action@) == spec_declare_fun(old(self)@, (*function)@),
    {
        let ghost before = self@;
        let id = self.functions.len();
        let name = function.name.clone();
        self.functions.push(function);
        Environment::define(
            &mut self.envs,
            self.current,
            &name,
            Value::Function(Function { decl: id, closure: self.current }),
        );
        if self.current < self.envs.len() {
            let ghost defined = self@.envs;
            self.envs[self.current].captured = true;
            proof {
                assert(self@.envs =~= capture(defined, self.current as int));
            }
        }
        proof {
            assert(self@.functions =~= before.functions.push((*function)@));
        }
        self.go(Control::Give(Value::Nil))
    }

    fn eval(&mut self, expr: Expr) -> (action: Action)
        ensures
            (final(self)@, action@) == spec_eval(old(self)@, expr@),
    {
        match expr {
            Expr::Literal(literal) => self.go(Control::Give(calc_lit(&literal))),
            Expr::Identifier(name, depth) => self.calc_identifier(name, depth),
            Expr::Unary(unary) => {
                if unary.op == TokenType::Minus || unary.op == TokenType::Bang {
                    self.push_frame(Frame::Unary(unary.op));
                    self.go(Control::Eval(*unary.expr))
                } else {
                    self.go(internal_error("Invalid unary operator"))
                }
            },
            Expr::Binary(binary) => {
                self.push_frame(Frame::Right(binary.op, *binary.right));
                self.go(Control::Eval(*binary.left))
            },
            Expr::Grouping(inner) => self.go(Control::Eval(*inner)),
            Expr::Assignment(name, depth, value) => {
                self.push_frame(Frame::Assign(name, depth));
                self.go(Control::Eval(*value))
            },
            Expr::Call(call) => {
                proof {
                    crate::ast::lemma_call_view(*call.callee, call.args);
                }
                let args = reverse_exprs(call.args);
                self.push_frame(Frame::Callee(args));
                self.go(Control::Eval(*call.callee))
            },
        }
    }

    fn exec(&mut self, statement: Statement) -> (action: Action)
        ensures
            (final(self)@, action@) == spec_exec(old(self)@, statement@),
    {
        match statement {
            Statement::Expr(e) => self.go(Control::Eval(e)),
            Statement::Print(e) => {
                self.push_frame(Frame::Print);
                self.go(Control::Eval(e))
            },
            Statement::VariableDecl(name, init) => {
                self.push_frame(Frame::Declare(name));
                match init {
                    Some(e) => self.go(Control::Eval(e)),
                    None => self.go(Control::Give(Value::Nil)),
                }
            },
            Statement::Block(items) => {
                proof {
                    crate::ast::lemma_block_view(items);
                }
                self.exec_block(items)
            },
            Statement::If(s) => {
                let other = match s.else_branch {
                    Some(branch) => Some(*branch),
                    None => None,
                };
                self.push_frame(Frame::Branch(*s.then_branch, other));
                self.go(Control::Eval(s.cond))
            },
            Statement::While(s) => {
                let cond = clone_expr(&s.cond);
                self.push_frame(Frame::Loop(s.cond, *s.stmt));
                self.go(Control::Eval(cond))
            },
            Statement::FunDecl(decl) => {
                proof {
                    crate::ast::lemma_fun_view(decl);
                }
                self.declare_fun(decl)
            },
            Statement::Return(e) => match e {
                Some(value) => {
                    self.push_frame(Frame::Return);
                    self.go(Control::Eval(value))
                },
                None => self.go(Control::Raise(ErrorOrEarlyReturn::EarlyReturn(Value::Nil))),
            },
        }
    }
}

impl Interpreter {
    /// Asks for the texts of `values`, the last one first, for `frame`.
    fn describe(&mut self, frame: Frame, values: Vec<Value>) -> (action: Action)
        ensures
            (final(self)@, action@) == describe(old(self)@, frame@, values_view(values@)),
    {
        self.push_frame(frame);
        let texts: Vec<String> = Vec::new();
        proof {
            assert(names_view(texts@) =~= Seq::<Seq<char>>::empty());
        }
        self.go(Control::Render(values, texts))
    }

    /// Asks for the texts of one value, for `frame`.
    fn describe_one(&mut self, frame: Frame, value: Value) -> (action: Action)
        ensures
            (final(self)@, action@) == describe(old(self)@, frame@, seq![value@]),
    {
        let mut values: Vec<Value> = Vec::new();
        values.push(value);
        proof {
            assert(values_view(values@) =~= seq![value@]);
        }
        self.describe(frame, values)
    }

    /// The operator does not take these operands.
    fn invalid_operator(&mut self, op: TokenType, left: Value, right: Value) -> (action: Action)
        ensures
            (final(self)@, action@) == describe(
                old(self)@,
                FrameView::Operator(op),
                seq![right@, left@],
            ),
    {
        let mut values: Vec<Value> = Vec::new();
        values.push(right);
        values.push(left);
        proof {
            assert(values_view(values@) =~= seq![right@, left@]);
        }
        self.describe(Frame::Operator(op), values)
    }

    /// Asks the host for `left op right`.
    fn arithmetic(&mut self, op: TokenType, left: u64, right: u64) -> (action: Action)
        ensures
            final(self)@ == (State { control: ControlView::AwaitNumber, ..old(self)@ }),
            action@ == ActionView::Arithmetic(op, left, right),
    {
        self.control = Control::AwaitNumber;
        Action::Arithmetic(op, left, right)
    }

    fn give_boolean(&mut self, b: bool) -> (action: Action)
        ensures
            (final(self)@, action@) == go(old(self)@, ControlView::Give(ValueView::Boolean(b))),
    {
        self.go(Control::Give(Value::Boolean(b)))
    }

    /// Applies a binary operator that is not `and` or `or`.
    fn calc_binary(&mut self, op: TokenType, left: Value, right: Value) -> (action: Action)
        ensures
            (final(self)@, action@) == spec_binary(old(self)@, op, left@, right@),
    {
        match (&left, &right) {
            (Value::Number(l), Value::Number(r)) => {
                let l = *l;
                let r = *r;
                match op {
                    TokenType::Plus | TokenType::Minus | TokenType::Star => self.arithmetic(
                        op,
                        l,
                        r,
                    ),
                    TokenType::Slash => if number::is_zero(r) {
                        self.go(runtime_failure(RuntimeError::DivisionByZero))
                    } else {
                        self.arithmetic(op, l, r)
                    },
                    TokenType::EqualEqual => self.give_boolean(number::equal(l, r)),
                    TokenType::BangEqual => self.give_boolean(!number::equal(l, r)),
                    TokenType::Greater => self.give_boolean(number::less(r, l)),
                    TokenType::GreaterEqual => self.give_boolean(
                        number::less(r, l) || number::equal(l, r),
                    ),
                    TokenType::Less => self.give_boolean(number::less(l, r)),
                    TokenType::LessEqual => self.give_boolean(
                        number::less(l, r) || number::equal(l, r),
                    ),
                    _ => self.invalid_operator(op, left, right),
                }
            },
            _ => {
                if op == TokenType::EqualEqual {
                    self.give_boolean(equal_values(&left, &right))
                } else if op == TokenType::BangEqual {
                    self.give_boolean(!equal_values(&left, &right))
                } else {
                    match (&left, &right) {
                        (Value::String(l), Value::String(r)) => {
                            if op == TokenType::Plus {
                                let mut joined = l.clone();
                                joined.append(r.as_str());
                                self.go(Control::Give(Value::String(joined)))
                            } else {
                                self.invalid_operator(op, left, right)
                            }
                        },
                        _ => self.invalid_operator(op, left, right),
                    }
                }
            },
        }
    }

    /// Calls `callee` with `args`.
    fn call_fun(&mut self, callee: Value, args: Vec<Value>) -> (action: Action)
        ensures
            (final(self)@, action@) == spec_invoke(old(self)@, callee@, values_view(args@)),
    {
        match callee {
            Value::Function(f) => {
                if self.depth >= MAX_CALL_DEPTH {
                    return self.go(runtime_failure(RuntimeError::StackOverflow));
                }
                if f.decl >= self.functions.len() {
                    return self.go(internal_error("Unknown function"));
                }
                let ghost before = self@;
                let decl = Rc::clone(&self.functions[f.decl]);
                let ghost params = names_view(decl.params@);
                let ghost given = values_view(args@);
                let saved = self.current;
                let env = self.envs.len();
                self.envs.push(Environment::new(Some(f.closure)));
                proof {
                    assert(self@.envs =~= before.envs.push(
                        EnvironmentView {
                            bindings: Seq::empty(),
                            parent: Some(f.closure),
                            captured: false,
                        },
                    ));
                }
                let mut i: usize = 0;
                while i < decl.params.len() && i < args.len()
                    invariant
                        env == before.envs.len(),
                        params == names_view(decl.params@),
                        given == values_view(args@),
                        self@.envs.len() == env + 1,
                        self@.envs.subrange(0, env as int) == before.envs,
                        self@.envs[env as int].parent == Some(f.closure),
                        !self@.envs[env as int].captured,
                        bind_all(Seq::empty(), params, given, 0) == bind_all(
                            self@.envs[env as int].bindings,
                            params,
                            given,
                            i as int,
                        ),
                        self@.functions == before.functions,
                        self@.frames == before.frames,
                        self.current == before.current,
                        self.depth == before.depth,
                        self.depth < MAX_CALL_DEPTH,
                    decreases decl.params.len() - i,
                {
                    let ghost envs = self@.envs;
                    Environment::define(&mut self.envs, env, &decl.params[i], args[i].clone());
                    proof {
                        assert(self@.envs.subrange(0, env as int) =~= envs.subrange(
                            0,
                            env as int,
                        ));
                    }
                    i += 1;
                }
                self.current = env;
                self.depth += 1;
                let body = reverse_statements(clone_statements(&decl.body));
                self.push_frame(Frame::Call(saved));
                self.push_frame(Frame::Sequence(body));
                proof {
                    assert(self@.envs =~= before.envs.push(
                        EnvironmentView {
                            bindings: bind_all(Seq::empty(), params, given, 0),
                            parent: Some(f.closure),
                            captured: false,
                        },
                    ));
                }
                self.go(Control::Give(Value::Nil))
            },
            Value::NativeFunction(native) => {
                self.control = Control::AwaitNumber;
                Action::Native(native.name)
            },
            _ => self.go(internal_error("Not a function")),
        }
    }

    /// Goes on with the arguments of a call.
    fn arguments(&mut self, callee: Value, done: Vec<Value>, rest: Vec<Expr>) -> (action: Action)
        ensures
            (final(self)@, action@) == spec_arguments(
                old(self)@,
                callee@,
                values_view(done@),
                exprs_view(rest@),
            ),
    {
        let mut rest = rest;
        let ghost before = exprs_view(rest@);
        match rest.pop() {
            None => self.call_fun(callee, done),
            Some(next) => {
                proof {
                    assert(exprs_view(rest@) =~= before.drop_last());
                }
                self.push_frame(Frame::Args(callee, done, rest));
                self.go(Control::Eval(next))
            },
        }
    }

    /// Checks the callee of a call, and goes on with its arguments.
    fn callee(&mut self, callee: Value, args: Vec<Expr>) -> (action: Action)
        ensures
            (final(self)@, action@) == spec_callee(old(self)@, callee@, exprs_view(args@)),
    {
        let done: Vec<Value> = Vec::new();
        proof {
            assert(values_view(done@) =~= Seq::<ValueView>::empty());
        }
        match &callee {
            Value::Function(f) => {
                if f.decl >= self.functions.len() {
                    return self.go(internal_error("Unknown function"));
                }
                let expected = self.functions[f.decl].params.len();
                if expected != args.len() {
                    let name = self.functions[f.decl].name.clone();
                    return self.go(
                        runtime_failure(
                            RuntimeError::NumberOfArgumentsMismatch(expected, name, args.len()),
                        ),
                    );
                }
                self.arguments(callee, done, args)
            },
            Value::NativeFunction(native) => {
                if native.arity != args.len() {
                    let error = RuntimeError::NumberOfArgumentsMismatch(
                        native.arity,
                        native.name.clone(),
                        args.len(),
                    );
                    return self.go(runtime_failure(error));
                }
                self.arguments(callee, done, args)
            },
            _ => self.describe_one(Frame::NotCallable, callee),
        }
    }

    /// Applies a unary operator.
    fn calc_unary(&mut self, op: TokenType, value: Value) -> (action: Action)
        ensures
            (final(self)@, action@) == spec_unary(old(self)@, op, value@),
    {
        if op == TokenType::Minus {
            match value {
                Value::Number(n) => self.go(Control::Give(Value::Number(number::negate(n)))),
                _ => self.describe_one(Frame::Mismatch(String::from_str("number")), value),
            }
        } else {
            match value {
                Value::Boolean(b) => self.go(Control::Give(Value::Boolean(!b))),
                _ => self.describe_one(Frame::Mismatch(String::from_str("boolean")), value),
            }
        }
    }

    /// Goes on after the left operand of a binary operator.
    fn right_operand(&mut self, op: TokenType, left: Value, right: Expr) -> (action: Action)
        ensures
            (final(self)@, action@) == spec_right(old(self)@, op, left@, right@),
    {
        if op == TokenType::And {
            if is_truthy(&left) {
                self.push_frame(Frame::Truth);
                self.go(Control::Eval(right))
            } else {
                self.give_boolean(false)
            }
        } else if op == TokenType::Or {
            if is_truthy(&left) {
                self.give_boolean(true)
            } else {
                self.push_frame(Frame::Truth);
                self.go(Control::Eval(right))
            }
        } else {
            self.push_frame(Frame::Apply(op, left));
            self.go(Control::Eval(right))
        }
    }

    fn calc_assignment(&mut self, var_name: String, depth: Option<usize>, value: Value) -> (action:
        Action)
        ensures
            (final(self)@, action@) == spec_assignment(old(self)@, var_name@, depth, value@),
    {
        match Environment::assign(&mut self.envs, self.current, &var_name, depth, value.clone()) {
            Ok(_) => self.go(Control::Give(value)),
            Err(error) => self.go(Control::Raise(error)),
        }
    }

    fn var_decl(&mut self, name: String, value: Value) -> (action: Action)
        ensures
            (final(self)@, action@) == spec_var_decl(old(self)@, name@, value@),
    {
        Environment::define(&mut self.envs, self.current, &name, value);
        self.go(Control::Give(Value::Nil))
    }

    /// Goes on after the condition of an `if`.
    fn if_stmt(&mut self, cond: Value, then_branch: Statement, else_branch: Option<Statement>) -> (action:
        Action)
        ensures
            (final(self)@, action@) == spec_if(
                old(self)@,
                cond@,
                then_branch@,
                match else_branch {
                    Some(other) => Some(other@),
                    None => None,
                },
            ),
    {
        let nothing: Vec<Statement> = Vec::new();
        proof {
            assert(statements_view(nothing@) =~= Seq::<StatementView>::empty());
        }
        if is_truthy(&cond) {
            self.push_frame(Frame::Sequence(nothing));
            self.go(Control::Exec(then_branch))
        } else {
            match else_branch {
                Some(other) => {
                    self.push_frame(Frame::Sequence(nothing));
                    self.go(Control::Exec(other))
                },
                None => self.go(Control::Give(Value::Nil)),
            }
        }
    }

    /// Goes on after the condition of a `while`.
    fn while_stmt(&mut self, cond_value: Value, cond: Expr, body: Statement) -> (action: Action)
        ensures
            (final(self)@, action@) == spec_while(old(self)@, cond_value@, cond@, body@),
    {
        if is_truthy(&cond_value) {
            let run = clone_statement(&body);
            self.push_frame(Frame::Again(cond, body));
            self.go(Control::Exec(run))
        } else {
            self.go(Control::Give(Value::Nil))
        }
    }

    /// Hands a value to the frame on top.
    fn give(&mut self, value: Value) -> (action: Action)
        ensures
            (final(self)@, action@) == spec_give(old(self)@, value@),
    {
        let ghost before = self@;
        let frame = match self.frames.pop() {
            None => {
                self.control = Control::Idle;
                return Action::Finished(Ok(value));
            },
            Some(frame) => frame,
        };
        proof {
            assert(self@.frames =~= before.frames.drop_last());
            assert(frame@ == before.frames.last());
        }
        match frame {
            Frame::Unary(op) => self.calc_unary(op, value),
            Frame::Right(op, right) => self.right_operand(op, value, right),
            Frame::Apply(op, left) => self.calc_binary(op, left, value),
            Frame::Truth => self.give_boolean(is_truthy(&value)),
            Frame::Assign(name, depth) => self.calc_assignment(name, depth, value),
            Frame::Callee(args) => self.callee(value, args),
            Frame::Args(callee, done, rest) => {
                let mut done = done;
                let ghost seen = values_view(done@);
                done.push(value);
                proof {
                    assert(values_view(done@) =~= seen.push(value@));
                }
                self.arguments(callee, done, rest)
            },
            Frame::Call(saved) => {
                self.leave(saved);
                self.returned();
                self.go(Control::Give(Value::Nil))
            },
            Frame::Print => self.describe_one(Frame::Show, value),
            Frame::Declare(name) => self.var_decl(name, value),
            Frame::Sequence(rest) => {
                let mut rest = rest;
                let ghost all = statements_view(rest@);
                match rest.pop() {
                    None => self.go(Control::Give(Value::Nil)),
                    Some(next) => {
                        proof {
                            assert(statements_view(rest@) =~= all.drop_last());
                        }
                        self.push_frame(Frame::Sequence(rest));
                        self.go(Control::Exec(next))
                    },
                }
            },
            Frame::Scope(saved) => {
                self.leave(saved);
                self.go(Control::Give(value))
            },
            Frame::Branch(then_branch, else_branch) => self.if_stmt(
                value,
                then_branch,
                else_branch,
            ),
            Frame::Loop(cond, body) => self.while_stmt(value, cond, body),
            Frame::Again(cond, body) => {
                let test = clone_expr(&cond);
                self.push_frame(Frame::Loop(cond, body));
                self.go(Control::Eval(test))
            },
            Frame::Return => self.go(Control::Raise(ErrorOrEarlyReturn::EarlyReturn(value))),
            _ => self.go(internal_error("Unexpected value")),
        }
    }

    /// Unwinds by one frame.
    fn raise(&mut self, error: ErrorOrEarlyReturn) -> (action: Action)
        ensures
            (final(self)@, action@) == spec_raise(old(self)@, error@),
    {
        let ghost before = self@;
        let frame = match self.frames.pop() {
            None => {
                self.control = Control::Idle;
                return match error {
                    ErrorOrEarlyReturn::EarlyReturn(_) => Action::Finished(
                        Err(
                            ErrorOrEarlyReturn::ICE(
                                ICE::Generic(String::from_str("Return outside of a function")),
                            ),
                        ),
                    ),
                    _ => Action::Finished(Err(error)),
                };
            },
            Some(frame) => frame,
        };
        proof {
            assert(self@.frames =~= before.frames.drop_last());
            assert(frame@ == before.frames.last());
        }
        match frame {
            Frame::Scope(saved) => {
                self.leave(saved);
                self.go(Control::Raise(error))
            },
            Frame::Call(saved) => {
                self.leave(saved);
                self.returned();
                match error {
                    ErrorOrEarlyReturn::EarlyReturn(value) => self.go(Control::Give(value)),
                    _ => self.go(Control::Raise(error)),
                }
            },
            _ => self.go(Control::Raise(error)),
        }
    }

    /// Hands the texts asked for to the frame on top.
    fn texts(&mut self, texts: Vec<String>) -> (action: Action)
        ensures
            (final(self)@, action@) == spec_texts(old(self)@, names_view(texts@)),
    {
        let ghost before = self@;
        let ghost given = names_view(texts@);
        if self.frames.len() == 0 || texts.len() == 0 {
            return self.go(internal_error("Unexpected texts"));
        }
        let frame = match self.frames.pop() {
            None => {
                return self.go(internal_error("Unexpected texts"));
            },
            Some(frame) => frame,
        };
        proof {
            assert(self@.frames =~= before.frames.drop_last());
            assert(frame@ == before.frames.last());
        }
        match frame {
            Frame::Show => {
                let mut line = texts[0].clone();
                line.append("\n");
                self.control = Control::AwaitPrint;
                Action::Print(line)
            },
            Frame::Mismatch(expected) => {
                let found = texts[0].clone();
                self.go(runtime_failure(RuntimeError::TypeMismatch(expected, found)))
            },
            Frame::Operator(op) => {
                if texts.len() >= 2 {
                    let left = texts[0].clone();
                    let right = texts[1].clone();
                    self.go(runtime_failure(RuntimeError::InvalidOperator(op, left, right)))
                } else {
                    self.go(internal_error("Unexpected texts"))
                }
            },
            Frame::NotCallable => {
                let found = texts[0].clone();
                self.go(runtime_failure(RuntimeError::UndefinedFunction(found)))
            },
            _ => self.go(internal_error("Unexpected texts")),
        }
    }

    /// Turns the next value into a text, or hands the texts on.
    fn render(&mut self, values: Vec<Value>, texts: Vec<String>) -> (action: Action)
        ensures
            (final(self)@, action@) == spec_render(
                old(self)@,
                values_view(values@),
                names_view(texts@),
            ),
    {
        let mut values = values;
        let mut texts = texts;
        let ghost all = values_view(values@);
        let ghost seen = names_view(texts@);
        match values.pop() {
            None => self.texts(texts),
            Some(value) => {
                proof {
                    assert(values_view(values@) =~= all.drop_last());
                    assert(value@ == all.last());
                }
                match value {
                    Value::Number(n) => {
                        self.control = Control::AwaitText(values, texts);
                        Action::Format(n)
                    },
                    other => {
                        let text = self.plain_text(&other);
                        texts.push(text);
                        proof {
                            assert(names_view(texts@) =~= seen.push(text@));
                        }
                        self.go(Control::Render(values, texts))
                    },
                }
            },
        }
    }

    /// Makes one move. `event` answers what the step before asked of the
    /// host; where it asked nothing, the event is not looked at.
    pub fn step(&mut self, event: Event) -> (action: Action)
        ensures
            (final(self)@, action@) == spec_step(old(self)@, event@),
            well_formed(old(self)@) && roomy(old(self)@) ==> well_formed(final(self)@),
            well_formed(old(self)@) && in_order(old(self)@) ==> in_order(final(self)@),
    {
        proof {
            if well_formed(self@) && roomy(self@) {
                lemma_step_keeps_well_formed(self@, event@);
            }
            if well_formed(self@) && in_order(self@) {
                lemma_step_keeps_order(self@, event@);
            }
        }
        let mut control = Control::Idle;
        std::mem::swap(&mut self.control, &mut control);
        match control {
            Control::Idle => Action::Finished(Ok(Value::Nil)),
            Control::Eval(expr) => self.eval(expr),
            Control::Exec(statement) => self.exec(statement),
            Control::Give(value) => self.give(value),
            Control::Raise(error) => self.raise(error),
            Control::Render(values, texts) => self.render(values, texts),
            Control::AwaitNumber => match event {
                Event::Number(n) => self.go(Control::Give(Value::Number(n))),
                _ => self.go(internal_error("Expected a number from the host")),
            },
            Control::AwaitText(values, texts) => match event {
                Event::Text(text) => {
                    let mut texts = texts;
                    let ghost seen = names_view(texts@);
                    texts.push(text);
                    proof {
                        assert(names_view(texts@) =~= seen.push(text@));
                    }
                    self.go(Control::Render(values, texts))
                },
                _ => self.go(internal_error("Expected a text from the host")),
            },
            Control::AwaitPrint => match event {
                Event::Done => self.go(Control::Give(Value::Nil)),
                Event::Failed(message) => self.go(
                    Control::Raise(ErrorOrEarlyReturn::ICE(ICE::IOError(message))),
                ),
                _ => self.go(internal_error("Expected the host to print")),
            },
        }
    }
}

// ---------------------------------------------------------------------------
// What follows from the rules
// ---------------------------------------------------------------------------

/// Only `false` and `nil` are falsy: every number, zero too, every string,
/// the empty one too, and `true` are truthy.
pub proof fn lemma_only_false_and_nil_are_falsy(value: ValueView)
    ensures
        !truthy(value) <==> (value == ValueView::Boolean(false) || value == ValueView::Nil),
        value is Number ==> truthy(value),
        value is String ==> truthy(value),
        truthy(ValueView::Boolean(true)),
{
}

/// Dividing by zero, of either sign, is an error: the step that has both
/// operands raises `DivisionByZero` and asks nothing of the host.
pub proof fn lemma_division_by_zero_is_an_error(s: State, event: EventView, left: u64, right: u64)
    requires
        s.control == ControlView::Give(ValueView::Number(right)),
        s.frames.len() > 0,
        s.frames.last() == FrameView::Apply(TokenType::Slash, ValueView::Number(left)),
        number::spec_is_zero(right),
    ensures
        spec_step(s, event).1 == ActionView::Continue,
        spec_step(s, event).0.control == failure(RuntimeErrorView::DivisionByZero),
{
}

/// The host is never asked to divide by zero, whatever the state and the
/// event.
pub proof fn lemma_host_never_divides_by_zero(s: State, event: EventView)
    ensures
        spec_step(s, event).1 matches ActionView::Arithmetic(op, _, right) ==> (op
            == TokenType::Slash ==> !number::spec_is_zero(right)),
{
    let after = spec_step(s, event);
    match s.control {
        ControlView::Give(value) => {
            if s.frames.len() > 0 {
                let r = State { frames: s.frames.drop_last(), ..idle(s) };
                match s.frames.last() {
                    FrameView::Apply(op, left) => {
                        assert(after == spec_binary(r, op, left, value));
                    },
                    FrameView::Callee(args) => {
                        assert(after == spec_callee(r, value, args));
                    },
                    FrameView::Args(callee, done, rest) => {
                        assert(after == spec_arguments(r, callee, done.push(value), rest));
                    },
                    _ => {},
                }
            }
        },
        _ => {},
    }
}

/// A function called with another number of arguments than it has parameters
/// is not called: the step that has the callee raises
/// `NumberOfArgumentsMismatch` with the number of parameters, the function's
/// name and the number of arguments, before any argument is evaluated.
pub proof fn lemma_arity_is_checked(s: State, event: EventView, f: Function, args: Seq<ExprView>)
    requires
        s.control == ControlView::Give(ValueView::Function(f)),
        s.frames.len() > 0,
        s.frames.last() == FrameView::Callee(args),
        f.decl < s.functions.len(),
        s.functions[f.decl as int].params.len() != args.len(),
    ensures
        spec_step(s, event).1 == ActionView::Continue,
        spec_step(s, event).0.control == failure(
            RuntimeErrorView::NumberOfArgumentsMismatch(
                s.functions[f.decl as int].params.len() as usize,
                s.functions[f.decl as int].name,
                args.len() as usize,
            ),
        ),
        spec_step(s, event).0.envs == s.envs,
        spec_step(s, event).0.depth == s.depth,
{
}

/// No more than `MAX_CALL_DEPTH` calls are ever under way: a step never takes
/// the depth beyond the bound.
pub proof fn lemma_call_depth_is_bounded(s: State, event: EventView)
    requires
        s.depth <= MAX_CALL_DEPTH,
    ensures
        spec_step(s, event).0.depth <= MAX_CALL_DEPTH,
{
    let after = spec_step(s, event);
    match s.control {
        ControlView::Give(value) => {
            if s.frames.len() > 0 {
                let r = State { frames: s.frames.drop_last(), ..idle(s) };
                match s.frames.last() {
                    FrameView::Apply(op, left) => {
                        assert(after == spec_binary(r, op, left, value));
                    },
                    FrameView::Callee(args) => {
                        assert(after == spec_callee(r, value, args));
                    },
                    FrameView::Args(callee, done, rest) => {
                        assert(after == spec_arguments(r, callee, done.push(value), rest));
                    },
                    _ => {},
                }
            }
        },
        ControlView::Raise(error) => {},
        _ => {},
    }
}

/// A call that would be one too many raises `StackOverflow` instead of
/// running.
pub proof fn lemma_too_deep_a_call_overflows(s: State, f: Function, args: Seq<ValueView>)
    requires
        s.depth >= MAX_CALL_DEPTH,
    ensures
        spec_invoke(s, ValueView::Function(f), args) == go(
            s,
            failure(RuntimeErrorView::StackOverflow),
        ),
{
}

/// `and` and `or` look at their right operand only where the left one does
/// not decide: with a falsy left operand `and` is `false`, with a truthy one
/// `or` is `true`, and the right operand is dropped unevaluated.
pub proof fn lemma_logical_operators_short_circuit(
    s: State,
    event: EventView,
    op: TokenType,
    left: ValueView,
    right: ExprView,
)
    requires
        s.control == ControlView::Give(left),
        s.frames.len() > 0,
        s.frames.last() == FrameView::Right(op, right),
        (op == TokenType::And && !truthy(left)) || (op == TokenType::Or && truthy(left)),
    ensures
        spec_step(s, event) == go(
            State { frames: s.frames.drop_last(), ..s },
            ControlView::Give(ValueView::Boolean(op == TokenType::Or)),
        ),
{
}

} // verus!
