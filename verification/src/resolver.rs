//! Finds, for every use of a name, how many scopes lie between the use and
//! the declaration it means.
//!
//! The resolver walks the tree in the order in which the interpreter will run
//! it, with a stack of scopes that mirrors the interpreter's environments: a
//! block opens a scope, and so does a function for its parameters and body. A
//! name that no scope declares is left unresolved, to be looked up when the
//! program runs.

use vstd::prelude::*;
use vstd::string::StringExecFns;
use std::rc::Rc;
use crate::ast::{
    exprs_view, lemma_block_view, lemma_call_view, lemma_fun_view, names_view, option_view,
    statements_view, BinaryExpr, CallExpr, Expr, ExprView, FunctionDecl, FunctionDeclView,
    IfStatement, LiteralExpr, LiteralView, Program, Statement, StatementView, UnaryExpr,
    WhileStatement,
};
use crate::Result;

verus! {

/// The names that a scope declares, each with whether its initializer has
/// been resolved yet.
pub type Scope = Vec<(String, bool)>;

pub type ScopeView = Seq<(Seq<char>, bool)>;

/// The stack of scopes, the innermost last.
#[derive(Default)]
pub struct Resolver {
    pub scopes: Vec<Scope>,
}

pub open spec fn scope_view(scope: Seq<(String, bool)>) -> ScopeView {
    Seq::new(scope.len(), |i: int| (scope[i].0@, scope[i].1))
}

pub open spec fn scopes_view(scopes: Seq<Scope>) -> Seq<ScopeView> {
    Seq::new(scopes.len(), |i: int| scope_view(scopes[i]@))
}

impl View for Resolver {
    type V = Seq<ScopeView>;

    open spec fn view(&self) -> Seq<ScopeView> {
        scopes_view(self.scopes@)
    }
}

// ---------------------------------------------------------------------------
// The rules
// ---------------------------------------------------------------------------

/// The first position at or after `from` where `scope` holds `name`; the
/// length of `scope` where it does not.
pub open spec fn slot(scope: ScopeView, name: Seq<char>, from: int) -> int
    decreases scope.len() - from,
{
    if 0 <= from < scope.len() && scope[from].0 != name {
        slot(scope, name, from + 1)
    } else {
        from
    }
}

pub open spec fn declares(scope: ScopeView, name: Seq<char>) -> bool {
    slot(scope, name, 0) < scope.len()
}

/// `scope` with `name` declared and flagged `initialized`.
pub open spec fn mark(scope: ScopeView, name: Seq<char>, initialized: bool) -> ScopeView {
    let at = slot(scope, name, 0);
    if at < scope.len() {
        scope.update(at, (name, initialized))
    } else {
        scope.push((name, initialized))
    }
}

/// `scopes` without the innermost.
pub open spec fn popped(scopes: Seq<ScopeView>) -> Seq<ScopeView> {
    if scopes.len() > 0 {
        scopes.drop_last()
    } else {
        scopes
    }
}

/// `name` is declared in the innermost scope, not yet initialized.
pub open spec fn spec_register(scopes: Seq<ScopeView>, name: Seq<char>) -> Seq<ScopeView> {
    if scopes.len() > 0 {
        scopes.update(scopes.len() - 1, mark(scopes.last(), name, false))
    } else {
        scopes
    }
}

/// `name` is initialized in the scope `depth` scopes out from the innermost.
pub open spec fn spec_initialize(scopes: Seq<ScopeView>, name: Seq<char>, depth: int) -> Seq<
    ScopeView,
> {
    if 0 <= depth < scopes.len() {
        scopes.update(
            scopes.len() - 1 - depth,
            mark(scopes[scopes.len() - 1 - depth], name, true),
        )
    } else {
        scopes
    }
}

/// How many scopes to skip, at least `skipped`, to reach the nearest one that
/// declares `name`; `None` where no scope does.
pub open spec fn spec_depth(scopes: Seq<ScopeView>, name: Seq<char>, skipped: int) -> Option<usize>
    decreases scopes.len() - skipped,
{
    if !(0 <= skipped < scopes.len()) {
        None
    } else if declares(scopes[scopes.len() - 1 - skipped], name) {
        Some(skipped as usize)
    } else {
        spec_depth(scopes, name, skipped + 1)
    }
}

/// Resolving an expression: what the scopes are after it, and the expression
/// with every name in it resolved.
pub open spec fn spec_resolve_expr(scopes: Seq<ScopeView>, expr: ExprView) -> (
    Seq<ScopeView>,
    ExprView,
)
    decreases expr, 0int,
{
    match expr {
        ExprView::Identifier(name, _) => (
            scopes,
            ExprView::Identifier(name, spec_depth(scopes, name, 0)),
        ),
        ExprView::Literal(literal) => (scopes, expr),
        ExprView::Unary(op, operand) => {
            let (after, resolved) = spec_resolve_expr(scopes, *operand);
            (after, ExprView::Unary(op, Box::new(resolved)))
        },
        ExprView::Binary(left, op, right) => {
            let (middle, l) = spec_resolve_expr(scopes, *left);
            let (after, r) = spec_resolve_expr(middle, *right);
            (after, ExprView::Binary(Box::new(l), op, Box::new(r)))
        },
        ExprView::Grouping(inner) => {
            let (after, resolved) = spec_resolve_expr(scopes, *inner);
            (after, ExprView::Grouping(Box::new(resolved)))
        },
        ExprView::Assignment(name, _, value) => {
            let depth = spec_depth(scopes, name, 0);
            let (after, resolved) = spec_resolve_expr(scopes, *value);
            (
                match depth {
                    Some(d) => spec_initialize(after, name, d as int),
                    None => after,
                },
                ExprView::Assignment(name, depth, Box::new(resolved)),
            )
        },
        ExprView::Call(callee, args) => {
            let (middle, c) = spec_resolve_expr(scopes, *callee);
            let (after, resolved) = spec_resolve_exprs(middle, args, 0, Seq::empty());
            (after, ExprView::Call(Box::new(c), resolved))
        },
    }
}

/// Resolving the expressions of `exprs` from `from` on, in order, after those
/// in `done`.
pub open spec fn spec_resolve_exprs(
    scopes: Seq<ScopeView>,
    exprs: Seq<ExprView>,
    from: int,
    done: Seq<ExprView>,
) -> (Seq<ScopeView>, Seq<ExprView>)
    decreases exprs, exprs.len() - from,
{
    if 0 <= from < exprs.len() {
        let (after, resolved) = spec_resolve_expr(scopes, exprs[from]);
        spec_resolve_exprs(after, exprs, from + 1, done.push(resolved))
    } else {
        (scopes, done)
    }
}

pub open spec fn spec_resolve_optional(scopes: Seq<ScopeView>, expr: Option<ExprView>) -> (
    Seq<ScopeView>,
    Option<ExprView>,
) {
    match expr {
        Some(e) => {
            let (after, resolved) = spec_resolve_expr(scopes, e);
            (after, Some(resolved))
        },
        None => (scopes, None),
    }
}

/// The parameters of `params` from `from` on are declared in the innermost
/// scope, initialized.
pub open spec fn spec_parameters(scopes: Seq<ScopeView>, params: Seq<Seq<char>>, from: int) -> Seq<
    ScopeView,
>
    decreases params.len() - from,
{
    if 0 <= from < params.len() {
        spec_parameters(
            spec_initialize(spec_register(scopes, params[from]), params[from], 0),
            params,
            from + 1,
        )
    } else {
        scopes
    }
}

/// Resolving a statement. A declaration adds its name to the innermost
/// scope before its initializer is resolved; a block, and a function, resolve
/// what they hold in a scope of their own.
pub open spec fn spec_resolve_stmt(scopes: Seq<ScopeView>, statement: StatementView) -> (
    Seq<ScopeView>,
    StatementView,
)
    decreases statement, 0int,
{
    match statement {
        StatementView::Expr(e) => {
            let (after, resolved) = spec_resolve_expr(scopes, e);
            (after, StatementView::Expr(resolved))
        },
        StatementView::Print(e) => {
            let (after, resolved) = spec_resolve_expr(scopes, e);
            (after, StatementView::Print(resolved))
        },
        StatementView::VariableDecl(name, init) => {
            let declared = spec_register(scopes, name);
            match init {
                Some(e) => {
                    let (after, resolved) = spec_resolve_expr(declared, e);
                    (
                        spec_initialize(after, name, 0),
                        StatementView::VariableDecl(name, Some(resolved)),
                    )
                },
                None => (declared, StatementView::VariableDecl(name, None)),
            }
        },
        StatementView::Block(items) => {
            let (after, resolved) = spec_resolve_stmts(
                scopes.push(Seq::empty()),
                items,
                0,
                Seq::empty(),
            );
            (popped(after), StatementView::Block(resolved))
        },
        StatementView::If(cond, then_branch, else_branch) => {
            let (s1, c) = spec_resolve_expr(scopes, cond);
            let (s2, t) = spec_resolve_stmt(s1, *then_branch);
            match else_branch {
                Some(other) => {
                    let (s3, e) = spec_resolve_stmt(s2, *other);
                    (s3, StatementView::If(c, Box::new(t), Some(Box::new(e))))
                },
                None => (s2, StatementView::If(c, Box::new(t), None)),
            }
        },
        StatementView::While(cond, body) => {
            let (s1, c) = spec_resolve_expr(scopes, cond);
            let (s2, b) = spec_resolve_stmt(s1, *body);
            (s2, StatementView::While(c, Box::new(b)))
        },
        StatementView::FunDecl(decl) => {
            let inside = spec_parameters(
                spec_register(scopes, decl.name).push(Seq::empty()),
                decl.params,
                0,
            );
            let (after, body) = spec_resolve_stmts(inside, decl.body, 0, Seq::empty());
            (
                popped(after),
                StatementView::FunDecl(
                    FunctionDeclView { name: decl.name, params: decl.params, body },
                ),
            )
        },
        StatementView::Return(e) => {
            let (after, resolved) = spec_resolve_optional(scopes, e);
            (after, StatementView::Return(resolved))
        },
    }
}

/// Resolving the statements of `items` from `from` on, in order, after those
/// in `done`.
pub open spec fn spec_resolve_stmts(
    scopes: Seq<ScopeView>,
    items: Seq<StatementView>,
    from: int,
    done: Seq<StatementView>,
) -> (Seq<ScopeView>, Seq<StatementView>)
    decreases items, items.len() - from,
{
    if 0 <= from < items.len() {
        let (after, resolved) = spec_resolve_stmt(scopes, items[from]);
        spec_resolve_stmts(after, items, from + 1, done.push(resolved))
    } else {
        (scopes, done)
    }
}

/// Resolving a program: its statements, in a scope of their own that
/// declares the native functions.
pub open spec fn spec_resolve(scopes: Seq<ScopeView>, program: Seq<StatementView>) -> (
    Seq<ScopeView>,
    Seq<StatementView>,
) {
    let global = spec_initialize(
        spec_register(scopes.push(Seq::empty()), "clock"@),
        "clock"@,
        0,
    );
    let (after, resolved) = spec_resolve_stmts(global, program, 0, Seq::empty());
    (popped(after), resolved)
}

// ---------------------------------------------------------------------------
// Resolving changes the depths and nothing else
// ---------------------------------------------------------------------------

/// `expr` with no name in it resolved.
pub open spec fn unresolved_expr(expr: ExprView) -> ExprView
    decreases expr,
{
    match expr {
        ExprView::Identifier(name, _) => ExprView::Identifier(name, None),
        ExprView::Literal(literal) => expr,
        ExprView::Unary(op, operand) => ExprView::Unary(op, Box::new(unresolved_expr(*operand))),
        ExprView::Binary(left, op, right) => ExprView::Binary(
            Box::new(unresolved_expr(*left)),
            op,
            Box::new(unresolved_expr(*right)),
        ),
        ExprView::Grouping(inner) => ExprView::Grouping(Box::new(unresolved_expr(*inner))),
        ExprView::Assignment(name, _, value) => ExprView::Assignment(
            name,
            None,
            Box::new(unresolved_expr(*value)),
        ),
        ExprView::Call(callee, args) => ExprView::Call(
            Box::new(unresolved_expr(*callee)),
            Seq::new(
                args.len(),
                |i: int|
                    if 0 <= i < args.len() {
                        unresolved_expr(args[i])
                    } else {
                        ExprView::Literal(LiteralView::Nil)
                    },
            ),
        ),
    }
}

/// `exprs` with no name in them resolved.
pub open spec fn unresolved_exprs(exprs: Seq<ExprView>) -> Seq<ExprView> {
    Seq::new(exprs.len(), |i: int| unresolved_expr(exprs[i]))
}

/// `statement` with no name in it resolved.
pub open spec fn unresolved_stmt(statement: StatementView) -> StatementView
    decreases statement,
{
    match statement {
        StatementView::Expr(e) => StatementView::Expr(unresolved_expr(e)),
        StatementView::Print(e) => StatementView::Print(unresolved_expr(e)),
        StatementView::VariableDecl(name, init) => StatementView::VariableDecl(
            name,
            match init {
                Some(e) => Some(unresolved_expr(e)),
                None => None,
            },
        ),
        StatementView::Block(items) => StatementView::Block(
            Seq::new(
                items.len(),
                |i: int|
                    if 0 <= i < items.len() {
                        unresolved_stmt(items[i])
                    } else {
                        StatementView::Block(Seq::empty())
                    },
            ),
        ),
        StatementView::If(cond, then_branch, else_branch) => StatementView::If(
            unresolved_expr(cond),
            Box::new(unresolved_stmt(*then_branch)),
            match else_branch {
                Some(other) => Some(Box::new(unresolved_stmt(*other))),
                None => None,
            },
        ),
        StatementView::While(cond, body) => StatementView::While(
            unresolved_expr(cond),
            Box::new(unresolved_stmt(*body)),
        ),
        StatementView::FunDecl(decl) => StatementView::FunDecl(
            FunctionDeclView {
                name: decl.name,
                params: decl.params,
                body: Seq::new(
                    decl.body.len(),
                    |i: int|
                        if 0 <= i < decl.body.len() {
                            unresolved_stmt(decl.body[i])
                        } else {
                            StatementView::Block(Seq::empty())
                        },
                ),
            },
        ),
        StatementView::Return(e) => StatementView::Return(
            match e {
                Some(value) => Some(unresolved_expr(value)),
                None => None,
            },
        ),
    }
}

/// `statements` with no name in them resolved.
pub open spec fn unresolved_stmts(statements: Seq<StatementView>) -> Seq<StatementView> {
    Seq::new(statements.len(), |i: int| unresolved_stmt(statements[i]))
}

/// Resolving an expression leaves as many scopes as there were, and changes
/// nothing in the expression but the depths.
pub proof fn lemma_resolve_expr_only_sets_depths(scopes: Seq<ScopeView>, expr: ExprView)
    ensures
        spec_resolve_expr(scopes, expr).0.len() == scopes.len(),
        unresolved_expr(spec_resolve_expr(scopes, expr).1) == unresolved_expr(expr),
    decreases expr, 0int,
{
    match expr {
        ExprView::Unary(op, operand) => {
            lemma_resolve_expr_only_sets_depths(scopes, *operand);
        },
        ExprView::Binary(left, op, right) => {
            lemma_resolve_expr_only_sets_depths(scopes, *left);
            lemma_resolve_expr_only_sets_depths(spec_resolve_expr(scopes, *left).0, *right);
        },
        ExprView::Grouping(inner) => {
            lemma_resolve_expr_only_sets_depths(scopes, *inner);
        },
        ExprView::Assignment(name, _, value) => {
            lemma_resolve_expr_only_sets_depths(scopes, *value);
        },
        ExprView::Call(callee, args) => {
            lemma_resolve_expr_only_sets_depths(scopes, *callee);
            let middle = spec_resolve_expr(scopes, *callee).0;
            lemma_resolve_exprs_only_set_depths(middle, args, 0, Seq::empty());
            let resolved = spec_resolve_exprs(middle, args, 0, Seq::empty()).1;
            assert(args.subrange(0, args.len() as int) =~= args);
            assert(unresolved_exprs(Seq::<ExprView>::empty()) + unresolved_exprs(args)
                =~= unresolved_exprs(args));
            assert(unresolved_expr(ExprView::Call(callee, resolved))->Call_1 =~= unresolved_exprs(
                resolved,
            ));
            assert(unresolved_expr(expr)->Call_1 =~= unresolved_exprs(args));
        },
        _ => {},
    }
}

/// As `lemma_resolve_expr_only_sets_depths`, for the expressions of `exprs`
/// from `from` on.
pub proof fn lemma_resolve_exprs_only_set_depths(
    scopes: Seq<ScopeView>,
    exprs: Seq<ExprView>,
    from: int,
    done: Seq<ExprView>,
)
    requires
        0 <= from <= exprs.len(),
    ensures
        spec_resolve_exprs(scopes, exprs, from, done).0.len() == scopes.len(),
        unresolved_exprs(spec_resolve_exprs(scopes, exprs, from, done).1) == unresolved_exprs(done)
            + unresolved_exprs(exprs.subrange(from, exprs.len() as int)),
    decreases exprs, exprs.len() - from,
{
    if from < exprs.len() {
        lemma_resolve_expr_only_sets_depths(scopes, exprs[from]);
        let (after, resolved) = spec_resolve_expr(scopes, exprs[from]);
        lemma_resolve_exprs_only_set_depths(after, exprs, from + 1, done.push(resolved));
        assert(unresolved_exprs(done.push(resolved)) + unresolved_exprs(
            exprs.subrange(from + 1, exprs.len() as int),
        ) =~= unresolved_exprs(done) + unresolved_exprs(
            exprs.subrange(from, exprs.len() as int),
        ));
    } else {
        assert(unresolved_exprs(done) + unresolved_exprs(
            exprs.subrange(from, exprs.len() as int),
        ) =~= unresolved_exprs(done));
    }
}

pub proof fn lemma_parameters_keep_scopes(scopes: Seq<ScopeView>, params: Seq<Seq<char>>, from: int)
    ensures
        spec_parameters(scopes, params, from).len() == scopes.len(),
    decreases params.len() - from,
{
    if 0 <= from < params.len() {
        lemma_parameters_keep_scopes(
            spec_initialize(spec_register(scopes, params[from]), params[from], 0),
            params,
            from + 1,
        );
    }
}

/// Resolving a statement leaves as many scopes as there were, and changes
/// nothing in the statement but the depths.
pub proof fn lemma_resolve_stmt_only_sets_depths(scopes: Seq<ScopeView>, statement: StatementView)
    ensures
        spec_resolve_stmt(scopes, statement).0.len() == scopes.len(),
        unresolved_stmt(spec_resolve_stmt(scopes, statement).1) == unresolved_stmt(statement),
    decreases statement, 0int,
{
    match statement {
        StatementView::Expr(e) => {
            lemma_resolve_expr_only_sets_depths(scopes, e);
        },
        StatementView::Print(e) => {
            lemma_resolve_expr_only_sets_depths(scopes, e);
        },
        StatementView::VariableDecl(name, init) => {
            if let Some(e) = init {
                lemma_resolve_expr_only_sets_depths(spec_register(scopes, name), e);
            }
        },
        StatementView::Block(items) => {
            let inside = scopes.push(Seq::empty());
            lemma_resolve_stmts_only_set_depths(inside, items, 0, Seq::empty());
            let resolved = spec_resolve_stmts(inside, items, 0, Seq::empty()).1;
            assert(items.subrange(0, items.len() as int) =~= items);
            assert(unresolved_stmts(Seq::<StatementView>::empty()) + unresolved_stmts(items)
                =~= unresolved_stmts(items));
            assert(unresolved_stmt(StatementView::Block(resolved))->Block_0 =~= unresolved_stmts(
                resolved,
            ));
            assert(unresolved_stmt(statement)->Block_0 =~= unresolved_stmts(items));
        },
        StatementView::If(cond, then_branch, else_branch) => {
            lemma_resolve_expr_only_sets_depths(scopes, cond);
            let s1 = spec_resolve_expr(scopes, cond).0;
            lemma_resolve_stmt_only_sets_depths(s1, *then_branch);
            if let Some(other) = else_branch {
                lemma_resolve_stmt_only_sets_depths(
                    spec_resolve_stmt(s1, *then_branch).0,
                    *other,
                );
            }
        },
        StatementView::While(cond, body) => {
            lemma_resolve_expr_only_sets_depths(scopes, cond);
            lemma_resolve_stmt_only_sets_depths(spec_resolve_expr(scopes, cond).0, *body);
        },
        StatementView::FunDecl(decl) => {
            let opened = spec_register(scopes, decl.name).push(Seq::empty());
            lemma_parameters_keep_scopes(opened, decl.params, 0);
            let inside = spec_parameters(opened, decl.params, 0);
            lemma_resolve_stmts_only_set_depths(inside, decl.body, 0, Seq::empty());
            let resolved = spec_resolve_stmts(inside, decl.body, 0, Seq::empty()).1;
            assert(decl.body.subrange(0, decl.body.len() as int) =~= decl.body);
            assert(unresolved_stmts(Seq::<StatementView>::empty()) + unresolved_stmts(decl.body)
                =~= unresolved_stmts(decl.body));
            let after = StatementView::FunDecl(
                FunctionDeclView { name: decl.name, params: decl.params, body: resolved },
            );
            assert(unresolved_stmt(after)->FunDecl_0.body =~= unresolved_stmts(resolved));
            assert(unresolved_stmt(statement)->FunDecl_0.body =~= unresolved_stmts(decl.body));
        },
        StatementView::Return(e) => {
            if let Some(value) = e {
                lemma_resolve_expr_only_sets_depths(scopes, value);
            }
        },
    }
}

/// As `lemma_resolve_stmt_only_sets_depths`, for the statements of `items`
/// from `from` on.
pub proof fn lemma_resolve_stmts_only_set_depths(
    scopes: Seq<ScopeView>,
    items: Seq<StatementView>,
    from: int,
    done: Seq<StatementView>,
)
    requires
        0 <= from <= items.len(),
    ensures
        spec_resolve_stmts(scopes, items, from, done).0.len() == scopes.len(),
        unresolved_stmts(spec_resolve_stmts(scopes, items, from, done).1) == unresolved_stmts(done)
            + unresolved_stmts(items.subrange(from, items.len() as int)),
    decreases items, items.len() - from,
{
    if from < items.len() {
        lemma_resolve_stmt_only_sets_depths(scopes, items[from]);
        let (after, resolved) = spec_resolve_stmt(scopes, items[from]);
        lemma_resolve_stmts_only_set_depths(after, items, from + 1, done.push(resolved));
        assert(unresolved_stmts(done.push(resolved)) + unresolved_stmts(
            items.subrange(from + 1, items.len() as int),
        ) =~= unresolved_stmts(done) + unresolved_stmts(
            items.subrange(from, items.len() as int),
        ));
    } else {
        assert(unresolved_stmts(done) + unresolved_stmts(
            items.subrange(from, items.len() as int),
        ) =~= unresolved_stmts(done));
    }
}

/// Resolving a program gives the same program but for the depths, and leaves
/// the resolver with the scopes it had.
pub proof fn lemma_resolve_only_sets_depths(scopes: Seq<ScopeView>, program: Seq<StatementView>)
    ensures
        spec_resolve(scopes, program).0.len() == scopes.len(),
        unresolved_stmts(spec_resolve(scopes, program).1) == unresolved_stmts(program),
{
    let global = spec_initialize(
        spec_register(scopes.push(Seq::empty()), "clock"@),
        "clock"@,
        0,
    );
    lemma_resolve_stmts_only_set_depths(global, program, 0, Seq::empty());
    assert(program.subrange(0, program.len() as int) =~= program);
    assert(unresolved_stmts(Seq::<StatementView>::empty()) + unresolved_stmts(program)
        =~= unresolved_stmts(program));
}

// ---------------------------------------------------------------------------
// The resolver
// ---------------------------------------------------------------------------

/// Where `scope` holds `name`, if it does.
fn find_slot(scope: &Scope, name: &String) -> (at: usize)
    ensures
        at == slot(scope_view(scope@), name@, 0),
        at <= scope.len(),
{
    let mut at: usize = 0;
    while at < scope.len() && !(scope[at].0 == *name)
        invariant
            0 <= at <= scope.len(),
            slot(scope_view(scope@), name@, 0) == slot(scope_view(scope@), name@, at as int),
        decreases scope.len() - at,
    {
        at += 1;
    }
    at
}

/// Declares `name` in `scope`, flagged `initialized`.
fn set_mark(scope: &mut Scope, name: &String, initialized: bool)
    ensures
        scope_view(final(scope)@) == mark(scope_view(old(scope)@), name@, initialized),
{
    let ghost before = scope_view(scope@);
    let at = find_slot(scope, name);
    if at < scope.len() {
        scope[at] = (name.clone(), initialized);
        proof {
            assert(scope_view(scope@) =~= before.update(at as int, (name@, initialized)));
        }
    } else {
        scope.push((name.clone(), initialized));
        proof {
            assert(scope_view(scope@) =~= before.push((name@, initialized)));
        }
    }
}

impl Resolver {
    pub fn new() -> (resolver: Resolver)
        ensures
            resolver@ == Seq::<ScopeView>::empty(),
    {
        let resolver = Resolver { scopes: Vec::new() };
        proof {
            assert(resolver@ =~= Seq::<ScopeView>::empty());
        }
        resolver
    }

    /// Resolves every name in `ast`, in place.
    pub fn resolve(&mut self, ast: &mut Program) -> (r: Result<()>)
        ensures
            r is Ok,
            (final(self)@, final(ast)@) == spec_resolve(old(self)@, old(ast)@),
    {
        self.new_scope();
        let clock = String::from_str("clock");
        self.register_identifier(&clock);
        self.initialize_identifier(&clock, 0);
        let resolved = self.resolve_stmts(&ast.statements);
        ast.statements = resolved;
        self.end_scope();
        Ok(())
    }

    fn new_scope(&mut self)
        ensures
            final(self)@ == old(self)@.push(Seq::empty()),
    {
        let ghost before = self@;
        let scope: Scope = Vec::new();
        proof {
            assert(scope_view(scope@) =~= Seq::empty());
        }
        self.scopes.push(scope);
        proof {
            assert(self@ =~= before.push(Seq::empty()));
        }
    }

    fn end_scope(&mut self)
        ensures
            final(self)@ == popped(old(self)@),
    {
        let ghost before = self@;
        self.scopes.pop();
        proof {
            assert(self@ =~= popped(before));
        }
    }

    /// Declares `name` in the innermost scope, not yet initialized.
    fn register_identifier(&mut self, name: &String)
        ensures
            final(self)@ == spec_register(old(self)@, name@),
    {
        let ghost before = self@;
        let len = self.scopes.len();
        if len > 0 {
            set_mark(&mut self.scopes[len - 1], name, false);
            proof {
                assert(self@ =~= spec_register(before, name@));
            }
        }
    }

    /// Flags `name` as initialized in the scope `depth` scopes out from the
    /// innermost.
    pub fn initialize_identifier(&mut self, name: &String, depth: usize)
        ensures
            final(self)@ == spec_initialize(old(self)@, name@, depth as int),
    {
        let ghost before = self@;
        let len = self.scopes.len();
        if depth < len {
            set_mark(&mut self.scopes[len - 1 - depth], name, true);
            proof {
                assert(self@ =~= spec_initialize(before, name@, depth as int));
            }
        }
    }

    /// How many scopes to skip to reach the nearest one that declares `name`.
    pub fn find_resolving_depth(&self, name: &String) -> (depth: Option<usize>)
        ensures
            depth == spec_depth(self@, name@, 0),
    {
        let len = self.scopes.len();
        let mut skipped: usize = 0;
        while skipped < len
            invariant
                len == self.scopes.len(),
                0 <= skipped <= len,
                spec_depth(self@, name@, 0) == spec_depth(self@, name@, skipped as int),
            decreases len - skipped,
        {
            let scope = &self.scopes[len - 1 - skipped];
            if find_slot(scope, name) < scope.len() {
                return Some(skipped);
            }
            skipped += 1;
        }
        None
    }

    fn resolve_expr(&mut self, expr: &Expr) -> (resolved: Expr)
        ensures
            (final(self)@, resolved@) == spec_resolve_expr(old(self)@, expr@),
        decreases expr, 0int,
    {
        match expr {
            Expr::Identifier(name, _) => Expr::Identifier(
                name.clone(),
                self.find_resolving_depth(name),
            ),
            Expr::Literal(literal) => Expr::Literal(
                match literal {
                    LiteralExpr::Number(n) => LiteralExpr::Number(*n),
                    LiteralExpr::String(s) => LiteralExpr::String(s.clone()),
                    LiteralExpr::Boolean(b) => LiteralExpr::Boolean(*b),
                    LiteralExpr::Nil => LiteralExpr::Nil,
                },
            ),
            Expr::Unary(unary) => Expr::Unary(
                UnaryExpr { op: unary.op, expr: Box::new(self.resolve_expr(&unary.expr)) },
            ),
            Expr::Binary(binary) => {
                let left = self.resolve_expr(&binary.left);
                let right = self.resolve_expr(&binary.right);
                Expr::Binary(
                    BinaryExpr { left: Box::new(left), op: binary.op, right: Box::new(right) },
                )
            },
            Expr::Grouping(inner) => Expr::Grouping(Box::new(self.resolve_expr(inner))),
            Expr::Assignment(name, _, value) => self.resolve_assignment(name, value),
            Expr::Call(call) => {
                proof {
                    lemma_call_view(*call.callee, call.args);
                }
                self.resolve_call(call)
            },
        }
    }

    fn resolve_assignment(&mut self, var_name: &String, value: &Expr) -> (resolved: Expr)
        ensures
            (final(self)@, resolved@) == spec_resolve_expr(
                old(self)@,
                ExprView::Assignment(var_name@, None, Box::new(value@)),
            ),
        decreases value, 1int,
    {
        let depth = self.find_resolving_depth(var_name);
        let resolved = self.resolve_expr(value);
        match depth {
            Some(d) => {
                self.initialize_identifier(var_name, d);
            },
            None => {},
        }
        Expr::Assignment(var_name.clone(), depth, Box::new(resolved))
    }

    fn resolve_call(&mut self, call_expr: &CallExpr) -> (resolved: Expr)
        ensures
            (final(self)@, resolved@) == spec_resolve_expr(
                old(self)@,
                ExprView::Call(Box::new(call_expr.callee@), exprs_view(call_expr.args@)),
            ),
        decreases call_expr, 0int,
    {
        let callee = self.resolve_expr(&call_expr.callee);
        let ghost middle = self@;
        let ghost all = exprs_view(call_expr.args@);
        let mut args: Vec<Expr> = Vec::new();
        proof {
            assert(exprs_view(args@) =~= Seq::<ExprView>::empty());
        }
        let mut i: usize = 0;
        while i < call_expr.args.len()
            invariant
                0 <= i <= call_expr.args.len(),
                all == exprs_view(call_expr.args@),
                spec_resolve_exprs(middle, all, 0, Seq::empty()) == spec_resolve_exprs(
                    self@,
                    all,
                    i as int,
                    exprs_view(args@),
                ),
            decreases call_expr.args.len() - i,
        {
            let ghost done = exprs_view(args@);
            let resolved = self.resolve_expr(&call_expr.args[i]);
            args.push(resolved);
            proof {
                assert(exprs_view(args@) =~= done.push(resolved@));
            }
            i += 1;
        }
        proof {
            lemma_call_view(callee, args);
        }
        Expr::Call(CallExpr { callee: Box::new(callee), args })
    }

    fn resolve_optional(&mut self, maybe_expr: &Option<Expr>) -> (resolved: Option<Expr>)
        ensures
            (final(self)@, option_view(resolved)) == spec_resolve_optional(
                old(self)@,
                option_view(*maybe_expr),
            ),
    {
        match maybe_expr {
            Some(expr) => Some(self.resolve_expr(expr)),
            None => None,
        }
    }

    fn resolve_var_decl(&mut self, name: &String, maybe_expr: &Option<Expr>) -> (resolved:
        Statement)
        ensures
            (final(self)@, resolved@) == spec_resolve_stmt(
                old(self)@,
                StatementView::VariableDecl(name@, option_view(*maybe_expr)),
            ),
    {
        self.register_identifier(name);
        match maybe_expr {
            Some(expr) => {
                let init = self.resolve_expr(expr);
                self.initialize_identifier(name, 0);
                Statement::VariableDecl(name.clone(), Some(init))
            },
            None => Statement::VariableDecl(name.clone(), None),
        }
    }

    /// Resolves `stmts` in order.
    fn resolve_stmts(&mut self, stmts: &Vec<Statement>) -> (resolved: Vec<Statement>)
        ensures
            (final(self)@, statements_view(resolved@)) == spec_resolve_stmts(
                old(self)@,
                statements_view(stmts@),
                0,
                Seq::empty(),
            ),
        decreases stmts, 0int,
    {
        let ghost start = self@;
        let ghost all = statements_view(stmts@);
        let mut items: Vec<Statement> = Vec::new();
        proof {
            assert(statements_view(items@) =~= Seq::<StatementView>::empty());
        }
        let mut i: usize = 0;
        while i < stmts.len()
            invariant
                0 <= i <= stmts.len(),
                all == statements_view(stmts@),
                spec_resolve_stmts(start, all, 0, Seq::empty()) == spec_resolve_stmts(
                    self@,
                    all,
                    i as int,
                    statements_view(items@),
                ),
            decreases stmts.len() - i,
        {
            let ghost done = statements_view(items@);
            let resolved = self.resolve_stmt(&stmts[i]);
            items.push(resolved);
            proof {
                assert(statements_view(items@) =~= done.push(resolved@));
            }
            i += 1;
        }
        items
    }

    fn resolve_block(&mut self, stmts: &Vec<Statement>) -> (resolved: Statement)
        ensures
            (final(self)@, resolved@) == spec_resolve_stmt(
                old(self)@,
                StatementView::Block(statements_view(stmts@)),
            ),
        decreases stmts, 1int,
    {
        self.new_scope();
        let items = self.resolve_stmts(stmts);
        self.end_scope();
        proof {
            lemma_block_view(items);
        }
        Statement::Block(items)
    }

    fn resolve_if(&mut self, if_stmt: &IfStatement) -> (resolved: Statement)
        ensures
            (final(self)@, resolved@) == spec_resolve_stmt(
                old(self)@,
                (Statement::If(*if_stmt))@,
            ),
        decreases if_stmt, 0int,
    {
        let cond = self.resolve_expr(&if_stmt.cond);
        let then_branch = Box::new(self.resolve_stmt(&if_stmt.then_branch));
        let else_branch = match &if_stmt.else_branch {
            Some(stmt) => Some(Box::new(self.resolve_stmt(stmt))),
            None => None,
        };
        Statement::If(IfStatement { cond, then_branch, else_branch })
    }

    fn resolve_while(&mut self, while_stmt: &WhileStatement) -> (resolved: Statement)
        ensures
            (final(self)@, resolved@) == spec_resolve_stmt(
                old(self)@,
                (Statement::While(*while_stmt))@,
            ),
        decreases while_stmt, 0int,
    {
        let cond = self.resolve_expr(&while_stmt.cond);
        let stmt = Box::new(self.resolve_stmt(&while_stmt.stmt));
        Statement::While(WhileStatement { cond, stmt })
    }

    fn resolve_fun_decl(&mut self, fun_decl: &FunctionDecl) -> (resolved: Statement)
        ensures
            (final(self)@, resolved@) == spec_resolve_stmt(
                old(self)@,
                StatementView::FunDecl(fun_decl@),
            ),
        decreases fun_decl, 0int,
    {
        self.register_identifier(&fun_decl.name);
        self.new_scope();
        let ghost opened = self@;
        let ghost names = names_view(fun_decl.params@);
        let mut params: Vec<String> = Vec::new();
        let mut i: usize = 0;
        while i < fun_decl.params.len()
            invariant
                0 <= i <= fun_decl.params.len(),
                names == names_view(fun_decl.params@),
                params.len() == i,
                forall|j: int| 0 <= j < i ==> (#[trigger] params[j])@ == names[j],
                spec_parameters(opened, names, 0) == spec_parameters(self@, names, i as int),
            decreases fun_decl.params.len() - i,
        {
            let param_name = &fun_decl.params[i];
            self.register_identifier(param_name);
            self.initialize_identifier(param_name, 0);
            params.push(param_name.clone());
            i += 1;
        }
        let body = self.resolve_stmts(&fun_decl.body);
        self.end_scope();
        proof {
            assert(names_view(params@) =~= names);
        }
        let decl = Rc::new(FunctionDecl { name: fun_decl.name.clone(), params, body });
        proof {
            lemma_fun_view(decl);
        }
        Statement::FunDecl(decl)
    }

    fn resolve_return(&mut self, maybe_expr: &Option<Expr>) -> (resolved: Statement)
        ensures
            (final(self)@, resolved@) == spec_resolve_stmt(
                old(self)@,
                StatementView::Return(option_view(*maybe_expr)),
            ),
    {
        Statement::Return(self.resolve_optional(maybe_expr))
    }

    fn resolve_stmt(&mut self, stmt: &Statement) -> (resolved: Statement)
        ensures
            (final(self)@, resolved@) == spec_resolve_stmt(old(self)@, stmt@),
        decreases stmt, 0int,
    {
        match stmt {
            Statement::Expr(expr) => Statement::Expr(self.resolve_expr(expr)),
            Statement::Print(expr) => Statement::Print(self.resolve_expr(expr)),
            Statement::VariableDecl(name, maybe_expr) => self.resolve_var_decl(name, maybe_expr),
            Statement::Block(stmts) => {
                proof {
                    lemma_block_view(*stmts);
                }
                self.resolve_block(stmts)
            },
            Statement::If(if_stmt) => self.resolve_if(if_stmt),
            Statement::While(while_stmt) => self.resolve_while(while_stmt),
            Statement::FunDecl(fun_decl) => {
                proof {
                    lemma_fun_view(*fun_decl);
                }
                self.resolve_fun_decl(fun_decl)
            },
            Statement::Return(maybe_expr) => self.resolve_return(maybe_expr),
        }
    }
}

} // verus!
