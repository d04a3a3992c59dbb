//! The syntax tree that the parser builds and the later stages walk.

use vstd::prelude::*;
use std::rc::Rc;
use crate::scanner::TokenType;

verus! {

#[derive(Debug, PartialEq)]
pub struct Program {
    pub statements: Vec<Statement>,
}

#[derive(Debug, PartialEq)]
pub enum Statement {
    Expr(Expr),
    Print(Expr),
    VariableDecl(String, Option<Expr>),
    Block(Vec<Statement>),
    If(IfStatement),
    While(WhileStatement),
    FunDecl(Rc<FunctionDecl>),
    Return(Option<Expr>),
}

#[derive(Debug, PartialEq)]
pub struct IfStatement {
    pub cond: Expr,
    pub then_branch: Box<Statement>,
    pub else_branch: Option<Box<Statement>>,
}

#[derive(Debug, PartialEq)]
pub struct WhileStatement {
    pub cond: Expr,
    pub stmt: Box<Statement>,
}

#[derive(Debug, PartialEq)]
pub struct FunctionDecl {
    pub name: String,
    pub params: Vec<String>,
    pub body: Vec<Statement>,
}

#[derive(Debug, PartialEq)]
pub enum Expr {
    /// A name, and how many scopes to skip to reach its binding once resolved.
    Identifier(String, Option<usize>),
    Literal(LiteralExpr),
    Unary(UnaryExpr),
    Binary(BinaryExpr),
    Grouping(Box<Expr>),
    Assignment(String, Option<usize>, Box<Expr>),
    Call(CallExpr),
}

#[derive(Debug, PartialEq)]
pub enum LiteralExpr {
    /// An IEEE 754 double, by its bits.
    Number(u64),
    String(String),
    Boolean(bool),
    Nil,
}

#[derive(Debug, PartialEq)]
pub struct UnaryExpr {
    pub op: TokenType,
    pub expr: Box<Expr>,
}

#[derive(Debug, PartialEq)]
pub struct BinaryExpr {
    pub left: Box<Expr>,
    pub op: TokenType,
    pub right: Box<Expr>,
}

#[derive(Debug, PartialEq)]
pub struct CallExpr {
    pub callee: Box<Expr>,
    pub args: Vec<Expr>,
}

// ---------------------------------------------------------------------------
// The tree as the contracts speak of it
// ---------------------------------------------------------------------------

pub enum LiteralView {
    Number(u64),
    String(Seq<char>),
    Boolean(bool),
    Nil,
}

pub enum ExprView {
    Identifier(Seq<char>, Option<usize>),
    Literal(LiteralView),
    Unary(TokenType, Box<ExprView>),
    Binary(Box<ExprView>, TokenType, Box<ExprView>),
    Grouping(Box<ExprView>),
    Assignment(Seq<char>, Option<usize>, Box<ExprView>),
    Call(Box<ExprView>, Seq<ExprView>),
}

pub enum StatementView {
    Expr(ExprView),
    Print(ExprView),
    VariableDecl(Seq<char>, Option<ExprView>),
    Block(Seq<StatementView>),
    If(ExprView, Box<StatementView>, Option<Box<StatementView>>),
    While(ExprView, Box<StatementView>),
    FunDecl(FunctionDeclView),
    Return(Option<ExprView>),
}

pub struct FunctionDeclView {
    pub name: Seq<char>,
    pub params: Seq<Seq<char>>,
    pub body: Seq<StatementView>,
}

impl View for LiteralExpr {
    type V = LiteralView;

    open spec fn view(&self) -> LiteralView {
        match self {
            LiteralExpr::Number(n) => LiteralView::Number(*n),
            LiteralExpr::String(s) => LiteralView::String(s@),
            LiteralExpr::Boolean(b) => LiteralView::Boolean(*b),
            LiteralExpr::Nil => LiteralView::Nil,
        }
    }
}

/// The view of an expression.
pub open spec fn expr_view(expr: Expr) -> ExprView
    decreases expr,
{
    match expr {
        Expr::Identifier(name, depth) => ExprView::Identifier(name@, depth),
        Expr::Literal(literal) => ExprView::Literal(literal@),
        Expr::Unary(unary) => ExprView::Unary(unary.op, Box::new(expr_view(*unary.expr))),
        Expr::Binary(binary) => ExprView::Binary(
            Box::new(expr_view(*binary.left)),
            binary.op,
            Box::new(expr_view(*binary.right)),
        ),
        Expr::Grouping(inner) => ExprView::Grouping(Box::new(expr_view(*inner))),
        Expr::Assignment(name, depth, value) => ExprView::Assignment(
            name@,
            depth,
            Box::new(expr_view(*value)),
        ),
        Expr::Call(call) => ExprView::Call(
            Box::new(expr_view(*call.callee)),
            Seq::new(
                call.args.len() as nat,
                |i: int|
                    if 0 <= i < call.args.len() {
                        expr_view(call.args[i])
                    } else {
                        ExprView::Literal(LiteralView::Nil)
                    },
            ),
        ),
    }
}

impl View for Expr {
    type V = ExprView;

    open spec fn view(&self) -> ExprView {
        expr_view(*self)
    }
}

/// The view of an expression that may be absent.
pub open spec fn option_view(expr: Option<Expr>) -> Option<ExprView> {
    match expr {
        Some(e) => Some(e@),
        None => None,
    }
}

/// The views of a run of names.
pub open spec fn names_view(names: Seq<String>) -> Seq<Seq<char>> {
    Seq::new(names.len(), |i: int| names[i]@)
}

/// The view of a statement.
pub open spec fn statement_view(statement: Statement) -> StatementView
    decreases statement,
{
    match statement {
        Statement::Expr(e) => StatementView::Expr(e@),
        Statement::Print(e) => StatementView::Print(e@),
        Statement::VariableDecl(name, init) => StatementView::VariableDecl(
            name@,
            option_view(init),
        ),
        Statement::Block(statements) => StatementView::Block(
            Seq::new(
                statements.len() as nat,
                |i: int|
                    if 0 <= i < statements.len() {
                        statement_view(statements[i])
                    } else {
                        StatementView::Block(Seq::empty())
                    },
            ),
        ),
        Statement::If(s) => StatementView::If(
            s.cond@,
            Box::new(statement_view(*s.then_branch)),
            match s.else_branch {
                Some(other) => Some(Box::new(statement_view(*other))),
                None => None,
            },
        ),
        Statement::While(s) => StatementView::While(s.cond@, Box::new(statement_view(*s.stmt))),
        Statement::FunDecl(decl) => StatementView::FunDecl(
            FunctionDeclView {
                name: decl.name@,
                params: names_view(decl.params@),
                body: Seq::new(
                    decl.body.len() as nat,
                    |i: int|
                        if 0 <= i < decl.body.len() {
                            statement_view(decl.body[i])
                        } else {
                            StatementView::Block(Seq::empty())
                        },
                ),
            },
        ),
        Statement::Return(e) => StatementView::Return(option_view(e)),
    }
}

impl View for Statement {
    type V = StatementView;

    open spec fn view(&self) -> StatementView {
        statement_view(*self)
    }
}

/// The views of a run of expressions.
pub open spec fn exprs_view(exprs: Seq<Expr>) -> Seq<ExprView> {
    Seq::new(exprs.len(), |i: int| exprs[i]@)
}

/// The views of a run of statements.
pub open spec fn statements_view(statements: Seq<Statement>) -> Seq<StatementView> {
    Seq::new(statements.len(), |i: int| statements[i]@)
}

impl View for FunctionDecl {
    type V = FunctionDeclView;

    open spec fn view(&self) -> FunctionDeclView {
        FunctionDeclView {
            name: self.name@,
            params: names_view(self.params@),
            body: statements_view(self.body@),
        }
    }
}

impl View for Program {
    type V = Seq<StatementView>;

    open spec fn view(&self) -> Seq<StatementView> {
        statements_view(self.statements@)
    }
}

/// The view of a call is the call of the views.
pub proof fn lemma_call_view(callee: Expr, args: Vec<Expr>)
    ensures
        (Expr::Call(CallExpr { callee: Box::new(callee), args }))@ == ExprView::Call(
            Box::new(callee@),
            exprs_view(args@),
        ),
{
    let call = Expr::Call(CallExpr { callee: Box::new(callee), args });
    assert(expr_view(call)->Call_1 =~= exprs_view(args@));
}

/// The view of a block is the block of the views.
pub proof fn lemma_block_view(statements: Vec<Statement>)
    ensures
        (Statement::Block(statements))@ == StatementView::Block(statements_view(statements@)),
{
    assert(statement_view(Statement::Block(statements))->Block_0 =~= statements_view(
        statements@,
    ));
}

/// The view of a function declaration is the declaration of the views.
pub proof fn lemma_fun_view(decl: Rc<FunctionDecl>)
    ensures
        (Statement::FunDecl(decl))@ == StatementView::FunDecl((*decl)@),
{
    assert(statement_view(Statement::FunDecl(decl))->FunDecl_0.body =~= statements_view(
        decl.body@,
    ));
}

// ---------------------------------------------------------------------------
// Copies
// ---------------------------------------------------------------------------

/// A copy of `expr`.
pub fn clone_expr(expr: &Expr) -> (copy: Expr)
    ensures
        copy@ == expr@,
    decreases expr,
{
    match expr {
        Expr::Identifier(name, depth) => Expr::Identifier(name.clone(), *depth),
        Expr::Literal(literal) => Expr::Literal(
            match literal {
                LiteralExpr::Number(n) => LiteralExpr::Number(*n),
                LiteralExpr::String(s) => LiteralExpr::String(s.clone()),
                LiteralExpr::Boolean(b) => LiteralExpr::Boolean(*b),
                LiteralExpr::Nil => LiteralExpr::Nil,
            },
        ),
        Expr::Unary(unary) => Expr::Unary(
            UnaryExpr { op: unary.op, expr: Box::new(clone_expr(&unary.expr)) },
        ),
        Expr::Binary(binary) => Expr::Binary(
            BinaryExpr {
                left: Box::new(clone_expr(&binary.left)),
                op: binary.op,
                right: Box::new(clone_expr(&binary.right)),
            },
        ),
        Expr::Grouping(inner) => Expr::Grouping(Box::new(clone_expr(inner))),
        Expr::Assignment(name, depth, value) => Expr::Assignment(
            name.clone(),
            *depth,
            Box::new(clone_expr(value)),
        ),
        Expr::Call(call) => {
            let mut args: Vec<Expr> = Vec::new();
            let mut i: usize = 0;
            while i < call.args.len()
                invariant
                    0 <= i <= call.args.len(),
                    args.len() == i,
                    forall|j: int| 0 <= j < i ==> args[j]@ == call.args[j]@,
                    expr matches Expr::Call(c) && c == call,
                decreases call.args.len() - i,
            {
                args.push(clone_expr(&call.args[i]));
                i += 1;
            }
            let copy = Expr::Call(CallExpr { callee: Box::new(clone_expr(&call.callee)), args });
            proof {
                assert(expr_view(copy)->Call_1 =~= expr_view(*expr)->Call_1);
            }
            copy
        },
    }
}

/// A copy of `expr`, where there is one.
pub fn clone_optional_expr(expr: &Option<Expr>) -> (copy: Option<Expr>)
    ensures
        option_view(copy) == option_view(*expr),
{
    match expr {
        Some(e) => Some(clone_expr(e)),
        None => None,
    }
}

/// A copy of `statement`. A function declaration is shared, not copied.
pub fn clone_statement(statement: &Statement) -> (copy: Statement)
    ensures
        copy@ == statement@,
    decreases statement,
{
    match statement {
        Statement::Expr(e) => Statement::Expr(clone_expr(e)),
        Statement::Print(e) => Statement::Print(clone_expr(e)),
        Statement::VariableDecl(name, init) => Statement::VariableDecl(
            name.clone(),
            clone_optional_expr(init),
        ),
        Statement::Block(statements) => {
            let mut items: Vec<Statement> = Vec::new();
            let mut i: usize = 0;
            while i < statements.len()
                invariant
                    0 <= i <= statements.len(),
                    items.len() == i,
                    forall|j: int| 0 <= j < i ==> items[j]@ == statements[j]@,
                    statement matches Statement::Block(ss) && ss == statements,
                decreases statements.len() - i,
            {
                items.push(clone_statement(&statements[i]));
                i += 1;
            }
            let copy = Statement::Block(items);
            proof {
                assert(statement_view(copy)->Block_0 =~= statement_view(*statement)->Block_0);
            }
            copy
        },
        Statement::If(s) => Statement::If(
            IfStatement {
                cond: clone_expr(&s.cond),
                then_branch: Box::new(clone_statement(&s.then_branch)),
                else_branch: match &s.else_branch {
                    Some(other) => Some(Box::new(clone_statement(other))),
                    None => None,
                },
            },
        ),
        Statement::While(s) => Statement::While(
            WhileStatement { cond: clone_expr(&s.cond), stmt: Box::new(clone_statement(&s.stmt)) },
        ),
        Statement::FunDecl(decl) => Statement::FunDecl(Rc::clone(decl)),
        Statement::Return(e) => Statement::Return(clone_optional_expr(e)),
    }
}

/// Copies of `statements`, in order.
pub fn clone_statements(statements: &Vec<Statement>) -> (copy: Vec<Statement>)
    ensures
        statements_view(copy@) == statements_view(statements@),
{
    let mut items: Vec<Statement> = Vec::new();
    let mut i: usize = 0;
    while i < statements.len()
        invariant
            0 <= i <= statements.len(),
            items.len() == i,
            forall|j: int| 0 <= j < i ==> items[j]@ == statements[j]@,
        decreases statements.len() - i,
    {
        items.push(clone_statement(&statements[i]));
        i += 1;
    }
    proof {
        assert(statements_view(items@) =~= statements_view(statements@));
    }
    items
}

impl Clone for Expr {
    fn clone(&self) -> (copy: Self)
        ensures
            copy@ == self@,
    {
        clone_expr(self)
    }
}

impl Clone for Statement {
    fn clone(&self) -> (copy: Self)
        ensures
            copy@ == self@,
    {
        clone_statement(self)
    }
}

} // verus!
