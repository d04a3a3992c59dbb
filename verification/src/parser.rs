//! Builds the syntax tree from the tokens, by recursive descent.
//!
//! The grammar is stated twice: as `spec_*` functions, which say what the
//! tokens mean, and as the parser's methods, which are proved to compute it.
//! A number literal takes its value from `numbers`, which holds for each token
//! the value that the host read from its text.
//!
//! Where a rule goes on from what a part of it has parsed, it asks that the
//! position has moved on: that is what lets the rules recurse. It always has,
//! as the lemmas at the end of this file show.

use vstd::prelude::*;
use vstd::string::StringExecFns;
use vstd::string::StrSliceExecFns;
use std::rc::Rc;
use crate::ast::{
    exprs_view, lemma_block_view, lemma_call_view, lemma_fun_view, names_view, option_view,
    statements_view, BinaryExpr, CallExpr, Expr, ExprView, FunctionDecl, FunctionDeclView,
    IfStatement, LiteralExpr, LiteralView, Statement, StatementView, UnaryExpr, WhileStatement,
};
use crate::error::{CompilationError, CompilationErrorView, ErrorOrEarlyReturn};
use crate::scanner::{Token, TokenType};
use crate::Result;

verus! {

/// The most arguments a call, and parameters a function, may have.
pub const MAX_ARITY: usize = 256;

// ---------------------------------------------------------------------------
// The grammar
// ---------------------------------------------------------------------------

/// What parsing from some position gives: a tree and the position after it,
/// or an error.
pub enum Parsed<T> {
    Done(T, int),
    Failed(CompilationErrorView),
}

/// The kind of the token at `pos`, if there is one.
pub open spec fn kind_at(t: Seq<Token>, pos: int) -> Option<TokenType> {
    if 0 <= pos < t.len() {
        Some(t[pos].type_)
    } else {
        None
    }
}

/// Whether the token at `pos` is of kind `kind`.
pub open spec fn is_at(t: Seq<Token>, pos: int, kind: TokenType) -> bool {
    kind_at(t, pos) == Some(kind)
}

/// Whether nothing is left to parse at `pos`.
pub open spec fn at_end(t: Seq<Token>, pos: int) -> bool {
    kind_at(t, pos) is None || kind_at(t, pos) == Some(TokenType::Eof)
}

/// The name of a token kind, as messages show it.
pub open spec fn kind_name(kind: TokenType) -> Seq<char> {
    match kind {
        TokenType::LeftParen => "LeftParen"@,
        TokenType::RightParen => "RightParen"@,
        TokenType::LeftBrace => "LeftBrace"@,
        TokenType::RightBrace => "RightBrace"@,
        TokenType::Comma => "Comma"@,
        TokenType::Dot => "Dot"@,
        TokenType::Plus => "Plus"@,
        TokenType::Minus => "Minus"@,
        TokenType::Semicolon => "Semicolon"@,
        TokenType::Slash => "Slash"@,
        TokenType::Star => "Star"@,
        TokenType::Bang => "Bang"@,
        TokenType::BangEqual => "BangEqual"@,
        TokenType::Equal => "Equal"@,
        TokenType::EqualEqual => "EqualEqual"@,
        TokenType::Greater => "Greater"@,
        TokenType::GreaterEqual => "GreaterEqual"@,
        TokenType::Less => "Less"@,
        TokenType::LessEqual => "LessEqual"@,
        TokenType::Identifier => "Identifier"@,
        TokenType::String => "String"@,
        TokenType::NumberLiteral => "NumberLiteral"@,
        TokenType::And => "And"@,
        TokenType::Class => "Class"@,
        TokenType::Else => "Else"@,
        TokenType::False => "False"@,
        TokenType::Fun => "Fun"@,
        TokenType::For => "For"@,
        TokenType::If => "If"@,
        TokenType::Nil => "Nil"@,
        TokenType::Or => "Or"@,
        TokenType::Print => "Print"@,
        TokenType::Return => "Return"@,
        TokenType::Super => "Super"@,
        TokenType::This => "This"@,
        TokenType::True => "True"@,
        TokenType::Var => "Var"@,
        TokenType::While => "While"@,
        TokenType::Comment => "Comment"@,
        TokenType::Whitespace => "Whitespace"@,
        TokenType::Eof => "Eof"@,
    }
}

/// The error for a token of kind `kind` that is not at `pos`: it names the
/// kind, and the text found there or the end of input.
pub open spec fn expected(t: Seq<Token>, pos: int, kind: TokenType) -> CompilationErrorView {
    CompilationErrorView::ExpectedToken(
        kind_name(kind),
        if at_end(t, pos) {
            "Eof"@
        } else {
            t[pos].lexeme@
        },
    )
}

pub open spec fn generic(message: Seq<char>) -> CompilationErrorView {
    CompilationErrorView::GenericError(message)
}

/// Whether `kind` is a binary operator of precedence `level`: 0 is `or`, the
/// loosest, and 5 is `*` and `/`, the tightest.
pub open spec fn is_operator(level: int, kind: TokenType) -> bool {
    if level == 0 {
        kind == TokenType::Or
    } else if level == 1 {
        kind == TokenType::And
    } else if level == 2 {
        kind == TokenType::EqualEqual || kind == TokenType::BangEqual
    } else if level == 3 {
        kind == TokenType::Greater || kind == TokenType::GreaterEqual || kind == TokenType::Less
            || kind == TokenType::LessEqual
    } else if level == 4 {
        kind == TokenType::Plus || kind == TokenType::Minus
    } else if level == 5 {
        kind == TokenType::Star || kind == TokenType::Slash
    } else {
        false
    }
}

/// The text between the quotes of a string literal's lexeme, if it has them.
pub open spec fn string_text(lexeme: Seq<char>) -> Option<Seq<char>> {
    if lexeme.len() >= 2 && lexeme[0] == '"' && lexeme[lexeme.len() - 1] == '"' {
        Some(lexeme.subrange(1, lexeme.len() - 1))
    } else {
        None
    }
}

/// The value of the number literal at `pos`, if the host could read one.
pub open spec fn number_at(n: Seq<Option<u64>>, pos: int) -> Option<u64> {
    if 0 <= pos < n.len() {
        n[pos]
    } else {
        None
    }
}

/// primary := `false` | `true` | `nil` | string | number | identifier
///          | `(` expression `)`
pub open spec fn spec_primary(t: Seq<Token>, n: Seq<Option<u64>>, pos: int) -> Parsed<ExprView>
    decreases t.len() - pos, 1int,
{
    match kind_at(t, pos) {
        Some(TokenType::False) => Parsed::Done(
            ExprView::Literal(LiteralView::Boolean(false)),
            pos + 1,
        ),
        Some(TokenType::True) => Parsed::Done(
            ExprView::Literal(LiteralView::Boolean(true)),
            pos + 1,
        ),
        Some(TokenType::Nil) => Parsed::Done(ExprView::Literal(LiteralView::Nil), pos + 1),
        Some(TokenType::String) => match string_text(t[pos].lexeme@) {
            Some(text) => Parsed::Done(ExprView::Literal(LiteralView::String(text)), pos + 1),
            None => Parsed::Failed(
                CompilationErrorView::InvalidLiteral("string"@, t[pos].lexeme@),
            ),
        },
        Some(TokenType::NumberLiteral) => match number_at(n, pos) {
            Some(value) => Parsed::Done(ExprView::Literal(LiteralView::Number(value)), pos + 1),
            None => Parsed::Failed(
                CompilationErrorView::InvalidLiteral("number"@, t[pos].lexeme@),
            ),
        },
        Some(TokenType::Identifier) => Parsed::Done(
            ExprView::Identifier(t[pos].lexeme@, None),
            pos + 1,
        ),
        Some(TokenType::LeftParen) => match spec_expression(t, n, pos + 1) {
            Parsed::Done(inner, after) => if is_at(t, after, TokenType::RightParen) {
                Parsed::Done(ExprView::Grouping(Box::new(inner)), after + 1)
            } else {
                Parsed::Failed(expected(t, after, TokenType::RightParen))
            },
            Parsed::Failed(e) => Parsed::Failed(e),
        },
        _ => Parsed::Failed(generic("Expected expression."@)),
    }
}

/// The arguments of a call from `pos`, after those in `seen`, through the
/// closing parenthesis: expressions with a comma between each two.
pub open spec fn spec_arguments(
    t: Seq<Token>,
    n: Seq<Option<u64>>,
    pos: int,
    seen: Seq<ExprView>,
) -> Parsed<Seq<ExprView>>
    decreases t.len() - pos, 40int,
{
    if seen.len() >= MAX_ARITY {
        Parsed::Failed(generic("Too many arguments."@))
    } else {
        match spec_expression(t, n, pos) {
            Parsed::Failed(e) => Parsed::Failed(e),
            Parsed::Done(argument, after) => if is_at(t, after, TokenType::Comma) && pos <= after {
                spec_arguments(t, n, after + 1, seen.push(argument))
            } else if is_at(t, after, TokenType::RightParen) {
                Parsed::Done(seen.push(argument), after + 1)
            } else {
                Parsed::Failed(expected(t, after, TokenType::RightParen))
            },
        }
    }
}

/// The calls that follow `callee` from `pos`: each `(` arguments `)` makes
/// what is before it the callee of a call.
pub open spec fn spec_call_rest(
    t: Seq<Token>,
    n: Seq<Option<u64>>,
    pos: int,
    callee: ExprView,
) -> Parsed<ExprView>
    decreases t.len() - pos, 40int,
{
    if is_at(t, pos, TokenType::LeftParen) {
        let arguments = if is_at(t, pos + 1, TokenType::RightParen) {
            Parsed::Done(Seq::<ExprView>::empty(), pos + 2)
        } else {
            spec_arguments(t, n, pos + 1, Seq::empty())
        };
        match arguments {
            Parsed::Failed(e) => Parsed::Failed(e),
            Parsed::Done(args, after) => if pos < after <= t.len() {
                spec_call_rest(t, n, after, ExprView::Call(Box::new(callee), args))
            } else {
                Parsed::Failed(generic("Expected expression."@))
            },
        }
    } else {
        Parsed::Done(callee, pos)
    }
}

/// call := primary ( `(` arguments? `)` )*
pub open spec fn spec_call(t: Seq<Token>, n: Seq<Option<u64>>, pos: int) -> Parsed<ExprView>
    decreases t.len() - pos, 2int,
{
    match spec_primary(t, n, pos) {
        Parsed::Failed(e) => Parsed::Failed(e),
        Parsed::Done(callee, after) => if pos < after <= t.len() {
            spec_call_rest(t, n, after, callee)
        } else {
            Parsed::Failed(generic("Expected expression."@))
        },
    }
}

/// unary := ( `!` | `-` ) unary | call
pub open spec fn spec_unary(t: Seq<Token>, n: Seq<Option<u64>>, pos: int) -> Parsed<ExprView>
    decreases t.len() - pos, 3int,
{
    if is_at(t, pos, TokenType::Bang) || is_at(t, pos, TokenType::Minus) {
        match spec_unary(t, n, pos + 1) {
            Parsed::Failed(e) => Parsed::Failed(e),
            Parsed::Done(operand, after) => Parsed::Done(
                ExprView::Unary(t[pos].type_, Box::new(operand)),
                after,
            ),
        }
    } else {
        spec_call(t, n, pos)
    }
}

/// The operand of a binary operator of precedence `level`: an expression of
/// the next tighter level.
pub open spec fn spec_operand(
    t: Seq<Token>,
    n: Seq<Option<u64>>,
    pos: int,
    level: int,
) -> Parsed<ExprView>
    decreases t.len() - pos, 19 - 2 * level,
{
    if 0 <= level < 5 {
        spec_binary(t, n, pos, level + 1)
    } else if level == 5 {
        spec_unary(t, n, pos)
    } else {
        Parsed::Failed(generic("Expected expression."@))
    }
}

/// What follows `left` from `pos` at precedence `level`: each operator of the
/// level and its operand make what is before them the left side of a binary
/// expression, so the operators group to the left.
pub open spec fn spec_binary_rest(
    t: Seq<Token>,
    n: Seq<Option<u64>>,
    pos: int,
    level: int,
    left: ExprView,
) -> Parsed<ExprView>
    decreases t.len() - pos, 40int,
{
    if 0 <= pos < t.len() && is_operator(level, t[pos].type_) {
        match spec_operand(t, n, pos + 1, level) {
            Parsed::Failed(e) => Parsed::Failed(e),
            Parsed::Done(right, after) => if pos < after <= t.len() {
                spec_binary_rest(
                    t,
                    n,
                    after,
                    level,
                    ExprView::Binary(Box::new(left), t[pos].type_, Box::new(right)),
                )
            } else {
                Parsed::Failed(generic("Expected expression."@))
            },
        }
    } else {
        Parsed::Done(left, pos)
    }
}

/// binary(level) := operand(level) ( operator(level) operand(level) )*
pub open spec fn spec_binary(
    t: Seq<Token>,
    n: Seq<Option<u64>>,
    pos: int,
    level: int,
) -> Parsed<ExprView>
    decreases t.len() - pos, 20 - 2 * level,
{
    if 0 <= level <= 5 {
        match spec_operand(t, n, pos, level) {
            Parsed::Failed(e) => Parsed::Failed(e),
            Parsed::Done(left, after) => if pos < after <= t.len() {
                spec_binary_rest(t, n, after, level, left)
            } else {
                Parsed::Failed(generic("Expected expression."@))
            },
        }
    } else {
        Parsed::Failed(generic("Expected expression."@))
    }
}

/// assignment := identifier `=` assignment | binary(0)
///
/// Only a bare name can stand left of `=`.
pub open spec fn spec_expression(t: Seq<Token>, n: Seq<Option<u64>>, pos: int) -> Parsed<ExprView>
    decreases t.len() - pos, 30int,
{
    match spec_binary(t, n, pos, 0) {
        Parsed::Failed(e) => Parsed::Failed(e),
        Parsed::Done(target, after) => if is_at(t, after, TokenType::Equal) {
            match target {
                ExprView::Identifier(name, _) => if after >= pos {
                    match spec_expression(t, n, after + 1) {
                        Parsed::Failed(e) => Parsed::Failed(e),
                        Parsed::Done(value, end) => Parsed::Done(
                            ExprView::Assignment(name, None, Box::new(value)),
                            end,
                        ),
                    }
                } else {
                    Parsed::Failed(generic("Expected expression."@))
                },
                _ => Parsed::Failed(generic("Invalid assignment target."@)),
            }
        } else {
            Parsed::Done(target, after)
        },
    }
}

/// The statement that a `for` loop stands for: a block that holds the
/// initializer, where there is one, and a `while` whose condition is `true`
/// where the loop has none, and whose body is a block of the loop's body and
/// then, where there is one, the increment.
pub open spec fn spec_desugar_for(
    init: Option<StatementView>,
    cond: Option<ExprView>,
    incr: Option<ExprView>,
    body: StatementView,
) -> StatementView {
    let inner = match incr {
        Some(step) => seq![body, StatementView::Expr(step)],
        None => seq![body],
    };
    let condition = match cond {
        Some(c) => c,
        None => ExprView::Literal(LiteralView::Boolean(true)),
    };
    let repeat = StatementView::While(condition, Box::new(StatementView::Block(inner)));
    match init {
        Some(first) => StatementView::Block(seq![first, repeat]),
        None => StatementView::Block(seq![repeat]),
    }
}

/// varDecl := identifier ( `=` expression )? `;`        (after `var`)
pub open spec fn spec_var_declaration(
    t: Seq<Token>,
    n: Seq<Option<u64>>,
    pos: int,
) -> Parsed<StatementView>
    decreases t.len() - pos, 45int,
{
    if !is_at(t, pos, TokenType::Identifier) {
        Parsed::Failed(CompilationErrorView::ExpectedNameAfterVar)
    } else {
        let name = t[pos].lexeme@;
        if is_at(t, pos + 1, TokenType::Equal) {
            match spec_expression(t, n, pos + 2) {
                Parsed::Failed(e) => Parsed::Failed(e),
                Parsed::Done(init, after) => if is_at(t, after, TokenType::Semicolon) {
                    Parsed::Done(StatementView::VariableDecl(name, Some(init)), after + 1)
                } else {
                    Parsed::Failed(CompilationErrorView::ExpectedSemicolonAfterVarDecl)
                },
            }
        } else if is_at(t, pos + 1, TokenType::Semicolon) {
            Parsed::Done(StatementView::VariableDecl(name, None), pos + 2)
        } else {
            Parsed::Failed(CompilationErrorView::ExpectedSemicolonAfterVarDecl)
        }
    }
}

/// exprStmt := expression `;`
pub open spec fn spec_expr_stmt(t: Seq<Token>, n: Seq<Option<u64>>, pos: int) -> Parsed<
    StatementView,
>
    decreases t.len() - pos, 45int,
{
    match spec_expression(t, n, pos) {
        Parsed::Failed(e) => Parsed::Failed(e),
        Parsed::Done(e, after) => if is_at(t, after, TokenType::Semicolon) {
            Parsed::Done(StatementView::Expr(e), after + 1)
        } else {
            Parsed::Failed(generic("Expected ';' after expression."@))
        },
    }
}

/// printStmt := expression `;`        (after `print`)
pub open spec fn spec_print_stmt(t: Seq<Token>, n: Seq<Option<u64>>, pos: int) -> Parsed<
    StatementView,
>
    decreases t.len() - pos, 45int,
{
    match spec_expression(t, n, pos) {
        Parsed::Failed(e) => Parsed::Failed(e),
        Parsed::Done(e, after) => if is_at(t, after, TokenType::Semicolon) {
            Parsed::Done(StatementView::Print(e), after + 1)
        } else {
            Parsed::Failed(generic("Expected ';' after value."@))
        },
    }
}

/// returnStmt := expression? `;`        (after `return`)
///
/// It is an error outside every function body.
pub open spec fn spec_return_stmt(
    t: Seq<Token>,
    n: Seq<Option<u64>>,
    pos: int,
    depth: int,
) -> Parsed<StatementView>
    decreases t.len() - pos, 45int,
{
    if depth <= 0 {
        Parsed::Failed(CompilationErrorView::ReturnOutsideFunction)
    } else if is_at(t, pos, TokenType::Semicolon) {
        Parsed::Done(StatementView::Return(None), pos + 1)
    } else {
        match spec_expression(t, n, pos) {
            Parsed::Failed(e) => Parsed::Failed(e),
            Parsed::Done(e, after) => if is_at(t, after, TokenType::Semicolon) {
                Parsed::Done(StatementView::Return(Some(e)), after + 1)
            } else {
                Parsed::Failed(generic("Expected ';' after return value."@))
            },
        }
    }
}

/// A condition in parentheses: `(` expression `)`.
pub open spec fn spec_condition(t: Seq<Token>, n: Seq<Option<u64>>, pos: int) -> Parsed<ExprView>
    decreases t.len() - pos, 45int,
{
    if !is_at(t, pos, TokenType::LeftParen) {
        Parsed::Failed(expected(t, pos, TokenType::LeftParen))
    } else {
        match spec_expression(t, n, pos + 1) {
            Parsed::Failed(e) => Parsed::Failed(e),
            Parsed::Done(cond, after) => if is_at(t, after, TokenType::RightParen) {
                Parsed::Done(cond, after + 1)
            } else {
                Parsed::Failed(expected(t, after, TokenType::RightParen))
            },
        }
    }
}

/// ifStmt := `(` expression `)` statement ( `else` statement )?   (after `if`)
///
/// An `else` belongs to the nearest `if` before it.
pub open spec fn spec_if_stmt(
    t: Seq<Token>,
    n: Seq<Option<u64>>,
    pos: int,
    depth: int,
) -> Parsed<StatementView>
    decreases t.len() - pos, 46int,
{
    match spec_condition(t, n, pos) {
        Parsed::Failed(e) => Parsed::Failed(e),
        Parsed::Done(cond, after) => if pos < after <= t.len() {
            match spec_statement(t, n, after, depth) {
                Parsed::Failed(e) => Parsed::Failed(e),
                Parsed::Done(then_branch, end) => if is_at(t, end, TokenType::Else) && pos < end {
                    match spec_statement(t, n, end + 1, depth) {
                        Parsed::Failed(e) => Parsed::Failed(e),
                        Parsed::Done(else_branch, last) => Parsed::Done(
                            StatementView::If(
                                cond,
                                Box::new(then_branch),
                                Some(Box::new(else_branch)),
                            ),
                            last,
                        ),
                    }
                } else {
                    Parsed::Done(StatementView::If(cond, Box::new(then_branch), None), end)
                },
            }
        } else {
            Parsed::Failed(generic("Expected expression."@))
        },
    }
}

/// whileStmt := `(` expression `)` statement        (after `while`)
pub open spec fn spec_while_stmt(
    t: Seq<Token>,
    n: Seq<Option<u64>>,
    pos: int,
    depth: int,
) -> Parsed<StatementView>
    decreases t.len() - pos, 46int,
{
    match spec_condition(t, n, pos) {
        Parsed::Failed(e) => Parsed::Failed(e),
        Parsed::Done(cond, after) => if pos < after <= t.len() {
            match spec_statement(t, n, after, depth) {
                Parsed::Failed(e) => Parsed::Failed(e),
                Parsed::Done(body, end) => Parsed::Done(
                    StatementView::While(cond, Box::new(body)),
                    end,
                ),
            }
        } else {
            Parsed::Failed(generic("Expected expression."@))
        },
    }
}

/// The first clause of a `for`: `;`, a `var` declaration, or an expression
/// statement.
pub open spec fn spec_for_init(t: Seq<Token>, n: Seq<Option<u64>>, pos: int) -> Parsed<
    Option<StatementView>,
>
    decreases t.len() - pos, 46int,
{
    if is_at(t, pos, TokenType::Semicolon) {
        Parsed::Done(None, pos + 1)
    } else {
        let first = if is_at(t, pos, TokenType::Var) {
            spec_var_declaration(t, n, pos + 1)
        } else {
            spec_expr_stmt(t, n, pos)
        };
        match first {
            Parsed::Failed(e) => Parsed::Failed(e),
            Parsed::Done(init, after) => Parsed::Done(Some(init), after),
        }
    }
}

/// A clause of a `for` that may be empty, through the token of kind `end`
/// that closes it.
pub open spec fn spec_for_clause(
    t: Seq<Token>,
    n: Seq<Option<u64>>,
    pos: int,
    end: TokenType,
) -> Parsed<Option<ExprView>>
    decreases t.len() - pos, 46int,
{
    if is_at(t, pos, end) {
        Parsed::Done(None, pos + 1)
    } else {
        match spec_expression(t, n, pos) {
            Parsed::Failed(e) => Parsed::Failed(e),
            Parsed::Done(clause, after) => if is_at(t, after, end) {
                Parsed::Done(Some(clause), after + 1)
            } else {
                Parsed::Failed(expected(t, after, end))
            },
        }
    }
}

/// forStmt := `(` ( varDecl | exprStmt | `;` ) expression? `;` expression? `)`
///            statement        (after `for`)
pub open spec fn spec_for_stmt(
    t: Seq<Token>,
    n: Seq<Option<u64>>,
    pos: int,
    depth: int,
) -> Parsed<StatementView>
    decreases t.len() - pos, 47int,
{
    if !is_at(t, pos, TokenType::LeftParen) {
        Parsed::Failed(expected(t, pos, TokenType::LeftParen))
    } else {
        match spec_for_init(t, n, pos + 1) {
            Parsed::Failed(e) => Parsed::Failed(e),
            Parsed::Done(init, after_init) => match spec_for_clause(t, n, after_init, TokenType::Semicolon) {
                Parsed::Failed(e) => Parsed::Failed(e),
                Parsed::Done(cond, after_cond) => match spec_for_clause(t, n, after_cond, TokenType::RightParen) {
                    Parsed::Failed(e) => Parsed::Failed(e),
                    Parsed::Done(incr, after_incr) => if pos < after_incr <= t.len() {
                        match spec_statement(t, n, after_incr, depth) {
                            Parsed::Failed(e) => Parsed::Failed(e),
                            Parsed::Done(body, end) => Parsed::Done(
                                spec_desugar_for(init, cond, incr, body),
                                end,
                            ),
                        }
                    } else {
                        Parsed::Failed(generic("Expected expression."@))
                    },
                },
            },
        }
    }
}

/// The declarations of a block from `pos`, after those in `seen`, through the
/// closing brace.
pub open spec fn spec_block_items(
    t: Seq<Token>,
    n: Seq<Option<u64>>,
    pos: int,
    depth: int,
    seen: Seq<StatementView>,
) -> Parsed<Seq<StatementView>>
    decreases t.len() - pos, 70int,
{
    if is_at(t, pos, TokenType::RightBrace) {
        Parsed::Done(seen, pos + 1)
    } else if at_end(t, pos) {
        Parsed::Failed(generic("Expected '}' at end of block."@))
    } else {
        match spec_declaration(t, n, pos, depth) {
            Parsed::Failed(e) => Parsed::Failed(e),
            Parsed::Done(item, after) => if pos < after <= t.len() {
                spec_block_items(t, n, after, depth, seen.push(item))
            } else {
                Parsed::Failed(generic("Expected expression."@))
            },
        }
    }
}

/// statement := `if` ifStmt | `while` whileStmt | `for` forStmt
///            | `print` printStmt | `return` returnStmt | `{` block | exprStmt
pub open spec fn spec_statement(
    t: Seq<Token>,
    n: Seq<Option<u64>>,
    pos: int,
    depth: int,
) -> Parsed<StatementView>
    decreases t.len() - pos, 50int,
{
    match kind_at(t, pos) {
        Some(TokenType::If) => spec_if_stmt(t, n, pos + 1, depth),
        Some(TokenType::While) => spec_while_stmt(t, n, pos + 1, depth),
        Some(TokenType::For) => spec_for_stmt(t, n, pos + 1, depth),
        Some(TokenType::Print) => spec_print_stmt(t, n, pos + 1),
        Some(TokenType::Return) => spec_return_stmt(t, n, pos + 1, depth),
        Some(TokenType::LeftBrace) => match spec_block_items(t, n, pos + 1, depth, Seq::empty()) {
            Parsed::Failed(e) => Parsed::Failed(e),
            Parsed::Done(items, after) => Parsed::Done(StatementView::Block(items), after),
        },
        _ => spec_expr_stmt(t, n, pos),
    }
}

/// The parameters of a function from `pos`, after those in `seen`, through
/// the closing parenthesis: names with a comma between each two.
pub open spec fn spec_parameters(t: Seq<Token>, pos: int, seen: Seq<Seq<char>>) -> Parsed<
    Seq<Seq<char>>,
>
    decreases t.len() - pos,
{
    if seen.len() >= MAX_ARITY {
        Parsed::Failed(generic("Too many parameters."@))
    } else if !is_at(t, pos, TokenType::Identifier) {
        Parsed::Failed(expected(t, pos, TokenType::Identifier))
    } else if is_at(t, pos + 1, TokenType::Comma) {
        spec_parameters(t, pos + 2, seen.push(t[pos].lexeme@))
    } else if is_at(t, pos + 1, TokenType::RightParen) {
        Parsed::Done(seen.push(t[pos].lexeme@), pos + 2)
    } else {
        Parsed::Failed(expected(t, pos + 1, TokenType::RightParen))
    }
}

/// funDecl := identifier `(` parameters? `)` `{` block        (after `fun`)
pub open spec fn spec_fun_declaration(
    t: Seq<Token>,
    n: Seq<Option<u64>>,
    pos: int,
    depth: int,
) -> Parsed<StatementView>
    decreases t.len() - pos, 55int,
{
    if !is_at(t, pos, TokenType::Identifier) {
        Parsed::Failed(expected(t, pos, TokenType::Identifier))
    } else if !is_at(t, pos + 1, TokenType::LeftParen) {
        Parsed::Failed(expected(t, pos + 1, TokenType::LeftParen))
    } else {
        let parameters = if is_at(t, pos + 2, TokenType::RightParen) {
            Parsed::Done(Seq::<Seq<char>>::empty(), pos + 3)
        } else {
            spec_parameters(t, pos + 2, Seq::empty())
        };
        match parameters {
            Parsed::Failed(e) => Parsed::Failed(e),
            Parsed::Done(params, after) => if !is_at(t, after, TokenType::LeftBrace) {
                Parsed::Failed(expected(t, after, TokenType::LeftBrace))
            } else if pos < after {
                match spec_block_items(t, n, after + 1, depth + 1, Seq::empty()) {
                    Parsed::Failed(e) => Parsed::Failed(e),
                    Parsed::Done(body, end) => Parsed::Done(
                        StatementView::FunDecl(
                            FunctionDeclView { name: t[pos].lexeme@, params, body },
                        ),
                        end,
                    ),
                }
            } else {
                Parsed::Failed(generic("Expected expression."@))
            },
        }
    }
}

/// declaration := `var` varDecl | `fun` funDecl | statement
pub open spec fn spec_declaration(
    t: Seq<Token>,
    n: Seq<Option<u64>>,
    pos: int,
    depth: int,
) -> Parsed<StatementView>
    decreases t.len() - pos, 60int,
{
    match kind_at(t, pos) {
        Some(TokenType::Var) => spec_var_declaration(t, n, pos + 1),
        Some(TokenType::Fun) => spec_fun_declaration(t, n, pos + 1, depth),
        _ => spec_statement(t, n, pos, depth),
    }
}

/// program := declaration*
///
/// The declarations from `pos`, after those in `seen`, to the end of input.
pub open spec fn spec_declarations(
    t: Seq<Token>,
    n: Seq<Option<u64>>,
    pos: int,
    seen: Seq<StatementView>,
) -> Parsed<Seq<StatementView>>
    decreases t.len() - pos, 70int,
{
    if at_end(t, pos) {
        Parsed::Done(seen, pos)
    } else {
        match spec_declaration(t, n, pos, 0) {
            Parsed::Failed(e) => Parsed::Failed(e),
            Parsed::Done(item, after) => if pos < after <= t.len() {
                spec_declarations(t, n, after, seen.push(item))
            } else {
                Parsed::Failed(generic("Expected expression."@))
            },
        }
    }
}

/// What the tokens `t` mean as a program.
pub open spec fn spec_parse(t: Seq<Token>, n: Seq<Option<u64>>) -> Parsed<Seq<StatementView>> {
    spec_declarations(t, n, 0, Seq::empty())
}

// ---------------------------------------------------------------------------
// The parser
// ---------------------------------------------------------------------------

/// That `r`, with the parser then at `next`, is what the grammar gives.
pub open spec fn gives_expr(spec: Parsed<ExprView>, r: Result<Expr>, next: int) -> bool {
    match spec {
        Parsed::Done(tree, after) => r matches Ok(e) && e@ == tree && next == after,
        Parsed::Failed(error) => r matches Err(ErrorOrEarlyReturn::CompilationError(e)) && e@
            == error,
    }
}

/// As `gives_expr`, for a run of expressions.
pub open spec fn gives_exprs(spec: Parsed<Seq<ExprView>>, r: Result<Vec<Expr>>, next: int) -> bool {
    match spec {
        Parsed::Done(trees, after) => r matches Ok(es) && exprs_view(es@) == trees && next
            == after,
        Parsed::Failed(error) => r matches Err(ErrorOrEarlyReturn::CompilationError(e)) && e@
            == error,
    }
}

/// A position in a run of tokens, and how many function bodies enclose it.
pub struct Parser<'tokens> {
    pub tokens: &'tokens Vec<Token<'tokens>>,
    pub numbers: &'tokens Vec<Option<u64>>,
    pub next: usize,
    pub function_depth: usize,
}

fn generic_error(message: &str) -> (e: ErrorOrEarlyReturn)
    ensures
        e matches ErrorOrEarlyReturn::CompilationError(c) && c@ == generic(message@),
{
    ErrorOrEarlyReturn::CompilationError(CompilationError::GenericError(String::from_str(message)))
}

fn invalid_literal(kind: &str, lexeme: &str) -> (e: ErrorOrEarlyReturn)
    ensures
        e matches ErrorOrEarlyReturn::CompilationError(c) && c@
            == CompilationErrorView::InvalidLiteral(kind@, lexeme@),
{
    ErrorOrEarlyReturn::CompilationError(
        CompilationError::InvalidLiteral(String::from_str(kind), String::from_str(lexeme)),
    )
}

/// The name of a token kind, as messages show it.
pub fn name_of(kind: TokenType) -> (name: String)
    ensures
        name@ == kind_name(kind),
{
    let text = match kind {
        TokenType::LeftParen => "LeftParen",
        TokenType::RightParen => "RightParen",
        TokenType::LeftBrace => "LeftBrace",
        TokenType::RightBrace => "RightBrace",
        TokenType::Comma => "Comma",
        TokenType::Dot => "Dot",
        TokenType::Plus => "Plus",
        TokenType::Minus => "Minus",
        TokenType::Semicolon => "Semicolon",
        TokenType::Slash => "Slash",
        TokenType::Star => "Star",
        TokenType::Bang => "Bang",
        TokenType::BangEqual => "BangEqual",
        TokenType::Equal => "Equal",
        TokenType::EqualEqual => "EqualEqual",
        TokenType::Greater => "Greater",
        TokenType::GreaterEqual => "GreaterEqual",
        TokenType::Less => "Less",
        TokenType::LessEqual => "LessEqual",
        TokenType::Identifier => "Identifier",
        TokenType::String => "String",
        TokenType::NumberLiteral => "NumberLiteral",
        TokenType::And => "And",
        TokenType::Class => "Class",
        TokenType::Else => "Else",
        TokenType::False => "False",
        TokenType::Fun => "Fun",
        TokenType::For => "For",
        TokenType::If => "If",
        TokenType::Nil => "Nil",
        TokenType::Or => "Or",
        TokenType::Print => "Print",
        TokenType::Return => "Return",
        TokenType::Super => "Super",
        TokenType::This => "This",
        TokenType::True => "True",
        TokenType::Var => "Var",
        TokenType::While => "While",
        TokenType::Comment => "Comment",
        TokenType::Whitespace => "Whitespace",
        TokenType::Eof => "Eof",
    };
    String::from_str(text)
}

fn operator_of(level: u8, kind: TokenType) -> (r: bool)
    ensures
        r == is_operator(level as int, kind),
{
    if level == 0 {
        kind == TokenType::Or
    } else if level == 1 {
        kind == TokenType::And
    } else if level == 2 {
        kind == TokenType::EqualEqual || kind == TokenType::BangEqual
    } else if level == 3 {
        kind == TokenType::Greater || kind == TokenType::GreaterEqual || kind == TokenType::Less
            || kind == TokenType::LessEqual
    } else if level == 4 {
        kind == TokenType::Plus || kind == TokenType::Minus
    } else if level == 5 {
        kind == TokenType::Star || kind == TokenType::Slash
    } else {
        false
    }
}

/// The text between the quotes of a string literal's lexeme, if it has them.
fn text_of_string(lexeme: &str) -> (text: Option<String>)
    ensures
        match string_text(lexeme@) {
            Some(inner) => text matches Some(s) && s@ == inner,
            None => text is None,
        },
{
    let len = lexeme.unicode_len();
    if len >= 2 && lexeme.get_char(0) == '"' && lexeme.get_char(len - 1) == '"' {
        Some(String::from_str(lexeme.substring_char(1, len - 1)))
    } else {
        None
    }
}

impl<'tokens> Parser<'tokens> {
    /// The parser stands within its tokens, and has read a `fun` for each
    /// function body around it.
    pub open spec fn wf(&self) -> bool {
        self.function_depth <= self.next <= self.tokens.len()
    }

    /// That `self` reads the same input as `before`, inside as many functions.
    pub open spec fn same_input(&self, before: &Self) -> bool {
        &&& self.tokens == before.tokens
        &&& self.numbers == before.numbers
        &&& self.function_depth == before.function_depth
    }

    /// That `self` has moved on from where `before` stood.
    pub open spec fn advanced(&self, before: &Self) -> bool {
        before.next < self.next <= self.tokens.len()
    }

    pub fn new(tokens: &'tokens Vec<Token<'tokens>>, numbers: &'tokens Vec<Option<u64>>) -> (p:
        Self)
        ensures
            p.tokens == tokens,
            p.numbers == numbers,
            p.next == 0,
            p.function_depth == 0,
            p.wf(),
    {
        Parser { tokens, numbers, next: 0, function_depth: 0 }
    }

    /// Steps over the next token if it is of kind `token_type`.
    pub fn matches(&mut self, token_type: TokenType) -> (r: bool)
        requires
            old(self).wf(),
        ensures
            final(self).same_input(old(self)),
            r == is_at(old(self).tokens@, old(self).next as int, token_type),
            final(self).next == if r {
                old(self).next + 1
            } else {
                old(self).next as int
            },
            final(self).wf(),
    {
        if self.next < self.tokens.len() {
            if self.tokens[self.next].type_ == token_type {
                self.next += 1;
                return true;
            }
        }
        false
    }

    /// Whether the next token is of kind `token_type`.
    pub fn check(&self, token_type: TokenType) -> (r: bool)
        ensures
            r == is_at(self.tokens@, self.next as int, token_type),
    {
        self.next < self.tokens.len() && self.tokens[self.next].type_ == token_type
    }

    /// The next token, if there is one.
    pub fn peek(&self) -> (r: Option<Token<'tokens>>)
        ensures
            r == if self.next < self.tokens.len() {
                Some(self.tokens@[self.next as int])
            } else {
                None
            },
    {
        if self.next < self.tokens.len() {
            Some(self.tokens[self.next])
        } else {
            None
        }
    }

    /// The token before the next one: the one last stepped over.
    pub fn previous(&self) -> (r: Result<Token<'tokens>>)
        ensures
            if 0 < self.next <= self.tokens.len() {
                r == Ok::<Token, ErrorOrEarlyReturn>(self.tokens@[self.next - 1])
            } else {
                r matches Err(ErrorOrEarlyReturn::ICE(crate::error::ICE::Generic(m))) && m@
                    == "Could not get previous token"@
            },
    {
        if 0 < self.next && self.next <= self.tokens.len() {
            Ok(self.tokens[self.next - 1])
        } else {
            Err(
                ErrorOrEarlyReturn::ICE(
                    crate::error::ICE::Generic(String::from_str("Could not get previous token")),
                ),
            )
        }
    }

    /// Whether nothing is left to parse.
    pub fn is_at_end(&self) -> (r: bool)
        ensures
            r == at_end(self.tokens@, self.next as int),
    {
        self.next >= self.tokens.len() || self.tokens[self.next].type_ == TokenType::Eof
    }

    /// Steps over the next token, which must be of kind `token_type`; the
    /// error names the kind and what stands there instead.
    pub fn consume(&mut self, token_type: TokenType) -> (r: Result<Token<'tokens>>)
        requires
            old(self).wf(),
        ensures
            final(self).same_input(old(self)),
            final(self).wf(),
            if is_at(old(self).tokens@, old(self).next as int, token_type) {
                &&& r == Ok::<Token, ErrorOrEarlyReturn>(old(self).tokens@[old(self).next as int])
                &&& final(self).next == old(self).next + 1
            } else {
                &&& r matches Err(ErrorOrEarlyReturn::CompilationError(e)) && e@ == expected(
                    old(self).tokens@,
                    old(self).next as int,
                    token_type,
                )
                &&& final(self).next == old(self).next
            },
    {
        if self.is_at_end() {
            if self.check(token_type) {
                self.next += 1;
                return Ok(self.tokens[self.next - 1]);
            }
            Err(
                ErrorOrEarlyReturn::CompilationError(
                    CompilationError::ExpectedToken(name_of(token_type), String::from_str("Eof")),
                ),
            )
        } else if !self.matches(token_type) {
            Err(
                ErrorOrEarlyReturn::CompilationError(
                    CompilationError::ExpectedToken(
                        name_of(token_type),
                        String::from_str(self.tokens[self.next].lexeme),
                    ),
                ),
            )
        } else {
            Ok(self.tokens[self.next - 1])
        }
    }

    /// Steps over the next token, which must be of kind `token_type`; fails
    /// with `error` where it is not.
    pub fn consume_or_error(&mut self, token_type: TokenType, error: ErrorOrEarlyReturn) -> (r:
        Result<Token<'tokens>>)
        requires
            old(self).wf(),
        ensures
            final(self).same_input(old(self)),
            final(self).wf(),
            if is_at(old(self).tokens@, old(self).next as int, token_type) {
                &&& r == Ok::<Token, ErrorOrEarlyReturn>(old(self).tokens@[old(self).next as int])
                &&& final(self).next == old(self).next + 1
            } else {
                &&& r == Err::<Token, ErrorOrEarlyReturn>(error)
                &&& final(self).next == old(self).next
            },
    {
        if !self.matches(token_type) {
            Err(error)
        } else {
            Ok(self.tokens[self.next - 1])
        }
    }

    fn primary_expr(&mut self) -> (r: Result<Expr>)
        requires
            old(self).wf(),
        ensures
            final(self).same_input(old(self)),
            gives_expr(
                spec_primary(old(self).tokens@, old(self).numbers@, old(self).next as int),
                r,
                final(self).next as int,
            ),
            r is Ok ==> final(self).advanced(old(self)) && final(self).wf(),
        decreases old(self).tokens.len() - old(self).next, 1int,
    {
        let at = self.next;
        if self.matches(TokenType::False) {
            Ok(Expr::Literal(LiteralExpr::Boolean(false)))
        } else if self.matches(TokenType::True) {
            Ok(Expr::Literal(LiteralExpr::Boolean(true)))
        } else if self.matches(TokenType::Nil) {
            Ok(Expr::Literal(LiteralExpr::Nil))
        } else if self.matches(TokenType::String) {
            let lexeme = self.tokens[at].lexeme;
            match text_of_string(lexeme) {
                Some(text) => Ok(Expr::Literal(LiteralExpr::String(text))),
                None => Err(invalid_literal("string", lexeme)),
            }
        } else if self.matches(TokenType::NumberLiteral) {
            let value = if at < self.numbers.len() {
                self.numbers[at]
            } else {
                None
            };
            match value {
                Some(number) => Ok(Expr::Literal(LiteralExpr::Number(number))),
                None => Err(invalid_literal("number", self.tokens[at].lexeme)),
            }
        } else if self.matches(TokenType::Identifier) {
            Ok(Expr::Identifier(String::from_str(self.tokens[at].lexeme), None))
        } else if self.matches(TokenType::LeftParen) {
            let inner = self.expr()?;
            match self.consume(TokenType::RightParen) {
                Ok(_) => Ok(Expr::Grouping(Box::new(inner))),
                Err(e) => Err(e),
            }
        } else {
            Err(generic_error("Expected expression."))
        }
    }

    /// Parses the arguments of a call, after those in `seen`, through the
    /// closing parenthesis.
    fn arguments(&mut self, seen: Vec<Expr>) -> (r: Result<Vec<Expr>>)
        requires
            old(self).wf(),
        ensures
            final(self).same_input(old(self)),
            gives_exprs(
                spec_arguments(
                    old(self).tokens@,
                    old(self).numbers@,
                    old(self).next as int,
                    exprs_view(seen@),
                ),
                r,
                final(self).next as int,
            ),
            r is Ok ==> final(self).advanced(old(self)) && final(self).wf(),
        decreases old(self).tokens.len() - old(self).next, 40int,
    {
        let mut seen = seen;
        if seen.len() >= MAX_ARITY {
            return Err(generic_error("Too many arguments."));
        }
        let ghost before = exprs_view(seen@);
        let argument = self.expr()?;
        seen.push(argument);
        proof {
            assert(exprs_view(seen@) =~= before.push(argument@));
        }
        if self.matches(TokenType::Comma) {
            self.arguments(seen)
        } else {
            match self.consume(TokenType::RightParen) {
                Ok(_) => Ok(seen),
                Err(e) => Err(e),
            }
        }
    }

    /// Parses the calls that follow `callee`.
    fn call_rest(&mut self, callee: Expr) -> (r: Result<Expr>)
        requires
            old(self).wf(),
        ensures
            final(self).same_input(old(self)),
            gives_expr(
                spec_call_rest(
                    old(self).tokens@,
                    old(self).numbers@,
                    old(self).next as int,
                    callee@,
                ),
                r,
                final(self).next as int,
            ),
            r is Ok ==> old(self).next <= final(self).next && final(self).wf(),
        decreases old(self).tokens.len() - old(self).next, 40int,
    {
        if self.matches(TokenType::LeftParen) {
            let args = if self.matches(TokenType::RightParen) {
                let none: Vec<Expr> = Vec::new();
                proof {
                    assert(exprs_view(none@) =~= Seq::<ExprView>::empty());
                }
                none
            } else {
                let none: Vec<Expr> = Vec::new();
                proof {
                    assert(exprs_view(none@) =~= Seq::<ExprView>::empty());
                }
                self.arguments(none)?
            };
            let call = Expr::Call(CallExpr { callee: Box::new(callee), args });
            proof {
                assert(call@ == ExprView::Call(Box::new(callee@), exprs_view(args@))) by {
                    lemma_call_view(callee, args);
                }
            }
            self.call_rest(call)
        } else {
            Ok(callee)
        }
    }

    fn call_expr(&mut self) -> (r: Result<Expr>)
        requires
            old(self).wf(),
        ensures
            final(self).same_input(old(self)),
            gives_expr(
                spec_call(old(self).tokens@, old(self).numbers@, old(self).next as int),
                r,
                final(self).next as int,
            ),
            r is Ok ==> final(self).advanced(old(self)) && final(self).wf(),
        decreases old(self).tokens.len() - old(self).next, 2int,
    {
        let callee = self.primary_expr()?;
        self.call_rest(callee)
    }

    fn unary_expr(&mut self) -> (r: Result<Expr>)
        requires
            old(self).wf(),
        ensures
            final(self).same_input(old(self)),
            gives_expr(
                spec_unary(old(self).tokens@, old(self).numbers@, old(self).next as int),
                r,
                final(self).next as int,
            ),
            r is Ok ==> final(self).advanced(old(self)) && final(self).wf(),
        decreases old(self).tokens.len() - old(self).next, 3int,
    {
        let at = self.next;
        if self.matches(TokenType::Bang) || self.matches(TokenType::Minus) {
            let op = self.tokens[at].type_;
            let operand = self.unary_expr()?;
            Ok(Expr::Unary(UnaryExpr { op, expr: Box::new(operand) }))
        } else {
            self.call_expr()
        }
    }

    /// Parses the operand of a binary operator of precedence `level`.
    fn operand(&mut self, level: u8) -> (r: Result<Expr>)
        requires
            old(self).wf(),
            level <= 5,
        ensures
            final(self).same_input(old(self)),
            gives_expr(
                spec_operand(
                    old(self).tokens@,
                    old(self).numbers@,
                    old(self).next as int,
                    level as int,
                ),
                r,
                final(self).next as int,
            ),
            r is Ok ==> final(self).advanced(old(self)) && final(self).wf(),
        decreases old(self).tokens.len() - old(self).next, 19 - 2 * level,
    {
        if level < 5 {
            self.binary_expr(level + 1)
        } else {
            self.unary_expr()
        }
    }

    /// Parses a run of operands with operators of precedence `level` between
    /// them, grouping to the left.
    fn binary_expr(&mut self, level: u8) -> (r: Result<Expr>)
        requires
            old(self).wf(),
            level <= 5,
        ensures
            final(self).same_input(old(self)),
            gives_expr(
                spec_binary(
                    old(self).tokens@,
                    old(self).numbers@,
                    old(self).next as int,
                    level as int,
                ),
                r,
                final(self).next as int,
            ),
            r is Ok ==> final(self).advanced(old(self)) && final(self).wf(),
        decreases old(self).tokens.len() - old(self).next, 20 - 2 * level,
    {
        let mut expr = self.operand(level)?;
        let ghost start = *old(self);
        while self.next < self.tokens.len() && operator_of(level, self.tokens[self.next].type_)
            invariant
                self.wf(),
                level <= 5,
                start == *old(self),
                self.same_input(&start),
                start.next < self.next,
                spec_binary(start.tokens@, start.numbers@, start.next as int, level as int)
                    == spec_binary_rest(
                    self.tokens@,
                    self.numbers@,
                    self.next as int,
                    level as int,
                    expr@,
                ),
            decreases self.tokens.len() - self.next,
        {
            let op = self.tokens[self.next].type_;
            self.next += 1;
            let right = self.operand(level)?;
            expr = Expr::Binary(BinaryExpr { left: Box::new(expr), op, right: Box::new(right) });
        }
        Ok(expr)
    }

    fn assignment_expr(&mut self) -> (r: Result<Expr>)
        requires
            old(self).wf(),
        ensures
            final(self).same_input(old(self)),
            gives_expr(
                spec_expression(old(self).tokens@, old(self).numbers@, old(self).next as int),
                r,
                final(self).next as int,
            ),
            r is Ok ==> final(self).advanced(old(self)) && final(self).wf(),
        decreases old(self).tokens.len() - old(self).next, 30int,
    {
        let target = self.binary_expr(0)?;
        if self.matches(TokenType::Equal) {
            match target {
                Expr::Identifier(name, _) => {
                    let value = self.assignment_expr()?;
                    Ok(Expr::Assignment(name, None, Box::new(value)))
                },
                _ => Err(generic_error("Invalid assignment target.")),
            }
        } else {
            Ok(target)
        }
    }

    fn expr(&mut self) -> (r: Result<Expr>)
        requires
            old(self).wf(),
        ensures
            final(self).same_input(old(self)),
            gives_expr(
                spec_expression(old(self).tokens@, old(self).numbers@, old(self).next as int),
                r,
                final(self).next as int,
            ),
            r is Ok ==> final(self).advanced(old(self)) && final(self).wf(),
        decreases old(self).tokens.len() - old(self).next, 31int,
    {
        self.assignment_expr()
    }
}

/// As `gives_expr`, for a statement.
pub open spec fn gives_stmt(spec: Parsed<StatementView>, r: Result<Statement>, next: int) -> bool {
    match spec {
        Parsed::Done(tree, after) => r matches Ok(s) && s@ == tree && next == after,
        Parsed::Failed(error) => r matches Err(ErrorOrEarlyReturn::CompilationError(e)) && e@
            == error,
    }
}

/// As `gives_expr`, for a run of statements.
pub open spec fn gives_stmts(
    spec: Parsed<Seq<StatementView>>,
    r: Result<Vec<Statement>>,
    next: int,
) -> bool {
    match spec {
        Parsed::Done(trees, after) => r matches Ok(ss) && statements_view(ss@) == trees && next
            == after,
        Parsed::Failed(error) => r matches Err(ErrorOrEarlyReturn::CompilationError(e)) && e@
            == error,
    }
}

/// As `gives_expr`, for a run of names.
pub open spec fn gives_names(spec: Parsed<Seq<Seq<char>>>, r: Result<Vec<String>>, next: int) -> bool {
    match spec {
        Parsed::Done(names, after) => r matches Ok(ns) && names_view(ns@) == names && next
            == after,
        Parsed::Failed(error) => r matches Err(ErrorOrEarlyReturn::CompilationError(e)) && e@
            == error,
    }
}

/// As `gives_expr`, for a clause that may be empty.
pub open spec fn gives_clause(spec: Parsed<Option<ExprView>>, r: Result<Option<Expr>>, next: int) -> bool {
    match spec {
        Parsed::Done(tree, after) => r matches Ok(e) && option_view(e) == tree && next == after,
        Parsed::Failed(error) => r matches Err(ErrorOrEarlyReturn::CompilationError(e)) && e@
            == error,
    }
}

/// The view of a statement that may be absent.
pub open spec fn option_statement_view(statement: Option<Statement>) -> Option<StatementView> {
    match statement {
        Some(s) => Some(s@),
        None => None,
    }
}

/// As `gives_expr`, for a statement that may be absent.
pub open spec fn gives_init(
    spec: Parsed<Option<StatementView>>,
    r: Result<Option<Statement>>,
    next: int,
) -> bool {
    match spec {
        Parsed::Done(tree, after) => r matches Ok(s) && option_statement_view(s) == tree && next
            == after,
        Parsed::Failed(error) => r matches Err(ErrorOrEarlyReturn::CompilationError(e)) && e@
            == error,
    }
}

/// Builds the statement that a `for` loop stands for.
pub fn desugar_for(
    init: Option<Statement>,
    cond: Option<Expr>,
    incr: Option<Expr>,
    body: Statement,
) -> (statement: Statement)
    ensures
        statement@ == spec_desugar_for(
            option_statement_view(init),
            option_view(cond),
            option_view(incr),
            body@,
        ),
{
    let mut inner: Vec<Statement> = Vec::new();
    inner.push(body);
    match incr {
        Some(step) => {
            inner.push(Statement::Expr(step));
        },
        None => {},
    }
    let condition = match cond {
        Some(c) => c,
        None => Expr::Literal(LiteralExpr::Boolean(true)),
    };
    proof {
        lemma_block_view(inner);
        assert(statements_view(inner@) =~= match incr {
            Some(step) => seq![body@, StatementView::Expr(step@)],
            None => seq![body@],
        });
    }
    let repeat = Statement::While(
        WhileStatement { cond: condition, stmt: Box::new(Statement::Block(inner)) },
    );
    let mut outer: Vec<Statement> = Vec::new();
    match init {
        Some(first) => {
            outer.push(first);
        },
        None => {},
    }
    outer.push(repeat);
    proof {
        lemma_block_view(outer);
        assert(statements_view(outer@) =~= match init {
            Some(first) => seq![first@, repeat@],
            None => seq![repeat@],
        });
    }
    Statement::Block(outer)
}

impl<'tokens> Parser<'tokens> {
    fn var_declaration(&mut self) -> (r: Result<Statement>)
        requires
            old(self).wf(),
        ensures
            final(self).same_input(old(self)),
            gives_stmt(
                spec_var_declaration(old(self).tokens@, old(self).numbers@, old(self).next as int),
                r,
                final(self).next as int,
            ),
            r is Ok ==> final(self).advanced(old(self)) && final(self).wf(),
        decreases old(self).tokens.len() - old(self).next, 45int,
    {
        let at = self.next;
        if !self.matches(TokenType::Identifier) {
            return Err(
                ErrorOrEarlyReturn::CompilationError(CompilationError::ExpectedNameAfterVar),
            );
        }
        let name = String::from_str(self.tokens[at].lexeme);
        let mut initializer: Option<Expr> = None;
        if self.matches(TokenType::Equal) {
            initializer = Some(self.expr()?);
        }
        if !self.matches(TokenType::Semicolon) {
            return Err(
                ErrorOrEarlyReturn::CompilationError(
                    CompilationError::ExpectedSemicolonAfterVarDecl,
                ),
            );
        }
        Ok(Statement::VariableDecl(name, initializer))
    }

    fn expr_stmt(&mut self) -> (r: Result<Statement>)
        requires
            old(self).wf(),
        ensures
            final(self).same_input(old(self)),
            gives_stmt(
                spec_expr_stmt(old(self).tokens@, old(self).numbers@, old(self).next as int),
                r,
                final(self).next as int,
            ),
            r is Ok ==> final(self).advanced(old(self)) && final(self).wf(),
        decreases old(self).tokens.len() - old(self).next, 45int,
    {
        let expr = self.expr()?;
        if !self.matches(TokenType::Semicolon) {
            return Err(generic_error("Expected ';' after expression."));
        }
        Ok(Statement::Expr(expr))
    }

    fn print_stmt(&mut self) -> (r: Result<Statement>)
        requires
            old(self).wf(),
        ensures
            final(self).same_input(old(self)),
            gives_stmt(
                spec_print_stmt(old(self).tokens@, old(self).numbers@, old(self).next as int),
                r,
                final(self).next as int,
            ),
            r is Ok ==> final(self).advanced(old(self)) && final(self).wf(),
        decreases old(self).tokens.len() - old(self).next, 45int,
    {
        let value = self.expr()?;
        if !self.matches(TokenType::Semicolon) {
            return Err(generic_error("Expected ';' after value."));
        }
        Ok(Statement::Print(value))
    }

    fn return_stmt(&mut self) -> (r: Result<Statement>)
        requires
            old(self).wf(),
        ensures
            final(self).same_input(old(self)),
            gives_stmt(
                spec_return_stmt(
                    old(self).tokens@,
                    old(self).numbers@,
                    old(self).next as int,
                    old(self).function_depth as int,
                ),
                r,
                final(self).next as int,
            ),
            r is Ok ==> final(self).advanced(old(self)) && final(self).wf(),
        decreases old(self).tokens.len() - old(self).next, 45int,
    {
        if self.function_depth == 0 {
            return Err(
                ErrorOrEarlyReturn::CompilationError(CompilationError::ReturnOutsideFunction),
            );
        }
        if self.matches(TokenType::Semicolon) {
            return Ok(Statement::Return(None));
        }
        let value = self.expr()?;
        if !self.matches(TokenType::Semicolon) {
            return Err(generic_error("Expected ';' after return value."));
        }
        Ok(Statement::Return(Some(value)))
    }

    /// Parses a condition in parentheses.
    fn condition(&mut self) -> (r: Result<Expr>)
        requires
            old(self).wf(),
        ensures
            final(self).same_input(old(self)),
            gives_expr(
                spec_condition(old(self).tokens@, old(self).numbers@, old(self).next as int),
                r,
                final(self).next as int,
            ),
            r is Ok ==> final(self).advanced(old(self)) && final(self).wf(),
        decreases old(self).tokens.len() - old(self).next, 45int,
    {
        self.consume(TokenType::LeftParen)?;
        let cond = self.expr()?;
        self.consume(TokenType::RightParen)?;
        Ok(cond)
    }

    fn if_stmt(&mut self) -> (r: Result<Statement>)
        requires
            old(self).wf(),
        ensures
            final(self).same_input(old(self)),
            gives_stmt(
                spec_if_stmt(
                    old(self).tokens@,
                    old(self).numbers@,
                    old(self).next as int,
                    old(self).function_depth as int,
                ),
                r,
                final(self).next as int,
            ),
            r is Ok ==> final(self).advanced(old(self)) && final(self).wf(),
        decreases old(self).tokens.len() - old(self).next, 46int,
    {
        let cond = self.condition()?;
        let then_branch = Box::new(self.statement()?);
        let mut else_branch: Option<Box<Statement>> = None;
        if self.matches(TokenType::Else) {
            else_branch = Some(Box::new(self.statement()?));
        }
        Ok(Statement::If(IfStatement { cond, then_branch, else_branch }))
    }

    fn while_stmt(&mut self) -> (r: Result<Statement>)
        requires
            old(self).wf(),
        ensures
            final(self).same_input(old(self)),
            gives_stmt(
                spec_while_stmt(
                    old(self).tokens@,
                    old(self).numbers@,
                    old(self).next as int,
                    old(self).function_depth as int,
                ),
                r,
                final(self).next as int,
            ),
            r is Ok ==> final(self).advanced(old(self)) && final(self).wf(),
        decreases old(self).tokens.len() - old(self).next, 46int,
    {
        let cond = self.condition()?;
        let stmt = Box::new(self.statement()?);
        Ok(Statement::While(WhileStatement { cond, stmt }))
    }

    /// Parses the first clause of a `for`.
    fn for_init(&mut self) -> (r: Result<Option<Statement>>)
        requires
            old(self).wf(),
        ensures
            final(self).same_input(old(self)),
            gives_init(
                spec_for_init(old(self).tokens@, old(self).numbers@, old(self).next as int),
                r,
                final(self).next as int,
            ),
            r is Ok ==> final(self).advanced(old(self)) && final(self).wf(),
        decreases old(self).tokens.len() - old(self).next, 46int,
    {
        if self.matches(TokenType::Semicolon) {
            Ok(None)
        } else if self.matches(TokenType::Var) {
            Ok(Some(self.var_declaration()?))
        } else {
            Ok(Some(self.expr_stmt()?))
        }
    }

    /// Parses a clause of a `for` that may be empty, through the token of
    /// kind `end` that closes it.
    fn for_clause(&mut self, end: TokenType) -> (r: Result<Option<Expr>>)
        requires
            old(self).wf(),
        ensures
            final(self).same_input(old(self)),
            gives_clause(
                spec_for_clause(old(self).tokens@, old(self).numbers@, old(self).next as int, end),
                r,
                final(self).next as int,
            ),
            r is Ok ==> final(self).advanced(old(self)) && final(self).wf(),
        decreases old(self).tokens.len() - old(self).next, 46int,
    {
        if self.matches(end) {
            Ok(None)
        } else {
            let clause = self.expr()?;
            self.consume(end)?;
            Ok(Some(clause))
        }
    }

    fn for_stmt(&mut self) -> (r: Result<Statement>)
        requires
            old(self).wf(),
        ensures
            final(self).same_input(old(self)),
            gives_stmt(
                spec_for_stmt(
                    old(self).tokens@,
                    old(self).numbers@,
                    old(self).next as int,
                    old(self).function_depth as int,
                ),
                r,
                final(self).next as int,
            ),
            r is Ok ==> final(self).advanced(old(self)) && final(self).wf(),
        decreases old(self).tokens.len() - old(self).next, 47int,
    {
        self.consume(TokenType::LeftParen)?;
        let init = self.for_init()?;
        let cond = self.for_clause(TokenType::Semicolon)?;
        let incr = self.for_clause(TokenType::RightParen)?;
        let body = self.statement()?;
        Ok(desugar_for(init, cond, incr, body))
    }

    /// Parses the declarations of a block, through the closing brace.
    fn block_items(&mut self) -> (r: Result<Vec<Statement>>)
        requires
            old(self).wf(),
        ensures
            final(self).same_input(old(self)),
            gives_stmts(
                spec_block_items(
                    old(self).tokens@,
                    old(self).numbers@,
                    old(self).next as int,
                    old(self).function_depth as int,
                    Seq::empty(),
                ),
                r,
                final(self).next as int,
            ),
            r is Ok ==> final(self).advanced(old(self)) && final(self).wf(),
        decreases old(self).tokens.len() - old(self).next, 70int,
    {
        let mut items: Vec<Statement> = Vec::new();
        let ghost start = *old(self);
        proof {
            assert(statements_view(items@) =~= Seq::<StatementView>::empty());
        }
        while !self.check(TokenType::RightBrace) && !self.is_at_end()
            invariant
                self.wf(),
                start == *old(self),
                self.same_input(&start),
                start.next <= self.next,
                spec_block_items(
                    start.tokens@,
                    start.numbers@,
                    start.next as int,
                    start.function_depth as int,
                    Seq::empty(),
                ) == spec_block_items(
                    self.tokens@,
                    self.numbers@,
                    self.next as int,
                    self.function_depth as int,
                    statements_view(items@),
                ),
            decreases self.tokens.len() - self.next,
        {
            let ghost before = statements_view(items@);
            let item = self.declaration()?;
            items.push(item);
            proof {
                assert(statements_view(items@) =~= before.push(item@));
            }
        }
        if !self.matches(TokenType::RightBrace) {
            return Err(generic_error("Expected '}' at end of block."));
        }
        Ok(items)
    }

    fn statement(&mut self) -> (r: Result<Statement>)
        requires
            old(self).wf(),
        ensures
            final(self).same_input(old(self)),
            gives_stmt(
                spec_statement(
                    old(self).tokens@,
                    old(self).numbers@,
                    old(self).next as int,
                    old(self).function_depth as int,
                ),
                r,
                final(self).next as int,
            ),
            r is Ok ==> final(self).advanced(old(self)) && final(self).wf(),
        decreases old(self).tokens.len() - old(self).next, 50int,
    {
        if self.matches(TokenType::If) {
            self.if_stmt()
        } else if self.matches(TokenType::While) {
            self.while_stmt()
        } else if self.matches(TokenType::For) {
            self.for_stmt()
        } else if self.matches(TokenType::Print) {
            self.print_stmt()
        } else if self.matches(TokenType::Return) {
            self.return_stmt()
        } else if self.matches(TokenType::LeftBrace) {
            let items = self.block_items()?;
            proof {
                lemma_block_view(items);
            }
            Ok(Statement::Block(items))
        } else {
            self.expr_stmt()
        }
    }

    /// Parses the parameters of a function, after those in `seen`, through
    /// the closing parenthesis.
    fn parameters(&mut self, seen: Vec<String>) -> (r: Result<Vec<String>>)
        requires
            old(self).wf(),
        ensures
            final(self).same_input(old(self)),
            gives_names(
                spec_parameters(old(self).tokens@, old(self).next as int, names_view(seen@)),
                r,
                final(self).next as int,
            ),
            r is Ok ==> final(self).advanced(old(self)) && final(self).wf(),
        decreases old(self).tokens.len() - old(self).next,
    {
        let mut seen = seen;
        if seen.len() >= MAX_ARITY {
            return Err(generic_error("Too many parameters."));
        }
        let ghost before = names_view(seen@);
        let name = self.consume(TokenType::Identifier)?;
        let owned = String::from_str(name.lexeme);
        seen.push(owned);
        proof {
            assert(names_view(seen@) =~= before.push(name.lexeme@));
        }
        if self.matches(TokenType::Comma) {
            self.parameters(seen)
        } else {
            self.consume(TokenType::RightParen)?;
            Ok(seen)
        }
    }

    fn fun_declaration(&mut self) -> (r: Result<Statement>)
        requires
            old(self).wf(),
        ensures
            final(self).same_input(old(self)),
            gives_stmt(
                spec_fun_declaration(
                    old(self).tokens@,
                    old(self).numbers@,
                    old(self).next as int,
                    old(self).function_depth as int,
                ),
                r,
                final(self).next as int,
            ),
            r is Ok ==> final(self).advanced(old(self)) && final(self).wf(),
        decreases old(self).tokens.len() - old(self).next, 55int,
    {
        let name = self.consume(TokenType::Identifier)?;
        self.consume(TokenType::LeftParen)?;
        let params = if self.matches(TokenType::RightParen) {
            let none: Vec<String> = Vec::new();
            proof {
                assert(names_view(none@) =~= Seq::<Seq<char>>::empty());
            }
            none
        } else {
            let none: Vec<String> = Vec::new();
            proof {
                assert(names_view(none@) =~= Seq::<Seq<char>>::empty());
            }
            self.parameters(none)?
        };
        self.consume(TokenType::LeftBrace)?;
        self.function_depth += 1;
        let parsed = self.block_items();
        self.function_depth -= 1;
        match parsed {
            Ok(body) => {
                let decl = Rc::new(
                    FunctionDecl { name: String::from_str(name.lexeme), params, body },
                );
                proof {
                    lemma_fun_view(decl);
                }
                Ok(Statement::FunDecl(decl))
            },
            Err(e) => Err(e),
        }
    }

    fn declaration(&mut self) -> (r: Result<Statement>)
        requires
            old(self).wf(),
        ensures
            final(self).same_input(old(self)),
            gives_stmt(
                spec_declaration(
                    old(self).tokens@,
                    old(self).numbers@,
                    old(self).next as int,
                    old(self).function_depth as int,
                ),
                r,
                final(self).next as int,
            ),
            r is Ok ==> final(self).advanced(old(self)) && final(self).wf(),
        decreases old(self).tokens.len() - old(self).next, 60int,
    {
        if self.matches(TokenType::Var) {
            self.var_declaration()
        } else if self.matches(TokenType::Fun) {
            self.fun_declaration()
        } else {
            self.statement()
        }
    }

    /// Parses declarations to the end of input.
    fn declarations(&mut self) -> (r: Result<Vec<Statement>>)
        requires
            old(self).wf(),
            old(self).function_depth == 0,
        ensures
            final(self).same_input(old(self)),
            gives_stmts(
                spec_declarations(
                    old(self).tokens@,
                    old(self).numbers@,
                    old(self).next as int,
                    Seq::empty(),
                ),
                r,
                final(self).next as int,
            ),
    {
        let mut decls: Vec<Statement> = Vec::new();
        let ghost start = *old(self);
        proof {
            assert(statements_view(decls@) =~= Seq::<StatementView>::empty());
        }
        while !self.is_at_end()
            invariant
                self.wf(),
                start == *old(self),
                self.same_input(&start),
                self.function_depth == 0,
                spec_declarations(
                    start.tokens@,
                    start.numbers@,
                    start.next as int,
                    Seq::empty(),
                ) == spec_declarations(
                    self.tokens@,
                    self.numbers@,
                    self.next as int,
                    statements_view(decls@),
                ),
            decreases self.tokens.len() - self.next,
        {
            let ghost before = statements_view(decls@);
            let item = self.declaration()?;
            decls.push(item);
            proof {
                assert(statements_view(decls@) =~= before.push(item@));
            }
        }
        Ok(decls)
    }
}

/// That `r` is what the grammar gives, wherever the parser then stands.
pub open spec fn parse_gives(spec: Parsed<Seq<StatementView>>, r: Result<Vec<Statement>>) -> bool {
    match spec {
        Parsed::Done(trees, _) => r matches Ok(ss) && statements_view(ss@) == trees,
        Parsed::Failed(error) => r matches Err(ErrorOrEarlyReturn::CompilationError(e)) && e@
            == error,
    }
}

/// As `parse_gives`, for one expression.
pub open spec fn parse_expr_gives(spec: Parsed<ExprView>, r: Result<Expr>) -> bool {
    match spec {
        Parsed::Done(tree, _) => r matches Ok(e) && e@ == tree,
        Parsed::Failed(error) => r matches Err(ErrorOrEarlyReturn::CompilationError(e)) && e@
            == error,
    }
}

/// Parses a program: declarations to the end of input. `numbers` holds, for
/// the token at each position, the value read from its text if it is a number
/// literal that has one.
pub fn parse(tokens: &Vec<Token>, numbers: &Vec<Option<u64>>) -> (r: Result<Vec<Statement>>)
    ensures
        parse_gives(spec_parse(tokens@, numbers@), r),
{
    let mut parser = Parser::new(tokens, numbers);
    parser.declarations()
}

/// Parses one expression from the start of `tokens`; what follows it is not
/// looked at.
pub fn parse_expr(tokens: &Vec<Token>, numbers: &Vec<Option<u64>>) -> (r: Result<Expr>)
    ensures
        parse_expr_gives(spec_expression(tokens@, numbers@, 0), r),
{
    let mut parser = Parser::new(tokens, numbers);
    parser.expr()
}

/// A `for` loop is the block that one would write by hand: the initializer,
/// where there is one, and then a `while` on the loop's condition, or on
/// `true`, whose body is a block of the loop's body and then, where there is
/// one, the increment. So the two run alike: they are the same tree.
pub proof fn lemma_for_is_block_and_while(
    init: StatementView,
    cond: ExprView,
    incr: ExprView,
    body: StatementView,
)
    ensures
        spec_desugar_for(Some(init), Some(cond), Some(incr), body) == StatementView::Block(
            seq![
                init,
                StatementView::While(
                    cond,
                    Box::new(StatementView::Block(seq![body, StatementView::Expr(incr)])),
                ),
            ],
        ),
        spec_desugar_for(None, Some(cond), Some(incr), body) == StatementView::Block(
            seq![
                StatementView::While(
                    cond,
                    Box::new(StatementView::Block(seq![body, StatementView::Expr(incr)])),
                ),
            ],
        ),
        spec_desugar_for(Some(init), None, None, body) == StatementView::Block(
            seq![
                init,
                StatementView::While(
                    ExprView::Literal(LiteralView::Boolean(true)),
                    Box::new(StatementView::Block(seq![body])),
                ),
            ],
        ),
        spec_desugar_for(None, None, None, body) == StatementView::Block(
            seq![
                StatementView::While(
                    ExprView::Literal(LiteralView::Boolean(true)),
                    Box::new(StatementView::Block(seq![body])),
                ),
            ],
        ),
{
}

/// Wherever a `for` loop parses, it parses to what `spec_desugar_for` makes of
/// its clauses and its body.
pub proof fn lemma_for_parses_to_its_desugaring(
    t: Seq<Token>,
    n: Seq<Option<u64>>,
    pos: int,
    depth: int,
)
    ensures
        spec_for_stmt(t, n, pos, depth) matches Parsed::Done(tree, _) ==> exists|
            init: Option<StatementView>,
            cond: Option<ExprView>,
            incr: Option<ExprView>,
            body: StatementView,
        | tree == spec_desugar_for(init, cond, incr, body),
{
    if let Parsed::Done(tree, _) = spec_for_stmt(t, n, pos, depth) {
        let after_init = spec_for_init(t, n, pos + 1);
        let init = after_init->Done_0;
        let after_cond = spec_for_clause(t, n, after_init->Done_1, TokenType::Semicolon);
        let cond = after_cond->Done_0;
        let after_incr = spec_for_clause(t, n, after_cond->Done_1, TokenType::RightParen);
        let incr = after_incr->Done_0;
        let body = spec_statement(t, n, after_incr->Done_1, depth)->Done_0;
        assert(tree == spec_desugar_for(init, cond, incr, body));
    }
}

// ---------------------------------------------------------------------------
// A parse moves on
// ---------------------------------------------------------------------------
//
// The rules above recurse on what a part of them has parsed, and ask each
// time that the position has moved on and is still within the tokens. What
// follows shows that it always has: whatever parses has at least one token.

/// Whether `parsed`, begun at `pos`, ended after at least one token and
/// within the tokens.
pub open spec fn moved_on<T>(t: Seq<Token>, pos: int, parsed: Parsed<T>) -> bool {
    parsed matches Parsed::Done(_, after) ==> pos < after <= t.len()
}

/// As `moved_on`, for what may parse nothing at all.
pub open spec fn not_moved_back<T>(t: Seq<Token>, pos: int, parsed: Parsed<T>) -> bool {
    parsed matches Parsed::Done(_, after) ==> pos <= after <= t.len()
}

pub proof fn lemma_primary_moves_on(t: Seq<Token>, n: Seq<Option<u64>>, pos: int)
    ensures
        moved_on(t, pos, spec_primary(t, n, pos)),
    decreases t.len() - pos, 1int,
{
    if is_at(t, pos, TokenType::LeftParen) {
        lemma_expression_moves_on(t, n, pos + 1);
    }
}

pub proof fn lemma_arguments_move_on(
    t: Seq<Token>,
    n: Seq<Option<u64>>,
    pos: int,
    seen: Seq<ExprView>,
)
    ensures
        moved_on(t, pos, spec_arguments(t, n, pos, seen)),
    decreases t.len() - pos, 40int,
{
    if seen.len() < MAX_ARITY {
        lemma_expression_moves_on(t, n, pos);
        if let Parsed::Done(argument, after) = spec_expression(t, n, pos) {
            if is_at(t, after, TokenType::Comma) && pos <= after {
                lemma_arguments_move_on(t, n, after + 1, seen.push(argument));
            }
        }
    }
}

pub proof fn lemma_call_rest_moves_on(
    t: Seq<Token>,
    n: Seq<Option<u64>>,
    pos: int,
    callee: ExprView,
)
    requires
        pos <= t.len(),
    ensures
        not_moved_back(t, pos, spec_call_rest(t, n, pos, callee)),
    decreases t.len() - pos, 40int,
{
    if is_at(t, pos, TokenType::LeftParen) {
        let arguments = if is_at(t, pos + 1, TokenType::RightParen) {
            Parsed::Done(Seq::<ExprView>::empty(), pos + 2)
        } else {
            lemma_arguments_move_on(t, n, pos + 1, Seq::empty());
            spec_arguments(t, n, pos + 1, Seq::empty())
        };
        if let Parsed::Done(args, after) = arguments {
            if pos < after <= t.len() {
                lemma_call_rest_moves_on(t, n, after, ExprView::Call(Box::new(callee), args));
            }
        }
    }
}

pub proof fn lemma_call_moves_on(t: Seq<Token>, n: Seq<Option<u64>>, pos: int)
    ensures
        moved_on(t, pos, spec_call(t, n, pos)),
    decreases t.len() - pos, 2int,
{
    lemma_primary_moves_on(t, n, pos);
    if let Parsed::Done(callee, after) = spec_primary(t, n, pos) {
        if pos < after <= t.len() {
            lemma_call_rest_moves_on(t, n, after, callee);
        }
    }
}

pub proof fn lemma_unary_moves_on(t: Seq<Token>, n: Seq<Option<u64>>, pos: int)
    ensures
        moved_on(t, pos, spec_unary(t, n, pos)),
    decreases t.len() - pos, 3int,
{
    if is_at(t, pos, TokenType::Bang) || is_at(t, pos, TokenType::Minus) {
        lemma_unary_moves_on(t, n, pos + 1);
    } else {
        lemma_call_moves_on(t, n, pos);
    }
}

pub proof fn lemma_operand_moves_on(t: Seq<Token>, n: Seq<Option<u64>>, pos: int, level: int)
    ensures
        moved_on(t, pos, spec_operand(t, n, pos, level)),
    decreases t.len() - pos, 19 - 2 * level,
{
    if 0 <= level < 5 {
        lemma_binary_moves_on(t, n, pos, level + 1);
    } else if level == 5 {
        lemma_unary_moves_on(t, n, pos);
    }
}

pub proof fn lemma_binary_rest_moves_on(
    t: Seq<Token>,
    n: Seq<Option<u64>>,
    pos: int,
    level: int,
    left: ExprView,
)
    requires
        pos <= t.len(),
    ensures
        not_moved_back(t, pos, spec_binary_rest(t, n, pos, level, left)),
    decreases t.len() - pos, 40int,
{
    if 0 <= pos < t.len() && is_operator(level, t[pos].type_) {
        lemma_operand_moves_on(t, n, pos + 1, level);
        if let Parsed::Done(right, after) = spec_operand(t, n, pos + 1, level) {
            if pos < after <= t.len() {
                lemma_binary_rest_moves_on(
                    t,
                    n,
                    after,
                    level,
                    ExprView::Binary(Box::new(left), t[pos].type_, Box::new(right)),
                );
            }
        }
    }
}

pub proof fn lemma_binary_moves_on(t: Seq<Token>, n: Seq<Option<u64>>, pos: int, level: int)
    ensures
        moved_on(t, pos, spec_binary(t, n, pos, level)),
    decreases t.len() - pos, 20 - 2 * level,
{
    if 0 <= level <= 5 {
        lemma_operand_moves_on(t, n, pos, level);
        if let Parsed::Done(left, after) = spec_operand(t, n, pos, level) {
            if pos < after <= t.len() {
                lemma_binary_rest_moves_on(t, n, after, level, left);
            }
        }
    }
}

pub proof fn lemma_expression_moves_on(t: Seq<Token>, n: Seq<Option<u64>>, pos: int)
    ensures
        moved_on(t, pos, spec_expression(t, n, pos)),
    decreases t.len() - pos, 30int,
{
    lemma_binary_moves_on(t, n, pos, 0);
    if let Parsed::Done(target, after) = spec_binary(t, n, pos, 0) {
        if is_at(t, after, TokenType::Equal) && pos <= after {
            lemma_expression_moves_on(t, n, after + 1);
        }
    }
}

pub proof fn lemma_simple_statements_move_on(
    t: Seq<Token>,
    n: Seq<Option<u64>>,
    pos: int,
    depth: int,
)
    requires
        0 <= pos,
    ensures
        moved_on(t, pos, spec_var_declaration(t, n, pos)),
        moved_on(t, pos, spec_expr_stmt(t, n, pos)),
        moved_on(t, pos, spec_print_stmt(t, n, pos)),
        moved_on(t, pos, spec_return_stmt(t, n, pos, depth)),
        moved_on(t, pos, spec_condition(t, n, pos)),
        moved_on(t, pos, spec_for_init(t, n, pos)),
        forall|end: TokenType| moved_on(t, pos, #[trigger] spec_for_clause(t, n, pos, end)),
{
    lemma_expression_moves_on(t, n, pos);
    lemma_expression_moves_on(t, n, pos + 1);
    lemma_expression_moves_on(t, n, pos + 2);
    lemma_expression_moves_on(t, n, pos + 3);
}

pub proof fn lemma_if_moves_on(t: Seq<Token>, n: Seq<Option<u64>>, pos: int, depth: int)
    requires
        0 <= pos,
    ensures
        moved_on(t, pos, spec_if_stmt(t, n, pos, depth)),
    decreases t.len() - pos, 46int,
{
    lemma_simple_statements_move_on(t, n, pos, depth);
    if let Parsed::Done(cond, after) = spec_condition(t, n, pos) {
        if pos < after <= t.len() {
            lemma_statement_moves_on(t, n, after, depth);
            if let Parsed::Done(then_branch, end) = spec_statement(t, n, after, depth) {
                if is_at(t, end, TokenType::Else) && pos < end {
                    lemma_statement_moves_on(t, n, end + 1, depth);
                }
            }
        }
    }
}

pub proof fn lemma_while_moves_on(t: Seq<Token>, n: Seq<Option<u64>>, pos: int, depth: int)
    requires
        0 <= pos,
    ensures
        moved_on(t, pos, spec_while_stmt(t, n, pos, depth)),
    decreases t.len() - pos, 46int,
{
    lemma_simple_statements_move_on(t, n, pos, depth);
    if let Parsed::Done(cond, after) = spec_condition(t, n, pos) {
        if pos < after <= t.len() {
            lemma_statement_moves_on(t, n, after, depth);
        }
    }
}

pub proof fn lemma_for_moves_on(t: Seq<Token>, n: Seq<Option<u64>>, pos: int, depth: int)
    requires
        0 <= pos,
    ensures
        moved_on(t, pos, spec_for_stmt(t, n, pos, depth)),
    decreases t.len() - pos, 47int,
{
    if is_at(t, pos, TokenType::LeftParen) {
        lemma_simple_statements_move_on(t, n, pos + 1, depth);
        if let Parsed::Done(init, after_init) = spec_for_init(t, n, pos + 1) {
            lemma_simple_statements_move_on(t, n, after_init, depth);
            if let Parsed::Done(cond, after_cond) = spec_for_clause(
                t,
                n,
                after_init,
                TokenType::Semicolon,
            ) {
                lemma_simple_statements_move_on(t, n, after_cond, depth);
                if let Parsed::Done(incr, after_incr) = spec_for_clause(
                    t,
                    n,
                    after_cond,
                    TokenType::RightParen,
                ) {
                    if pos < after_incr <= t.len() {
                        lemma_statement_moves_on(t, n, after_incr, depth);
                    }
                }
            }
        }
    }
}

pub proof fn lemma_block_items_move_on(
    t: Seq<Token>,
    n: Seq<Option<u64>>,
    pos: int,
    depth: int,
    seen: Seq<StatementView>,
)
    requires
        0 <= pos,
    ensures
        moved_on(t, pos, spec_block_items(t, n, pos, depth, seen)),
    decreases t.len() - pos, 70int,
{
    if !is_at(t, pos, TokenType::RightBrace) && !at_end(t, pos) {
        lemma_declaration_moves_on(t, n, pos, depth);
        if let Parsed::Done(item, after) = spec_declaration(t, n, pos, depth) {
            if pos < after <= t.len() {
                lemma_block_items_move_on(t, n, after, depth, seen.push(item));
            }
        }
    }
}

pub proof fn lemma_statement_moves_on(t: Seq<Token>, n: Seq<Option<u64>>, pos: int, depth: int)
    requires
        0 <= pos,
    ensures
        moved_on(t, pos, spec_statement(t, n, pos, depth)),
    decreases t.len() - pos, 50int,
{
    lemma_simple_statements_move_on(t, n, pos, depth);
    lemma_simple_statements_move_on(t, n, pos + 1, depth);
    match kind_at(t, pos) {
        Some(TokenType::If) => lemma_if_moves_on(t, n, pos + 1, depth),
        Some(TokenType::While) => lemma_while_moves_on(t, n, pos + 1, depth),
        Some(TokenType::For) => lemma_for_moves_on(t, n, pos + 1, depth),
        Some(TokenType::LeftBrace) => lemma_block_items_move_on(
            t,
            n,
            pos + 1,
            depth,
            Seq::empty(),
        ),
        _ => {},
    }
}

pub proof fn lemma_parameters_move_on(t: Seq<Token>, pos: int, seen: Seq<Seq<char>>)
    ensures
        moved_on(t, pos, spec_parameters(t, pos, seen)),
    decreases t.len() - pos,
{
    if seen.len() < MAX_ARITY && is_at(t, pos, TokenType::Identifier) && is_at(
        t,
        pos + 1,
        TokenType::Comma,
    ) {
        lemma_parameters_move_on(t, pos + 2, seen.push(t[pos].lexeme@));
    }
}

pub proof fn lemma_fun_declaration_moves_on(
    t: Seq<Token>,
    n: Seq<Option<u64>>,
    pos: int,
    depth: int,
)
    requires
        0 <= pos,
    ensures
        moved_on(t, pos, spec_fun_declaration(t, n, pos, depth)),
    decreases t.len() - pos, 55int,
{
    if is_at(t, pos, TokenType::Identifier) && is_at(t, pos + 1, TokenType::LeftParen) {
        let parameters = if is_at(t, pos + 2, TokenType::RightParen) {
            Parsed::Done(Seq::<Seq<char>>::empty(), pos + 3)
        } else {
            lemma_parameters_move_on(t, pos + 2, Seq::empty());
            spec_parameters(t, pos + 2, Seq::empty())
        };
        if let Parsed::Done(params, after) = parameters {
            if is_at(t, after, TokenType::LeftBrace) && pos < after {
                lemma_block_items_move_on(t, n, after + 1, depth + 1, Seq::empty());
            }
        }
    }
}

pub proof fn lemma_declaration_moves_on(t: Seq<Token>, n: Seq<Option<u64>>, pos: int, depth: int)
    requires
        0 <= pos,
    ensures
        moved_on(t, pos, spec_declaration(t, n, pos, depth)),
    decreases t.len() - pos, 60int,
{
    match kind_at(t, pos) {
        Some(TokenType::Var) => lemma_simple_statements_move_on(t, n, pos + 1, depth),
        Some(TokenType::Fun) => lemma_fun_declaration_moves_on(t, n, pos + 1, depth),
        _ => lemma_statement_moves_on(t, n, pos, depth),
    }
}

} // verus!
