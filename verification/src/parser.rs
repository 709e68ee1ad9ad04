//! Syntax-tree construction: tokens to statements and expressions.
//!
//! The grammar, lowest precedence first: comparison (`== != < > <= >=`),
//! additive (`+ -`), multiplicative (`* /`), unary (`- not`), then
//! primaries (literals, variables, calls, parenthesized groups). All
//! binary levels are left-associative. Statements are terminated by `!`;
//! blocks are brace-delimited. A declaration is `var`/`const` (optionally
//! doubled, as in `const const`) followed by a name, `=`, and an
//! initializer; the first keyword decides whether the binding may later
//! be reassigned. Parsing stops at the first grammar violation and
//! reports a `ParseError` diagnostic carrying the offending token's
//! position; an unterminated block fails at end of input.

use vstd::prelude::*;
use std::rc::Rc;
use crate::token::{Token, TokKind};
use crate::ast::{Expr, ExprKind, Stmt, StmtKind, LitVal, UnOp, BinOp, SyntaxTree};
use crate::diag::{Diagnostic, Phase, ErrKind};

verus! {

/// Every parser error is a parse-phase `ParseError` whose position is
/// the position of a token of the input (for empty input, line one,
/// column one).
pub open spec fn is_parse_err(toks: Seq<Token>, d: Diagnostic) -> bool {
    &&& d.phase == Phase::Parse
    &&& d.kind == ErrKind::ParseError
    &&& is_token_pos(toks, d.line, d.column)
}

/// Whether (`line`, `col`) is the source position of one of the tokens.
pub open spec fn is_token_pos(toks: Seq<Token>, line: u64, col: u64) -> bool {
    (exists|k: int|
        0 <= k < toks.len() && line == (#[trigger] toks[k]).line && col == toks[k].col) || (
    toks.len() == 0 && line == 1 && col == 1)
}

/// A text-literal token followed directly by the statement terminator:
/// the expression grammar must yield exactly that literal.
pub open spec fn str_then_bang(ts: Seq<Token>, i: int) -> bool {
    &&& 0 <= i
    &&& i + 1 < ts.len()
    &&& ts[i].kind is Str
    &&& ts[i + 1].kind is Bang
}

/// `e` is the text-literal expression written by token `t`: same text,
/// same position.
pub open spec fn is_text_lit_expr(e: Expr, t: Token) -> bool {
    &&& e.kind matches ExprKind::Lit(l) && l matches LitVal::Text(s) && s@ == t.kind->Str_0@
    &&& e.line == t.line
    &&& e.col == t.col
}

/// `s` is the print statement of the text literal `st`, positioned at
/// its `print` keyword `kw`.
pub open spec fn is_print_text_stmt(s: Stmt, kw: Token, st: Token) -> bool {
    &&& s.kind matches StmtKind::Print(e) && is_text_lit_expr(e, st)
    &&& s.line == kw.line
    &&& s.col == kw.col
}

/// The token shape of a one-statement program printing a text literal:
/// `print '<text>' !` and end of input.
pub open spec fn print_str_shape(ts: Seq<Token>) -> bool {
    &&& ts.len() == 4
    &&& ts[0].kind is KwPrint
    &&& ts[1].kind is Str
    &&& ts[2].kind is Bang
    &&& ts[3].kind is Eoi
}

/// The position reported for the token at `i`: the token's own position,
/// or the last token's (or line one, column one) past the end.
fn pos_of(toks: &Vec<Token>, i: usize) -> (r: (u64, u64))
    ensures
        is_token_pos(toks@, r.0, r.1),
{
    if i < toks.len() {
        (toks[i].line, toks[i].col)
    } else if toks.len() > 0 {
        (toks[toks.len() - 1].line, toks[toks.len() - 1].col)
    } else {
        (1, 1)
    }
}

/// A parse-phase diagnostic at the given position.
fn perr(msg: &str, at: (u64, u64)) -> (d: Diagnostic)
    ensures
        d.phase == Phase::Parse,
        d.kind == ErrKind::ParseError,
        d.line == at.0,
        d.column == at.1,
{
    Diagnostic::new(Phase::Parse, ErrKind::ParseError, msg.to_owned(), at.0, at.1)
}

/// Consumes the `!` that terminates a simple statement.
fn expect_bang(toks: &Vec<Token>, i: usize) -> (r: Result<usize, Diagnostic>)
    requires
        i <= toks@.len(),
    ensures
        r matches Ok(j) ==> i < j <= toks@.len(),
        r matches Err(d) ==> is_parse_err(toks@, d),
        (i < toks@.len() && toks@[i as int].kind is Bang) ==> (r matches Ok(j) && j == i + 1),
{
    if i < toks.len() {
        if matches!(&toks[i].kind, TokKind::Bang) {
            return Ok(i + 1);
        }
    }
    Err(perr("expected '!' to end the statement", pos_of(toks, i)))
}

/// Parses a comparison-level expression (the whole expression grammar).
pub fn parse_expr(toks: &Vec<Token>, i: usize) -> (r: Result<(Expr, usize), Diagnostic>)
    requires
        i <= toks@.len(),
    ensures
        r matches Ok(t) ==> i < t.1 <= toks@.len(),
        r matches Err(d) ==> is_parse_err(toks@, d),
        str_then_bang(toks@, i as int) ==> (r matches Ok(t) && t.1 == i + 1 && is_text_lit_expr(
            t.0,
            toks@[i as int],
        )),
    decreases toks@.len() - i, 8int,
{
    let (mut left, mut j) = match parse_add(toks, i) {
        Ok(t) => t,
        Err(d) => {
            return Err(d);
        },
    };
    loop
        invariant
            i < j <= toks@.len(),
            str_then_bang(toks@, i as int) ==> (j == i + 1 && is_text_lit_expr(
                left,
                toks@[i as int],
            )),
        decreases toks@.len() - j,
    {
        let op: Option<BinOp> = if j < toks.len() {
            match &toks[j].kind {
                TokKind::EqEq => Some(BinOp::Eq),
                TokKind::NotEq => Some(BinOp::Ne),
                TokKind::Lt => Some(BinOp::Lt),
                TokKind::Gt => Some(BinOp::Gt),
                TokKind::Le => Some(BinOp::Le),
                TokKind::Ge => Some(BinOp::Ge),
                _ => None,
            }
        } else {
            None
        };
        match op {
            Some(b) => {
                let (right, j2) = match parse_add(toks, j + 1) {
                    Ok(t) => t,
                    Err(d) => {
                        return Err(d);
                    },
                };
                let line = left.line;
                let col = left.col;
                left = Expr { kind: ExprKind::Binary(b, Box::new(left), Box::new(right)), line, col };
                j = j2;
            },
            None => {
                return Ok((left, j));
            },
        }
    }
}

/// Parses an additive-level expression.
fn parse_add(toks: &Vec<Token>, i: usize) -> (r: Result<(Expr, usize), Diagnostic>)
    requires
        i <= toks@.len(),
    ensures
        r matches Ok(t) ==> i < t.1 <= toks@.len(),
        r matches Err(d) ==> is_parse_err(toks@, d),
        str_then_bang(toks@, i as int) ==> (r matches Ok(t) && t.1 == i + 1 && is_text_lit_expr(
            t.0,
            toks@[i as int],
        )),
    decreases toks@.len() - i, 7int,
{
    let (mut left, mut j) = match parse_mul(toks, i) {
        Ok(t) => t,
        Err(d) => {
            return Err(d);
        },
    };
    loop
        invariant
            i < j <= toks@.len(),
            str_then_bang(toks@, i as int) ==> (j == i + 1 && is_text_lit_expr(
                left,
                toks@[i as int],
            )),
        decreases toks@.len() - j,
    {
        let op: Option<BinOp> = if j < toks.len() {
            match &toks[j].kind {
                TokKind::Plus => Some(BinOp::Add),
                TokKind::Minus => Some(BinOp::Sub),
                _ => None,
            }
        } else {
            None
        };
        match op {
            Some(b) => {
                let (right, j2) = match parse_mul(toks, j + 1) {
                    Ok(t) => t,
                    Err(d) => {
                        return Err(d);
                    },
                };
                let line = left.line;
                let col = left.col;
                left = Expr { kind: ExprKind::Binary(b, Box::new(left), Box::new(right)), line, col };
                j = j2;
            },
            None => {
                return Ok((left, j));
            },
        }
    }
}

/// Parses a multiplicative-level expression.
fn parse_mul(toks: &Vec<Token>, i: usize) -> (r: Result<(Expr, usize), Diagnostic>)
    requires
        i <= toks@.len(),
    ensures
        r matches Ok(t) ==> i < t.1 <= toks@.len(),
        r matches Err(d) ==> is_parse_err(toks@, d),
        str_then_bang(toks@, i as int) ==> (r matches Ok(t) && t.1 == i + 1 && is_text_lit_expr(
            t.0,
            toks@[i as int],
        )),
    decreases toks@.len() - i, 6int,
{
    let (mut left, mut j) = match parse_unary(toks, i) {
        Ok(t) => t,
        Err(d) => {
            return Err(d);
        },
    };
    loop
        invariant
            i < j <= toks@.len(),
            str_then_bang(toks@, i as int) ==> (j == i + 1 && is_text_lit_expr(
                left,
                toks@[i as int],
            )),
        decreases toks@.len() - j,
    {
        let op: Option<BinOp> = if j < toks.len() {
            match &toks[j].kind {
                TokKind::Star => Some(BinOp::Mul),
                TokKind::Slash => Some(BinOp::Div),
                _ => None,
            }
        } else {
            None
        };
        match op {
            Some(b) => {
                let (right, j2) = match parse_unary(toks, j + 1) {
                    Ok(t) => t,
                    Err(d) => {
                        return Err(d);
                    },
                };
                let line = left.line;
                let col = left.col;
                left = Expr { kind: ExprKind::Binary(b, Box::new(left), Box::new(right)), line, col };
                j = j2;
            },
            None => {
                return Ok((left, j));
            },
        }
    }
}

/// Parses a unary-level expression: `-`/`not` chains over primaries.
fn parse_unary(toks: &Vec<Token>, i: usize) -> (r: Result<(Expr, usize), Diagnostic>)
    requires
        i <= toks@.len(),
    ensures
        r matches Ok(t) ==> i < t.1 <= toks@.len(),
        r matches Err(d) ==> is_parse_err(toks@, d),
        str_then_bang(toks@, i as int) ==> (r matches Ok(t) && t.1 == i + 1 && is_text_lit_expr(
            t.0,
            toks@[i as int],
        )),
    decreases toks@.len() - i, 5int,
{
    if i < toks.len() {
        let line = toks[i].line;
        let col = toks[i].col;
        let op: Option<UnOp> = match &toks[i].kind {
            TokKind::Minus => Some(UnOp::Neg),
            TokKind::KwNot => Some(UnOp::Not),
            _ => None,
        };
        match op {
            Some(u) => {
                let (inner, j) = match parse_unary(toks, i + 1) {
                    Ok(t) => t,
                    Err(d) => {
                        return Err(d);
                    },
                };
                return Ok((Expr { kind: ExprKind::Unary(u, Box::new(inner)), line, col }, j));
            },
            None => {},
        }
    }
    parse_primary(toks, i)
}

/// Parses a primary expression: a literal, a variable, a call, or a
/// parenthesized group.
fn parse_primary(toks: &Vec<Token>, i: usize) -> (r: Result<(Expr, usize), Diagnostic>)
    requires
        i <= toks@.len(),
    ensures
        r matches Ok(t) ==> i < t.1 <= toks@.len(),
        r matches Err(d) ==> is_parse_err(toks@, d),
        str_then_bang(toks@, i as int) ==> (r matches Ok(t) && t.1 == i + 1 && is_text_lit_expr(
            t.0,
            toks@[i as int],
        )),
    decreases toks@.len() - i, 4int,
{
    if i >= toks.len() {
        return Err(perr("expected an expression", pos_of(toks, i)));
    }
    let line = toks[i].line;
    let col = toks[i].col;
    match &toks[i].kind {
        TokKind::Num(n) => Ok((Expr { kind: ExprKind::Lit(LitVal::Num(*n)), line, col }, i + 1)),
        TokKind::Str(s) => Ok(
            (Expr { kind: ExprKind::Lit(LitVal::Text(s.clone())), line, col }, i + 1),
        ),
        TokKind::KwTrue => Ok((Expr { kind: ExprKind::Lit(LitVal::Truth(true)), line, col }, i + 1)),
        TokKind::KwFalse => Ok(
            (Expr { kind: ExprKind::Lit(LitVal::Truth(false)), line, col }, i + 1),
        ),
        TokKind::KwUndefined => Ok((Expr { kind: ExprKind::Lit(LitVal::Undef), line, col }, i + 1)),
        TokKind::Ident(name) => {
            let nm = name.clone();
            if i + 1 < toks.len() && matches!(&toks[i + 1].kind, TokKind::LParen) {
                let (args, j) = match parse_args(toks, i + 2) {
                    Ok(t) => t,
                    Err(d) => {
                        return Err(d);
                    },
                };
                Ok((Expr { kind: ExprKind::Call(nm, args), line, col }, j))
            } else {
                Ok((Expr { kind: ExprKind::Var(nm), line, col }, i + 1))
            }
        },
        TokKind::LParen => {
            let (inner, j) = match parse_expr(toks, i + 1) {
                Ok(t) => t,
                Err(d) => {
                    return Err(d);
                },
            };
            if j < toks.len() && matches!(&toks[j].kind, TokKind::RParen) {
                Ok((inner, j + 1))
            } else {
                Err(perr("expected ')' to close the group", pos_of(toks, j)))
            }
        },
        _ => Err(perr("expected an expression", pos_of(toks, i))),
    }
}

/// Parses a call's argument list; `i` stands just past the `(`. Consumes
/// the closing `)`.
fn parse_args(toks: &Vec<Token>, i: usize) -> (r: Result<(Vec<Expr>, usize), Diagnostic>)
    requires
        i <= toks@.len(),
    ensures
        r matches Ok(t) ==> i <= t.1 <= toks@.len(),
        r matches Err(d) ==> is_parse_err(toks@, d),
    decreases toks@.len() - i, 9int,
{
    let mut args: Vec<Expr> = Vec::new();
    let mut j = i;
    if j < toks.len() && matches!(&toks[j].kind, TokKind::RParen) {
        return Ok((args, j + 1));
    }
    loop
        invariant
            i <= j <= toks@.len(),
        decreases toks@.len() - j,
    {
        let (arg, j2) = match parse_expr(toks, j) {
            Ok(t) => t,
            Err(d) => {
                return Err(d);
            },
        };
        args.push(arg);
        if j2 < toks.len() && matches!(&toks[j2].kind, TokKind::RParen) {
            return Ok((args, j2 + 1));
        }
        if j2 < toks.len() && matches!(&toks[j2].kind, TokKind::Comma) {
            j = j2 + 1;
        } else {
            return Err(perr("expected ',' or ')' in the argument list", pos_of(toks, j2)));
        }
    }
}

/// Parses a brace-delimited block; `i` must stand at the `{`. Consumes
/// the closing `}`; an unterminated block fails at end of input.
fn parse_block(toks: &Vec<Token>, i: usize) -> (r: Result<(Vec<Stmt>, usize), Diagnostic>)
    requires
        i <= toks@.len(),
    ensures
        r matches Ok(t) ==> i < t.1 <= toks@.len(),
        r matches Err(d) ==> is_parse_err(toks@, d),
    decreases toks@.len() - i, 11int,
{
    if !(i < toks.len() && matches!(&toks[i].kind, TokKind::LBrace)) {
        return Err(perr("expected '{' to open a block", pos_of(toks, i)));
    }
    let mut stmts: Vec<Stmt> = Vec::new();
    let mut j = i + 1;
    loop
        invariant
            i < j <= toks@.len(),
        decreases toks@.len() - j,
    {
        if j >= toks.len() || matches!(&toks[j].kind, TokKind::Eoi) {
            return Err(perr("unterminated block: expected '}'", pos_of(toks, j)));
        }
        if matches!(&toks[j].kind, TokKind::RBrace) {
            return Ok((stmts, j + 1));
        }
        let (st, j2) = match parse_stmt(toks, j) {
            Ok(t) => t,
            Err(d) => {
                return Err(d);
            },
        };
        stmts.push(st);
        j = j2;
    }
}

/// Parses a function declaration's parameter list; `i` stands just past
/// the `(`. Consumes the closing `)`.
fn parse_params(toks: &Vec<Token>, i: usize) -> (r: Result<(Vec<String>, usize), Diagnostic>)
    requires
        i <= toks@.len(),
    ensures
        r matches Ok(t) ==> i <= t.1 <= toks@.len(),
        r matches Err(d) ==> is_parse_err(toks@, d),
    decreases toks@.len() - i,
{
    let mut params: Vec<String> = Vec::new();
    let mut j = i;
    if j < toks.len() && matches!(&toks[j].kind, TokKind::RParen) {
        return Ok((params, j + 1));
    }
    loop
        invariant
            i <= j <= toks@.len(),
        decreases toks@.len() - j,
    {
        if j >= toks.len() {
            return Err(perr("expected a parameter name", pos_of(toks, j)));
        }
        let nm = match &toks[j].kind {
            TokKind::Ident(name) => name.clone(),
            _ => {
                return Err(perr("expected a parameter name", pos_of(toks, j)));
            },
        };
        params.push(nm);
        if j + 1 < toks.len() && matches!(&toks[j + 1].kind, TokKind::RParen) {
            return Ok((params, j + 2));
        }
        if j + 1 < toks.len() && matches!(&toks[j + 1].kind, TokKind::Comma) {
            j = j + 2;
        } else {
            return Err(perr("expected ',' or ')' in the parameter list", pos_of(toks, j + 1)));
        }
    }
}

/// Parses a parenthesized condition followed by a block, for `if` and
/// `while` statement heads; `i` stands just past the keyword.
fn parse_cond_block(toks: &Vec<Token>, i: usize) -> (r: Result<
    (Expr, Vec<Stmt>, usize),
    Diagnostic,
>)
    requires
        i <= toks@.len(),
    ensures
        r matches Ok(t) ==> i < t.2 <= toks@.len(),
        r matches Err(d) ==> is_parse_err(toks@, d),
    decreases toks@.len() - i, 12int,
{
    if !(i < toks.len() && matches!(&toks[i].kind, TokKind::LParen)) {
        return Err(perr("expected '(' before the condition", pos_of(toks, i)));
    }
    let (cond, j) = match parse_expr(toks, i + 1) {
        Ok(t) => t,
        Err(d) => {
            return Err(d);
        },
    };
    if !(j < toks.len() && matches!(&toks[j].kind, TokKind::RParen)) {
        return Err(perr("expected ')' after the condition", pos_of(toks, j)));
    }
    let (body, j2) = match parse_block(toks, j + 1) {
        Ok(t) => t,
        Err(d) => {
            return Err(d);
        },
    };
    Ok((cond, body, j2))
}

/// Parses one statement starting at `i`. A `print` of a text literal
/// is pinned exactly: the statement is that literal's print, at the
/// keyword's position.
#[verifier::rlimit(50)]
pub fn parse_stmt(toks: &Vec<Token>, i: usize) -> (r: Result<(Stmt, usize), Diagnostic>)
    requires
        i <= toks@.len(),
    ensures
        r matches Ok(t) ==> i < t.1 <= toks@.len(),
        r matches Err(d) ==> is_parse_err(toks@, d),
        (i < toks@.len() && toks@[i as int].kind is KwPrint && str_then_bang(
            toks@,
            i as int + 1,
        )) ==> (r matches Ok(t) && t.1 == i + 3 && is_print_text_stmt(
            t.0,
            toks@[i as int],
            toks@[i as int + 1],
        )),
    decreases toks@.len() - i, 13int,
{
    if i >= toks.len() {
        return Err(perr("expected a statement", pos_of(toks, i)));
    }
    let line = toks[i].line;
    let col = toks[i].col;
    match &toks[i].kind {
        TokKind::KwVar | TokKind::KwConst => {
            let mutable = matches!(&toks[i].kind, TokKind::KwVar);
            // The declaration keyword may be doubled (`const const x`);
            // the first keyword decides reassignability.
            let mut j = i + 1;
            if j < toks.len() && (matches!(&toks[j].kind, TokKind::KwVar) || matches!(
                &toks[j].kind,
                TokKind::KwConst,
            )) {
                j = j + 1;
            }
            if j >= toks.len() {
                return Err(perr("expected a name to declare", pos_of(toks, j)));
            }
            let nm = match &toks[j].kind {
                TokKind::Ident(name) => name.clone(),
                _ => {
                    return Err(perr("expected a name to declare", pos_of(toks, j)));
                },
            };
            if !(j + 1 < toks.len() && matches!(&toks[j + 1].kind, TokKind::Assign)) {
                return Err(perr("expected '=' in the declaration", pos_of(toks, j + 1)));
            }
            let (init, j2) = match parse_expr(toks, j + 2) {
                Ok(t) => t,
                Err(d) => {
                    return Err(d);
                },
            };
            let j3 = match expect_bang(toks, j2) {
                Ok(t) => t,
                Err(d) => {
                    return Err(d);
                },
            };
            Ok((Stmt { kind: StmtKind::Decl { mutable, name: nm, init }, line, col }, j3))
        },
        TokKind::KwPrint => {
            let (e, j) = match parse_expr(toks, i + 1) {
                Ok(t) => t,
                Err(d) => {
                    return Err(d);
                },
            };
            let j2 = match expect_bang(toks, j) {
                Ok(t) => t,
                Err(d) => {
                    return Err(d);
                },
            };
            Ok((Stmt { kind: StmtKind::Print(e), line, col }, j2))
        },
        TokKind::KwIf => {
            let (cond, then_branch, j) = match parse_cond_block(toks, i + 1) {
                Ok(t) => t,
                Err(d) => {
                    return Err(d);
                },
            };
            if j < toks.len() && matches!(&toks[j].kind, TokKind::KwElse) {
                let (else_branch, j2) = match parse_block(toks, j + 1) {
                    Ok(t) => t,
                    Err(d) => {
                        return Err(d);
                    },
                };
                Ok(
                    (
                        Stmt { kind: StmtKind::If { cond, then_branch, else_branch }, line, col },
                        j2,
                    ),
                )
            } else {
                let else_branch: Vec<Stmt> = Vec::new();
                Ok(
                    (
                        Stmt { kind: StmtKind::If { cond, then_branch, else_branch }, line, col },
                        j,
                    ),
                )
            }
        },
        TokKind::KwWhile => {
            let (cond, body, j) = match parse_cond_block(toks, i + 1) {
                Ok(t) => t,
                Err(d) => {
                    return Err(d);
                },
            };
            Ok((Stmt { kind: StmtKind::While { cond, body }, line, col }, j))
        },
        TokKind::KwFunction => {
            if i + 1 >= toks.len() {
                return Err(perr("expected a function name", pos_of(toks, i + 1)));
            }
            let nm = match &toks[i + 1].kind {
                TokKind::Ident(name) => name.clone(),
                _ => {
                    return Err(perr("expected a function name", pos_of(toks, i + 1)));
                },
            };
            if !(i + 2 < toks.len() && matches!(&toks[i + 2].kind, TokKind::LParen)) {
                return Err(perr("expected '(' after the function name", pos_of(toks, i + 2)));
            }
            let (params, j) = match parse_params(toks, i + 3) {
                Ok(t) => t,
                Err(d) => {
                    return Err(d);
                },
            };
            let (body, j2) = match parse_block(toks, j) {
                Ok(t) => t,
                Err(d) => {
                    return Err(d);
                },
            };
            Ok(
                (
                    Stmt {
                        kind: StmtKind::FuncDecl {
                            name: nm,
                            params: Rc::new(params),
                            body: Rc::new(body),
                        },
                        line,
                        col,
                    },
                    j2,
                ),
            )
        },
        TokKind::KwReturn => {
            if i + 1 < toks.len() && matches!(&toks[i + 1].kind, TokKind::Bang) {
                return Ok((Stmt { kind: StmtKind::Return(None), line, col }, i + 2));
            }
            let (e, j) = match parse_expr(toks, i + 1) {
                Ok(t) => t,
                Err(d) => {
                    return Err(d);
                },
            };
            let j2 = match expect_bang(toks, j) {
                Ok(t) => t,
                Err(d) => {
                    return Err(d);
                },
            };
            Ok((Stmt { kind: StmtKind::Return(Some(e)), line, col }, j2))
        },
        TokKind::LBrace => {
            let (stmts, j) = match parse_block(toks, i) {
                Ok(t) => t,
                Err(d) => {
                    return Err(d);
                },
            };
            Ok((Stmt { kind: StmtKind::Block(stmts), line, col }, j))
        },
        TokKind::Ident(name) => {
            if i + 1 < toks.len() && matches!(&toks[i + 1].kind, TokKind::Assign) {
                let nm = name.clone();
                let (value, j) = match parse_expr(toks, i + 2) {
                    Ok(t) => t,
                    Err(d) => {
                        return Err(d);
                    },
                };
                let j2 = match expect_bang(toks, j) {
                    Ok(t) => t,
                    Err(d) => {
                        return Err(d);
                    },
                };
                Ok((Stmt { kind: StmtKind::Assign { name: nm, value }, line, col }, j2))
            } else {
                let (e, j) = match parse_expr(toks, i) {
                    Ok(t) => t,
                    Err(d) => {
                        return Err(d);
                    },
                };
                let j2 = match expect_bang(toks, j) {
                    Ok(t) => t,
                    Err(d) => {
                        return Err(d);
                    },
                };
                Ok((Stmt { kind: StmtKind::ExprStmt(e), line, col }, j2))
            }
        },
        _ => {
            let (e, j) = match parse_expr(toks, i) {
                Ok(t) => t,
                Err(d) => {
                    return Err(d);
                },
            };
            let j2 = match expect_bang(toks, j) {
                Ok(t) => t,
                Err(d) => {
                    return Err(d);
                },
            };
            Ok((Stmt { kind: StmtKind::ExprStmt(e), line, col }, j2))
        },
    }
}

/// Builds the syntax tree for a whole token sequence: a flat ordered
/// list of top-level statements, in execution order. Fails with a
/// `ParseError` diagnostic at a token position at the first grammar
/// violation; a nonempty program yields a nonempty tree. The
/// one-statement text-print program is pinned exactly: its tree is that
/// single print statement. The source name and original text are
/// carried for the caller's presentation only.
pub fn build_tree(_source_name: &str, tokens: Vec<Token>, _original_text: &str) -> (r: Result<
    SyntaxTree,
    Diagnostic,
>)
    ensures
        r matches Err(d) ==> is_parse_err(tokens@, d),
        r matches Ok(t) ==> ((t.stmts@.len() == 0) <==> (tokens@.len() == 0 || tokens@[0].kind
            is Eoi)),
        print_str_shape(tokens@) ==> (r matches Ok(t) && t.stmts@.len() == 1
            && is_print_text_stmt(t.stmts@[0], tokens@[0], tokens@[1])),
{
    let mut stmts: Vec<Stmt> = Vec::new();
    let mut i: usize = 0;
    loop
        invariant
            i <= tokens@.len(),
            stmts@.len() == 0 <==> i == 0,
            i > 0 ==> tokens@.len() > 0 && !(tokens@[0].kind is Eoi),
            print_str_shape(tokens@) ==> ((i == 0 && stmts@.len() == 0) || (i == 3
                && stmts@.len() == 1 && is_print_text_stmt(
                stmts@[0],
                tokens@[0],
                tokens@[1],
            ))),
        decreases tokens@.len() - i,
    {
        if i >= tokens.len() || matches!(&tokens[i].kind, TokKind::Eoi) {
            return Ok(SyntaxTree { stmts });
        }
        let (st, j) = match parse_stmt(&tokens, i) {
            Ok(t) => t,
            Err(d) => {
                return Err(d);
            },
        };
        stmts.push(st);
        i = j;
    }
}

} // verus!
