//! The tree-walking evaluator.
//!
//! Statements run strictly in order against an environment arena seeded
//! with one global scope. The built-in catalog is consulted for a call
//! whose name no enclosing scope binds, so a user binding shadows a
//! built-in of the same name; a bare (non-call) reference to a built-in
//! name is an `UndefinedVariable` diagnostic — the catalog holds
//! operations, not values. Evaluation is fail-fast: the first
//! diagnostic stops the run, and effects already appended to the output
//! stream remain (the output only ever grows — that is part of every
//! contract here). These semantics bound every run by an explicit
//! execution budget, set by the caller through `step_budget`: every
//! statement, expression, loop iteration and call costs one step, and a
//! run that exhausts the budget stops with a diagnostic. This is a
//! deliberate departure from leaving a never-false loop to run forever:
//! every function here provably terminates, so unbounded iteration
//! cannot be offered, and the budget makes the bound explicit and
//! caller-chosen instead of an accident of the machine. Conditions must
//! be booleans;
//! `+` concatenates when either operand is text and adds when both are
//! numbers; the other arithmetic operators and the orderings take
//! numbers only; `==`/`!=` compare structurally and refuse function
//! values. Calling a function value opens a child scope of the frame it
//! captured at definition, never of the call site: scoping is lexical.

use vstd::prelude::*;
use crate::ast::{Expr, ExprKind, Stmt, StmtKind, LitVal, UnOp, BinOp, SyntaxTree};
use crate::diag::{Diagnostic, Phase, ErrKind};
use crate::env::{EnvArena, AssignErr, Frame, wf_frames};
use crate::value::{Value, FuncVal, ValModel, val_model, to_text, fp_arith, val_eq, rc_dup};
use crate::builtins::{is_builtin, invoke};

verus! {

/// How a statement finished: fell through, or returned a value.
pub enum Flow {
    Normal,
    Return(Value),
}

/// The default execution budget: enough for any reasonable program,
/// explicit in the semantics rather than an accident of the machine.
pub const DEFAULT_STEP_BUDGET: u64 = 10000000;

/// The interpreter: the scope arena, the effect stream (one entry per
/// `print`), the current-line cursor surfaced to observers, and the
/// execution budget for the next run.
pub struct Interpreter {
    pub source_name: String,
    pub env: EnvArena,
    pub output: Vec<String>,
    pub current_line: u64,
    pub step_budget: u64,
}

/// The interpreter's structural invariant: parents point downward and
/// the global scope exists.
pub open spec fn interp_inv(it: Interpreter) -> bool {
    &&& wf_frames(it.env.frames@)
    &&& it.env.frames@.len() >= 1
}

/// Scope-chain stability: frames are only ever added, and the parent
/// link of every existing frame stays what it was — a captured scope
/// chain can never be rewired by later evaluation.
pub open spec fn parents_preserved(a: Seq<Frame>, b: Seq<Frame>) -> bool {
    &&& b.len() >= a.len()
    &&& forall|i: int| 0 <= i < a.len() ==> b[i].parent == a[i].parent
}

/// The effect stream only ever grows: everything already printed stays.
pub open spec fn output_extends(a: Seq<String>, b: Seq<String>) -> bool {
    &&& b.len() >= a.len()
    &&& forall|i: int| 0 <= i < a.len() ==> a[i] == b[i]
}

/// The text a statement prints when it is a `print` of a text literal.
pub open spec fn lit_print_text(s: Stmt) -> Option<Seq<char>> {
    match s.kind {
        StmtKind::Print(e) => match e.kind {
            ExprKind::Lit(l) => match l {
                LitVal::Text(t) => Some(t@),
                _ => None,
            },
            _ => None,
        },
        _ => None,
    }
}

/// Whether every statement is a `print` of a text literal.
pub open spec fn all_lit_prints(ss: Seq<Stmt>) -> bool {
    forall|k: int| 0 <= k < ss.len() ==> (#[trigger] lit_print_text(ss[k])) is Some
}

/// The texts such a program prints, in order.
pub open spec fn print_texts(ss: Seq<Stmt>) -> Seq<Seq<char>> {
    Seq::new(ss.len(), |k: int| lit_print_text(ss[k])->Some_0)
}

/// The texts of the output stream's entries.
pub open spec fn texts_of(o: Seq<String>) -> Seq<Seq<char>> {
    Seq::new(o.len(), |k: int| o[k]@)
}

/// The model of a literal's value.
pub open spec fn lit_model(l: LitVal) -> ValModel {
    match l {
        LitVal::Num(n) => ValModel::Num(n as int),
        LitVal::Text(s) => ValModel::Text(s@),
        LitVal::Truth(b) => ValModel::Truth(b),
        LitVal::Undef => ValModel::Undef,
    }
}

/// What executing `name = <literal> !` does, by where `name` resolves
/// in the scope chain: an undeclared name is an `UndefinedVariable`
/// diagnostic and an immutable binding an `ImmutableAssignment`
/// diagnostic, both at the statement's own position and leaving the
/// environment and the output exactly as they were; a mutable binding
/// takes exactly the literal's value, under its old name.
pub open spec fn assign_lit_outcome(
    pre: Interpreter,
    post: Interpreter,
    f: int,
    name: Seq<char>,
    lv: ValModel,
    line: u64,
    col: u64,
    r: Result<(Flow, u64), Diagnostic>,
) -> bool {
    match crate::env::resolve(pre.env.frames@, f, name) {
        None => r matches Err(d) && d.kind == ErrKind::UndefinedVariable && d.line == line
            && d.column == col && post.env == pre.env && post.output == pre.output,
        Some(p) => {
            if pre.env.frames@[p.0].bindings@[p.1].mutable {
                r matches Ok(x) && x.0 is Normal && post.output == pre.output
                    && post.env.frames@.len() == pre.env.frames@.len()
                    && post.env.frames@[p.0].bindings@[p.1].name
                    == pre.env.frames@[p.0].bindings@[p.1].name && val_model(
                    post.env.frames@[p.0].bindings@[p.1].value,
                ) == lv
            } else {
                r matches Err(d) && d.kind == ErrKind::ImmutableAssignment && d.line == line
                    && d.column == col && post.env == pre.env && post.output == pre.output
            }
        },
    }
}

/// What executing a declaration with a literal initializer does: one
/// binding appended to the current frame, holding exactly the literal's
/// value under the declared name and mutability; everything already
/// bound there, and the output, untouched.
pub open spec fn decl_lit_effect(
    pre: Interpreter,
    post: Interpreter,
    f: int,
    name: Seq<char>,
    lv: ValModel,
    mutable: bool,
) -> bool {
    &&& post.output == pre.output
    &&& post.env.frames@.len() == pre.env.frames@.len()
    &&& post.env.frames@[f].bindings@.len() == pre.env.frames@[f].bindings@.len() + 1
    &&& forall|j: int|
        0 <= j < pre.env.frames@[f].bindings@.len() ==> post.env.frames@[f].bindings@[j]
            == pre.env.frames@[f].bindings@[j]
    &&& post.env.frames@[f].bindings@.last().name@ == name
    &&& post.env.frames@[f].bindings@.last().mutable == mutable
    &&& val_model(post.env.frames@[f].bindings@.last().value) == lv
}

/// A two-statement program that immutably declares a name with a
/// literal value and then assigns a literal to that same name; yields
/// the name and the declared value's model.
pub open spec fn const_then_assign(ss: Seq<Stmt>) -> Option<(Seq<char>, ValModel)> {
    if ss.len() == 2 {
        match ss[0].kind {
            StmtKind::Decl { mutable, name, init } => {
                if !mutable && init.kind is Lit {
                    match ss[1].kind {
                        StmtKind::Assign { name: n2, value } => if n2@ == name@ && value.kind
                            is Lit {
                            Some((name@, lit_model(init.kind->Lit_0)))
                        } else {
                            None
                        },
                        _ => None,
                    }
                } else {
                    None
                }
            },
            _ => None,
        }
    } else {
        None
    }
}

/// An argumentless call of a name that no enclosing scope binds and
/// that names no built-in.
pub open spec fn undefined_call_shape(frames: Seq<Frame>, f: int, e: Expr) -> bool {
    e.kind matches ExprKind::Call(name, ax) && ax@.len() == 0 && crate::env::resolve(
        frames,
        f,
        name@,
    ) is None && !crate::builtins::is_builtin_name(name@)
}

/// The statement form of such a call.
pub open spec fn undef_call_stmt(s: Stmt) -> Option<Expr> {
    match s.kind {
        StmtKind::ExprStmt(e) => if e.kind matches ExprKind::Call(name, ax) && ax@.len() == 0 {
            Some(e)
        } else {
            None
        },
        _ => None,
    }
}

/// A program of zero or more literal prints followed by an
/// argumentless call statement; yields that call's expression.
pub open spec fn prints_then_undef_call(ss: Seq<Stmt>) -> Option<Expr> {
    if ss.len() >= 1 && all_lit_prints(ss.take(ss.len() as int - 1)) {
        undef_call_stmt(ss.last())
    } else {
        None
    }
}

/// An evaluation-phase diagnostic.
fn ediag(kind: ErrKind, msg: &str, line: u64, col: u64) -> (d: Diagnostic)
    ensures
        d.phase == Phase::Eval,
        d.kind == kind,
        d.line == line,
        d.column == col,
{
    Diagnostic::new(Phase::Eval, kind, msg.to_owned(), line, col)
}

/// The value of a literal.
fn lit_value(l: &LitVal) -> (v: Value)
    ensures
        val_model(v) == lit_model(*l),
{
    match l {
        LitVal::Num(n) => Value::Num(*n),
        LitVal::Text(s) => Value::Text(s.clone()),
        LitVal::Truth(b) => Value::Truth(*b),
        LitVal::Undef => Value::Undef,
    }
}

impl Interpreter {
    /// A fresh interpreter over one empty global scope, with the default
    /// step budget. The source text is carried for presentation only.
    pub fn new(source_name: String, _source: String) -> (r: Interpreter)
        ensures
            interp_inv(r),
            r.output@.len() == 0,
            r.env.frames@.len() == 1,
            r.env.frames@[0].bindings@.len() == 0,
            r.step_budget == DEFAULT_STEP_BUDGET,
            r.current_line == 0,
            r.source_name == source_name,
    {
        Interpreter {
            source_name,
            env: EnvArena::new_root(),
            output: Vec::new(),
            current_line: 0,
            step_budget: DEFAULT_STEP_BUDGET,
        }
    }

    /// Runs a program's statements in order against this interpreter's
    /// environment. Fail-fast: the first diagnostic is returned and the
    /// output written so far remains. The run spends from `step_budget`
    /// (one step per statement, expression, loop iteration and call);
    /// a program that would iterate beyond it — in particular one whose
    /// loop condition never becomes false — stops with a
    /// `NativeOperationFailure` diagnostic naming the exhausted budget.
    /// For the literal-print fragment the effect stream is pinned
    /// exactly: a program that is a flat sequence of `print` statements
    /// of text literals runs to completion (given budget) and appends
    /// precisely those texts, in order, and nothing else. An immutable
    /// declaration followed by an assignment to the same name provably
    /// fails with an `ImmutableAssignment` diagnostic at the second
    /// statement's position, printing nothing and leaving the declared
    /// binding holding its declared value. Literal prints followed by a
    /// call of an undeclared, non-built-in name provably fail with an
    /// `UndefinedVariable` diagnostic at the call's position, with
    /// exactly the earlier prints retained — fail-fast, not retroactive.
    pub fn run(&mut self, tree: &SyntaxTree) -> (r: Result<(), Diagnostic>)
        requires
            interp_inv(*old(self)),
        ensures
            interp_inv(*final(self)),
            parents_preserved(old(self).env.frames@, final(self).env.frames@),
            output_extends(old(self).output@, final(self).output@),
            r matches Err(d) ==> d.phase == Phase::Eval,
            all_lit_prints(tree.stmts@) && old(self).step_budget >= 1 + 2 * tree.stmts@.len()
                ==> (r is Ok && texts_of(final(self).output@) == texts_of(old(self).output@)
                + print_texts(tree.stmts@)),
            const_then_assign(tree.stmts@) matches Some(t) ==> (old(self).step_budget >= 5 ==> (
            r matches Err(d) && d.kind == ErrKind::ImmutableAssignment && d.line
                == tree.stmts@[1].line && d.column == tree.stmts@[1].col && final(self).output
                == old(self).output && decl_lit_effect(
                *old(self),
                *final(self),
                0,
                t.0,
                t.1,
                false,
            ))),
            prints_then_undef_call(tree.stmts@) matches Some(e2) ==> ((old(self).step_budget >= 1
                + 2 * tree.stmts@.len() && undefined_call_shape(old(self).env.frames@, 0, e2))
                ==> (r matches Err(d) && d.kind == ErrKind::UndefinedVariable && d.line == e2.line
                && d.column == e2.col && texts_of(final(self).output@) == texts_of(
                old(self).output@,
            ) + print_texts(tree.stmts@.take(tree.stmts@.len() as int - 1)))),
    {
        let fuel = self.step_budget;
        match self.exec_stmts(&tree.stmts, 0, fuel) {
            Ok(_) => Ok(()),
            Err(d) => Err(d),
        }
    }

    /// Evaluates one expression in frame `f`, spending from `fuel`.
    pub fn eval_expr(&mut self, e: &Expr, f: usize, fuel: u64) -> (r: Result<(Value, u64), Diagnostic>)
        requires
            interp_inv(*old(self)),
            f < old(self).env.frames@.len(),
        ensures
            interp_inv(*final(self)),
            final(self).env.frames@.len() >= old(self).env.frames@.len(),
            parents_preserved(old(self).env.frames@, final(self).env.frames@),
            output_extends(old(self).output@, final(self).output@),
            r matches Ok(t) ==> t.1 < fuel,
            r matches Err(d) ==> d.phase == Phase::Eval,
            e.kind matches ExprKind::Lit(l) ==> (fuel >= 1 ==> (r matches Ok(t) && t.1 == fuel - 1
                && val_model(t.0) == lit_model(l) && *final(self) == *old(self))),
            undefined_call_shape(old(self).env.frames@, f as int, *e) ==> (fuel >= 1 ==> (r matches Err(d)
                && d.kind == ErrKind::UndefinedVariable && d.line == e.line && d.column == e.col
                && *final(self) == *old(self))),
        decreases fuel, 1int,
    {
        if fuel == 0 {
            return Err(
                ediag(ErrKind::NativeOperationFailure, "step budget exhausted", e.line, e.col),
            );
        }
        let rem = fuel - 1;
        match &e.kind {
            ExprKind::Lit(l) => Ok((lit_value(l), rem)),
            ExprKind::Var(name) => {
                match self.env.lookup(f, name) {
                    Some(v) => Ok((v, rem)),
                    None => Err(
                        ediag(ErrKind::UndefinedVariable, "name is not declared", e.line, e.col),
                    ),
                }
            },
            ExprKind::Unary(op, inner) => {
                let (v, rem2) = self.eval_expr(inner, f, rem)?;
                match op {
                    UnOp::Neg => {
                        match v {
                            Value::Num(n) => {
                                match fp_arith(1, 0, n) {
                                    Some(x) => Ok((Value::Num(x), rem2)),
                                    None => Err(
                                        ediag(
                                            ErrKind::NativeOperationFailure,
                                            "numeric overflow",
                                            e.line,
                                            e.col,
                                        ),
                                    ),
                                }
                            },
                            _ => Err(
                                ediag(
                                    ErrKind::TypeMismatch,
                                    "negation needs a number",
                                    e.line,
                                    e.col,
                                ),
                            ),
                        }
                    },
                    UnOp::Not => {
                        match v {
                            Value::Truth(b) => Ok((Value::Truth(!b), rem2)),
                            _ => Err(
                                ediag(ErrKind::TypeMismatch, "not needs a boolean", e.line, e.col),
                            ),
                        }
                    },
                }
            },
            ExprKind::Binary(op, lhs, rhs) => {
                let (a, rem2) = self.eval_expr(lhs, f, rem)?;
                let (b, rem3) = self.eval_expr(rhs, f, rem2)?;
                self.apply_binary(*op, a, b, rem3, e.line, e.col)
            },
            ExprKind::Call(name, argexprs) => {
                let mut vals: Vec<Value> = Vec::new();
                let mut k: usize = 0;
                let mut cur = rem;
                while k < argexprs.len()
                    invariant
                        !(e.kind is Lit),
                        e.kind matches ExprKind::Call(nm2, ax2) && ax2 == *argexprs,
                        k == 0 ==> *self == *old(self) && cur == fuel - 1,
                        interp_inv(*self),
                        f < self.env.frames@.len(),
                        self.env.frames@.len() >= old(self).env.frames@.len(),
                        parents_preserved(old(self).env.frames@, self.env.frames@),
                        output_extends(old(self).output@, self.output@),
                        cur < fuel,
                        k <= argexprs@.len(),
                    decreases argexprs@.len() - k,
                {
                    proof {
                        assert(decreases_to!(*e => (*e).kind));
                    }
                    let (v, cur2) = self.eval_expr(&argexprs[k], f, cur)?;
                    vals.push(v);
                    cur = cur2;
                    k = k + 1;
                }
                match self.env.lookup(f, name) {
                    Some(Value::Func(fv)) => self.call_func(fv, vals, cur, e.line, e.col),
                    Some(_) => Err(
                        ediag(ErrKind::TypeMismatch, "value is not callable", e.line, e.col),
                    ),
                    None => {
                        if is_builtin(name) {
                            match invoke(name, vals) {
                                Ok(v) => Ok((v, cur)),
                                Err(ne) => Err(ediag(ne.kind, ne.msg, e.line, e.col)),
                            }
                        } else {
                            Err(
                                ediag(
                                    ErrKind::UndefinedVariable,
                                    "call target is not declared",
                                    e.line,
                                    e.col,
                                ),
                            )
                        }
                    },
                }
            },
        }
    }

    /// Applies a binary operator to two evaluated operands. The coercion
    /// matrix: `+` adds numbers, and concatenates text when either side
    /// is text; `- * /` take numbers; orderings take numbers; `== !=`
    /// compare structurally and refuse function values.
    fn apply_binary(&mut self, op: BinOp, a: Value, b: Value, rem: u64, line: u64, col: u64) -> (r:
        Result<(Value, u64), Diagnostic>)
        requires
            interp_inv(*old(self)),
        ensures
            interp_inv(*final(self)),
            final(self).env.frames@.len() >= old(self).env.frames@.len(),
            parents_preserved(old(self).env.frames@, final(self).env.frames@),
            output_extends(old(self).output@, final(self).output@),
            r matches Ok(t) ==> t.1 <= rem,
            r matches Err(d) ==> d.phase == Phase::Eval,
    {
        match op {
            BinOp::Add => {
                let texty = matches!(a, Value::Text(_)) || matches!(b, Value::Text(_));
                if texty {
                    let sa = to_text(&a);
                    let sb = to_text(&b);
                    return Ok((Value::Text(sa.concat(sb.as_str())), rem));
                }
                match (a, b) {
                    (Value::Num(x), Value::Num(y)) => {
                        match fp_arith(0, x, y) {
                            Some(v) => Ok((Value::Num(v), rem)),
                            None => Err(
                                ediag(
                                    ErrKind::NativeOperationFailure,
                                    "numeric overflow",
                                    line,
                                    col,
                                ),
                            ),
                        }
                    },
                    _ => Err(ediag(ErrKind::TypeMismatch, "operands of + must be numbers or text", line, col)),
                }
            },
            BinOp::Sub | BinOp::Mul | BinOp::Div => {
                match (a, b) {
                    (Value::Num(x), Value::Num(y)) => {
                        let code: u8 = match op {
                            BinOp::Sub => 1,
                            BinOp::Mul => 2,
                            _ => 3,
                        };
                        match fp_arith(code, x, y) {
                            Some(v) => Ok((Value::Num(v), rem)),
                            None => {
                                if matches!(op, BinOp::Div) && y == 0 {
                                    Err(
                                        ediag(
                                            ErrKind::NativeOperationFailure,
                                            "division by zero",
                                            line,
                                            col,
                                        ),
                                    )
                                } else {
                                    Err(
                                        ediag(
                                            ErrKind::NativeOperationFailure,
                                            "numeric overflow",
                                            line,
                                            col,
                                        ),
                                    )
                                }
                            },
                        }
                    },
                    _ => Err(
                        ediag(ErrKind::TypeMismatch, "arithmetic needs numbers", line, col),
                    ),
                }
            },
            BinOp::Eq | BinOp::Ne => {
                match val_eq(&a, &b) {
                    Ok(same) => {
                        let v = if matches!(op, BinOp::Eq) {
                            same
                        } else {
                            !same
                        };
                        Ok((Value::Truth(v), rem))
                    },
                    Err(()) => Err(
                        ediag(
                            ErrKind::TypeMismatch,
                            "function values cannot be compared",
                            line,
                            col,
                        ),
                    ),
                }
            },
            BinOp::Lt | BinOp::Gt | BinOp::Le | BinOp::Ge => {
                match (a, b) {
                    (Value::Num(x), Value::Num(y)) => {
                        let v = match op {
                            BinOp::Lt => x < y,
                            BinOp::Gt => x > y,
                            BinOp::Le => x <= y,
                            _ => x >= y,
                        };
                        Ok((Value::Truth(v), rem))
                    },
                    _ => Err(
                        ediag(ErrKind::TypeMismatch, "comparison needs numbers", line, col),
                    ),
                }
            },
        }
    }

    /// Calls a function value: checks the arity, opens a child scope of
    /// the frame the function captured at its definition, binds the
    /// parameters there, and runs the body. Lexical scoping is part of
    /// this public contract: on success the call scope's parent frame is
    /// provably the captured frame `fv.env` — never the call site's —
    /// so, with `lemma_resolve_unaffected_by_growth`, free names in the
    /// body resolve against the function's defining scope chain.
    pub fn call_func(&mut self, fv: FuncVal, args: Vec<Value>, fuel: u64, line: u64, col: u64) -> (
        r: Result<(Value, u64), Diagnostic>)
        requires
            interp_inv(*old(self)),
        ensures
            interp_inv(*final(self)),
            final(self).env.frames@.len() >= old(self).env.frames@.len(),
            parents_preserved(old(self).env.frames@, final(self).env.frames@),
            output_extends(old(self).output@, final(self).output@),
            r matches Ok(t) ==> t.1 < fuel,
            r matches Err(d) ==> d.phase == Phase::Eval,
            r is Ok ==> (old(self).env.frames@.len() < final(self).env.frames@.len()
                && final(self).env.frames@[old(self).env.frames@.len() as int].parent
                == Some(fv.env)),
        decreases fuel, 0int,
    {
        if fuel == 0 {
            return Err(ediag(ErrKind::NativeOperationFailure, "step budget exhausted", line, col));
        }
        let rem = fuel - 1;
        if args.len() != fv.params.len() {
            return Err(
                ediag(ErrKind::ArityMismatch, "wrong number of call arguments", line, col),
            );
        }
        if !(fv.env < self.env.frames.len()) {
            // Defensively refused: function values made by this
            // interpreter always capture an existing frame.
            return Err(
                ediag(ErrKind::NativeOperationFailure, "foreign function value", line, col),
            );
        }
        let child = self.env.push_frame(fv.env);
        let mut args = args;
        let mut k: usize = 0;
        let params: &Vec<String> = &fv.params;
        while k < args.len()
            invariant
                interp_inv(*self),
                self.env.frames@.len() >= old(self).env.frames@.len(),
                parents_preserved(old(self).env.frames@, self.env.frames@),
                output_extends(old(self).output@, self.output@),
                child < self.env.frames@.len(),
                child == old(self).env.frames@.len(),
                self.env.frames@[child as int].parent == Some(fv.env),
                k <= args@.len(),
                args@.len() == params@.len(),
            decreases args@.len() - k,
        {
            let name = params[k].clone();
            let v = args[k].dup();
            self.env.declare(child, name, v, true);
            k = k + 1;
        }
        let body: &Vec<Stmt> = &fv.body;
        match self.exec_stmts(body, child, rem) {
            Ok((Flow::Return(v), rem2)) => Ok((v, rem2)),
            Ok((Flow::Normal, rem2)) => Ok((Value::Undef, rem2)),
            Err(d) => Err(d),
        }
    }

    /// Executes one statement in frame `f`, advancing the current-line
    /// cursor to the statement's line. The canonical outcomes are part
    /// of this public contract: a `print` of a text literal appends
    /// exactly that text; a declaration with a literal initializer
    /// appends exactly that binding; an assignment with a literal right
    /// side yields exactly the diagnostic its resolution demands
    /// (`UndefinedVariable` for an undeclared name, `ImmutableAssignment`
    /// for an immutable binding — both at this statement's position,
    /// changing nothing) or updates exactly the resolved binding; a
    /// statement calling an undeclared, non-built-in name fails with
    /// `UndefinedVariable` at the call's position, changing nothing.
    pub fn exec_stmt(&mut self, s: &Stmt, f: usize, fuel: u64) -> (r: Result<(Flow, u64), Diagnostic>)
        requires
            interp_inv(*old(self)),
            f < old(self).env.frames@.len(),
        ensures
            interp_inv(*final(self)),
            final(self).env.frames@.len() >= old(self).env.frames@.len(),
            parents_preserved(old(self).env.frames@, final(self).env.frames@),
            output_extends(old(self).output@, final(self).output@),
            r matches Ok(t) ==> t.1 < fuel,
            r matches Err(d) ==> d.phase == Phase::Eval,
            lit_print_text(*s) matches Some(t) ==> (fuel >= 2 ==> (r matches Ok(x) && x.0
                is Normal && x.1 == fuel - 2 && final(self).output@.len() == old(
                self,
            ).output@.len() + 1 && final(self).output@.last()@ == t && final(self).env == old(
                self,
            ).env)),
            s.kind matches StmtKind::Assign { name, value } ==> ((fuel >= 2 && value.kind
                is Lit) ==> assign_lit_outcome(
                *old(self),
                *final(self),
                f as int,
                name@,
                lit_model(value.kind->Lit_0),
                s.line,
                s.col,
                r,
            )),
            s.kind matches StmtKind::Decl { mutable, name, init } ==> ((fuel >= 2 && init.kind
                is Lit) ==> (r matches Ok(x) && x.0 is Normal && x.1 == fuel - 2
                && decl_lit_effect(
                *old(self),
                *final(self),
                f as int,
                name@,
                lit_model(init.kind->Lit_0),
                mutable,
            ))),
            s.kind matches StmtKind::ExprStmt(e2) ==> ((fuel >= 2 && undefined_call_shape(
                old(self).env.frames@,
                f as int,
                e2,
            )) ==> (r matches Err(d) && d.kind == ErrKind::UndefinedVariable && d.line == e2.line
                && d.column == e2.col && final(self).env == old(self).env && final(self).output
                == old(self).output)),
        decreases fuel, 2int,
    {
        if fuel == 0 {
            return Err(
                ediag(ErrKind::NativeOperationFailure, "step budget exhausted", s.line, s.col),
            );
        }
        let rem = fuel - 1;
        self.current_line = s.line;
        match &s.kind {
            StmtKind::Decl { mutable, name, init } => {
                let (v, rem2) = self.eval_expr(init, f, rem)?;
                self.env.declare(f, name.clone(), v, *mutable);
                Ok((Flow::Normal, rem2))
            },
            StmtKind::Assign { name, value } => {
                let (v, rem2) = self.eval_expr(value, f, rem)?;
                match self.env.assign(f, name, v) {
                    Ok(()) => Ok((Flow::Normal, rem2)),
                    Err(AssignErr::Undefined) => Err(
                        ediag(
                            ErrKind::UndefinedVariable,
                            "assignment to an undeclared name",
                            s.line,
                            s.col,
                        ),
                    ),
                    Err(AssignErr::Immutable) => Err(
                        ediag(
                            ErrKind::ImmutableAssignment,
                            "assignment to an immutable binding",
                            s.line,
                            s.col,
                        ),
                    ),
                }
            },
            StmtKind::Print(e) => {
                let (v, rem2) = self.eval_expr(e, f, rem)?;
                let text = to_text(&v);
                self.output.push(text);
                Ok((Flow::Normal, rem2))
            },
            StmtKind::ExprStmt(e) => {
                let (_v, rem2) = self.eval_expr(e, f, rem)?;
                Ok((Flow::Normal, rem2))
            },
            StmtKind::If { cond, then_branch, else_branch } => {
                let (c, rem2) = self.eval_expr(cond, f, rem)?;
                match c {
                    Value::Truth(b) => {
                        let child = self.env.push_frame(f);
                        if b {
                            self.exec_stmts(then_branch, child, rem2)
                        } else {
                            self.exec_stmts(else_branch, child, rem2)
                        }
                    },
                    _ => Err(
                        ediag(
                            ErrKind::TypeMismatch,
                            "condition must be a boolean",
                            s.line,
                            s.col,
                        ),
                    ),
                }
            },
            StmtKind::While { cond, body } => {
                let mut cur = rem;
                loop
                    invariant
                        s.kind is While,
                        interp_inv(*self),
                        f < self.env.frames@.len(),
                        self.env.frames@.len() >= old(self).env.frames@.len(),
                        parents_preserved(old(self).env.frames@, self.env.frames@),
                        output_extends(old(self).output@, self.output@),
                        cur < fuel,
                    decreases cur,
                {
                    if cur == 0 {
                        return Err(
                            ediag(
                                ErrKind::NativeOperationFailure,
                                "step budget exhausted",
                                s.line,
                                s.col,
                            ),
                        );
                    }
                    cur = cur - 1;
                    proof {
                        assert(decreases_to!(*s => (*s).kind));
                    }
                    let (c, cur2) = self.eval_expr(cond, f, cur)?;
                    match c {
                        Value::Truth(true) => {},
                        Value::Truth(false) => {
                            return Ok((Flow::Normal, cur2));
                        },
                        _ => {
                            return Err(
                                ediag(
                                    ErrKind::TypeMismatch,
                                    "condition must be a boolean",
                                    s.line,
                                    s.col,
                                ),
                            );
                        },
                    }
                    let child = self.env.push_frame(f);
                    match self.exec_stmts(body, child, cur2) {
                        Ok((Flow::Normal, cur3)) => {
                            cur = cur3;
                        },
                        Ok((Flow::Return(v), cur3)) => {
                            return Ok((Flow::Return(v), cur3));
                        },
                        Err(d) => {
                            return Err(d);
                        },
                    }
                }
            },
            StmtKind::Block(stmts) => {
                let child = self.env.push_frame(f);
                self.exec_stmts(stmts, child, rem)
            },
            StmtKind::FuncDecl { name, params, body } => {
                let fv = FuncVal { params: rc_dup(params), body: rc_dup(body), env: f };
                self.env.declare(f, name.clone(), Value::Func(fv), false);
                Ok((Flow::Normal, rem))
            },
            StmtKind::Return(opt) => {
                match opt {
                    Some(e) => {
                        let (v, rem2) = self.eval_expr(e, f, rem)?;
                        Ok((Flow::Return(v), rem2))
                    },
                    None => Ok((Flow::Return(Value::Undef), rem)),
                }
            },
        }
    }

    /// Executes a statement sequence in order, stopping at the first
    /// diagnostic or `return`.
    pub fn exec_stmts(&mut self, ss: &Vec<Stmt>, f: usize, fuel: u64) -> (r: Result<
        (Flow, u64),
        Diagnostic,
    >)
        requires
            interp_inv(*old(self)),
            f < old(self).env.frames@.len(),
        ensures
            interp_inv(*final(self)),
            final(self).env.frames@.len() >= old(self).env.frames@.len(),
            parents_preserved(old(self).env.frames@, final(self).env.frames@),
            output_extends(old(self).output@, final(self).output@),
            r matches Ok(t) ==> t.1 <= fuel,
            r matches Err(d) ==> d.phase == Phase::Eval,
            all_lit_prints(ss@) && fuel >= 1 + 2 * ss@.len() ==> (r matches Ok(x) && x.0
                is Normal && texts_of(final(self).output@) == texts_of(old(self).output@)
                + print_texts(ss@)),
            const_then_assign(ss@) matches Some(t) ==> (fuel >= 5 ==> (r matches Err(d)
                && d.kind == ErrKind::ImmutableAssignment && d.line == ss@[1].line && d.column
                == ss@[1].col && final(self).output == old(self).output && decl_lit_effect(
                *old(self),
                *final(self),
                f as int,
                t.0,
                t.1,
                false,
            ))),
            prints_then_undef_call(ss@) matches Some(e2) ==> ((fuel >= 1 + 2 * ss@.len()
                && undefined_call_shape(old(self).env.frames@, f as int, e2)) ==> (r matches Err(
            d) && d.kind == ErrKind::UndefinedVariable && d.line == e2.line && d.column == e2.col
                && final(self).env == old(self).env && texts_of(final(self).output@) == texts_of(
                old(self).output@,
            ) + print_texts(ss@.take(ss@.len() as int - 1)))),
        decreases fuel, 3int,
    {
        if ss.len() == 0 {
            proof {
                assert(print_texts(ss@) =~= Seq::<Seq<char>>::empty());
                assert(texts_of(self.output@) =~= texts_of(self.output@) + print_texts(ss@));
            }
            return Ok((Flow::Normal, fuel));
        }
        if fuel == 0 {
            return Err(
                ediag(
                    ErrKind::NativeOperationFailure,
                    "step budget exhausted",
                    ss[0].line,
                    ss[0].col,
                ),
            );
        }
        let mut cur = fuel - 1;
        let mut k: usize = 0;
        proof {
            if all_lit_prints(ss@) && fuel >= 1 + 2 * ss@.len() {
                assert(print_texts(ss@).take(0) =~= Seq::<Seq<char>>::empty());
                assert(texts_of(self.output@) =~= texts_of(old(self).output@) + print_texts(
                    ss@,
                ).take(0));
            }
            if prints_then_undef_call(ss@) is Some {
                assert(print_texts(ss@.take(ss@.len() as int - 1)).take(0)
                    =~= Seq::<Seq<char>>::empty());
                assert(texts_of(self.output@) =~= texts_of(old(self).output@) + print_texts(
                    ss@.take(ss@.len() as int - 1),
                ).take(0));
            }
        }
        while k < ss.len()
            invariant
                interp_inv(*self),
                f < self.env.frames@.len(),
                self.env.frames@.len() >= old(self).env.frames@.len(),
                parents_preserved(old(self).env.frames@, self.env.frames@),
                output_extends(old(self).output@, self.output@),
                cur < fuel,
                k <= ss@.len(),
                all_lit_prints(ss@) && fuel >= 1 + 2 * ss@.len() ==> (cur == fuel - 1 - 2 * k
                    && texts_of(self.output@) == texts_of(old(self).output@) + print_texts(
                    ss@,
                ).take(k as int)),
                const_then_assign(ss@) matches Some(t) ==> (fuel >= 5 ==> ((k == 0 && *self
                    == *old(self) && cur == fuel - 1) || (k == 1 && cur == fuel - 3
                    && decl_lit_effect(*old(self), *self, f as int, t.0, t.1, false)))),
                prints_then_undef_call(ss@) matches Some(e2) ==> ((fuel >= 1 + 2 * ss@.len()
                    && undefined_call_shape(old(self).env.frames@, f as int, e2)) ==> (k
                    <= ss@.len() - 1 && cur == fuel - 1 - 2 * k && self.env == old(self).env
                    && texts_of(self.output@) == texts_of(old(self).output@) + print_texts(
                    ss@.take(ss@.len() as int - 1),
                ).take(k as int))),
            decreases ss@.len() - k,
        {
            let ghost out_before = self.output@;
            let ghost pre_stmt = *self;
            match self.exec_stmt(&ss[k], f, cur) {
                Ok((Flow::Normal, cur2)) => {
                    proof {
                        match const_then_assign(ss@) {
                            Some(t) => {
                                if fuel >= 5 && k == 1 {
                                    lemma_const_then_assign_resolves(
                                        pre_stmt,
                                        *old(self),
                                        f as int,
                                        t.0,
                                    );
                                }
                            },
                            None => {},
                        }
                        match prints_then_undef_call(ss@) {
                            Some(e2) => {
                                if fuel >= 1 + 2 * ss@.len() && undefined_call_shape(
                                    old(self).env.frames@,
                                    f as int,
                                    e2,
                                ) {
                                    let pfx = ss@.take(ss@.len() as int - 1);
                                    if k < ss@.len() - 1 {
                                        assert(lit_print_text(pfx[k as int]) is Some);
                                        assert(pfx[k as int] == ss@[k as int]);
                                        assert(texts_of(self.output@) =~= texts_of(
                                            out_before,
                                        ).push(self.output@.last()@));
                                        assert(print_texts(pfx).take(k as int + 1) =~= print_texts(
                                            pfx,
                                        ).take(k as int).push(lit_print_text(pfx[k as int])->Some_0));
                                        assert(texts_of(self.output@) =~= texts_of(
                                            old(self).output@,
                                        ) + print_texts(pfx).take(k as int + 1));
                                    } else {
                                        assert(ss@[k as int] == ss@.last());
                                        assert(false);
                                    }
                                }
                            },
                            None => {},
                        }
                        if all_lit_prints(ss@) && fuel >= 1 + 2 * ss@.len() {
                            assert(lit_print_text(ss@[k as int]) is Some);
                            assert(texts_of(self.output@) =~= texts_of(out_before).push(
                                self.output@.last()@,
                            ));
                            assert(print_texts(ss@).take(k as int + 1) =~= print_texts(ss@).take(
                                k as int,
                            ).push(lit_print_text(ss@[k as int])->Some_0));
                            assert(texts_of(self.output@) =~= texts_of(old(self).output@)
                                + print_texts(ss@).take(k as int + 1));
                        }
                    }
                    cur = cur2;
                },
                Ok((Flow::Return(v), cur2)) => {
                    proof {
                        if all_lit_prints(ss@) {
                            assert(lit_print_text(ss@[k as int]) is Some);
                        }
                        match prints_then_undef_call(ss@) {
                            Some(e2) => {
                                if fuel >= 1 + 2 * ss@.len() && undefined_call_shape(
                                    old(self).env.frames@,
                                    f as int,
                                    e2,
                                ) {
                                    if k < ss@.len() - 1 {
                                        assert(lit_print_text(
                                            ss@.take(ss@.len() as int - 1)[k as int],
                                        ) is Some);
                                        assert(ss@.take(ss@.len() as int - 1)[k as int]
                                            == ss@[k as int]);
                                    } else {
                                        assert(ss@[k as int] == ss@.last());
                                    }
                                    assert(false);
                                }
                            },
                            None => {},
                        }
                    }
                    return Ok((Flow::Return(v), cur2));
                },
                Err(d) => {
                    proof {
                        if all_lit_prints(ss@) {
                            assert(lit_print_text(ss@[k as int]) is Some);
                        }
                        match const_then_assign(ss@) {
                            Some(t) => {
                                if fuel >= 5 && k == 1 {
                                    lemma_const_then_assign_resolves(
                                        pre_stmt,
                                        *old(self),
                                        f as int,
                                        t.0,
                                    );
                                }
                            },
                            None => {},
                        }
                        match prints_then_undef_call(ss@) {
                            Some(e2) => {
                                if fuel >= 1 + 2 * ss@.len() && undefined_call_shape(
                                    old(self).env.frames@,
                                    f as int,
                                    e2,
                                ) {
                                    let pfx = ss@.take(ss@.len() as int - 1);
                                    if k < ss@.len() - 1 {
                                        assert(lit_print_text(pfx[k as int]) is Some);
                                        assert(pfx[k as int] == ss@[k as int]);
                                        assert(false);
                                    } else {
                                        assert(ss@[k as int] == ss@.last());
                                        assert(print_texts(pfx).take(k as int) =~= print_texts(
                                            pfx,
                                        ));
                                    }
                                }
                            },
                            None => {},
                        }
                    }
                    return Err(d);
                },
            }
            k = k + 1;
        }
        proof {
            if all_lit_prints(ss@) && fuel >= 1 + 2 * ss@.len() {
                assert(print_texts(ss@).take(ss@.len() as int) =~= print_texts(ss@));
            }
        }
        Ok((Flow::Normal, cur))
    }
}

} // verus!

verus! {

/// The token-model shape of a one-statement program printing a text
/// literal, and that text.
pub open spec fn print_str_shape_model(ts: Seq<crate::token::TokModel>) -> Option<Seq<char>> {
    if ts.len() == 4 {
        match ts[1].kind {
            crate::token::TokData::Str(txt) => if ts[0].kind is KwPrint && ts[2].kind is Bang
                && ts[3].kind is Eoi {
                Some(txt)
            } else {
                None
            },
            _ => None,
        }
    } else {
        None
    }
}

/// The whole pipeline in one call: scan, build the tree, and run it on
/// a fresh interpreter, failing fast at the first stage that reports a
/// diagnostic. The lexical stage's outcome is pinned by the scanner's
/// model: a lexical error surfaces exactly as `spec_tokenize` names it,
/// before anything is parsed or run (and then nothing has been printed).
/// The one-statement text-print program is pinned end to end: when the
/// scanner's model of the source is `print '<text>' !`, the pipeline
/// succeeds and the effect stream holds exactly that text, once.
pub fn run_source(source_name: &str, source: &str) -> (r: (Interpreter, Result<(), Diagnostic>))
    requires
        source@.len() < 0x8000000000000000,
    ensures
        interp_inv(r.0),
        (match crate::lexer::spec_tokenize(source@, 0, crate::lexer::start_pos()) {
            Ok(tms) => (match print_str_shape_model(tms) {
                Some(txt) => r.1 is Ok && texts_of(r.0.output@) == seq![txt],
                None => true,
            }),
            Err(_) => true,
        }),
        (match crate::lexer::spec_tokenize(source@, 0, crate::lexer::start_pos()) {
            Err(e) => r.1 matches Err(d) && d.phase == Phase::Lex && d.kind == ErrKind::LexError
                && d.line as int == e.line && d.column as int == e.col && d.message@ == e.msg
                && r.0.output@.len() == 0,
            Ok(_) => (r.1 matches Err(d) ==> d.phase == Phase::Parse || d.phase == Phase::Eval),
        }),
        r.1 matches Err(d) ==> (d.phase == Phase::Parse ==> d.kind == ErrKind::ParseError
            && r.0.output@.len() == 0),
{
    let mut interpreter = Interpreter::new(source_name.to_owned(), source.to_owned());
    let tokens = match crate::lexer::tokenize(source_name, source) {
        Ok(t) => t,
        Err(d) => {
            return (interpreter, Err(d));
        },
    };
    proof {
        match crate::lexer::spec_tokenize(source@, 0, crate::lexer::start_pos()) {
            Ok(tms) => {
                match print_str_shape_model(tms) {
                    Some(txt) => {
                        assert(crate::token::toks_model(tokens@) == tms);
                        assert(tokens@[0]@ == tms[0]);
                        assert(tokens@[1]@ == tms[1]);
                        assert(tokens@[2]@ == tms[2]);
                        assert(tokens@[3]@ == tms[3]);
                        assert(crate::parser::print_str_shape(tokens@));
                    },
                    None => {},
                }
            },
            Err(_) => {},
        }
    }
    let tree = match crate::parser::build_tree(source_name, tokens, source) {
        Ok(t) => t,
        Err(d) => {
            return (interpreter, Err(d));
        },
    };
    let outcome = interpreter.run(&tree);
    proof {
        match crate::lexer::spec_tokenize(source@, 0, crate::lexer::start_pos()) {
            Ok(tms) => {
                match print_str_shape_model(tms) {
                    Some(txt) => {
                        assert(all_lit_prints(tree.stmts@)) by {
                            assert(lit_print_text(tree.stmts@[0]) is Some);
                        }
                        assert(print_texts(tree.stmts@) =~= seq![txt]);
                        assert(texts_of(Seq::<String>::empty()) =~= Seq::<Seq<char>>::empty());
                        assert(texts_of(interpreter.output@) =~= seq![txt]);
                    },
                    None => {},
                }
            },
            Err(_) => {},
        }
    }
    (interpreter, outcome)
}

} // verus!

verus! {

/// After a declaration has pushed a binding for `name` onto frame `f`,
/// resolution from `f` finds exactly that newest binding.
pub proof fn lemma_const_then_assign_resolves(
    pre: Interpreter,
    base: Interpreter,
    f: int,
    name: Seq<char>,
)
    requires
        0 <= f < pre.env.frames@.len(),
        pre.env.frames@.len() == base.env.frames@.len(),
        pre.env.frames@[f].bindings@.len() == base.env.frames@[f].bindings@.len() + 1,
        pre.env.frames@[f].bindings@.last().name@ == name,
        !pre.env.frames@[f].bindings@.last().mutable,
    ensures
        crate::env::resolve(pre.env.frames@, f, name) == Some(
            (f, pre.env.frames@[f].bindings@.len() - 1),
        ),
        !pre.env.frames@[f].bindings@[pre.env.frames@[f].bindings@.len() - 1].mutable,
{
    let bs = pre.env.frames@[f].bindings@;
    assert(crate::env::find_in_frame(bs, name) == Some(bs.len() - 1));
}

} // verus!
