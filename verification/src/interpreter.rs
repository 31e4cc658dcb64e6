//! The tree-walking interpreter: expressions evaluate to values against the
//! environment; statements run in order, printing to an output buffer.
//!
//! Everything is specified by the functional models `eval_expr_model` and
//! `exec_stmt_model`. Statement execution carries an explicit step budget,
//! spent once per statement step, so that a `while` loop either finishes
//! within the budget or reports a critical error; with the budget that the
//! callers pass, evaluation is otherwise exactly the model's outcome.

use vstd::prelude::*;

use crate::environment::{
    env_assign, env_define, env_get, env_has, lemma_env_binding_scope_bounds, lemma_wf_depth,
    EnvModel, Environment,
};
use crate::errors::{ErrorModel, LoxError};
use crate::location::Location;
use crate::numbers::{div_raw, in_i64, mul_raw, Number};
use crate::parser::{Expr, Literal, Stmt};
use crate::tokens::{TokenType, TokenTypeModel};
use crate::value::{truthy, value_text, Value, ValueModel};

verus! {

use vstd::string::StringExecFns;

/// The outcome of evaluating an expression: a value or an error, plus the
/// environment as the evaluation left it.
pub enum EvalOutcome {
    Val(ValueModel, EnvModel),
    Fail(ErrorModel, EnvModel),
}

/// The model of a parsed literal as a runtime value.
pub open spec fn literal_value(lit: Literal) -> ValueModel {
    match lit {
        Literal::Nil => ValueModel::Nil,
        Literal::True => ValueModel::Boolean(true),
        Literal::False => ValueModel::Boolean(false),
        Literal::Number(n) => ValueModel::Number(n.raw as int),
        Literal::String(s) => ValueModel::String(s@),
    }
}

/// The message of a unary type mismatch, naming the operand.
pub open spec fn unary_mismatch_text(v: ValueModel) -> Seq<char> {
    "Expected a number and got "@ + value_text(v)
}

/// The message of a binary type mismatch, naming both operands.
pub open spec fn binary_mismatch_text(l: ValueModel, r: ValueModel) -> Seq<char> {
    "Expected two numbers and got left: "@ + value_text(l) + " -- right: "@ + value_text(r)
}

/// Evaluate an expression against an environment: the exact value or error,
/// and the environment afterward. Only assignment changes the environment.
pub open spec fn eval_expr_model(e: Expr, env: EnvModel) -> EvalOutcome
    decreases e,
{
    match e {
        Expr::Literal(_, lit) => EvalOutcome::Val(literal_value(lit), env),
        Expr::Grouping(inner) => eval_expr_model(*inner, env),
        Expr::Unary(op, inner) => match eval_expr_model(*inner, env) {
            EvalOutcome::Val(v, env1) => {
                let loc = op.location.model();
                match op.token_type.model() {
                    TokenTypeModel::Minus => match v {
                        ValueModel::Number(x) => if in_i64(-x) {
                            EvalOutcome::Val(ValueModel::Number(-x), env1)
                        } else {
                            EvalOutcome::Fail(
                                ErrorModel::Runtime(loc, "Number overflow."@),
                                env1,
                            )
                        },
                        _ => EvalOutcome::Fail(
                            ErrorModel::Runtime(loc, unary_mismatch_text(v)),
                            env1,
                        ),
                    },
                    TokenTypeModel::Bang => EvalOutcome::Val(ValueModel::Boolean(!truthy(v)), env1),
                    _ => EvalOutcome::Fail(
                        ErrorModel::Runtime(
                            loc,
                            "Visiting unary expr and wasn't a unary operator."@,
                        ),
                        env1,
                    ),
                }
            },
            EvalOutcome::Fail(em, env1) => EvalOutcome::Fail(em, env1),
        },
        Expr::Binary(l, op, r) => match eval_expr_model(*l, env) {
            EvalOutcome::Val(lv, env1) => match eval_expr_model(*r, env1) {
                EvalOutcome::Val(rv, env2) => {
                    let loc = op.location.model();
                    match op.token_type.model() {
                        TokenTypeModel::EqualEqual => EvalOutcome::Val(
                            ValueModel::Boolean(lv == rv),
                            env2,
                        ),
                        TokenTypeModel::BangEqual => EvalOutcome::Val(
                            ValueModel::Boolean(!(lv == rv)),
                            env2,
                        ),
                        _ => match (lv, rv) {
                            (ValueModel::Number(a), ValueModel::Number(b)) => match op.token_type.model() {
                                TokenTypeModel::Minus => if in_i64(a - b) {
                                    EvalOutcome::Val(ValueModel::Number(a - b), env2)
                                } else {
                                    EvalOutcome::Fail(
                                        ErrorModel::Runtime(loc, "Number overflow."@),
                                        env2,
                                    )
                                },
                                TokenTypeModel::Plus => if in_i64(a + b) {
                                    EvalOutcome::Val(ValueModel::Number(a + b), env2)
                                } else {
                                    EvalOutcome::Fail(
                                        ErrorModel::Runtime(loc, "Number overflow."@),
                                        env2,
                                    )
                                },
                                TokenTypeModel::Star => if in_i64(mul_raw(a, b)) {
                                    EvalOutcome::Val(ValueModel::Number(mul_raw(a, b)), env2)
                                } else {
                                    EvalOutcome::Fail(
                                        ErrorModel::Runtime(loc, "Number overflow."@),
                                        env2,
                                    )
                                },
                                TokenTypeModel::Slash => if b == 0 {
                                    EvalOutcome::Fail(
                                        ErrorModel::Runtime(loc, "Division by zero."@),
                                        env2,
                                    )
                                } else if in_i64(div_raw(a, b)) {
                                    EvalOutcome::Val(ValueModel::Number(div_raw(a, b)), env2)
                                } else {
                                    EvalOutcome::Fail(
                                        ErrorModel::Runtime(loc, "Number overflow."@),
                                        env2,
                                    )
                                },
                                TokenTypeModel::Greater => EvalOutcome::Val(
                                    ValueModel::Boolean(a > b),
                                    env2,
                                ),
                                TokenTypeModel::GreaterEqual => EvalOutcome::Val(
                                    ValueModel::Boolean(a >= b),
                                    env2,
                                ),
                                TokenTypeModel::Less => EvalOutcome::Val(
                                    ValueModel::Boolean(a < b),
                                    env2,
                                ),
                                TokenTypeModel::LessEqual => EvalOutcome::Val(
                                    ValueModel::Boolean(a <= b),
                                    env2,
                                ),
                                _ => EvalOutcome::Fail(
                                    ErrorModel::Runtime(
                                        loc,
                                        "Matching number. Should be unreachable."@,
                                    ),
                                    env2,
                                ),
                            },
                            (ValueModel::String(a), ValueModel::String(b)) => match op.token_type.model() {
                                TokenTypeModel::Plus => EvalOutcome::Val(
                                    ValueModel::String(a + b),
                                    env2,
                                ),
                                _ => EvalOutcome::Fail(
                                    ErrorModel::Runtime(loc, binary_mismatch_text(lv, rv)),
                                    env2,
                                ),
                            },
                            _ => EvalOutcome::Fail(
                                ErrorModel::Runtime(loc, binary_mismatch_text(lv, rv)),
                                env2,
                            ),
                        },
                    }
                },
                EvalOutcome::Fail(em, env2) => EvalOutcome::Fail(em, env2),
            },
            EvalOutcome::Fail(em, env1) => EvalOutcome::Fail(em, env1),
        },
        Expr::Logical(l, op, r) => match eval_expr_model(*l, env) {
            EvalOutcome::Val(lv, env1) => match op.token_type.model() {
                TokenTypeModel::Or => if truthy(lv) {
                    EvalOutcome::Val(lv, env1)
                } else {
                    eval_expr_model(*r, env1)
                },
                TokenTypeModel::And => if truthy(lv) {
                    eval_expr_model(*r, env1)
                } else {
                    EvalOutcome::Val(lv, env1)
                },
                _ => EvalOutcome::Fail(
                    ErrorModel::Syntax(
                        op.location.model(),
                        "Can't interpret conditional with this operator."@,
                    ),
                    env1,
                ),
            },
            EvalOutcome::Fail(em, env1) => EvalOutcome::Fail(em, env1),
        },
        Expr::Variable(tok) => match tok.token_type.model() {
            TokenTypeModel::Identifier(name) => match env_get(env, name) {
                Some(v) => EvalOutcome::Val(v, env),
                None => EvalOutcome::Fail(
                    ErrorModel::Runtime(tok.location.model(), "Undefined variable: "@ + name),
                    env,
                ),
            },
            _ => EvalOutcome::Fail(
                ErrorModel::Runtime(tok.location.model(), "Expected a variable expression."@),
                env,
            ),
        },
        Expr::Assign(tok, inner) => match eval_expr_model(*inner, env) {
            EvalOutcome::Val(v, env1) => match tok.token_type.model() {
                TokenTypeModel::Identifier(name) => if env_has(env1, name) {
                    EvalOutcome::Val(v, env_assign(env1, name, v))
                } else {
                    EvalOutcome::Fail(
                        ErrorModel::Runtime(tok.location.model(), "Undefined variable: "@ + name),
                        env1,
                    )
                },
                _ => EvalOutcome::Fail(
                    ErrorModel::Runtime(tok.location.model(), "Assignment didn't work"@),
                    env1,
                ),
            },
            EvalOutcome::Fail(em, env1) => EvalOutcome::Fail(em, env1),
        },
    }
}

/// The outcome of executing statements: the environment and output as they
/// stand afterward, and the error where one stopped execution.
pub enum ExecOutcome {
    Done(EnvModel, Seq<Seq<char>>),
    Fail(ErrorModel, EnvModel, Seq<Seq<char>>),
}

/// Drop the innermost scope; identity on an (impossible) empty chain.
pub open spec fn pop_scope(env: EnvModel) -> EnvModel {
    if env.len() > 0 {
        env.drop_last()
    } else {
        env
    }
}

/// The message reported when the step budget runs out.
pub open spec fn budget_text() -> Seq<char> {
    "Execution budget exhausted."@
}

/// Execute one statement with a step budget: each statement step spends one
/// unit, so a loop that does not finish within the budget stops with a
/// critical error. A block's child scope is destroyed on every exit path.
pub open spec fn exec_stmt_model(s: Stmt, env: EnvModel, out: Seq<Seq<char>>, fuel: nat) -> ExecOutcome
    decreases fuel, s,
{
    if fuel == 0 {
        ExecOutcome::Fail(ErrorModel::Critical(budget_text()), env, out)
    } else {
        match s {
            Stmt::Expression(e) => match eval_expr_model(e, env) {
                EvalOutcome::Val(_, env1) => ExecOutcome::Done(env1, out),
                EvalOutcome::Fail(em, env1) => ExecOutcome::Fail(em, env1, out),
            },
            Stmt::Print(e) => match eval_expr_model(e, env) {
                EvalOutcome::Val(v, env1) => ExecOutcome::Done(env1, out.push(value_text(v))),
                EvalOutcome::Fail(em, env1) => ExecOutcome::Fail(em, env1, out),
            },
            Stmt::Var(tok, init) => match tok.token_type.model() {
                TokenTypeModel::Identifier(name) => match eval_expr_model(init, env) {
                    EvalOutcome::Val(v, env1) => ExecOutcome::Done(env_define(env1, name, v), out),
                    EvalOutcome::Fail(em, env1) => ExecOutcome::Fail(em, env1, out),
                },
                _ => ExecOutcome::Fail(
                    ErrorModel::Runtime(
                        tok.location.model(),
                        "Expected identifier token for var name."@,
                    ),
                    env,
                    out,
                ),
            },
            Stmt::Block(stmts) => match exec_stmts_model(
                stmts@,
                env.push(Map::empty()),
                out,
                (fuel - 1) as nat,
            ) {
                ExecOutcome::Done(env1, out1) => ExecOutcome::Done(pop_scope(env1), out1),
                ExecOutcome::Fail(em, env1, out1) => ExecOutcome::Fail(em, pop_scope(env1), out1),
            },
            Stmt::If(cond, then_branch, else_branch) => match eval_expr_model(cond, env) {
                EvalOutcome::Val(v, env1) => if truthy(v) {
                    exec_stmt_model(*then_branch, env1, out, (fuel - 1) as nat)
                } else {
                    match else_branch {
                        Some(e2) => exec_stmt_model(*e2, env1, out, (fuel - 1) as nat),
                        None => ExecOutcome::Done(env1, out),
                    }
                },
                EvalOutcome::Fail(em, env1) => ExecOutcome::Fail(em, env1, out),
            },
            Stmt::While(cond, body) => match eval_expr_model(cond, env) {
                EvalOutcome::Val(v, env1) => if truthy(v) {
                    match exec_stmt_model(*body, env1, out, (fuel - 1) as nat) {
                        ExecOutcome::Done(env2, out2) => exec_stmt_model(
                            s,
                            env2,
                            out2,
                            (fuel - 1) as nat,
                        ),
                        ExecOutcome::Fail(em, env2, out2) => ExecOutcome::Fail(em, env2, out2),
                    }
                } else {
                    ExecOutcome::Done(env1, out)
                },
                EvalOutcome::Fail(em, env1) => ExecOutcome::Fail(em, env1, out),
            },
        }
    }
}

/// Execute statements in order, stopping at the first error.
pub open spec fn exec_stmts_model(
    ss: Seq<Stmt>,
    env: EnvModel,
    out: Seq<Seq<char>>,
    fuel: nat,
) -> ExecOutcome
    decreases fuel,
{
    if fuel == 0 {
        ExecOutcome::Fail(ErrorModel::Critical(budget_text()), env, out)
    } else if ss.len() == 0 {
        ExecOutcome::Done(env, out)
    } else {
        match exec_stmt_model(ss[0], env, out, (fuel - 1) as nat) {
            ExecOutcome::Done(env1, out1) => exec_stmts_model(
                ss.skip(1),
                env1,
                out1,
                (fuel - 1) as nat,
            ),
            ExecOutcome::Fail(em, env1, out1) => ExecOutcome::Fail(em, env1, out1),
        }
    }
}

/// Run the top-level statements, isolating their errors: each statement
/// executes with its own full budget, a failing statement's error is
/// collected, and the following statements still run.
pub open spec fn interpret_model(
    ss: Seq<Stmt>,
    env: EnvModel,
    out: Seq<Seq<char>>,
    fuel: nat,
) -> (Seq<ErrorModel>, EnvModel, Seq<Seq<char>>)
    decreases ss.len(),
{
    if ss.len() == 0 {
        (Seq::empty(), env, out)
    } else {
        match exec_stmt_model(ss[0], env, out, fuel) {
            ExecOutcome::Done(env1, out1) => interpret_model(ss.skip(1), env1, out1, fuel),
            ExecOutcome::Fail(em, env1, out1) => {
                let (errs, env2, out2) = interpret_model(ss.skip(1), env1, out1, fuel);
                (seq![em] + errs, env2, out2)
            },
        }
    }
}

/// Expression evaluation never opens or closes a scope.
pub proof fn lemma_eval_expr_len(e: Expr, env: EnvModel)
    ensures
        match eval_expr_model(e, env) {
            EvalOutcome::Val(_, env1) => env1.len() == env.len(),
            EvalOutcome::Fail(_, env1) => env1.len() == env.len(),
        },
    decreases e,
{
    match e {
        Expr::Literal(_, _) => {},
        Expr::Grouping(inner) => {
            lemma_eval_expr_len(*inner, env);
        },
        Expr::Unary(_, inner) => {
            lemma_eval_expr_len(*inner, env);
        },
        Expr::Binary(l, _, r) => {
            lemma_eval_expr_len(*l, env);
            match eval_expr_model(*l, env) {
                EvalOutcome::Val(_, env1) => {
                    lemma_eval_expr_len(*r, env1);
                },
                EvalOutcome::Fail(_, _) => {},
            }
        },
        Expr::Logical(l, _, r) => {
            lemma_eval_expr_len(*l, env);
            match eval_expr_model(*l, env) {
                EvalOutcome::Val(_, env1) => {
                    lemma_eval_expr_len(*r, env1);
                },
                EvalOutcome::Fail(_, _) => {},
            }
        },
        Expr::Variable(_) => {},
        Expr::Assign(tok, inner) => {
            lemma_eval_expr_len(*inner, env);
            match eval_expr_model(*inner, env) {
                EvalOutcome::Val(v, env1) => {
                    match tok.token_type.model() {
                        TokenTypeModel::Identifier(name) => {
                            if env_has(env1, name) {
                                lemma_env_binding_scope_bounds(env1, name);
                            }
                        },
                        _ => {},
                    }
                },
                EvalOutcome::Fail(_, _) => {},
            }
        },
    }
}

/// Statement execution leaves the scope chain exactly as deep as it found
/// it: every block destroys the scope it created, on success and on error.
#[verifier::rlimit(60)]
pub proof fn lemma_exec_stmt_len(s: Stmt, env: EnvModel, out: Seq<Seq<char>>, fuel: nat)
    ensures
        match exec_stmt_model(s, env, out, fuel) {
            ExecOutcome::Done(env1, _) => env1.len() == env.len(),
            ExecOutcome::Fail(_, env1, _) => env1.len() == env.len(),
        },
    decreases fuel, s,
{
    if fuel == 0 {
    } else {
        match s {
            Stmt::Expression(e) => {
                lemma_eval_expr_len(e, env);
            },
            Stmt::Print(e) => {
                lemma_eval_expr_len(e, env);
            },
            Stmt::Var(tok, init) => {
                lemma_eval_expr_len(init, env);
                match tok.token_type.model() {
                    TokenTypeModel::Identifier(name) => {
                        match eval_expr_model(init, env) {
                            EvalOutcome::Val(v, env1) => {
                                assert(env_define(env1, name, v).len() == env1.len());
                            },
                            EvalOutcome::Fail(_, _) => {},
                        }
                    },
                    _ => {},
                }
            },
            Stmt::Block(stmts) => {
                let inner = env.push(Map::empty());
                lemma_exec_stmts_len(stmts@, inner, out, (fuel - 1) as nat);
                match exec_stmts_model(stmts@, inner, out, (fuel - 1) as nat) {
                    ExecOutcome::Done(env1, _) => {
                        assert(env1.len() == env.len() + 1);
                        assert(pop_scope(env1).len() == env.len());
                    },
                    ExecOutcome::Fail(_, env1, _) => {
                        assert(env1.len() == env.len() + 1);
                        assert(pop_scope(env1).len() == env.len());
                    },
                }
            },
            Stmt::If(cond, then_branch, else_branch) => {
                lemma_eval_expr_len(cond, env);
                match eval_expr_model(cond, env) {
                    EvalOutcome::Val(v, env1) => {
                        if truthy(v) {
                            lemma_exec_stmt_len(*then_branch, env1, out, (fuel - 1) as nat);
                        } else {
                            match else_branch {
                                Some(e2) => {
                                    lemma_exec_stmt_len(*e2, env1, out, (fuel - 1) as nat);
                                },
                                None => {},
                            }
                        }
                    },
                    EvalOutcome::Fail(_, _) => {},
                }
            },
            Stmt::While(cond, body) => {
                lemma_eval_expr_len(cond, env);
                match eval_expr_model(cond, env) {
                    EvalOutcome::Val(v, env1) => {
                        if truthy(v) {
                            lemma_exec_stmt_len(*body, env1, out, (fuel - 1) as nat);
                            match exec_stmt_model(*body, env1, out, (fuel - 1) as nat) {
                                ExecOutcome::Done(env2, out2) => {
                                    lemma_exec_stmt_len(s, env2, out2, (fuel - 1) as nat);
                                },
                                ExecOutcome::Fail(_, _, _) => {},
                            }
                        }
                    },
                    EvalOutcome::Fail(_, _) => {},
                }
            },
        }
    }
}

/// As `lemma_exec_stmt_len`, over a statement sequence.
pub proof fn lemma_exec_stmts_len(ss: Seq<Stmt>, env: EnvModel, out: Seq<Seq<char>>, fuel: nat)
    ensures
        match exec_stmts_model(ss, env, out, fuel) {
            ExecOutcome::Done(env1, _) => env1.len() == env.len(),
            ExecOutcome::Fail(_, env1, _) => env1.len() == env.len(),
        },
    decreases fuel,
{
    if fuel == 0 || ss.len() == 0 {
    } else {
        lemma_exec_stmt_len(ss[0], env, out, (fuel - 1) as nat);
        match exec_stmt_model(ss[0], env, out, (fuel - 1) as nat) {
            ExecOutcome::Done(env1, out1) => {
                lemma_exec_stmts_len(ss.skip(1), env1, out1, (fuel - 1) as nat);
            },
            ExecOutcome::Fail(_, _, _) => {},
        }
    }
}


/// The interpreter's mutable context: the environment and the output sink,
/// a growing list of printed lines.
pub struct InterpreterState {
    pub environment: Environment,
    pub writer: Vec<String>,
}

impl InterpreterState {
    pub open spec fn wf(self) -> bool {
        self.environment.wf()
    }

    /// The printed lines, as character sequences.
    pub open spec fn out_model(self) -> Seq<Seq<char>> {
        self.writer@.map_values(|s: String| s@)
    }

    /// A fresh state: one empty global scope and no output.
    pub fn new() -> (r: InterpreterState)
        ensures
            r.wf(),
            r.environment.model() =~= seq![Map::<Seq<char>, ValueModel>::empty()],
            r.out_model() =~= Seq::<Seq<char>>::empty(),
    {
        let state = InterpreterState { environment: Environment::new(), writer: Vec::new() };
        proof {
            assert(state.out_model() =~= Seq::<Seq<char>>::empty());
        }
        state
    }

    /// The lines printed so far.
    pub fn get_writer(&self) -> (r: &Vec<String>)
        ensures
            r == &self.writer,
    {
        &self.writer
    }
}

/// The tree walker: owns the program's statements.
pub struct Interpreter {
    pub statements: Vec<Stmt>,
}

impl Interpreter {
    pub fn new(statements: Vec<Stmt>) -> (r: Interpreter)
        ensures
            r.statements == statements,
    {
        Interpreter { statements }
    }

    /// Evaluate one expression: exactly the model's value or error, with
    /// the model's environment effect.
    fn evaluate_expr(&self, expr: &Expr, environment: &mut Environment) -> (r: Result<
        Value,
        LoxError,
    >)
        requires
            old(environment).wf(),
        ensures
            final(environment).wf(),
            match r {
                Ok(v) => eval_expr_model(*expr, old(environment).model()) matches EvalOutcome::Val(
                    vm,
                    em,
                ) && v.model() == vm && final(environment).model() == em,
                Err(e) => eval_expr_model(*expr, old(environment).model())
                    matches EvalOutcome::Fail(fm, em) && e.model() == fm
                    && final(environment).model() == em,
            },
        decreases *expr,
    {
        match expr {
            Expr::Literal(_, lit) => {
                match lit {
                    Literal::Nil => Ok(Value::Nil),
                    Literal::True => Ok(Value::Boolean(true)),
                    Literal::False => Ok(Value::Boolean(false)),
                    Literal::Number(n) => Ok(Value::Number(*n)),
                    Literal::String(sv) => Ok(Value::String(sv.clone())),
                }
            },
            Expr::Grouping(inner) => self.evaluate_expr(inner, environment),
            Expr::Unary(op, inner) => {
                let right = match self.evaluate_expr(inner, environment) {
                    Ok(v) => v,
                    Err(e) => {
                        return Err(e);
                    },
                };
                match op.token_type {
                    TokenType::Minus => {
                        match right {
                            Value::Number(n) => {
                                match n.checked_neg() {
                                    Some(m) => Ok(Value::Number(m)),
                                    None => Err(
                                        LoxError::RuntimeError(
                                            op.location.clone(),
                                            String::from_str("Number overflow."),
                                        ),
                                    ),
                                }
                            },
                            _ => {
                                let mut msg = String::from_str("Expected a number and got ");
                                let text = right.to_text();
                                msg.append(text.as_str());
                                Err(LoxError::RuntimeError(op.location.clone(), msg))
                            },
                        }
                    },
                    TokenType::Bang => {
                        if right.is_truthy() {
                            Ok(Value::Boolean(false))
                        } else {
                            Ok(Value::Boolean(true))
                        }
                    },
                    _ => Err(
                        LoxError::RuntimeError(
                            op.location.clone(),
                            String::from_str("Visiting unary expr and wasn't a unary operator."),
                        ),
                    ),
                }
            },
            Expr::Binary(l, op, r2) => {
                let left = match self.evaluate_expr(l, environment) {
                    Ok(v) => v,
                    Err(e) => {
                        return Err(e);
                    },
                };
                let right = match self.evaluate_expr(r2, environment) {
                    Ok(v) => v,
                    Err(e) => {
                        return Err(e);
                    },
                };
                let is_eq = match op.token_type {
                    TokenType::EqualEqual => true,
                    _ => false,
                };
                let is_neq = match op.token_type {
                    TokenType::BangEqual => true,
                    _ => false,
                };
                if is_eq {
                    return Ok(Value::Boolean(left == right));
                }
                if is_neq {
                    return Ok(Value::Boolean(!(left == right)));
                }
                match (&left, &right) {
                    (Value::Number(a), Value::Number(b)) => {
                        let a = *a;
                        let b = *b;
                        match op.token_type {
                            TokenType::Minus => match a.checked_sub(b) {
                                Some(n) => Ok(Value::Number(n)),
                                None => Err(
                                    LoxError::RuntimeError(
                                        op.location.clone(),
                                        String::from_str("Number overflow."),
                                    ),
                                ),
                            },
                            TokenType::Plus => match a.checked_add(b) {
                                Some(n) => Ok(Value::Number(n)),
                                None => Err(
                                    LoxError::RuntimeError(
                                        op.location.clone(),
                                        String::from_str("Number overflow."),
                                    ),
                                ),
                            },
                            TokenType::Star => match a.checked_mul(b) {
                                Some(n) => Ok(Value::Number(n)),
                                None => Err(
                                    LoxError::RuntimeError(
                                        op.location.clone(),
                                        String::from_str("Number overflow."),
                                    ),
                                ),
                            },
                            TokenType::Slash => {
                                if b.raw == 0 {
                                    Err(
                                        LoxError::RuntimeError(
                                            op.location.clone(),
                                            String::from_str("Division by zero."),
                                        ),
                                    )
                                } else {
                                    match a.checked_div(b) {
                                        Some(n) => Ok(Value::Number(n)),
                                        None => Err(
                                            LoxError::RuntimeError(
                                                op.location.clone(),
                                                String::from_str("Number overflow."),
                                            ),
                                        ),
                                    }
                                }
                            },
                            TokenType::Greater => Ok(Value::Boolean(a.gt(b))),
                            TokenType::GreaterEqual => Ok(Value::Boolean(a.ge(b))),
                            TokenType::Less => Ok(Value::Boolean(a.lt(b))),
                            TokenType::LessEqual => Ok(Value::Boolean(a.le(b))),
                            _ => Err(
                                LoxError::RuntimeError(
                                    op.location.clone(),
                                    String::from_str("Matching number. Should be unreachable."),
                                ),
                            ),
                        }
                    },
                    (Value::String(a), Value::String(b)) => {
                        match op.token_type {
                            TokenType::Plus => {
                                let mut concat = a.clone();
                                concat.append(b.as_str());
                                Ok(Value::String(concat))
                            },
                            _ => {
                                let mut msg = String::from_str(
                                    "Expected two numbers and got left: ",
                                );
                                let lt = left.to_text();
                                msg.append(lt.as_str());
                                msg.append(" -- right: ");
                                let rt = right.to_text();
                                msg.append(rt.as_str());
                                Err(LoxError::RuntimeError(op.location.clone(), msg))
                            },
                        }
                    },
                    _ => {
                        let mut msg = String::from_str("Expected two numbers and got left: ");
                        let lt = left.to_text();
                        msg.append(lt.as_str());
                        msg.append(" -- right: ");
                        let rt = right.to_text();
                        msg.append(rt.as_str());
                        Err(LoxError::RuntimeError(op.location.clone(), msg))
                    },
                }
            },
            Expr::Logical(l, op, r2) => {
                let left = match self.evaluate_expr(l, environment) {
                    Ok(v) => v,
                    Err(e) => {
                        return Err(e);
                    },
                };
                let is_or = match op.token_type {
                    TokenType::Or => true,
                    _ => false,
                };
                let is_and = match op.token_type {
                    TokenType::And => true,
                    _ => false,
                };
                if is_or {
                    if left.is_truthy() {
                        Ok(left)
                    } else {
                        self.evaluate_expr(r2, environment)
                    }
                } else if is_and {
                    if left.is_truthy() {
                        self.evaluate_expr(r2, environment)
                    } else {
                        Ok(left)
                    }
                } else {
                    Err(
                        LoxError::SyntaxError(
                            op.location.clone(),
                            String::from_str("Can't interpret conditional with this operator."),
                        ),
                    )
                }
            },
            Expr::Variable(tok) => {
                match &tok.token_type {
                    TokenType::Identifier(name) => {
                        match environment.get(name.as_str()) {
                            Some(val) => Ok(val),
                            None => {
                                let mut msg = String::from_str("Undefined variable: ");
                                msg.append(name.as_str());
                                Err(LoxError::RuntimeError(tok.location.clone(), msg))
                            },
                        }
                    },
                    _ => Err(
                        LoxError::RuntimeError(
                            tok.location.clone(),
                            String::from_str("Expected a variable expression."),
                        ),
                    ),
                }
            },
            Expr::Assign(tok, inner) => {
                let value = match self.evaluate_expr(inner, environment) {
                    Ok(v) => v,
                    Err(e) => {
                        return Err(e);
                    },
                };
                match &tok.token_type {
                    TokenType::Identifier(name) => {
                        match environment.assign(name.as_str(), value, tok.location.clone()) {
                            Ok(v) => Ok(v),
                            Err(e) => Err(e),
                        }
                    },
                    _ => Err(
                        LoxError::RuntimeError(
                            tok.location.clone(),
                            String::from_str("Assignment didn't work"),
                        ),
                    ),
                }
            },
        }
    }
}


impl Interpreter {
    /// Execute one statement: exactly the model's outcome on the
    /// environment and the output lines, within the given step budget.
    fn evaluate(&self, stmt: &Stmt, environment: &mut Environment, writer: &mut Vec<String>, fuel: u64) -> (r: Result<(), LoxError>)
        requires
            old(environment).wf(),
        ensures
            final(environment).wf(),
            match r {
                Ok(_) => exec_stmt_model(
                    *stmt,
                    old(environment).model(),
                    old(writer)@.map_values(|s: String| s@),
                    fuel as nat,
                ) matches ExecOutcome::Done(em, om) && final(environment).model() == em
                    && final(writer)@.map_values(|s: String| s@) == om,
                Err(e) => exec_stmt_model(
                    *stmt,
                    old(environment).model(),
                    old(writer)@.map_values(|s: String| s@),
                    fuel as nat,
                ) matches ExecOutcome::Fail(fm, em, om) && e.model() == fm
                    && final(environment).model() == em
                    && final(writer)@.map_values(|s: String| s@) == om,
            },
        decreases fuel, *stmt,
    {
        if fuel == 0 {
            return Err(LoxError::Critical(String::from_str("Execution budget exhausted.")));
        }
        match stmt {
            Stmt::Expression(e) => {
                match self.evaluate_expr(e, environment) {
                    Ok(_) => Ok(()),
                    Err(err) => Err(err),
                }
            },
            Stmt::Print(e) => {
                match self.evaluate_expr(e, environment) {
                    Ok(v) => {
                        let ghost out0 = writer@.map_values(|s: String| s@);
                        let text = v.to_text();
                        writer.push(text);
                        proof {
                            assert(writer@.map_values(|s: String| s@) =~= out0.push(
                                value_text(v.model()),
                            ));
                        }
                        Ok(())
                    },
                    Err(err) => Err(err),
                }
            },
            Stmt::Var(tok, init) => {
                match &tok.token_type {
                    TokenType::Identifier(name) => {
                        match self.evaluate_expr(init, environment) {
                            Ok(v) => {
                                environment.define(name.clone(), v);
                                Ok(())
                            },
                            Err(err) => Err(err),
                        }
                    },
                    _ => Err(
                        LoxError::RuntimeError(
                            tok.location.clone(),
                            String::from_str("Expected identifier token for var name."),
                        ),
                    ),
                }
            },
            Stmt::Block(stmts) => {
                let ghost env0 = environment.model();
                let ghost out0 = writer@.map_values(|s: String| s@);
                proof {
                    lemma_wf_depth(*environment);
                }
                environment.new_child_scope();
                let result = self.execute_block(stmts, 0, environment, writer, fuel - 1);
                proof {
                    lemma_exec_stmts_len(
                        stmts@,
                        env0.push(Map::empty()),
                        out0,
                        (fuel - 1) as nat,
                    );
                    assert(stmts@.skip(0) =~= stmts@);
                }
                environment.destroy_child_scope();
                match result {
                    Ok(_) => Ok(()),
                    Err(err) => Err(err),
                }
            },
            Stmt::If(cond, then_branch, else_branch) => {
                let condition = match self.evaluate_expr(cond, environment) {
                    Ok(v) => v,
                    Err(err) => {
                        return Err(err);
                    },
                };
                if condition.is_truthy() {
                    self.evaluate(then_branch, environment, writer, fuel - 1)
                } else {
                    match else_branch {
                        Some(e2) => self.evaluate(e2, environment, writer, fuel - 1),
                        None => Ok(()),
                    }
                }
            },
            Stmt::While(cond, stmt_body) => {
                let condition = match self.evaluate_expr(cond, environment) {
                    Ok(v) => v,
                    Err(err) => {
                        return Err(err);
                    },
                };
                if condition.is_truthy() {
                    match self.evaluate(stmt_body, environment, writer, fuel - 1) {
                        Ok(_) => self.evaluate(stmt, environment, writer, fuel - 1),
                        Err(err) => Err(err),
                    }
                } else {
                    Ok(())
                }
            },
        }
    }

    /// Execute the statements from index `i` on, in order, stopping at the
    /// first error. The child scope around them is the caller's business.
    fn execute_block(
        &self,
        statements: &Vec<Stmt>,
        i: usize,
        environment: &mut Environment,
        writer: &mut Vec<String>,
        fuel: u64,
    ) -> (r: Result<(), LoxError>)
        requires
            old(environment).wf(),
            i <= statements@.len(),
        ensures
            final(environment).wf(),
            match r {
                Ok(_) => exec_stmts_model(
                    statements@.skip(i as int),
                    old(environment).model(),
                    old(writer)@.map_values(|s: String| s@),
                    fuel as nat,
                ) matches ExecOutcome::Done(em, om) && final(environment).model() == em
                    && final(writer)@.map_values(|s: String| s@) == om,
                Err(e) => exec_stmts_model(
                    statements@.skip(i as int),
                    old(environment).model(),
                    old(writer)@.map_values(|s: String| s@),
                    fuel as nat,
                ) matches ExecOutcome::Fail(fm, em, om) && e.model() == fm
                    && final(environment).model() == em
                    && final(writer)@.map_values(|s: String| s@) == om,
            },
        decreases fuel,
    {
        if fuel == 0 {
            return Err(LoxError::Critical(String::from_str("Execution budget exhausted.")));
        }
        if i >= statements.len() {
            return Ok(());
        }
        proof {
            assert(statements@.skip(i as int)[0] == statements@[i as int]);
            assert(statements@.skip(i as int).skip(1) =~= statements@.skip(i + 1));
        }
        match self.evaluate(&statements[i], environment, writer, fuel - 1) {
            Ok(_) => self.execute_block(statements, i + 1, environment, writer, fuel - 1),
            Err(err) => Err(err),
        }
    }

    /// Run the program's top-level statements in order, each with the full
    /// step budget. A failing statement's error is collected and the next
    /// statement still runs; the errors come back in program order.
    pub fn interpret(&self, state: &mut InterpreterState, fuel: u64) -> (errors: Vec<LoxError>)
        requires
            old(state).wf(),
        ensures
            final(state).wf(),
            ({
                let t = interpret_model(
                    self.statements@,
                    old(state).environment.model(),
                    old(state).out_model(),
                    fuel as nat,
                );
                &&& errors@.map_values(|e: LoxError| e.model()) == t.0
                &&& final(state).environment.model() == t.1
                &&& final(state).out_model() == t.2
            }),
    {
        let ghost m0 = state.environment.model();
        let ghost o0 = state.out_model();
        let ghost full = interpret_model(self.statements@, m0, o0, fuel as nat);
        let mut errors: Vec<LoxError> = Vec::new();
        let n = self.statements.len();
        let mut i: usize = 0;
        proof {
            assert(self.statements@.skip(0) =~= self.statements@);
            assert(errors@.map_values(|e: LoxError| e.model()) =~= Seq::<ErrorModel>::empty());
        }
        while i < n
            invariant
                state.wf(),
                n == self.statements@.len(),
                i <= n,
                full == interpret_model(self.statements@, m0, o0, fuel as nat),
                ({
                    let t = interpret_model(
                        self.statements@.skip(i as int),
                        state.environment.model(),
                        state.out_model(),
                        fuel as nat,
                    );
                    &&& full.0 == errors@.map_values(|e: LoxError| e.model()) + t.0
                    &&& full.1 == t.1
                    &&& full.2 == t.2
                }),
            decreases n - i,
        {
            let ghost errs0 = errors@;
            proof {
                assert(self.statements@.skip(i as int)[0] == self.statements@[i as int]);
                assert(self.statements@.skip(i as int).skip(1) =~= self.statements@.skip(i + 1));
            }
            match self.evaluate(&self.statements[i], &mut state.environment, &mut state.writer, fuel) {
                Ok(_) => {},
                Err(err) => {
                    errors.push(err);
                    proof {
                        assert(errors@.map_values(|e: LoxError| e.model()) =~= errs0.map_values(
                            |e: LoxError| e.model(),
                        ).push(errors@.last().model()));
                    }
                },
            }
            i += 1;
        }
        proof {
            assert(self.statements@.skip(n as int) =~= Seq::<Stmt>::empty());
            assert(errors@.map_values(|e: LoxError| e.model()) =~= full.0);
        }
        errors
    }
}


/// Type-mismatch law: a subtraction whose operands are a string literal and
/// a number literal always fails with a runtime error at the operator's
/// location whose message names both operand values, and the environment is
/// untouched.
pub proof fn lemma_type_mismatch_reports_both(
    s: String,
    n: Number,
    op: crate::tokens::Token,
    sloc: Location,
    nloc: Location,
    env: EnvModel,
)
    requires
        op.token_type is Minus,
    ensures
        ({
            let e = Expr::Binary(
                Box::new(Expr::Literal(sloc, Literal::String(s))),
                op,
                Box::new(Expr::Literal(nloc, Literal::Number(n))),
            );
            eval_expr_model(e, env) == EvalOutcome::Fail(
                ErrorModel::Runtime(
                    op.location.model(),
                    binary_mismatch_text(
                        ValueModel::String(s@),
                        ValueModel::Number(n.raw as int),
                    ),
                ),
                env,
            )
        }),
{
    reveal_with_fuel(eval_expr_model, 3);
}

} // verus!
