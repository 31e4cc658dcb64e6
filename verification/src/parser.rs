//! The parser: recursive descent over the token sequence, one function per
//! precedence level, producing statements whose expressions are left
//! associated. Errors carry the offending token's location; recovery
//! discards tokens to the next statement boundary.

use vstd::prelude::*;

use crate::errors::{ErrorModel, LoxError};
use crate::location::Location;
use crate::numbers::{number_text, Number};
use crate::tokens::{Token, TokenType, TokenTypeModel};

verus! {

use vstd::string::StringExecFns;

/// A literal produced by the parser from a literal token.
#[derive(Debug, PartialEq)]
pub enum Literal {
    Nil,
    Number(Number),
    String(String),
    True,
    False,
}

/// An expression tree. Every child is exclusively owned, so trees are
/// acyclic by construction.
#[derive(Debug, PartialEq)]
pub enum Expr {
    Assign(Token, Box<Expr>),
    Binary(Box<Expr>, Token, Box<Expr>),
    Grouping(Box<Expr>),
    Literal(Location, Literal),
    Logical(Box<Expr>, Token, Box<Expr>),
    Unary(Token, Box<Expr>),
    Variable(Token),
}

/// A statement. A program is an ordered list of statements.
#[derive(Debug, PartialEq)]
pub enum Stmt {
    Expression(Expr),
    Print(Expr),
    Var(Token, Expr),
    Block(Vec<Stmt>),
    If(Expr, Box<Stmt>, Option<Box<Stmt>>),
    While(Expr, Box<Stmt>),
}

/// A parsed program rooted at a single expression.
#[derive(PartialEq)]
pub struct Ast {
    pub root_expr: Expr,
}

/// One step of expression parsing: the expression built (or the error
/// hit) and the cursor position afterward.
pub enum ExprStep {
    Done(Expr, nat),
    Fail(ErrorModel, nat),
}

/// Whether the token at `p` is a real (non end-of-file) token of the given
/// category.
pub open spec fn checks_at(toks: Seq<Token>, p: nat, tm: TokenTypeModel) -> bool {
    &&& p < toks.len()
    &&& !(toks[p as int].token_type.model() is Eof)
    &&& toks[p as int].token_type.model() == tm
}

/// The location reported for the token at `p`, or unknown past the end.
pub open spec fn loc_at(toks: Seq<Token>, p: nat) -> crate::location::LocationModel {
    if p < toks.len() {
        toks[p as int].location.model()
    } else {
        crate::location::LocationModel::Unknown
    }
}

/// A cursor position normalized into `[lo, toks.len()]`. Every production
/// moves the cursor monotonically and stays in bounds, so on real runs this
/// is the identity; it keeps the model's recursion well founded.
pub open spec fn stepped(toks: Seq<Token>, q: nat, lo: nat) -> nat {
    if q < lo {
        lo
    } else if q > toks.len() {
        toks.len()
    } else {
        q
    }
}

/// The message reported when the cursor has run out of tokens.
pub open spec fn out_of_tokens_text() -> Seq<char> {
    "Token get out of index."@
}

/// Primary expressions: literals, grouping, and variable references.
#[verifier::opaque]
pub open spec fn p_primary(toks: Seq<Token>, p: nat) -> ExprStep
    decreases toks.len() - p, 10int,
    when p <= toks.len()
{
    if p >= toks.len() {
        ExprStep::Fail(
            ErrorModel::Syntax(crate::location::LocationModel::Unknown, out_of_tokens_text()),
            p,
        )
    } else {
        let tok = toks[p as int];
        match tok.token_type {
            TokenType::False => ExprStep::Done(Expr::Literal(tok.location, Literal::False), p + 1),
            TokenType::True => ExprStep::Done(Expr::Literal(tok.location, Literal::True), p + 1),
            TokenType::Nil => ExprStep::Done(Expr::Literal(tok.location, Literal::Nil), p + 1),
            TokenType::Number(x) => ExprStep::Done(
                Expr::Literal(tok.location, Literal::Number(x)),
                p + 1,
            ),
            TokenType::String(x) => ExprStep::Done(
                Expr::Literal(tok.location, Literal::String(x)),
                p + 1,
            ),
            TokenType::LeftParen => match p_expression(toks, p + 1) {
                ExprStep::Done(inner, q) => {
                    let q2 = stepped(toks, q, p + 1);
                    if checks_at(toks, q2, TokenTypeModel::RightParen) {
                        ExprStep::Done(Expr::Grouping(Box::new(inner)), q2 + 1)
                    } else {
                        ExprStep::Fail(
                            ErrorModel::Syntax(
                                loc_at(toks, q2),
                                "Expect ')' after expression. After the expression finishes parsing the next token type must be a RightParen."@,
                            ),
                            q2,
                        )
                    }
                },
                ExprStep::Fail(em, q) => ExprStep::Fail(em, q),
            },
            TokenType::Identifier(_) => ExprStep::Done(Expr::Variable(tok), p + 1),
            _ => ExprStep::Fail(
                ErrorModel::Runtime(tok.location.model(), "Expected expression and found None."@),
                p,
            ),
        }
    }
}

/// Unary expressions: prefix `!` and `-`, right recursive.
#[verifier::opaque]
pub open spec fn p_unary(toks: Seq<Token>, p: nat) -> ExprStep
    decreases toks.len() - p, 20int,
    when p <= toks.len()
{
    if checks_at(toks, p, TokenTypeModel::Bang) || checks_at(toks, p, TokenTypeModel::Minus) {
        let op = toks[p as int];
        match p_unary(toks, p + 1) {
            ExprStep::Done(right, q) => ExprStep::Done(Expr::Unary(op, Box::new(right)), q),
            ExprStep::Fail(em, q) => ExprStep::Fail(em, q),
        }
    } else {
        p_primary(toks, p)
    }
}

/// Fold further operands of this level onto a parsed left operand.
#[verifier::opaque]
pub open spec fn p_factor_rest(toks: Seq<Token>, e: Expr, p: nat) -> ExprStep
    decreases toks.len() - p, 25int,
    when p <= toks.len()
{
    if checks_at(toks, p, TokenTypeModel::Slash) || checks_at(toks, p, TokenTypeModel::Star) {
        let op = toks[p as int];
        match p_unary(toks, p + 1) {
            ExprStep::Done(right, q) => p_factor_rest(
                toks,
                Expr::Binary(Box::new(e), op, Box::new(right)),
                stepped(toks, q, p + 1),
            ),
            ExprStep::Fail(em, q) => ExprStep::Fail(em, q),
        }
    } else {
        ExprStep::Done(e, p)
    }
}

/// Factors: unary expressions folded left over `*` and `/`.
#[verifier::opaque]
pub open spec fn p_factor(toks: Seq<Token>, p: nat) -> ExprStep
    decreases toks.len() - p, 30int,
    when p <= toks.len()
{
    match p_unary(toks, p) {
        ExprStep::Done(e, q) => p_factor_rest(toks, e, stepped(toks, q, p)),
        ExprStep::Fail(em, q) => ExprStep::Fail(em, q),
    }
}

/// Fold further operands of this level onto a parsed left operand.
#[verifier::opaque]
pub open spec fn p_term_rest(toks: Seq<Token>, e: Expr, p: nat) -> ExprStep
    decreases toks.len() - p, 35int,
    when p <= toks.len()
{
    if checks_at(toks, p, TokenTypeModel::Plus) || checks_at(toks, p, TokenTypeModel::Minus) {
        let op = toks[p as int];
        match p_factor(toks, p + 1) {
            ExprStep::Done(right, q) => p_term_rest(
                toks,
                Expr::Binary(Box::new(e), op, Box::new(right)),
                stepped(toks, q, p + 1),
            ),
            ExprStep::Fail(em, q) => ExprStep::Fail(em, q),
        }
    } else {
        ExprStep::Done(e, p)
    }
}

/// Terms: factors folded left over `+` and `-`.
#[verifier::opaque]
pub open spec fn p_term(toks: Seq<Token>, p: nat) -> ExprStep
    decreases toks.len() - p, 40int,
    when p <= toks.len()
{
    match p_factor(toks, p) {
        ExprStep::Done(e, q) => p_term_rest(toks, e, stepped(toks, q, p)),
        ExprStep::Fail(em, q) => ExprStep::Fail(em, q),
    }
}

/// Fold further operands of this level onto a parsed left operand.
#[verifier::opaque]
pub open spec fn p_comparison_rest(toks: Seq<Token>, e: Expr, p: nat) -> ExprStep
    decreases toks.len() - p, 45int,
    when p <= toks.len()
{
    if checks_at(toks, p, TokenTypeModel::Greater) || checks_at(toks, p, TokenTypeModel::GreaterEqual) || checks_at(toks, p, TokenTypeModel::Less) || checks_at(toks, p, TokenTypeModel::LessEqual) {
        let op = toks[p as int];
        match p_term(toks, p + 1) {
            ExprStep::Done(right, q) => p_comparison_rest(
                toks,
                Expr::Binary(Box::new(e), op, Box::new(right)),
                stepped(toks, q, p + 1),
            ),
            ExprStep::Fail(em, q) => ExprStep::Fail(em, q),
        }
    } else {
        ExprStep::Done(e, p)
    }
}

/// Comparisons: terms folded left over `>`, `>=`, `<`, `<=`.
#[verifier::opaque]
pub open spec fn p_comparison(toks: Seq<Token>, p: nat) -> ExprStep
    decreases toks.len() - p, 50int,
    when p <= toks.len()
{
    match p_term(toks, p) {
        ExprStep::Done(e, q) => p_comparison_rest(toks, e, stepped(toks, q, p)),
        ExprStep::Fail(em, q) => ExprStep::Fail(em, q),
    }
}

/// Fold further operands of this level onto a parsed left operand.
#[verifier::opaque]
pub open spec fn p_equality_rest(toks: Seq<Token>, e: Expr, p: nat) -> ExprStep
    decreases toks.len() - p, 55int,
    when p <= toks.len()
{
    if checks_at(toks, p, TokenTypeModel::BangEqual) || checks_at(toks, p, TokenTypeModel::EqualEqual) {
        let op = toks[p as int];
        match p_comparison(toks, p + 1) {
            ExprStep::Done(right, q) => p_equality_rest(
                toks,
                Expr::Binary(Box::new(e), op, Box::new(right)),
                stepped(toks, q, p + 1),
            ),
            ExprStep::Fail(em, q) => ExprStep::Fail(em, q),
        }
    } else {
        ExprStep::Done(e, p)
    }
}

/// Equalities: comparisons folded left over `==` and `!=`.
#[verifier::opaque]
pub open spec fn p_equality(toks: Seq<Token>, p: nat) -> ExprStep
    decreases toks.len() - p, 60int,
    when p <= toks.len()
{
    match p_comparison(toks, p) {
        ExprStep::Done(e, q) => p_equality_rest(toks, e, stepped(toks, q, p)),
        ExprStep::Fail(em, q) => ExprStep::Fail(em, q),
    }
}

/// Fold further operands of this level onto a parsed left operand.
#[verifier::opaque]
pub open spec fn p_and_rest(toks: Seq<Token>, e: Expr, p: nat) -> ExprStep
    decreases toks.len() - p, 65int,
    when p <= toks.len()
{
    if checks_at(toks, p, TokenTypeModel::And) {
        let op = toks[p as int];
        match p_equality(toks, p + 1) {
            ExprStep::Done(right, q) => p_and_rest(
                toks,
                Expr::Logical(Box::new(e), op, Box::new(right)),
                stepped(toks, q, p + 1),
            ),
            ExprStep::Fail(em, q) => ExprStep::Fail(em, q),
        }
    } else {
        ExprStep::Done(e, p)
    }
}

/// Logical conjunctions: equalities folded left over `and`.
#[verifier::opaque]
pub open spec fn p_and(toks: Seq<Token>, p: nat) -> ExprStep
    decreases toks.len() - p, 70int,
    when p <= toks.len()
{
    match p_equality(toks, p) {
        ExprStep::Done(e, q) => p_and_rest(toks, e, stepped(toks, q, p)),
        ExprStep::Fail(em, q) => ExprStep::Fail(em, q),
    }
}

/// Fold further operands of this level onto a parsed left operand.
#[verifier::opaque]
pub open spec fn p_or_rest(toks: Seq<Token>, e: Expr, p: nat) -> ExprStep
    decreases toks.len() - p, 75int,
    when p <= toks.len()
{
    if checks_at(toks, p, TokenTypeModel::Or) {
        let op = toks[p as int];
        match p_and(toks, p + 1) {
            ExprStep::Done(right, q) => p_or_rest(
                toks,
                Expr::Logical(Box::new(e), op, Box::new(right)),
                stepped(toks, q, p + 1),
            ),
            ExprStep::Fail(em, q) => ExprStep::Fail(em, q),
        }
    } else {
        ExprStep::Done(e, p)
    }
}

/// Logical disjunctions: conjunctions folded left over `or`.
#[verifier::opaque]
pub open spec fn p_or(toks: Seq<Token>, p: nat) -> ExprStep
    decreases toks.len() - p, 80int,
    when p <= toks.len()
{
    match p_and(toks, p) {
        ExprStep::Done(e, q) => p_or_rest(toks, e, stepped(toks, q, p)),
        ExprStep::Fail(em, q) => ExprStep::Fail(em, q),
    }
}

/// Assignment: right associative, detected after the left-hand side has
/// parsed; a left-hand side that is not a variable is a runtime error at
/// the `=` token.
#[verifier::opaque]
pub open spec fn p_assignment(toks: Seq<Token>, p: nat) -> ExprStep
    decreases toks.len() - p, 90int,
    when p <= toks.len()
{
    match p_or(toks, p) {
        ExprStep::Done(e, q0) => {
            let q = stepped(toks, q0, p);
            if checks_at(toks, q, TokenTypeModel::Equal) {
                let eq_tok = toks[q as int];
                match p_assignment(toks, q + 1) {
                    ExprStep::Done(value, q2) => match e {
                        Expr::Variable(token) => ExprStep::Done(
                            Expr::Assign(token, Box::new(value)),
                            q2,
                        ),
                        _ => ExprStep::Fail(
                            ErrorModel::Runtime(
                                eq_tok.location.model(),
                                "Invalid assignment target"@,
                            ),
                            q2,
                        ),
                    },
                    ExprStep::Fail(em, q2) => ExprStep::Fail(em, q2),
                }
            } else {
                ExprStep::Done(e, q0)
            }
        },
        ExprStep::Fail(em, q) => ExprStep::Fail(em, q),
    }
}

/// A whole expression: an assignment.
#[verifier::opaque]
pub open spec fn p_expression(toks: Seq<Token>, p: nat) -> ExprStep
    decreases toks.len() - p, 95int,
    when p <= toks.len()
{
    p_assignment(toks, p)
}

/// The model of a parsed statement: block contents as sequences.
pub enum StmtModel {
    Expression(Expr),
    Print(Expr),
    Var(Token, Expr),
    Block(Seq<StmtModel>),
    If(Expr, Box<StmtModel>, Option<Box<StmtModel>>),
    While(Expr, Box<StmtModel>),
}

impl Stmt {
    /// The model of this statement.
    pub open spec fn model(self) -> StmtModel
        decreases self,
    {
        match self {
            Stmt::Expression(e) => StmtModel::Expression(e),
            Stmt::Print(e) => StmtModel::Print(e),
            Stmt::Var(t, e) => StmtModel::Var(t, e),
            Stmt::Block(v) => StmtModel::Block(stmts_model(v@)),
            Stmt::If(c, a, b) => StmtModel::If(
                c,
                Box::new(a.model()),
                match b {
                    Some(x) => Some(Box::new(x.model())),
                    None => None,
                },
            ),
            Stmt::While(c, b) => StmtModel::While(c, Box::new(b.model())),
        }
    }
}

/// The models of a statement sequence, in order.
pub open spec fn stmts_model(ss: Seq<Stmt>) -> Seq<StmtModel>
    decreases ss,
{
    if ss.len() == 0 {
        Seq::empty()
    } else {
        seq![ss[0].model()] + stmts_model(ss.drop_first())
    }
}

/// A statement sequence and its model have the same length.
pub proof fn lemma_stmts_model_len(ss: Seq<Stmt>)
    ensures
        stmts_model(ss).len() == ss.len(),
    decreases ss,
{
    if ss.len() > 0 {
        lemma_stmts_model_len(ss.drop_first());
    }
}

/// Appending a statement appends its model.
pub proof fn lemma_stmts_model_push(ss: Seq<Stmt>, s: Stmt)
    ensures
        stmts_model(ss.push(s)) == stmts_model(ss) + seq![s.model()],
    decreases ss.len(),
{
    if ss.len() == 0 {
        assert(ss.push(s).drop_first() =~= Seq::<Stmt>::empty());
        assert(ss.push(s)[0] == s);
        assert(stmts_model(ss.push(s)) == seq![s.model()] + stmts_model(Seq::<Stmt>::empty()));
        assert(stmts_model(ss.push(s)) =~= stmts_model(ss) + seq![s.model()]);
    } else {
        assert(ss.push(s).drop_first() =~= ss.drop_first().push(s));
        assert(ss.push(s)[0] == ss[0]);
        lemma_stmts_model_push(ss.drop_first(), s);
        assert(stmts_model(ss.push(s)) == seq![ss[0].model()] + stmts_model(
            ss.drop_first().push(s),
        ));
        assert(stmts_model(ss.push(s)) =~= stmts_model(ss) + seq![s.model()]);
    }
}

/// One step of statement parsing: the statement built (or the error hit)
/// and the cursor position afterward.
pub enum StmtStep {
    Done(StmtModel, nat),
    Fail(ErrorModel, nat),
}

/// Whether the cursor at `p` is past the last real token.
pub open spec fn at_end_at(toks: Seq<Token>, p: nat) -> bool {
    p >= toks.len() || toks[p as int].token_type.model() == TokenTypeModel::Eof
}

/// Whether the token at `p` is an identifier.
pub open spec fn ident_at(toks: Seq<Token>, p: nat) -> bool {
    p < toks.len() && toks[p as int].token_type is Identifier
}

/// A token kind that begins a statement: the parser resynchronizes just
/// before one of these.
pub open spec fn is_boundary(tt: TokenType) -> bool {
    ||| tt is Class
    ||| tt is Fun
    ||| tt is Var
    ||| tt is For
    ||| tt is If
    ||| tt is While
    ||| tt is Print
    ||| tt is Return
}

/// Where synchronization stops, scanning from `q`: the position just after
/// a semicolon, just before a statement keyword, or the end of the tokens.
pub open spec fn sync_from(toks: Seq<Token>, q: nat) -> nat
    decreases toks.len() - q,
    when q <= toks.len()
{
    if at_end_at(toks, q) {
        q
    } else if q >= 1 && toks[q - 1].token_type is SemiColon {
        q
    } else if is_boundary(toks[q as int].token_type) {
        q
    } else {
        sync_from(toks, q + 1)
    }
}

/// Synchronization never retreats and stays in bounds.
pub proof fn lemma_sync_from_bounds(toks: Seq<Token>, q: nat)
    requires
        q <= toks.len(),
    ensures
        q <= sync_from(toks, q) <= toks.len(),
    decreases toks.len() - q,
{
    if !at_end_at(toks, q) && !(q >= 1 && toks[q - 1].token_type is SemiColon) && !is_boundary(
        toks[q as int].token_type,
    ) {
        lemma_sync_from_bounds(toks, q + 1);
    }
}

/// Synchronization lands on a statement boundary: the end of the tokens,
/// the position just past a semicolon, or just before a keyword that
/// begins a statement.
pub proof fn lemma_sync_lands_on_boundary(toks: Seq<Token>, q: nat)
    requires
        q <= toks.len(),
    ensures
        ({
            let r = sync_from(toks, q);
            ||| at_end_at(toks, r)
            ||| (r >= 1 && toks[r - 1].token_type is SemiColon)
            ||| (r < toks.len() && is_boundary(toks[r as int].token_type))
        }),
    decreases toks.len() - q,
{
    if !at_end_at(toks, q) && !(q >= 1 && toks[q - 1].token_type is SemiColon) && !is_boundary(
        toks[q as int].token_type,
    ) {
        lemma_sync_lands_on_boundary(toks, q + 1);
    }
}

/// Where `synchronize` lands from `p`: one token is consumed first, then
/// tokens are discarded through the next statement boundary.
pub open spec fn p_sync(toks: Seq<Token>, p: nat) -> nat {
    if at_end_at(toks, p) {
        p
    } else {
        sync_from(toks, p + 1)
    }
}

/// Variable declarations, after the consumed `var`: an identifier, an
/// optional `=` initializer defaulting to a nil literal at the name's
/// location, and a terminating semicolon.
#[verifier::opaque]
pub open spec fn p_var_declaration(toks: Seq<Token>, p: nat) -> StmtStep
    decreases toks.len() - p, 100int,
    when p <= toks.len()
{
    if !ident_at(toks, p) {
        StmtStep::Fail(
            ErrorModel::Syntax(
                loc_at(toks, p),
                "Trying to consume an identifier as part of a var declaration."@,
            ),
            p,
        )
    } else {
        let name = toks[p as int];
        if checks_at(toks, p + 1, TokenTypeModel::Equal) {
            match p_expression(toks, p + 2) {
                ExprStep::Done(init, q0) => {
                    let q = stepped(toks, q0, p + 2);
                    if checks_at(toks, q, TokenTypeModel::SemiColon) {
                        StmtStep::Done(StmtModel::Var(name, init), q + 1)
                    } else {
                        StmtStep::Fail(
                            ErrorModel::Syntax(
                                loc_at(toks, q),
                                "Expect ';' after variable declaration."@,
                            ),
                            q,
                        )
                    }
                },
                ExprStep::Fail(em, q) => StmtStep::Fail(em, q),
            }
        } else {
            if checks_at(toks, p + 1, TokenTypeModel::SemiColon) {
                StmtStep::Done(
                    StmtModel::Var(name, Expr::Literal(name.location, Literal::Nil)),
                    p + 2,
                )
            } else {
                StmtStep::Fail(
                    ErrorModel::Syntax(
                        loc_at(toks, p + 1),
                        "Expect ';' after variable declaration."@,
                    ),
                    p + 1,
                )
            }
        }
    }
}

/// Print statements, after the consumed `print`: an expression and a
/// semicolon.
#[verifier::opaque]
pub open spec fn p_print_statement(toks: Seq<Token>, p: nat) -> StmtStep
    decreases toks.len() - p, 101int,
    when p <= toks.len()
{
    match p_expression(toks, p) {
        ExprStep::Done(e, q0) => {
            let q = stepped(toks, q0, p);
            if checks_at(toks, q, TokenTypeModel::SemiColon) {
                StmtStep::Done(StmtModel::Print(e), q + 1)
            } else {
                StmtStep::Fail(ErrorModel::Syntax(loc_at(toks, q), "Expect ; after value."@), q)
            }
        },
        ExprStep::Fail(em, q) => StmtStep::Fail(em, q),
    }
}

/// Expression statements: an expression and a semicolon.
#[verifier::opaque]
pub open spec fn p_expression_statement(toks: Seq<Token>, p: nat) -> StmtStep
    decreases toks.len() - p, 101int,
    when p <= toks.len()
{
    match p_expression(toks, p) {
        ExprStep::Done(e, q0) => {
            let q = stepped(toks, q0, p);
            if checks_at(toks, q, TokenTypeModel::SemiColon) {
                StmtStep::Done(StmtModel::Expression(e), q + 1)
            } else {
                StmtStep::Fail(ErrorModel::Syntax(loc_at(toks, q), "Expect ; after value."@), q)
            }
        },
        ExprStep::Fail(em, q) => StmtStep::Fail(em, q),
    }
}

/// The declarations of a block, up to the closing brace or the end: the
/// statements parsed, the first error if one stopped the block, and the
/// position reached.
#[verifier::opaque]
pub open spec fn p_block_items(toks: Seq<Token>, p: nat) -> (Seq<StmtModel>, Option<
    ErrorModel,
>, nat)
    decreases toks.len() - p, 120int,
    when p <= toks.len()
{
    if at_end_at(toks, p) || checks_at(toks, p, TokenTypeModel::RightBrace) {
        (Seq::empty(), None, p)
    } else {
        match p_declaration(toks, p) {
            StmtStep::Done(s, q0) => {
                let t = p_block_items(toks, stepped(toks, q0, p + 1));
                (seq![s] + t.0, t.1, t.2)
            },
            StmtStep::Fail(em, q) => (Seq::empty(), Some(em), q),
        }
    }
}

/// Statements: `print`, a brace-delimited block of declarations, or an
/// expression statement.
#[verifier::opaque]
pub open spec fn p_statement(toks: Seq<Token>, p: nat) -> StmtStep
    decreases toks.len() - p, 105int,
    when p <= toks.len()
{
    if checks_at(toks, p, TokenTypeModel::Print) {
        p_print_statement(toks, p + 1)
    } else if checks_at(toks, p, TokenTypeModel::LeftBrace) {
        let t = p_block_items(toks, p + 1);
        match t.1 {
            Some(em) => StmtStep::Fail(em, t.2),
            None => {
                if checks_at(toks, t.2, TokenTypeModel::RightBrace) {
                    StmtStep::Done(StmtModel::Block(t.0), t.2 + 1)
                } else {
                    StmtStep::Fail(
                        ErrorModel::Syntax(loc_at(toks, t.2), "Expect '}' after block."@),
                        t.2,
                    )
                }
            },
        }
    } else {
        p_expression_statement(toks, p)
    }
}

/// Declarations: a `var` declaration or a statement.
#[verifier::opaque]
pub open spec fn p_declaration(toks: Seq<Token>, p: nat) -> StmtStep
    decreases toks.len() - p, 110int,
    when p <= toks.len()
{
    if checks_at(toks, p, TokenTypeModel::Var) {
        p_var_declaration(toks, p + 1)
    } else {
        p_statement(toks, p)
    }
}

/// The top-level declarations: the statements parsed, and the first error
/// hit. After a broken statement the parser synchronizes to the next
/// statement boundary and goes on parsing, so one error is reported per
/// broken statement and later statements are still parsed.
#[verifier::opaque]
pub open spec fn p_parse_items(toks: Seq<Token>, p: nat) -> (Seq<StmtModel>, Option<ErrorModel>)
    decreases toks.len() - p, 130int,
    when p <= toks.len()
{
    if at_end_at(toks, p) {
        (Seq::empty(), None)
    } else {
        match p_declaration(toks, p) {
            StmtStep::Done(s, q0) => {
                let t = p_parse_items(toks, stepped(toks, q0, p + 1));
                (seq![s] + t.0, t.1)
            },
            StmtStep::Fail(em, q0) => {
                let qs = p_sync(toks, stepped(toks, q0, p));
                if at_end_at(toks, qs) {
                    (Seq::empty(), Some(em))
                } else {
                    let t = p_parse_items(toks, stepped(toks, qs, p + 1));
                    (t.0, Some(em))
                }
            },
        }
    }
}

/// What `parse` returns on the whole token sequence.
pub enum ParseOut {
    Done(Seq<StmtModel>),
    Fail(ErrorModel),
}

/// The whole parse: a token sequence with no statements at all is a
/// critical pipeline failure; a sequence with a broken statement fails
/// with the first error found, after parsing the rest for diagnosis; any
/// other sequence yields its statements.
#[verifier::opaque]
pub open spec fn p_parse(toks: Seq<Token>, p: nat) -> ParseOut {
    if at_end_at(toks, p) {
        ParseOut::Fail(ErrorModel::Critical("No tokens parsed."@))
    } else {
        let t = p_parse_items(toks, p);
        match t.1 {
            Some(em) => ParseOut::Fail(em),
            None => {
                if t.0.len() == 0 {
                    ParseOut::Fail(ErrorModel::Critical("No tokens parsed."@))
                } else {
                    ParseOut::Done(t.0)
                }
            },
        }
    }
}

/// The parser's cursor over the scanned tokens.
pub struct Parser {
    pub tokens: Vec<Token>,
    pub current: usize,
}

impl Parser {
    /// The cursor stays within the token buffer.
    pub open spec fn wf(self) -> bool {
        self.current <= self.tokens@.len()
    }

    /// Whether the cursor is past the last real token.
    pub open spec fn at_end(self) -> bool {
        self.current >= self.tokens@.len() || self.tokens@[self.current as int].token_type.model()
            == TokenTypeModel::Eof
    }

    /// Whether the token under the cursor has the given category.
    pub open spec fn checks(self, tm: TokenTypeModel) -> bool {
        &&& !self.at_end()
        &&& self.current < self.tokens@.len()
        &&& self.tokens@[self.current as int].token_type.model() == tm
    }

    pub fn new(tokens: Vec<Token>) -> (r: Parser)
        ensures
            r.tokens == tokens,
            r.current == 0,
            r.wf(),
    {
        Parser { tokens, current: 0 }
    }

    /// A copy of the token just consumed.
    fn previous(&self) -> (r: Token)
        requires
            self.wf(),
            1 <= self.current,
        ensures
            r == self.tokens@[self.current - 1],
    {
        self.tokens[self.current - 1].clone()
    }

    fn is_at_end(&self) -> (r: bool)
        requires
            self.wf(),
        ensures
            r == self.at_end(),
    {
        if self.current >= self.tokens.len() {
            true
        } else {
            match self.tokens[self.current].token_type {
                TokenType::Eof => true,
                _ => false,
            }
        }
    }

    fn advance(&mut self)
        requires
            old(self).wf(),
        ensures
            final(self).wf(),
            final(self).tokens == old(self).tokens,
            final(self).current == if old(self).at_end() {
                old(self).current as int
            } else {
                old(self).current + 1
            },
    {
        if !self.is_at_end() {
            if self.current < self.tokens.len() {
                self.current = self.current + 1;
            }
        }
    }

    fn check(&self, token_type: &TokenType) -> (r: bool)
        requires
            self.wf(),
        ensures
            r == self.checks(token_type.model()),
    {
        if self.is_at_end() {
            return false;
        }
        if self.current < self.tokens.len() {
            self.tokens[self.current].token_type == *token_type
        } else {
            false
        }
    }

    /// Consume the cursor token when its category is among the given ones.
    fn match_token_type(&mut self, token_types: &[TokenType]) -> (r: bool)
        requires
            old(self).wf(),
        ensures
            final(self).wf(),
            final(self).tokens == old(self).tokens,
            r == exists|k: int|
                0 <= k < token_types@.len() && old(self).checks(
                    (#[trigger] token_types@[k]).model(),
                ),
            r ==> final(self).current == old(self).current + 1 && !old(self).at_end(),
            !r ==> *final(self) == *old(self),
    {
        let n = token_types.len();
        let mut k: usize = 0;
        while k < n
            invariant
                old(self).wf(),
                self == old(self),
                n == token_types@.len(),
                k <= n,
                forall|k2: int|
                    0 <= k2 < k ==> !old(self).checks((#[trigger] token_types@[k2]).model()),
            decreases n - k,
        {
            if self.check(&token_types[k]) {
                self.advance();
                return true;
            }
            k += 1;
        }
        false
    }

    /// Consume the cursor token when it has the expected category, else
    /// fail with a syntax error at the unexpected token.
    fn consume(&mut self, token_type: &TokenType, message: &str) -> (r: Result<Token, LoxError>)
        requires
            old(self).wf(),
        ensures
            final(self).wf(),
            final(self).tokens == old(self).tokens,
            match r {
                Ok(t) => {
                    &&& old(self).checks(token_type.model())
                    &&& final(self).current == old(self).current + 1
                    &&& t == old(self).tokens@[old(self).current as int]
                },
                Err(e) => {
                    &&& !old(self).checks(token_type.model())
                    &&& *final(self) == *old(self)
                    &&& e.model() == ErrorModel::Syntax(
                        loc_at(old(self).tokens@, old(self).current as nat),
                        message@,
                    )
                },
            },
    {
        if self.check(token_type) {
            let t = self.tokens[self.current].clone();
            self.advance();
            Ok(t)
        } else {
            let location = if self.current < self.tokens.len() {
                self.tokens[self.current].location.clone()
            } else {
                Location::Unknown
            };
            Err(LoxError::SyntaxError(location, String::from_str(message)))
        }
    }

    /// Consume an identifier token, else fail with a syntax error.
    fn consume_identifier(&mut self, message: &str) -> (r: Result<Token, LoxError>)
        requires
            old(self).wf(),
        ensures
            final(self).wf(),
            final(self).tokens == old(self).tokens,
            match r {
                Ok(t) => {
                    &&& old(self).current < old(self).tokens@.len()
                    &&& final(self).current == old(self).current + 1
                    &&& t == old(self).tokens@[old(self).current as int]
                    &&& t.token_type is Identifier
                },
                Err(e) => {
                    &&& *final(self) == *old(self)
                    &&& !ident_at(old(self).tokens@, old(self).current as nat)
                    &&& e.model() == ErrorModel::Syntax(
                        loc_at(old(self).tokens@, old(self).current as nat),
                        message@,
                    )
                },
            },
    {
        if self.current < self.tokens.len() {
            let is_ident = match self.tokens[self.current].token_type {
                TokenType::Identifier(_) => true,
                _ => false,
            };
            if is_ident {
                let t = self.tokens[self.current].clone();
                self.current = self.current + 1;
                return Ok(t);
            }
        }
        let location = if self.current < self.tokens.len() {
            self.tokens[self.current].location.clone()
        } else {
            Location::Unknown
        };
        Err(LoxError::SyntaxError(location, String::from_str(message)))
    }

    /// Discard tokens through the next statement boundary: just past a
    /// semicolon, or just before a keyword that begins a statement. Lands
    /// exactly where the model `p_sync` says, consuming at least one token
    /// unless the tokens were already exhausted.
    #[verifier::rlimit(60)]
    #[verifier::spinoff_prover]
    fn synchronize(&mut self)
        requires
            old(self).wf(),
        ensures
            final(self).wf(),
            final(self).tokens == old(self).tokens,
            final(self).current >= old(self).current,
            final(self).current as nat == p_sync(old(self).tokens@, old(self).current as nat),
            !old(self).at_end() ==> final(self).current > old(self).current,
    {
        let ghost toks = self.tokens@;
        let ghost p0 = self.current as nat;
        self.advance();
        let ghost a0 = self.current as nat;
        proof {
            lemma_sync_from_bounds(toks, a0);
            assert(p_sync(toks, p0) == sync_from(toks, a0));
        }
        while !self.is_at_end()
            invariant
                self.wf(),
                self.tokens == old(self).tokens,
                toks == old(self).tokens@,
                p0 == old(self).current as nat,
                old(self).at_end() ==> a0 == p0,
                !old(self).at_end() ==> a0 == p0 + 1,
                a0 <= self.current,
                self.current >= 1 || self.at_end(),
                p_sync(toks, p0) == sync_from(toks, a0),
                sync_from(toks, a0) == sync_from(toks, self.current as nat),
            decreases self.tokens@.len() - self.current,
        {
            let prev = self.previous();
            let done = match prev.token_type {
                TokenType::SemiColon => true,
                _ => false,
            };
            if done {
                return ;
            }
            let boundary = match self.tokens[self.current].token_type {
                TokenType::Class | TokenType::Fun | TokenType::Var | TokenType::For
                    | TokenType::If | TokenType::While | TokenType::Print | TokenType::Return =>
                    true,
                _ => false,
            };
            if boundary {
                return ;
            }
            self.advance();
        }
    }

    /// Parse the whole token sequence into statements, exactly as the model
    /// `p_parse` says: a sequence with no statements at all is a critical
    /// pipeline failure; on a broken statement the parser records the
    /// error, resynchronizes at the next statement boundary, and keeps
    /// parsing the remaining statements; the first error found is returned.
    #[verifier::rlimit(60)]
    #[verifier::spinoff_prover]
    pub fn parse(&mut self) -> (r: Result<Vec<Stmt>, LoxError>)
        requires
            old(self).wf(),
        ensures
            final(self).wf(),
            final(self).tokens == old(self).tokens,
            match r {
                Ok(stmts) => p_parse(old(self).tokens@, old(self).current as nat)
                    == ParseOut::Done(stmts_model(stmts@)),
                Err(e) => p_parse(old(self).tokens@, old(self).current as nat) == ParseOut::Fail(
                    e.model(),
                ),
            },
    {
        let ghost toks = self.tokens@;
        let ghost p00 = self.current as nat;
        if self.is_at_end() {
            let err = LoxError::Critical(String::from_str("No tokens parsed."));
            proof {
                reveal_with_fuel(p_parse, 1);
                assert(p_parse(toks, p00) == ParseOut::Fail(err.model()));
            }
            return Err(err);
        }
        let mut statements: Vec<Stmt> = Vec::new();
        let mut first_error: Option<LoxError> = None;
        proof {
            assert(stmts_model(statements@) =~= Seq::<StmtModel>::empty());
            assert(p_parse_items(toks, p00).0 =~= stmts_model(statements@) + p_parse_items(
                toks,
                self.current as nat,
            ).0);
        }
        while !self.is_at_end()
            invariant
                self.wf(),
                self.tokens == old(self).tokens,
                toks == old(self).tokens@,
                p00 == old(self).current as nat,
                !at_end_at(toks, p00),
                self.current as nat <= toks.len(),
                p_parse_items(toks, p00).0 == stmts_model(statements@) + p_parse_items(
                    toks,
                    self.current as nat,
                ).0,
                p_parse_items(toks, p00).1 == match first_error {
                    Some(e) => Some(e.model()),
                    None => p_parse_items(toks, self.current as nat).1,
                },
            decreases self.tokens@.len() - self.current,
        {
            let ghost p = self.current as nat;
            match self.declaration() {
                Ok(stmt) => {
                    let ghost sm = stmt.model();
                    let ghost ss0 = statements@;
                    statements.push(stmt);
                    proof {
                        reveal_with_fuel(p_parse_items, 2);
                        reveal_with_fuel(p_declaration, 1);
                        lemma_stmts_model_push(ss0, statements@.last());
                        assert(stepped(toks, self.current as nat, p + 1) == self.current as nat);
                        assert(p_parse_items(toks, p) == (seq![sm] + p_parse_items(
                            toks,
                            self.current as nat,
                        ).0, p_parse_items(toks, self.current as nat).1));
                        assert(stmts_model(statements@) + p_parse_items(
                            toks,
                            self.current as nat,
                        ).0 =~= stmts_model(ss0) + p_parse_items(toks, p).0);
                    }
                },
                Err(e) => {
                    let ghost em = e.model();
                    let ghost had_first = first_error is Some;
                    let ghost q0 = self.current as nat;
                    if first_error.is_none() {
                        first_error = Some(e);
                    }
                    self.synchronize();
                    proof {
                        reveal_with_fuel(p_parse_items, 2);
                        reveal_with_fuel(p_declaration, 1);
                        assert(stepped(toks, q0, p) == q0);
                        if !at_end_at(toks, q0) {
                            lemma_sync_from_bounds(toks, q0 + 1);
                        }
                        if !at_end_at(toks, self.current as nat) {
                            assert(stepped(toks, self.current as nat, p + 1)
                                == self.current as nat);
                            assert(p_parse_items(toks, p).0 == p_parse_items(
                                toks,
                                self.current as nat,
                            ).0);
                        } else {
                            assert(p_parse_items(toks, p).0 =~= Seq::<StmtModel>::empty());
                            assert(p_parse_items(toks, self.current as nat).0
                                =~= Seq::<StmtModel>::empty());
                            assert(p_parse_items(toks, self.current as nat).1 is None);
                        }
                        assert(p_parse_items(toks, p).1 == Some(em));
                        assert(stmts_model(statements@) + p_parse_items(
                            toks,
                            self.current as nat,
                        ).0 =~= stmts_model(statements@) + p_parse_items(toks, p).0);
                    }
                },
            }
        }
        proof {
            reveal_with_fuel(p_parse_items, 1);
            assert(p_parse_items(toks, self.current as nat) == (
                Seq::<StmtModel>::empty(),
                Option::<ErrorModel>::None,
            ));
            assert(stmts_model(statements@) + Seq::<StmtModel>::empty() =~= stmts_model(
                statements@,
            ));
            lemma_stmts_model_len(statements@);
            reveal_with_fuel(p_parse, 1);
        }
        match first_error {
            Some(e) => Err(e),
            None => {
                if statements.len() == 0 {
                    Err(LoxError::Critical(String::from_str("No tokens parsed.")))
                } else {
                    Ok(statements)
                }
            },
        }
    }

    #[verifier::rlimit(60)]
    #[verifier::spinoff_prover]
    fn declaration(&mut self) -> (r: Result<Stmt, LoxError>)
        requires
            old(self).wf(),
        ensures
            final(self).wf(),
            final(self).tokens == old(self).tokens,
            final(self).current >= old(self).current,
            r is Ok ==> final(self).current > old(self).current,
            match r {
                Ok(s) => p_declaration(old(self).tokens@, old(self).current as nat)
                    == StmtStep::Done(s.model(), final(self).current as nat),
                Err(e) => p_declaration(old(self).tokens@, old(self).current as nat)
                    == StmtStep::Fail(e.model(), final(self).current as nat),
            },
        decreases self.tokens@.len() - self.current, 14int,
    {
        let ghost toks = self.tokens@;
        let ghost p0 = self.current as nat;
        if self.check(&TokenType::Var) {
            self.advance();
            match self.var_declaration() {
                Ok(s) => {
                    proof {
                        reveal_with_fuel(p_declaration, 2);
                        reveal_with_fuel(p_var_declaration, 1);
                    }
                    Ok(s)
                },
                Err(e) => {
                    proof {
                        reveal_with_fuel(p_declaration, 2);
                        reveal_with_fuel(p_var_declaration, 1);
                    }
                    Err(e)
                },
            }
        } else {
            let r = self.statement();
            proof {
                reveal_with_fuel(p_declaration, 2);
                reveal_with_fuel(p_statement, 1);
            }
            r
        }
    }

    #[verifier::rlimit(60)]
    #[verifier::spinoff_prover]
    fn var_declaration(&mut self) -> (r: Result<Stmt, LoxError>)
        requires
            old(self).wf(),
        ensures
            final(self).wf(),
            final(self).tokens == old(self).tokens,
            final(self).current >= old(self).current,
            r is Ok ==> final(self).current > old(self).current,
            match r {
                Ok(s) => p_var_declaration(old(self).tokens@, old(self).current as nat)
                    == StmtStep::Done(s.model(), final(self).current as nat),
                Err(e) => p_var_declaration(old(self).tokens@, old(self).current as nat)
                    == StmtStep::Fail(e.model(), final(self).current as nat),
            },
        decreases self.tokens@.len() - self.current, 13int,
    {
        let ghost toks = self.tokens@;
        let ghost p0 = self.current as nat;
        let name = match self.consume_identifier(
            "Trying to consume an identifier as part of a var declaration.",
        ) {
            Ok(t) => t,
            Err(e) => {
                proof {
                    reveal_with_fuel(p_var_declaration, 1);
                }
                return Err(e);
            },
        };
        let cloned_name = name.clone();
        if self.check(&TokenType::Equal) {
            self.advance();
            let initializer = match self.expression() {
                Ok(e) => e,
                Err(e) => {
                    proof {
                        reveal_with_fuel(p_var_declaration, 1);
                        reveal_with_fuel(p_expression, 1);
                    }
                    return Err(e);
                },
            };
            proof {
                assert(stepped(toks, self.current as nat, p0 + 2) == self.current as nat);
            }
            match self.consume(&TokenType::SemiColon, "Expect ';' after variable declaration.") {
                Ok(_) => {
                    let result = Stmt::Var(cloned_name, initializer);
                    proof {
                        reveal_with_fuel(p_var_declaration, 1);
                        reveal_with_fuel(p_expression, 1);
                        assert(p_var_declaration(toks, p0) == StmtStep::Done(
                            result.model(),
                            self.current as nat,
                        ));
                    }
                    Ok(result)
                },
                Err(e) => {
                    proof {
                        reveal_with_fuel(p_var_declaration, 1);
                        reveal_with_fuel(p_expression, 1);
                    }
                    Err(e)
                },
            }
        } else {
            match self.consume(&TokenType::SemiColon, "Expect ';' after variable declaration.") {
                Ok(_) => {
                    // Reuse the name's location for the implied nil initializer.
                    let nil_location = cloned_name.location.clone();
                    let result = Stmt::Var(
                        cloned_name,
                        Expr::Literal(nil_location, Literal::Nil),
                    );
                    proof {
                        reveal_with_fuel(p_var_declaration, 1);
                        assert(p_var_declaration(toks, p0) == StmtStep::Done(
                            result.model(),
                            self.current as nat,
                        ));
                    }
                    Ok(result)
                },
                Err(e) => {
                    proof {
                        reveal_with_fuel(p_var_declaration, 1);
                    }
                    Err(e)
                },
            }
        }
    }

    #[verifier::rlimit(60)]
    #[verifier::spinoff_prover]
    fn statement(&mut self) -> (r: Result<Stmt, LoxError>)
        requires
            old(self).wf(),
        ensures
            final(self).wf(),
            final(self).tokens == old(self).tokens,
            final(self).current >= old(self).current,
            r is Ok ==> final(self).current > old(self).current,
            match r {
                Ok(s) => p_statement(old(self).tokens@, old(self).current as nat)
                    == StmtStep::Done(s.model(), final(self).current as nat),
                Err(e) => p_statement(old(self).tokens@, old(self).current as nat)
                    == StmtStep::Fail(e.model(), final(self).current as nat),
            },
        decreases self.tokens@.len() - self.current, 13int,
    {
        let ghost toks = self.tokens@;
        let ghost p0 = self.current as nat;
        if self.check(&TokenType::Print) {
            self.advance();
            let r = self.print_statement();
            proof {
                reveal_with_fuel(p_statement, 2);
                reveal_with_fuel(p_print_statement, 1);
            }
            r
        } else if self.check(&TokenType::LeftBrace) {
            self.advance();
            let ghost bs = self.current as nat;
            // A block: declarations through the matching right brace.
            let mut statements: Vec<Stmt> = Vec::new();
            proof {
                assert(stmts_model(statements@) =~= Seq::<StmtModel>::empty());
                assert(p_block_items(toks, bs).0 =~= stmts_model(statements@) + p_block_items(
                    toks,
                    self.current as nat,
                ).0);
            }
            while !self.is_at_end() && !self.check(&TokenType::RightBrace)
                invariant
                    self.wf(),
                    self.tokens == old(self).tokens,
                    toks == old(self).tokens@,
                    p0 == old(self).current as nat,
                    checks_at(toks, p0, TokenTypeModel::LeftBrace),
                    bs == p0 + 1,
                    bs <= toks.len(),
                    self.current > old(self).current,
                    p_block_items(toks, bs).0 == stmts_model(statements@) + p_block_items(
                        toks,
                        self.current as nat,
                    ).0,
                    p_block_items(toks, bs).1 == p_block_items(toks, self.current as nat).1,
                    p_block_items(toks, bs).2 == p_block_items(toks, self.current as nat).2,
                decreases self.tokens@.len() - self.current,
            {
                let ghost p = self.current as nat;
                match self.declaration() {
                    Ok(stmt) => {
                        let ghost sm = stmt.model();
                        let ghost ss0 = statements@;
                        statements.push(stmt);
                        proof {
                            reveal_with_fuel(p_block_items, 2);
                            reveal_with_fuel(p_declaration, 1);
                            lemma_stmts_model_push(ss0, statements@.last());
                            assert(stepped(toks, self.current as nat, p + 1)
                                == self.current as nat);
                            assert(stmts_model(statements@) + p_block_items(
                                toks,
                                self.current as nat,
                            ).0 =~= stmts_model(ss0) + p_block_items(toks, p).0);
                        }
                    },
                    Err(e) => {
                        proof {
                            reveal_with_fuel(p_block_items, 2);
                            reveal_with_fuel(p_declaration, 1);
                            reveal_with_fuel(p_statement, 2);
                            assert(p_block_items(toks, p).1 == Some(e.model()));
                            assert(p_block_items(toks, p).2 == self.current as nat);
                            assert(p_statement(toks, p0) == StmtStep::Fail(
                                e.model(),
                                self.current as nat,
                            ));
                        }
                        return Err(e);
                    },
                }
            }
            proof {
                reveal_with_fuel(p_block_items, 1);
                assert(p_block_items(toks, self.current as nat) == (
                    Seq::<StmtModel>::empty(),
                    Option::<ErrorModel>::None,
                    self.current as nat,
                ));
                assert(stmts_model(statements@) + Seq::<StmtModel>::empty() =~= stmts_model(
                    statements@,
                ));
            }
            match self.consume(&TokenType::RightBrace, "Expect '}' after block.") {
                Ok(_) => {
                    let result = Stmt::Block(statements);
                    proof {
                        reveal_with_fuel(p_statement, 2);
                        assert(p_statement(toks, p0) == StmtStep::Done(
                            result.model(),
                            self.current as nat,
                        ));
                    }
                    Ok(result)
                },
                Err(e) => {
                    proof {
                        reveal_with_fuel(p_statement, 2);
                        assert(p_statement(toks, p0) == StmtStep::Fail(
                            e.model(),
                            self.current as nat,
                        ));
                    }
                    Err(e)
                },
            }
        } else {
            let r = self.expression_statement();
            proof {
                reveal_with_fuel(p_statement, 2);
                reveal_with_fuel(p_expression_statement, 1);
            }
            r
        }
    }

    #[verifier::rlimit(60)]
    #[verifier::spinoff_prover]
    fn print_statement(&mut self) -> (r: Result<Stmt, LoxError>)
        requires
            old(self).wf(),
        ensures
            final(self).wf(),
            final(self).tokens == old(self).tokens,
            final(self).current >= old(self).current,
            r is Ok ==> final(self).current > old(self).current,
            match r {
                Ok(s) => p_print_statement(old(self).tokens@, old(self).current as nat)
                    == StmtStep::Done(s.model(), final(self).current as nat),
                Err(e) => p_print_statement(old(self).tokens@, old(self).current as nat)
                    == StmtStep::Fail(e.model(), final(self).current as nat),
            },
        decreases self.tokens@.len() - self.current, 12int,
    {
        let ghost toks = self.tokens@;
        let ghost p0 = self.current as nat;
        let expr = match self.expression() {
            Ok(e) => e,
            Err(e) => {
                proof {
                    reveal_with_fuel(p_print_statement, 1);
                    reveal_with_fuel(p_expression, 1);
                }
                return Err(e);
            },
        };
        proof {
            assert(stepped(toks, self.current as nat, p0) == self.current as nat);
        }
        match self.consume(&TokenType::SemiColon, "Expect ; after value.") {
            Ok(_) => {
                let result = Stmt::Print(expr);
                proof {
                    reveal_with_fuel(p_print_statement, 1);
                    reveal_with_fuel(p_expression, 1);
                    assert(p_print_statement(toks, p0) == StmtStep::Done(
                        result.model(),
                        self.current as nat,
                    ));
                }
                Ok(result)
            },
            Err(e) => {
                proof {
                    reveal_with_fuel(p_print_statement, 1);
                    reveal_with_fuel(p_expression, 1);
                }
                Err(e)
            },
        }
    }

    #[verifier::rlimit(60)]
    #[verifier::spinoff_prover]
    fn expression_statement(&mut self) -> (r: Result<Stmt, LoxError>)
        requires
            old(self).wf(),
        ensures
            final(self).wf(),
            final(self).tokens == old(self).tokens,
            final(self).current >= old(self).current,
            r is Ok ==> final(self).current > old(self).current,
            match r {
                Ok(s) => p_expression_statement(old(self).tokens@, old(self).current as nat)
                    == StmtStep::Done(s.model(), final(self).current as nat),
                Err(e) => p_expression_statement(old(self).tokens@, old(self).current as nat)
                    == StmtStep::Fail(e.model(), final(self).current as nat),
            },
        decreases self.tokens@.len() - self.current, 12int,
    {
        let ghost toks = self.tokens@;
        let ghost p0 = self.current as nat;
        let expr = match self.expression() {
            Ok(e) => e,
            Err(e) => {
                proof {
                    reveal_with_fuel(p_expression_statement, 1);
                    reveal_with_fuel(p_expression, 1);
                }
                return Err(e);
            },
        };
        proof {
            assert(stepped(toks, self.current as nat, p0) == self.current as nat);
        }
        match self.consume(&TokenType::SemiColon, "Expect ; after value.") {
            Ok(_) => {
                let result = Stmt::Expression(expr);
                proof {
                    reveal_with_fuel(p_expression_statement, 1);
                    reveal_with_fuel(p_expression, 1);
                    assert(p_expression_statement(toks, p0) == StmtStep::Done(
                        result.model(),
                        self.current as nat,
                    ));
                }
                Ok(result)
            },
            Err(e) => {
                proof {
                    reveal_with_fuel(p_expression_statement, 1);
                    reveal_with_fuel(p_expression, 1);
                }
                Err(e)
            },
        }
    }

    #[verifier::rlimit(60)]
    #[verifier::spinoff_prover]
    fn expression(&mut self) -> (r: Result<Expr, LoxError>)
        requires
            old(self).wf(),
        ensures
            final(self).wf(),
            final(self).tokens == old(self).tokens,
            final(self).current >= old(self).current,
            r is Ok ==> final(self).current > old(self).current,
            match r {
                Ok(e) => p_expression(old(self).tokens@, old(self).current as nat)
                    == ExprStep::Done(e, final(self).current as nat),
                Err(err) => p_expression(old(self).tokens@, old(self).current as nat)
                    == ExprStep::Fail(err.model(), final(self).current as nat),
            },
        decreases self.tokens@.len() - self.current, 95int,
    {
        let ghost toks = self.tokens@;
        let ghost p0 = self.current as nat;
        let r = self.assignment();
        proof {
            reveal_with_fuel(p_expression, 2);
            reveal_with_fuel(p_assignment, 1);
            assert(p_expression(toks, p0) == p_assignment(toks, p0));
        }
        r
    }

    /// Assignment is right associative, and only a variable may stand on
    /// the left of `=`: anything else is a runtime error at the `=` token.
    #[verifier::rlimit(60)]
    #[verifier::spinoff_prover]
    fn assignment(&mut self) -> (r: Result<Expr, LoxError>)
        requires
            old(self).wf(),
        ensures
            final(self).wf(),
            final(self).tokens == old(self).tokens,
            final(self).current >= old(self).current,
            r is Ok ==> final(self).current > old(self).current,
            match r {
                Ok(e) => p_assignment(old(self).tokens@, old(self).current as nat)
                    == ExprStep::Done(e, final(self).current as nat),
                Err(err) => p_assignment(old(self).tokens@, old(self).current as nat)
                    == ExprStep::Fail(err.model(), final(self).current as nat),
            },
        decreases self.tokens@.len() - self.current, 90int,
    {
        let ghost toks = self.tokens@;
        let ghost p0 = self.current as nat;
        let expr = match self.logical_or() {
            Ok(e) => e,
            Err(e) => {
                proof {
                    reveal_with_fuel(p_assignment, 2);
                    reveal_with_fuel(p_or, 1);
                    assert(p_assignment(toks, p0) == ExprStep::Fail(
                        e.model(),
                        self.current as nat,
                    ));
                }
                return Err(e);
            },
        };
        let ghost q0 = self.current as nat;
        if self.check(&TokenType::Equal) {
            self.advance();
            let location = self.previous().location;
            let value = match self.assignment() {
                Ok(e) => e,
                Err(e) => {
                    proof {
                        reveal_with_fuel(p_assignment, 2);
                        reveal_with_fuel(p_or, 1);
                        assert(stepped(toks, q0, p0) == q0);
                        assert(p_assignment(toks, p0) == ExprStep::Fail(
                            e.model(),
                            self.current as nat,
                        ));
                    }
                    return Err(e);
                },
            };
            match expr {
                Expr::Variable(token) => {
                    let result = Expr::Assign(token, Box::new(value));
                    proof {
                        reveal_with_fuel(p_assignment, 2);
                        reveal_with_fuel(p_or, 1);
                        assert(stepped(toks, q0, p0) == q0);
                        assert(p_assignment(toks, p0) == ExprStep::Done(
                            result,
                            self.current as nat,
                        ));
                    }
                    Ok(result)
                },
                _ => {
                    let err = LoxError::RuntimeError(
                        location,
                        String::from_str("Invalid assignment target"),
                    );
                    proof {
                        reveal_with_fuel(p_assignment, 2);
                        reveal_with_fuel(p_or, 1);
                        assert(stepped(toks, q0, p0) == q0);
                        assert(p_assignment(toks, p0) == ExprStep::Fail(
                            err.model(),
                            self.current as nat,
                        ));
                    }
                    Err(err)
                },
            }
        } else {
            proof {
                reveal_with_fuel(p_assignment, 2);
                reveal_with_fuel(p_or, 1);
                assert(stepped(toks, q0, p0) == q0);
                assert(p_assignment(toks, p0) == ExprStep::Done(expr, q0));
            }
            Ok(expr)
        }
    }

    #[verifier::rlimit(60)]
    #[verifier::spinoff_prover]
    fn logical_or(&mut self) -> (r: Result<Expr, LoxError>)
        requires
            old(self).wf(),
        ensures
            final(self).wf(),
            final(self).tokens == old(self).tokens,
            final(self).current >= old(self).current,
            r is Ok ==> final(self).current > old(self).current,
            match r {
                Ok(e) => p_or(old(self).tokens@, old(self).current as nat) == ExprStep::Done(
                    e,
                    final(self).current as nat,
                ),
                Err(err) => p_or(old(self).tokens@, old(self).current as nat) == ExprStep::Fail(
                    err.model(),
                    final(self).current as nat,
                ),
            },
        decreases self.tokens@.len() - self.current, 80int,
    {
        let ghost toks = self.tokens@;
        let ghost p0 = self.current as nat;
        let mut expr = match self.logical_and() {
            Ok(e) => e,
            Err(e) => {
                proof {
                    reveal_with_fuel(p_or, 2);
                    reveal_with_fuel(p_and, 1);
                    reveal_with_fuel(p_or_rest, 1);
                    assert(p_or(toks, p0) == ExprStep::Fail(e.model(), self.current as nat));
                }
                return Err(e);
            },
        };
        proof {
            reveal_with_fuel(p_or, 2);
            reveal_with_fuel(p_and, 1);
            reveal_with_fuel(p_or_rest, 1);
            assert(stepped(toks, self.current as nat, p0) == self.current as nat);
            assert(p_or(toks, p0) == p_or_rest(toks, expr, self.current as nat));
        }
        while self.check(&TokenType::Or)
            invariant
                self.wf(),
                self.tokens == old(self).tokens,
                toks == old(self).tokens@,
                self.current > old(self).current,
                p_or(old(self).tokens@, old(self).current as nat) == p_or_rest(
                    old(self).tokens@,
                    expr,
                    self.current as nat,
                ),
            decreases self.tokens@.len() - self.current,
        {
            let ghost p = self.current as nat;
            let ghost e0 = expr;
            self.advance();
            let operator = self.previous();
            let right = match self.logical_and() {
                Ok(e) => e,
                Err(e) => {
                    proof {
                        reveal_with_fuel(p_or_rest, 2);
                        reveal_with_fuel(p_and, 1);
                        assert(p_or_rest(toks, e0, p) == ExprStep::Fail(
                            e.model(),
                            self.current as nat,
                        ));
                    }
                    return Err(e);
                },
            };
            expr = Expr::Logical(Box::new(expr), operator, Box::new(right));
            proof {
                reveal_with_fuel(p_or_rest, 2);
                reveal_with_fuel(p_and, 1);
                assert(stepped(toks, self.current as nat, p + 1) == self.current as nat);
                assert(p_or_rest(toks, e0, p) == p_or_rest(toks, expr, self.current as nat));
            }
        }
        proof {
            reveal_with_fuel(p_or_rest, 2);
            reveal_with_fuel(p_and, 1);
            assert(p_or_rest(toks, expr, self.current as nat) == ExprStep::Done(
                expr,
                self.current as nat,
            ));
        }
        Ok(expr)
    }

    #[verifier::rlimit(60)]
    #[verifier::spinoff_prover]
    fn logical_and(&mut self) -> (r: Result<Expr, LoxError>)
        requires
            old(self).wf(),
        ensures
            final(self).wf(),
            final(self).tokens == old(self).tokens,
            final(self).current >= old(self).current,
            r is Ok ==> final(self).current > old(self).current,
            match r {
                Ok(e) => p_and(old(self).tokens@, old(self).current as nat) == ExprStep::Done(
                    e,
                    final(self).current as nat,
                ),
                Err(err) => p_and(old(self).tokens@, old(self).current as nat) == ExprStep::Fail(
                    err.model(),
                    final(self).current as nat,
                ),
            },
        decreases self.tokens@.len() - self.current, 70int,
    {
        let ghost toks = self.tokens@;
        let ghost p0 = self.current as nat;
        let mut expr = match self.equality() {
            Ok(e) => e,
            Err(e) => {
                proof {
                    reveal_with_fuel(p_and, 2);
                    reveal_with_fuel(p_equality, 1);
                    reveal_with_fuel(p_and_rest, 1);
                    assert(p_and(toks, p0) == ExprStep::Fail(e.model(), self.current as nat));
                }
                return Err(e);
            },
        };
        proof {
            reveal_with_fuel(p_and, 2);
            reveal_with_fuel(p_equality, 1);
            reveal_with_fuel(p_and_rest, 1);
            assert(stepped(toks, self.current as nat, p0) == self.current as nat);
            assert(p_and(toks, p0) == p_and_rest(toks, expr, self.current as nat));
        }
        while self.check(&TokenType::And)
            invariant
                self.wf(),
                self.tokens == old(self).tokens,
                toks == old(self).tokens@,
                self.current > old(self).current,
                p_and(old(self).tokens@, old(self).current as nat) == p_and_rest(
                    old(self).tokens@,
                    expr,
                    self.current as nat,
                ),
            decreases self.tokens@.len() - self.current,
        {
            let ghost p = self.current as nat;
            let ghost e0 = expr;
            self.advance();
            let operator = self.previous();
            let right = match self.equality() {
                Ok(e) => e,
                Err(e) => {
                    proof {
                        reveal_with_fuel(p_and_rest, 2);
                        reveal_with_fuel(p_equality, 1);
                        assert(p_and_rest(toks, e0, p) == ExprStep::Fail(
                            e.model(),
                            self.current as nat,
                        ));
                    }
                    return Err(e);
                },
            };
            expr = Expr::Logical(Box::new(expr), operator, Box::new(right));
            proof {
                reveal_with_fuel(p_and_rest, 2);
                reveal_with_fuel(p_equality, 1);
                assert(stepped(toks, self.current as nat, p + 1) == self.current as nat);
                assert(p_and_rest(toks, e0, p) == p_and_rest(toks, expr, self.current as nat));
            }
        }
        proof {
            reveal_with_fuel(p_and_rest, 2);
            reveal_with_fuel(p_equality, 1);
            assert(p_and_rest(toks, expr, self.current as nat) == ExprStep::Done(
                expr,
                self.current as nat,
            ));
        }
        Ok(expr)
    }

    #[verifier::rlimit(60)]
    #[verifier::spinoff_prover]
    fn equality(&mut self) -> (r: Result<Expr, LoxError>)
        requires
            old(self).wf(),
        ensures
            final(self).wf(),
            final(self).tokens == old(self).tokens,
            final(self).current >= old(self).current,
            r is Ok ==> final(self).current > old(self).current,
            match r {
                Ok(e) => p_equality(old(self).tokens@, old(self).current as nat) == ExprStep::Done(
                    e,
                    final(self).current as nat,
                ),
                Err(err) => p_equality(old(self).tokens@, old(self).current as nat) == ExprStep::Fail(
                    err.model(),
                    final(self).current as nat,
                ),
            },
        decreases self.tokens@.len() - self.current, 60int,
    {
        let ghost toks = self.tokens@;
        let ghost p0 = self.current as nat;
        let mut expr = match self.comparison() {
            Ok(e) => e,
            Err(e) => {
                proof {
                    reveal_with_fuel(p_equality, 2);
                    reveal_with_fuel(p_comparison, 1);
                    reveal_with_fuel(p_equality_rest, 1);
                    assert(p_equality(toks, p0) == ExprStep::Fail(e.model(), self.current as nat));
                }
                return Err(e);
            },
        };
        proof {
            reveal_with_fuel(p_equality, 2);
            reveal_with_fuel(p_comparison, 1);
            reveal_with_fuel(p_equality_rest, 1);
            assert(stepped(toks, self.current as nat, p0) == self.current as nat);
            assert(p_equality(toks, p0) == p_equality_rest(toks, expr, self.current as nat));
        }
        while self.check(&TokenType::BangEqual) || self.check(&TokenType::EqualEqual)
            invariant
                self.wf(),
                self.tokens == old(self).tokens,
                toks == old(self).tokens@,
                self.current > old(self).current,
                p_equality(old(self).tokens@, old(self).current as nat) == p_equality_rest(
                    old(self).tokens@,
                    expr,
                    self.current as nat,
                ),
            decreases self.tokens@.len() - self.current,
        {
            let ghost p = self.current as nat;
            let ghost e0 = expr;
            self.advance();
            let operator = self.previous();
            let right = match self.comparison() {
                Ok(e) => e,
                Err(e) => {
                    proof {
                        reveal_with_fuel(p_equality_rest, 2);
                        reveal_with_fuel(p_comparison, 1);
                        assert(p_equality_rest(toks, e0, p) == ExprStep::Fail(
                            e.model(),
                            self.current as nat,
                        ));
                    }
                    return Err(e);
                },
            };
            expr = Expr::Binary(Box::new(expr), operator, Box::new(right));
            proof {
                reveal_with_fuel(p_equality_rest, 2);
                reveal_with_fuel(p_comparison, 1);
                assert(stepped(toks, self.current as nat, p + 1) == self.current as nat);
                assert(p_equality_rest(toks, e0, p) == p_equality_rest(toks, expr, self.current as nat));
            }
        }
        proof {
            reveal_with_fuel(p_equality_rest, 2);
            reveal_with_fuel(p_comparison, 1);
            assert(p_equality_rest(toks, expr, self.current as nat) == ExprStep::Done(
                expr,
                self.current as nat,
            ));
        }
        Ok(expr)
    }

    #[verifier::rlimit(60)]
    #[verifier::spinoff_prover]
    fn comparison(&mut self) -> (r: Result<Expr, LoxError>)
        requires
            old(self).wf(),
        ensures
            final(self).wf(),
            final(self).tokens == old(self).tokens,
            final(self).current >= old(self).current,
            r is Ok ==> final(self).current > old(self).current,
            match r {
                Ok(e) => p_comparison(old(self).tokens@, old(self).current as nat) == ExprStep::Done(
                    e,
                    final(self).current as nat,
                ),
                Err(err) => p_comparison(old(self).tokens@, old(self).current as nat) == ExprStep::Fail(
                    err.model(),
                    final(self).current as nat,
                ),
            },
        decreases self.tokens@.len() - self.current, 50int,
    {
        let ghost toks = self.tokens@;
        let ghost p0 = self.current as nat;
        let mut expr = match self.term() {
            Ok(e) => e,
            Err(e) => {
                proof {
                    reveal_with_fuel(p_comparison, 2);
                    reveal_with_fuel(p_term, 1);
                    reveal_with_fuel(p_comparison_rest, 1);
                    assert(p_comparison(toks, p0) == ExprStep::Fail(e.model(), self.current as nat));
                }
                return Err(e);
            },
        };
        proof {
            reveal_with_fuel(p_comparison, 2);
            reveal_with_fuel(p_term, 1);
            reveal_with_fuel(p_comparison_rest, 1);
            assert(stepped(toks, self.current as nat, p0) == self.current as nat);
            assert(p_comparison(toks, p0) == p_comparison_rest(toks, expr, self.current as nat));
        }
        while self.check(&TokenType::Greater) || self.check(&TokenType::GreaterEqual) || self.check(&TokenType::Less) || self.check(&TokenType::LessEqual)
            invariant
                self.wf(),
                self.tokens == old(self).tokens,
                toks == old(self).tokens@,
                self.current > old(self).current,
                p_comparison(old(self).tokens@, old(self).current as nat) == p_comparison_rest(
                    old(self).tokens@,
                    expr,
                    self.current as nat,
                ),
            decreases self.tokens@.len() - self.current,
        {
            let ghost p = self.current as nat;
            let ghost e0 = expr;
            self.advance();
            let operator = self.previous();
            let right = match self.term() {
                Ok(e) => e,
                Err(e) => {
                    proof {
                        reveal_with_fuel(p_comparison_rest, 2);
                        reveal_with_fuel(p_term, 1);
                        assert(p_comparison_rest(toks, e0, p) == ExprStep::Fail(
                            e.model(),
                            self.current as nat,
                        ));
                    }
                    return Err(e);
                },
            };
            expr = Expr::Binary(Box::new(expr), operator, Box::new(right));
            proof {
                reveal_with_fuel(p_comparison_rest, 2);
                reveal_with_fuel(p_term, 1);
                assert(stepped(toks, self.current as nat, p + 1) == self.current as nat);
                assert(p_comparison_rest(toks, e0, p) == p_comparison_rest(toks, expr, self.current as nat));
            }
        }
        proof {
            reveal_with_fuel(p_comparison_rest, 2);
            reveal_with_fuel(p_term, 1);
            assert(p_comparison_rest(toks, expr, self.current as nat) == ExprStep::Done(
                expr,
                self.current as nat,
            ));
        }
        Ok(expr)
    }

    #[verifier::rlimit(60)]
    #[verifier::spinoff_prover]
    fn term(&mut self) -> (r: Result<Expr, LoxError>)
        requires
            old(self).wf(),
        ensures
            final(self).wf(),
            final(self).tokens == old(self).tokens,
            final(self).current >= old(self).current,
            r is Ok ==> final(self).current > old(self).current,
            match r {
                Ok(e) => p_term(old(self).tokens@, old(self).current as nat) == ExprStep::Done(
                    e,
                    final(self).current as nat,
                ),
                Err(err) => p_term(old(self).tokens@, old(self).current as nat) == ExprStep::Fail(
                    err.model(),
                    final(self).current as nat,
                ),
            },
        decreases self.tokens@.len() - self.current, 40int,
    {
        let ghost toks = self.tokens@;
        let ghost p0 = self.current as nat;
        let mut expr = match self.factor() {
            Ok(e) => e,
            Err(e) => {
                proof {
                    reveal_with_fuel(p_term, 2);
                    reveal_with_fuel(p_factor, 1);
                    reveal_with_fuel(p_term_rest, 1);
                    assert(p_term(toks, p0) == ExprStep::Fail(e.model(), self.current as nat));
                }
                return Err(e);
            },
        };
        proof {
            reveal_with_fuel(p_term, 2);
            reveal_with_fuel(p_factor, 1);
            reveal_with_fuel(p_term_rest, 1);
            assert(stepped(toks, self.current as nat, p0) == self.current as nat);
            assert(p_term(toks, p0) == p_term_rest(toks, expr, self.current as nat));
        }
        while self.check(&TokenType::Plus) || self.check(&TokenType::Minus)
            invariant
                self.wf(),
                self.tokens == old(self).tokens,
                toks == old(self).tokens@,
                self.current > old(self).current,
                p_term(old(self).tokens@, old(self).current as nat) == p_term_rest(
                    old(self).tokens@,
                    expr,
                    self.current as nat,
                ),
            decreases self.tokens@.len() - self.current,
        {
            let ghost p = self.current as nat;
            let ghost e0 = expr;
            self.advance();
            let operator = self.previous();
            let right = match self.factor() {
                Ok(e) => e,
                Err(e) => {
                    proof {
                        reveal_with_fuel(p_term_rest, 2);
                        reveal_with_fuel(p_factor, 1);
                        assert(p_term_rest(toks, e0, p) == ExprStep::Fail(
                            e.model(),
                            self.current as nat,
                        ));
                    }
                    return Err(e);
                },
            };
            expr = Expr::Binary(Box::new(expr), operator, Box::new(right));
            proof {
                reveal_with_fuel(p_term_rest, 2);
                reveal_with_fuel(p_factor, 1);
                assert(stepped(toks, self.current as nat, p + 1) == self.current as nat);
                assert(p_term_rest(toks, e0, p) == p_term_rest(toks, expr, self.current as nat));
            }
        }
        proof {
            reveal_with_fuel(p_term_rest, 2);
            reveal_with_fuel(p_factor, 1);
            assert(p_term_rest(toks, expr, self.current as nat) == ExprStep::Done(
                expr,
                self.current as nat,
            ));
        }
        Ok(expr)
    }

    #[verifier::rlimit(60)]
    #[verifier::spinoff_prover]
    fn factor(&mut self) -> (r: Result<Expr, LoxError>)
        requires
            old(self).wf(),
        ensures
            final(self).wf(),
            final(self).tokens == old(self).tokens,
            final(self).current >= old(self).current,
            r is Ok ==> final(self).current > old(self).current,
            match r {
                Ok(e) => p_factor(old(self).tokens@, old(self).current as nat) == ExprStep::Done(
                    e,
                    final(self).current as nat,
                ),
                Err(err) => p_factor(old(self).tokens@, old(self).current as nat) == ExprStep::Fail(
                    err.model(),
                    final(self).current as nat,
                ),
            },
        decreases self.tokens@.len() - self.current, 30int,
    {
        let ghost toks = self.tokens@;
        let ghost p0 = self.current as nat;
        let mut expr = match self.unary() {
            Ok(e) => e,
            Err(e) => {
                proof {
                    reveal_with_fuel(p_factor, 2);
                    reveal_with_fuel(p_unary, 1);
                    reveal_with_fuel(p_factor_rest, 1);
                    assert(p_factor(toks, p0) == ExprStep::Fail(e.model(), self.current as nat));
                }
                return Err(e);
            },
        };
        proof {
            reveal_with_fuel(p_factor, 2);
            reveal_with_fuel(p_unary, 1);
            reveal_with_fuel(p_factor_rest, 1);
            assert(stepped(toks, self.current as nat, p0) == self.current as nat);
            assert(p_factor(toks, p0) == p_factor_rest(toks, expr, self.current as nat));
        }
        while self.check(&TokenType::Slash) || self.check(&TokenType::Star)
            invariant
                self.wf(),
                self.tokens == old(self).tokens,
                toks == old(self).tokens@,
                self.current > old(self).current,
                p_factor(old(self).tokens@, old(self).current as nat) == p_factor_rest(
                    old(self).tokens@,
                    expr,
                    self.current as nat,
                ),
            decreases self.tokens@.len() - self.current,
        {
            let ghost p = self.current as nat;
            let ghost e0 = expr;
            self.advance();
            let operator = self.previous();
            let right = match self.unary() {
                Ok(e) => e,
                Err(e) => {
                    proof {
                        reveal_with_fuel(p_factor_rest, 2);
                        reveal_with_fuel(p_unary, 1);
                        assert(p_factor_rest(toks, e0, p) == ExprStep::Fail(
                            e.model(),
                            self.current as nat,
                        ));
                    }
                    return Err(e);
                },
            };
            expr = Expr::Binary(Box::new(expr), operator, Box::new(right));
            proof {
                reveal_with_fuel(p_factor_rest, 2);
                reveal_with_fuel(p_unary, 1);
                assert(stepped(toks, self.current as nat, p + 1) == self.current as nat);
                assert(p_factor_rest(toks, e0, p) == p_factor_rest(toks, expr, self.current as nat));
            }
        }
        proof {
            reveal_with_fuel(p_factor_rest, 2);
            reveal_with_fuel(p_unary, 1);
            assert(p_factor_rest(toks, expr, self.current as nat) == ExprStep::Done(
                expr,
                self.current as nat,
            ));
        }
        Ok(expr)
    }

    #[verifier::rlimit(60)]
    #[verifier::spinoff_prover]
    fn unary(&mut self) -> (r: Result<Expr, LoxError>)
        requires
            old(self).wf(),
        ensures
            final(self).wf(),
            final(self).tokens == old(self).tokens,
            final(self).current >= old(self).current,
            r is Ok ==> final(self).current > old(self).current,
            match r {
                Ok(e) => p_unary(old(self).tokens@, old(self).current as nat) == ExprStep::Done(
                    e,
                    final(self).current as nat,
                ),
                Err(err) => p_unary(old(self).tokens@, old(self).current as nat) == ExprStep::Fail(
                    err.model(),
                    final(self).current as nat,
                ),
            },
        decreases self.tokens@.len() - self.current, 20int,
    {
        let ghost toks = self.tokens@;
        let ghost p0 = self.current as nat;
        if self.check(&TokenType::Bang) || self.check(&TokenType::Minus) {
            self.advance();
            let operator = self.previous();
            match self.unary() {
                Ok(right) => {
                    let result = Expr::Unary(operator, Box::new(right));
                    proof {
                        reveal_with_fuel(p_unary, 2);
                        reveal_with_fuel(p_primary, 1);
                        assert(p_unary(toks, p0) == ExprStep::Done(result, self.current as nat));
                    }
                    Ok(result)
                },
                Err(err) => {
                    proof {
                        reveal_with_fuel(p_unary, 2);
                        reveal_with_fuel(p_primary, 1);
                        assert(p_unary(toks, p0) == ExprStep::Fail(
                            err.model(),
                            self.current as nat,
                        ));
                    }
                    Err(err)
                },
            }
        } else {
            let r = self.primary();
            proof {
                reveal_with_fuel(p_unary, 2);
                reveal_with_fuel(p_primary, 1);
                assert(p0 <= toks.len());
                assert(!checks_at(toks, p0, TokenTypeModel::Bang));
                assert(!checks_at(toks, p0, TokenTypeModel::Minus));
                assert(p_unary(toks, p0) == p_primary(toks, p0));
            }
            r
        }
    }

    #[verifier::rlimit(60)]
    #[verifier::spinoff_prover]
    fn primary(&mut self) -> (r: Result<Expr, LoxError>)
        requires
            old(self).wf(),
        ensures
            final(self).wf(),
            final(self).tokens == old(self).tokens,
            final(self).current >= old(self).current,
            r is Ok ==> final(self).current > old(self).current,
            match r {
                Ok(e) => p_primary(old(self).tokens@, old(self).current as nat) == ExprStep::Done(
                    e,
                    final(self).current as nat,
                ),
                Err(err) => p_primary(old(self).tokens@, old(self).current as nat)
                    == ExprStep::Fail(err.model(), final(self).current as nat),
            },
        decreases self.tokens@.len() - self.current, 10int,
    {
        let ghost toks = self.tokens@;
        let ghost p0 = self.current as nat;
        if self.current >= self.tokens.len() {
            let err = LoxError::SyntaxError(
                Location::Unknown,
                String::from_str("Token get out of index."),
            );
            proof {
                reveal_with_fuel(p_primary, 2);
                reveal_with_fuel(p_expression, 1);
                assert(p_primary(toks, p0) == ExprStep::Fail(err.model(), p0));
            }
            return Err(err);
        }
        let token = self.tokens[self.current].clone();
        let location = token.location.clone();
        match token.token_type {
            TokenType::False => {
                self.current = self.current + 1;
                let result = Expr::Literal(location, Literal::False);
                proof {
                    reveal_with_fuel(p_primary, 2);
                    reveal_with_fuel(p_expression, 1);
                    assert(p_primary(toks, p0) == ExprStep::Done(result, self.current as nat));
                }
                Ok(result)
            },
            TokenType::True => {
                self.current = self.current + 1;
                let result = Expr::Literal(location, Literal::True);
                proof {
                    reveal_with_fuel(p_primary, 2);
                    reveal_with_fuel(p_expression, 1);
                    assert(p_primary(toks, p0) == ExprStep::Done(result, self.current as nat));
                }
                Ok(result)
            },
            TokenType::Nil => {
                self.current = self.current + 1;
                let result = Expr::Literal(location, Literal::Nil);
                proof {
                    reveal_with_fuel(p_primary, 2);
                    reveal_with_fuel(p_expression, 1);
                    assert(p_primary(toks, p0) == ExprStep::Done(result, self.current as nat));
                }
                Ok(result)
            },
            TokenType::Number(x) => {
                self.current = self.current + 1;
                let result = Expr::Literal(location, Literal::Number(x));
                proof {
                    reveal_with_fuel(p_primary, 2);
                    reveal_with_fuel(p_expression, 1);
                    assert(p_primary(toks, p0) == ExprStep::Done(result, self.current as nat));
                }
                Ok(result)
            },
            TokenType::String(x) => {
                self.current = self.current + 1;
                let result = Expr::Literal(location, Literal::String(x));
                proof {
                    reveal_with_fuel(p_primary, 2);
                    reveal_with_fuel(p_expression, 1);
                    assert(p_primary(toks, p0) == ExprStep::Done(result, self.current as nat));
                }
                Ok(result)
            },
            TokenType::LeftParen => {
                self.current = self.current + 1;
                let inner = match self.expression() {
                    Ok(e) => e,
                    Err(e) => {
                        proof {
                            reveal_with_fuel(p_primary, 2);
                            reveal_with_fuel(p_expression, 1);
                            assert(p_primary(toks, p0) == ExprStep::Fail(
                                e.model(),
                                self.current as nat,
                            ));
                        }
                        return Err(e);
                    },
                };
                proof {
                    assert(stepped(toks, self.current as nat, p0 + 1) == self.current as nat);
                }
                match self.consume(
                    &TokenType::RightParen,
                    "Expect ')' after expression. After the expression finishes parsing the next token type must be a RightParen.",
                ) {
                    Ok(_) => {
                        let result = Expr::Grouping(Box::new(inner));
                        proof {
                            reveal_with_fuel(p_primary, 2);
                            reveal_with_fuel(p_expression, 1);
                            assert(p_primary(toks, p0) == ExprStep::Done(
                                result,
                                self.current as nat,
                            ));
                        }
                        Ok(result)
                    },
                    Err(e) => {
                        proof {
                            reveal_with_fuel(p_primary, 2);
                            reveal_with_fuel(p_expression, 1);
                            assert(p_primary(toks, p0) == ExprStep::Fail(
                                e.model(),
                                self.current as nat,
                            ));
                        }
                        Err(e)
                    },
                }
            },
            TokenType::Identifier(_) => {
                self.current = self.current + 1;
                let result = Expr::Variable(token);
                proof {
                    reveal_with_fuel(p_primary, 2);
                    reveal_with_fuel(p_expression, 1);
                    assert(p_primary(toks, p0) == ExprStep::Done(result, self.current as nat));
                }
                Ok(result)
            },
            _ => {
                let err = LoxError::RuntimeError(
                    location,
                    String::from_str("Expected expression and found None."),
                );
                proof {
                    reveal_with_fuel(p_primary, 2);
                    reveal_with_fuel(p_expression, 1);
                    assert(p_primary(toks, p0) == ExprStep::Fail(err.model(), p0));
                }
                Err(err)
            },
        }
    }
}


/// The symbol an operator token prints as in the parenthesized form.
pub open spec fn op_text(tm: TokenTypeModel) -> Seq<char> {
    match tm {
        TokenTypeModel::Minus => "-"@,
        TokenTypeModel::Plus => "+"@,
        TokenTypeModel::Star => "*"@,
        TokenTypeModel::Slash => "/"@,
        TokenTypeModel::Bang => "!"@,
        TokenTypeModel::BangEqual => "!="@,
        TokenTypeModel::Equal => "="@,
        TokenTypeModel::EqualEqual => "=="@,
        TokenTypeModel::Greater => ">"@,
        TokenTypeModel::GreaterEqual => ">="@,
        TokenTypeModel::Less => "<"@,
        TokenTypeModel::LessEqual => "<="@,
        TokenTypeModel::And => "and"@,
        TokenTypeModel::Or => "or"@,
        _ => "?"@,
    }
}

/// The name a variable or assignment target prints as.
pub open spec fn name_text(tm: TokenTypeModel) -> Seq<char> {
    match tm {
        TokenTypeModel::Identifier(s) => s,
        _ => "?"@,
    }
}

/// The fully parenthesized, prefix-operator rendering of an expression.
pub open spec fn paren_text(e: Expr) -> Seq<char>
    decreases e,
{
    match e {
        Expr::Literal(_, lit) => match lit {
            Literal::False => "false"@,
            Literal::True => "true"@,
            Literal::Nil => "nil"@,
            Literal::Number(n) => number_text(n.raw as int),
            Literal::String(s) => s@,
        },
        Expr::Grouping(inner) => "(group "@ + paren_text(*inner) + ")"@,
        Expr::Unary(t, inner) => "("@ + op_text(t.token_type.model()) + " "@ + paren_text(*inner)
            + ")"@,
        Expr::Binary(l, t, r) => "("@ + op_text(t.token_type.model()) + " "@ + paren_text(*l) + " "@
            + paren_text(*r) + ")"@,
        Expr::Logical(l, t, r) => "("@ + op_text(t.token_type.model()) + " "@ + paren_text(*l)
            + " "@ + paren_text(*r) + ")"@,
        Expr::Variable(t) => "var "@ + name_text(t.token_type.model()),
        Expr::Assign(t, inner) => "("@ + name_text(t.token_type.model()) + " = "@ + paren_text(
            *inner,
        ) + ")"@,
    }
}

fn op_str(tt: &TokenType) -> (r: &'static str)
    ensures
        r@ == op_text(tt.model()),
{
    match tt {
        TokenType::Minus => "-",
        TokenType::Plus => "+",
        TokenType::Star => "*",
        TokenType::Slash => "/",
        TokenType::Bang => "!",
        TokenType::BangEqual => "!=",
        TokenType::Equal => "=",
        TokenType::EqualEqual => "==",
        TokenType::Greater => ">",
        TokenType::GreaterEqual => ">=",
        TokenType::Less => "<",
        TokenType::LessEqual => "<=",
        TokenType::And => "and",
        TokenType::Or => "or",
        _ => "?",
    }
}

/// Render an expression in fully parenthesized prefix form, literals as
/// their display text.
pub fn parenthesize(expr: &Expr) -> (r: String)
    ensures
        r@ == paren_text(*expr),
    decreases *expr,
{
    let mut out = String::new();
    match expr {
        Expr::Literal(_, lit) => {
            match lit {
                Literal::False => {
                    out.append("false");
                },
                Literal::True => {
                    out.append("true");
                },
                Literal::Nil => {
                    out.append("nil");
                },
                Literal::Number(n) => {
                    let text = n.to_text();
                    out.append(text.as_str());
                },
                Literal::String(sv) => {
                    out.append(sv.as_str());
                },
            }
        },
        Expr::Grouping(inner) => {
            out.append("(group ");
            let text = parenthesize(inner);
            out.append(text.as_str());
            out.append(")");
        },
        Expr::Unary(t, inner) => {
            out.append("(");
            out.append(op_str(&t.token_type));
            out.append(" ");
            let text = parenthesize(inner);
            out.append(text.as_str());
            out.append(")");
        },
        Expr::Binary(l, t, r2) => {
            out.append("(");
            out.append(op_str(&t.token_type));
            out.append(" ");
            let lt = parenthesize(l);
            out.append(lt.as_str());
            out.append(" ");
            let rt = parenthesize(r2);
            out.append(rt.as_str());
            out.append(")");
        },
        Expr::Logical(l, t, r2) => {
            out.append("(");
            out.append(op_str(&t.token_type));
            out.append(" ");
            let lt = parenthesize(l);
            out.append(lt.as_str());
            out.append(" ");
            let rt = parenthesize(r2);
            out.append(rt.as_str());
            out.append(")");
        },
        Expr::Variable(t) => {
            out.append("var ");
            match &t.token_type {
                TokenType::Identifier(name) => {
                    out.append(name.as_str());
                },
                _ => {
                    out.append("?");
                },
            }
        },
        Expr::Assign(t, inner) => {
            out.append("(");
            match &t.token_type {
                TokenType::Identifier(name) => {
                    out.append(name.as_str());
                },
                _ => {
                    out.append("?");
                },
            }
            out.append(" = ");
            let text = parenthesize(inner);
            out.append(text.as_str());
            out.append(")");
        },
    }
    proof {
        assert(out@ =~= paren_text(*expr));
    }
    out
}

/// The parenthesized lines: one per expression statement, in order.
pub open spec fn paren_lines(ss: Seq<Stmt>) -> Seq<Seq<char>>
    decreases ss.len(),
{
    if ss.len() == 0 {
        Seq::empty()
    } else {
        paren_lines(ss.drop_last()) + (match ss.last() {
            Stmt::Expression(e) => seq![paren_text(e)],
            _ => Seq::empty(),
        })
    }
}

/// Lines joined with a newline between each pair.
pub open spec fn join_lines(ls: Seq<Seq<char>>) -> Seq<char>
    decreases ls.len(),
{
    if ls.len() == 0 {
        Seq::empty()
    } else if ls.len() == 1 {
        ls[0]
    } else {
        join_lines(ls.drop_last()) + "\n"@ + ls.last()
    }
}

/// Render every expression statement of a program, one per line.
pub fn parenthesize_statements(statements: &Vec<Stmt>) -> (r: String)
    ensures
        r@ == join_lines(paren_lines(statements@)),
{
    let mut parts: Vec<String> = Vec::new();
    let n = statements.len();
    let mut i: usize = 0;
    while i < n
        invariant
            i <= n,
            n == statements@.len(),
            parts@.map_values(|p: String| p@) =~= paren_lines(statements@.take(i as int)),
        decreases n - i,
    {
        match &statements[i] {
            Stmt::Expression(e) => {
                let text = parenthesize(e);
                parts.push(text);
            },
            _ => {},
        }
        proof {
            assert(statements@.take(i + 1).drop_last() =~= statements@.take(i as int));
            assert(statements@.take(i + 1).last() == statements@[i as int]);
            assert(parts@.map_values(|p: String| p@) =~= paren_lines(statements@.take(i + 1)));
        }
        i += 1;
    }
    proof {
        assert(statements@.take(n as int) =~= statements@);
    }
    let mut out = String::new();
    let m = parts.len();
    let mut j: usize = 0;
    while j < m
        invariant
            j <= m,
            m == parts@.len(),
            paren_lines(statements@) == parts@.map_values(|p: String| p@),
            out@ == join_lines(parts@.map_values(|p: String| p@).take(j as int)),
        decreases m - j,
    {
        if j > 0 {
            out.append("\n");
        }
        out.append(parts[j].as_str());
        proof {
            let ls = parts@.map_values(|p: String| p@);
            assert(ls.take(j + 1).drop_last() =~= ls.take(j as int));
            assert(ls.take(j + 1).last() == ls[j as int]);
            assert(out@ =~= join_lines(ls.take(j + 1)));
        }
        j += 1;
    }
    proof {
        let ls = parts@.map_values(|p: String| p@);
        assert(ls.take(m as int) =~= ls);
    }
    out
}

} // verus!
