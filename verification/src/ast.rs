//! Abstract syntax tree for the expression language, and a visitor that
//! walks it in source order, evaluating each statement's expression.

use vstd::prelude::*;

verus! {

/// A binary arithmetic operator.
#[derive(Clone, Copy, Debug, PartialEq, Eq, Structural)]
pub enum BinaryOperator {
    Add,
    Subtract,
    Multiply,
    Divide,
}

/// The closed set of expression shapes: a numeric-literal leaf, a binary
/// operator node that exclusively owns its two operand subtrees, and a
/// parenthesized group.
#[derive(Debug, PartialEq, Eq)]
pub enum ExpressionKind {
    NumberLiteral(i64),
    Binary(BinaryOperator, Box<Expression>, Box<Expression>),
    Parenthesized(Box<Expression>),
}

/// An expression tree node.
#[derive(Debug, PartialEq, Eq)]
pub struct Expression {
    pub kind: ExpressionKind,
}

/// The closed set of statement shapes; only expression statements exist in
/// this core.
#[derive(Debug, PartialEq, Eq)]
pub enum StatementKind {
    Expression(Expression),
}

/// A statement: exactly one expression, never mutated after construction.
#[derive(Debug, PartialEq, Eq)]
pub struct Statement {
    pub kind: StatementKind,
}

/// An ordered sequence of statements, insertion order equal to source order.
#[derive(Debug, PartialEq, Eq)]
pub struct AST {
    pub statements: Vec<Statement>,
}

impl Expression {
    /// A numeric-literal leaf.
    pub fn number(value: i64) -> (r: Self)
        ensures
            r.kind == ExpressionKind::NumberLiteral(value),
    {
        Self { kind: ExpressionKind::NumberLiteral(value) }
    }

    /// A binary operator node owning its two operand subtrees.
    pub fn binary(operator: BinaryOperator, left: Expression, right: Expression) -> (r: Self)
        ensures
            r.kind == ExpressionKind::Binary(operator, Box::new(left), Box::new(right)),
    {
        Self { kind: ExpressionKind::Binary(operator, Box::new(left), Box::new(right)) }
    }

    /// A parenthesized group around an inner expression.
    pub fn parenthesized(inner: Expression) -> (r: Self)
        ensures
            r.kind == ExpressionKind::Parenthesized(Box::new(inner)),
    {
        Self { kind: ExpressionKind::Parenthesized(Box::new(inner)) }
    }
}

impl Statement {
    /// Wraps a statement kind.
    pub fn new(kind: StatementKind) -> (r: Self)
        ensures
            r.kind == kind,
    {
        Self { kind }
    }

    /// The statement holding exactly the given expression.
    pub fn expression(expr: Expression) -> (r: Self)
        ensures
            r.kind == StatementKind::Expression(expr),
    {
        Statement::new(StatementKind::Expression(expr))
    }
}

impl AST {
    /// An empty tree, ready for statements to be appended in source order.
    pub fn new() -> (r: Self)
        ensures
            r.statements@ == Seq::<Statement>::empty(),
    {
        Self { statements: Vec::new() }
    }

    /// Placeholder for a future pretty-printer; rendering is a collaborator
    /// of this core, not part of it.
    pub fn display(&self) {
    }
}

/// Whether `v` fits the signed 64-bit range.
pub open spec fn fits_i64(v: int) -> bool {
    i64::MIN <= v <= i64::MAX
}

/// Truncating (round-toward-zero) integer division, the semantics of the
/// `/` operator on signed 64-bit integers.
pub open spec fn trunc_div(a: int, b: int) -> int {
    if a == 0 {
        0
    } else if a > 0 && b > 0 {
        a / b
    } else if a < 0 && b < 0 {
        (a * -1) / (b * -1)
    } else if a < 0 {
        ((a * -1) / b) * -1
    } else {
        (a / (b * -1)) * -1
    }
}

/// The result of applying a binary operator to two values, or nothing on
/// division by zero or a result outside the 64-bit range.
pub open spec fn eval_op(op: BinaryOperator, a: int, b: int) -> Option<int> {
    match op {
        BinaryOperator::Add => if fits_i64(a + b) {
            Some(a + b)
        } else {
            None
        },
        BinaryOperator::Subtract => if fits_i64(a - b) {
            Some(a - b)
        } else {
            None
        },
        BinaryOperator::Multiply => if fits_i64(a * b) {
            Some(a * b)
        } else {
            None
        },
        BinaryOperator::Divide => if b == 0 {
            None
        } else if fits_i64(trunc_div(a, b)) {
            Some(trunc_div(a, b))
        } else {
            None
        },
    }
}

/// The value of an expression under left-to-right evaluation: operator
/// nodes evaluate their left subtree, then their right subtree, then
/// combine; the result is nothing as soon as a division by zero or a value
/// outside the signed 64-bit range arises.
pub open spec fn eval_expression(e: Expression) -> Option<int>
    decreases e,
{
    match e.kind {
        ExpressionKind::NumberLiteral(n) => Some(n as int),
        ExpressionKind::Binary(op, left, right) => match (
            eval_expression(*left),
            eval_expression(*right),
        ) {
            (Some(a), Some(b)) => eval_op(op, a, b),
            _ => None,
        },
        ExpressionKind::Parenthesized(inner) => eval_expression(*inner),
    }
}

/// The value of a statement: the value of its expression.
pub open spec fn eval_statement(s: Statement) -> Option<int> {
    match s.kind {
        StatementKind::Expression(e) => eval_expression(e),
    }
}

/// Whether the executable evaluation result `r` agrees with the
/// mathematical one `m`.
pub open spec fn eval_agrees(r: Option<i64>, m: Option<int>) -> bool {
    match r {
        Some(v) => m == Some(v as int),
        None => m is None,
    }
}

/// A polymorphic walk over the statements of an `AST`, in source order,
/// dispatching per statement and expression kind. This walk evaluates:
/// expression subtrees are visited depth-first, operator node first, then
/// the left subtree, then the right.
pub struct ASTVisitor<'a> {
    pub ast: &'a AST,
}

impl<'a> ASTVisitor<'a> {
    /// A visitor over the given tree.
    pub fn new(ast: &'a AST) -> (r: Self)
        ensures
            r.ast == ast,
    {
        Self { ast }
    }

    /// Evaluates one expression, returning nothing on division by zero or
    /// on a value outside the signed 64-bit range.
    pub fn visit_expression(&self, expr: &Expression) -> (r: Option<i64>)
        ensures
            eval_agrees(r, eval_expression(*expr)),
        decreases *expr,
    {
        match &expr.kind {
            ExpressionKind::NumberLiteral(n) => Some(*n),
            ExpressionKind::Binary(op, left, right) => {
                let a = match self.visit_expression(left) {
                    Some(a) => a,
                    None => {
                        return None;
                    },
                };
                let b = match self.visit_expression(right) {
                    Some(b) => b,
                    None => {
                        return None;
                    },
                };
                match op {
                    BinaryOperator::Add => a.checked_add(b),
                    BinaryOperator::Subtract => a.checked_sub(b),
                    BinaryOperator::Multiply => a.checked_mul(b),
                    BinaryOperator::Divide => a.checked_div(b),
                }
            },
            ExpressionKind::Parenthesized(inner) => self.visit_expression(inner),
        }
    }

    /// Walks every statement in source order and evaluates each one,
    /// returning the results in the same order.
    pub fn visit(&self) -> (r: Vec<Option<i64>>)
        ensures
            r@.len() == self.ast.statements@.len(),
            forall|i: int|
                0 <= i < r@.len() ==> eval_agrees(
                    #[trigger] r@[i],
                    eval_statement(self.ast.statements@[i]),
                ),
    {
        let mut results: Vec<Option<i64>> = Vec::new();
        let n = self.ast.statements.len();
        let mut idx: usize = 0;
        while idx < n
            invariant
                n == self.ast.statements@.len(),
                idx <= n,
                results@.len() == idx as int,
                forall|i: int|
                    0 <= i < idx as int ==> eval_agrees(
                        #[trigger] results@[i],
                        eval_statement(self.ast.statements@[i]),
                    ),
            decreases n - idx,
        {
            let stmt = &self.ast.statements[idx];
            match &stmt.kind {
                StatementKind::Expression(expr) => {
                    let value = self.visit_expression(expr);
                    results.push(value);
                },
            }
            idx = idx + 1;
        }
        results
    }
}

} // verus!
