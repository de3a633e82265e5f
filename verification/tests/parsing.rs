use alcc::ast::{
    ASTVisitor, BinaryOperator, Expression, ExpressionKind, Statement, StatementKind, AST,
};
use alcc::parser::Parser;

fn parse_all(source: &str) -> AST {
    let mut parser = Parser::new_from(source);
    let mut ast = AST::new();
    while let Some(statement) = parser.next_statement() {
        ast.statements.push(statement);
    }
    ast
}

fn eval_all(source: &str) -> Vec<Option<i64>> {
    let ast = parse_all(source);
    let visitor = ASTVisitor::new(&ast);
    visitor.visit()
}

#[test]
fn precedence_multiplication_binds_tighter() {
    assert_eq!(eval_all("1 + 2 * 3"), vec![Some(7)]);
}

#[test]
fn subtraction_is_left_associative() {
    assert_eq!(eval_all("10 - 3 - 2"), vec![Some(5)]);
}

#[test]
fn division_is_left_associative() {
    assert_eq!(eval_all("100 / 10 / 2"), vec![Some(5)]);
}

#[test]
fn grouping_overrides_precedence() {
    assert_eq!(eval_all("(1 + 2) * 3"), vec![Some(9)]);
}

#[test]
fn unmatched_parenthesis_yields_no_statement() {
    let ast = parse_all("(1 + 2");
    assert_eq!(ast.statements.len(), 0);
}

#[test]
fn empty_source_yields_zero_statements() {
    let ast = parse_all("");
    assert_eq!(ast.statements.len(), 0);
}

#[test]
fn end_to_end_example_evaluates_to_zero() {
    assert_eq!(eval_all("1 + (10 / 100 - 1)"), vec![Some(0)]);
}

#[test]
fn integer_division_truncates() {
    assert_eq!(eval_all("7 / 2"), vec![Some(3)]);
    assert_eq!(eval_all("(0 - 7) / 2"), vec![Some(-3)]);
}

#[test]
fn division_by_zero_evaluates_to_nothing() {
    assert_eq!(eval_all("1 / 0"), vec![None]);
}

#[test]
fn overflowing_addition_evaluates_to_nothing() {
    assert_eq!(eval_all("9223372036854775807 + 1"), vec![None]);
}

#[test]
fn operand_missing_after_operator_yields_no_statement() {
    let ast = parse_all("1 +");
    assert_eq!(ast.statements.len(), 0);
}

#[test]
fn operator_where_operand_expected_yields_no_statement() {
    let ast = parse_all("+ 3");
    assert_eq!(ast.statements.len(), 0);
    let ast = parse_all("1 + * 2");
    assert_eq!(ast.statements.len(), 0);
}

#[test]
fn invalid_token_where_operand_expected_yields_no_statement() {
    let ast = parse_all("1 + @");
    assert_eq!(ast.statements.len(), 0);
}

#[test]
fn adjacent_expressions_become_separate_statements() {
    assert_eq!(eval_all("1 2"), vec![Some(1), Some(2)]);
}

#[test]
fn next_statement_returns_nothing_at_end_of_input() {
    let mut parser = Parser::new_from("41 + 1");
    assert!(parser.next_statement().is_some());
    assert!(parser.next_statement().is_none());
    assert!(parser.next_statement().is_none());
}

#[test]
fn empty_parser_has_no_current_token() {
    let mut parser = Parser::new();
    assert!(parser.current().is_none());
    assert!(parser.peek(0).is_none());
    assert!(parser.next_statement().is_none());
}

#[test]
fn peek_looks_ahead_without_consuming() {
    let parser = Parser::new_from("1");
    let current = parser.current().expect("a token");
    assert_eq!(current.kind, alcc::lexer::TokenKind::NumberLiteral(1));
    let ahead = parser.peek(1).expect("the end-of-input token");
    assert_eq!(ahead.kind, alcc::lexer::TokenKind::Eof);
    assert!(parser.peek(2).is_none());
    let still = parser.current().expect("a token");
    assert_eq!(still.kind, alcc::lexer::TokenKind::NumberLiteral(1));
}

#[test]
fn parse_expression_builds_left_associative_tree() {
    let mut parser = Parser::new_from("10 - 3 - 2");
    let expr = parser.parse_expression().expect("an expression");
    // Expected shape: (10 - 3) - 2.
    let inner = Expression::binary(
        BinaryOperator::Subtract,
        Expression::number(10),
        Expression::number(3),
    );
    let expected = Expression::binary(BinaryOperator::Subtract, inner, Expression::number(2));
    assert_eq!(expr, expected);
}

#[test]
fn parse_expression_builds_precedence_correct_tree() {
    let mut parser = Parser::new_from("1 + 2 * 3");
    let expr = parser.parse_expression().expect("an expression");
    // Expected shape: 1 + (2 * 3).
    let product = Expression::binary(
        BinaryOperator::Multiply,
        Expression::number(2),
        Expression::number(3),
    );
    let expected = Expression::binary(BinaryOperator::Add, Expression::number(1), product);
    assert_eq!(expr, expected);
}

#[test]
fn parse_statement_wraps_expression() {
    let mut parser = Parser::new_from("5");
    let statement = parser.parse_statement().expect("a statement");
    match &statement.kind {
        StatementKind::Expression(expr) => {
            assert_eq!(expr.kind, ExpressionKind::NumberLiteral(5));
        }
    }
}

#[test]
fn failed_parse_restores_the_cursor() {
    let mut parser = Parser::new_from("(1 + 2");
    assert!(parser.parse_expression().is_none());
    // The cursor is back at the start: the opening parenthesis.
    let current = parser.current().expect("a token");
    assert_eq!(current.kind, alcc::lexer::TokenKind::LeftParen);
}

#[test]
fn visitor_evaluates_statements_in_source_order() {
    let ast = parse_all("1 + 1 2 * 3");
    assert_eq!(ast.statements.len(), 2);
    let visitor = ASTVisitor::new(&ast);
    assert_eq!(visitor.visit(), vec![Some(2), Some(6)]);
}

#[test]
fn visit_expression_evaluates_a_single_tree() {
    let ast = AST::new();
    let visitor = ASTVisitor::new(&ast);
    let expr = Expression::binary(
        BinaryOperator::Multiply,
        Expression::parenthesized(Expression::number(4)),
        Expression::number(10),
    );
    assert_eq!(visitor.visit_expression(&expr), Some(40));
}

#[test]
fn statement_constructors_keep_their_expression() {
    let statement = Statement::expression(Expression::number(9));
    match &statement.kind {
        StatementKind::Expression(expr) => {
            assert_eq!(expr.kind, ExpressionKind::NumberLiteral(9));
        }
    }
    let other = Statement::new(StatementKind::Expression(Expression::number(3)));
    match &other.kind {
        StatementKind::Expression(expr) => {
            assert_eq!(expr.kind, ExpressionKind::NumberLiteral(3));
        }
    }
}

#[test]
fn ast_starts_empty_and_display_is_callable() {
    let ast = AST::new();
    assert_eq!(ast.statements.len(), 0);
    ast.display();
}
