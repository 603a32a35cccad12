use yasld::ast::ASTExpression;
use yasld::errors::SyntaxError;
use yasld::lexer;
use yasld::parser::ExpressionIter;
use yasld::parser::parse;

fn parse_source(source: &str) -> Result<Vec<ASTExpression>, SyntaxError> {
    let tokens = lexer::parse(source).unwrap();
    parse(&tokens)
}

#[test]
fn parse_var_then_set() {
    let ast = parse_source("var x 5 set x 6").unwrap();
    assert_eq!(
        ast,
        vec![
            ASTExpression::VarDefinition {
                name: String::from("x"),
                value: Box::new(ASTExpression::NumberLiteral(String::from("5"))),
            },
            ASTExpression::SetDefinition {
                name: String::from("x"),
                new_value: Box::new(ASTExpression::NumberLiteral(String::from("6"))),
            },
        ]
    );
}

#[test]
fn parse_set_of_undeclared_name_fails() {
    assert_eq!(parse_source("set y 1"), Err(SyntaxError::UndeclaredVariable));
}

#[test]
fn parse_redeclared_var_fails() {
    assert_eq!(
        parse_source("var x 1 var x 2"),
        Err(SyntaxError::RedeclaredVariable)
    );
}

#[test]
fn parse_for_declares_its_index() {
    let ast = parse_source("for i range 0 3 i").unwrap();
    assert_eq!(
        ast,
        vec![ASTExpression::ForDefinition {
            index: String::from("i"),
            range: Box::new(ASTExpression::RangeDefinition {
                start: Box::new(ASTExpression::NumberLiteral(String::from("0"))),
                end: Box::new(ASTExpression::NumberLiteral(String::from("3"))),
            }),
            body: Box::new(ASTExpression::NameReference(String::from("i"))),
        }]
    );
}

#[test]
fn parse_for_index_leaves_scope_after_body() {
    // the index is visible in the body only; a later bare reference fails
    assert_eq!(
        parse_source("for i range 0 3 i i"),
        Err(SyntaxError::UndeclaredVariable)
    );
}

#[test]
fn parse_for_index_may_be_reused_by_later_var() {
    assert!(parse_source("for i range 0 3 i var i 1").is_ok());
}

#[test]
fn parse_redeclared_for_index_fails() {
    assert_eq!(
        parse_source("var i 1 for i range 0 3 i"),
        Err(SyntaxError::RedeclaredVariable)
    );
}

#[test]
fn parse_bool_operand_of_numeric_operator_fails() {
    assert_eq!(parse_source("+ true 1"), Err(SyntaxError::TypeMismatch));
}

#[test]
fn parse_number_operand_of_boolean_operator_fails() {
    assert_eq!(parse_source("&& 1 true"), Err(SyntaxError::TypeMismatch));
}

#[test]
fn parse_nested_operator_yield_must_agree() {
    // a comparison yields a boolean, which `+` does not take
    assert_eq!(
        parse_source("+ (> 1 2) 1"),
        Err(SyntaxError::TypeMismatch)
    );
    assert!(parse_source("&& (> 1 2) true ").is_ok());
}

#[test]
fn parse_if_with_bracketed_condition() {
    let ast = parse_source("if (> 3 2) 1 0").unwrap();
    assert_eq!(
        ast,
        vec![ASTExpression::IFDefinition {
            condition: Box::new(ASTExpression::BiggerExpression {
                left: Box::new(ASTExpression::NumberLiteral(String::from("3"))),
                right: Box::new(ASTExpression::NumberLiteral(String::from("2"))),
            }),
            then_clause: Box::new(ASTExpression::NumberLiteral(String::from("1"))),
            else_clause: Box::new(ASTExpression::NumberLiteral(String::from("0"))),
        }]
    );
}

#[test]
fn parse_unterminated_bracket_fails() {
    assert_eq!(
        parse_source("(+ 1 2"),
        Err(SyntaxError::UnterminatedBracket)
    );
}

#[test]
fn parse_missing_close_bracket_fails() {
    assert_eq!(
        parse_source("(+ 1 2 3"),
        Err(SyntaxError::UnterminatedBracket)
    );
}

#[test]
fn parse_is_deterministic() {
    let first = parse_source("var x 5 if (> x 2) x 0");
    let second = parse_source("var x 5 if (> x 2) x 0");
    assert_eq!(first, second);
}

#[test]
fn parse_self_referential_var_is_legal() {
    let ast = parse_source("var x x").unwrap();
    assert_eq!(
        ast,
        vec![ASTExpression::VarDefinition {
            name: String::from("x"),
            value: Box::new(ASTExpression::NameReference(String::from("x"))),
        }]
    );
}

#[test]
fn parse_negation_constrains_operand_to_bool() {
    let ast = parse_source("(!true)").unwrap();
    assert_eq!(
        ast,
        vec![ASTExpression::BinaryNegExpression(Box::new(
            ASTExpression::BoolLiteral(true)
        ))]
    );
    assert_eq!(parse_source("(!1)"), Err(SyntaxError::TypeMismatch));
}

#[test]
fn parse_for_index_holds_a_number() {
    // the loop index counts through a numeric range, so it cannot stand
    // where a boolean is required
    assert_eq!(
        parse_source("for i range 0 3 && i true"),
        Err(SyntaxError::UndeclaredVariable)
    );
}

#[test]
fn parse_var_without_name_fails() {
    assert_eq!(parse_source("var 5 5"), Err(SyntaxError::UnexpectedToken));
}

#[test]
fn parse_stray_close_bracket_fails() {
    assert_eq!(parse_source(") 1"), Err(SyntaxError::UnexpectedToken));
}

#[test]
fn parse_truncated_input_fails() {
    assert_eq!(parse_source("var x"), Err(SyntaxError::UnexpectedToken));
    assert_eq!(parse_source("+ 1"), Err(SyntaxError::UnexpectedToken));
}

#[test]
fn parse_empty_input_gives_no_statements() {
    assert_eq!(parse_source(""), Ok(Vec::new()));
}

#[test]
fn expression_iter_reads_one_expression_at_a_time() {
    let tokens = lexer::parse("var x 5 x").unwrap();
    let mut iter = ExpressionIter::new(&tokens);
    let first = iter.pop_expression().unwrap();
    assert_eq!(
        first,
        ASTExpression::VarDefinition {
            name: String::from("x"),
            value: Box::new(ASTExpression::NumberLiteral(String::from("5"))),
        }
    );
    let second = iter.pop_expression().unwrap();
    assert_eq!(second, ASTExpression::NameReference(String::from("x")));
}
