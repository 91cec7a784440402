use ilp::lexer::{LexError, Lexer, Token};
use ilp::parser::{ParseError, Parser, MAX_NESTING};
use ilp::{parser, Expression};

fn arrange(input: &str) -> Result<Expression, ParseError> {
    let mut lexer = Lexer::new(input);
    let mut parser = Parser::new(&mut lexer).unwrap();

    parser.parse()
}

fn var(name: &str) -> Box<Expression> {
    Box::new(Expression::Variable(name.to_string()))
}

#[test]
fn parser_invalid_expression() {
    let result = arrange("p1 -> ()");
    assert!(matches!(result, Err(_)))
}

#[test]
fn when_input_valid_then_ok() {
    let result = arrange("p1 -> p2");
    assert!(matches!(result, Ok(_)))
}

#[test]
fn valid_expression() {
    let result = arrange("p1 -> p2");
    assert!(matches!(result, Ok(_)))
}

#[test]
fn when_valid_token_then_ok() {
    let result = arrange("(p1 | p2) -> p3").unwrap();

    let expected = Expression::Implies(
        Box::new(Expression::Grouped(Box::new(Expression::Or(
            Box::new(Expression::Variable("p1".to_string())),
            Box::new(Expression::Variable("p2".to_string())),
        )))),
        Box::new(Expression::Variable("p3".to_string())),
    );

    assert_eq!(result, expected)
}

#[test]
fn correct_ast() {
    let result = arrange("(p1 | p2) -> p3").unwrap();

    let expected = Expression::Implies(
        Box::new(Expression::Grouped(Box::new(Expression::Or(
            Box::new(Expression::Variable("p1".to_string())),
            Box::new(Expression::Variable("p2".to_string())),
        )))),
        Box::new(Expression::Variable("p3".to_string())),
    );

    assert_eq!(result, expected)
}

#[test]
fn when_has_grouped_then_ast_with_grouped() {
    let result = arrange("p1 | (p2 -> p3)").unwrap();

    let expected = Expression::Or(
        Box::new(Expression::Variable("p1".to_string())),
        Box::new(Expression::Grouped(Box::new(Expression::Implies(
            Box::new(Expression::Variable("p2".to_string())),
            Box::new(Expression::Variable("p3".to_string())),
        )))),
    );

    assert_eq!(result, expected)
}

#[test]
fn ast_grouped() {
    let result = arrange("p1 | (p2 -> p3)").unwrap();

    let expected = Expression::Or(
        Box::new(Expression::Variable("p1".to_string())),
        Box::new(Expression::Grouped(Box::new(Expression::Implies(
            Box::new(Expression::Variable("p2".to_string())),
            Box::new(Expression::Variable("p3".to_string())),
        )))),
    );

    assert_eq!(result, expected)
}

#[test]
fn when_get_variables_then_ok() {
    let mut lexer = Lexer::new("p1 | (p2 -> p3)");
    let mut parser = Parser::new(&mut lexer).unwrap();
    let _ = parser.parse();

    let expected = vec!["p1".to_string(), "p2".to_string(), "p3".to_string()];

    let mut result = parser.get_variables();

    result.sort();

    assert_eq!(result, expected)
}

#[test]
fn empty_parentheses_are_an_unexpected_token() {
    assert!(matches!(arrange("p1 -> ()"), Err(ParseError::UnexpectedToken(Token::RParen))));
}

#[test]
fn unbalanced_parenthesis_is_reported() {
    assert!(matches!(arrange("(p1 | p2"), Err(ParseError::MissingRightParen(Token::EOF))));
    assert!(matches!(
        arrange("(p1 p2)"),
        Err(ParseError::MissingRightParen(Token::Variable(_)))
    ));
}

#[test]
fn trailing_tokens_are_refused() {
    assert!(matches!(arrange("p1 p2"), Err(ParseError::TrailingTokens(Token::Variable(_)))));
    assert!(matches!(arrange("p1 )"), Err(ParseError::TrailingTokens(Token::RParen))));
}

#[test]
fn empty_input_is_refused() {
    assert!(matches!(arrange(""), Err(ParseError::UnexpectedToken(Token::EOF))));
    assert!(matches!(arrange("p1 &"), Err(ParseError::UnexpectedToken(Token::EOF))));
}

#[test]
fn lex_errors_surface_through_the_parser() {
    assert!(matches!(parser("p1 & q2"), Err(ParseError::Lex(LexError::InvalidVariable { .. }))));
    let mut lexer = Lexer::new("$");
    assert!(matches!(Parser::new(&mut lexer), Err(ParseError::Lex(_))));
}

#[test]
fn precedence_and_associativity() {
    assert_eq!(
        arrange("p1 | p2 & p3").unwrap(),
        Expression::Or(var("p1"), Box::new(Expression::And(var("p2"), var("p3"))))
    );
    assert_eq!(
        arrange("p1 -> p2 -> p3").unwrap(),
        Expression::Implies(Box::new(Expression::Implies(var("p1"), var("p2"))), var("p3"))
    );
    assert_eq!(
        arrange("p1 <-> p2 -> p3").unwrap(),
        Expression::Iff(var("p1"), Box::new(Expression::Implies(var("p2"), var("p3"))))
    );
    assert_eq!(
        arrange("~~p1 & p2").unwrap(),
        Expression::And(
            Box::new(Expression::Not(Box::new(Expression::Not(var("p1"))))),
            var("p2")
        )
    );
}

#[test]
fn variables_in_order_of_first_occurrence() {
    let (_, variables) = parser("p3 & (p1 | p3) -> p2 & p1").unwrap();
    assert_eq!(variables, vec!["p3".to_string(), "p1".to_string(), "p2".to_string()]);
}

#[test]
fn parsing_twice_gives_the_same_result() {
    let text = "(p2 <-> ~p1) | p2 & p3";
    let (first, first_variables) = parser(text).unwrap();
    let (second, second_variables) = parser(text).unwrap();
    assert_eq!(first, second);
    assert_eq!(first_variables, second_variables);
}

#[test]
fn trailing_white_space_is_accepted() {
    assert_eq!(arrange("p1 ").unwrap(), Expression::Variable("p1".to_string()));
}

#[test]
fn nesting_up_to_the_limit_is_accepted() {
    let text = format!("{}p1{}", "(".repeat(MAX_NESTING), ")".repeat(MAX_NESTING));
    assert!(arrange(&text).is_ok());
    let text = format!("{}p1", "~".repeat(MAX_NESTING));
    assert!(arrange(&text).is_ok());
}

#[test]
fn nesting_beyond_the_limit_is_refused() {
    let text = format!("{}p1{}", "(".repeat(MAX_NESTING + 1), ")".repeat(MAX_NESTING + 1));
    assert!(matches!(arrange(&text), Err(ParseError::TooDeep)));
    let text = format!("{}p1", "~".repeat(MAX_NESTING + 1));
    assert!(matches!(arrange(&text), Err(ParseError::TooDeep)));
    let text = format!("{}(p1)", "~".repeat(MAX_NESTING));
    assert!(matches!(arrange(&text), Err(ParseError::TooDeep)));
}

#[test]
fn long_operator_chains_are_not_bounded_by_nesting() {
    let text = vec!["p1"; 2000].join(" & ");
    assert!(arrange(&text).is_ok());
}
