use ilp::lexer::{LexError, Lexer, Token};

fn tokens_of(input: &str, n: usize) -> Vec<Result<Token, LexError>> {
    let mut lexer = Lexer::new(input);
    (0..n).map(|_| lexer.get_next_token()).collect()
}

#[test]
fn when_valid_innput_then_ordened_tokens() {
    let tokens = vec![
        Token::Variable("p1".to_string()),
        Token::Implies,
        Token::Variable("p3".to_string()),
        Token::EOF,
    ];

    let mut lexer = Lexer::new("p1 -> p3");

    tokens
        .iter()
        .for_each(|expected| match lexer.get_next_token() {
            Ok(result) => assert_eq!(*expected, result),
            Err(message) => panic!("{:?}", message),
        });
}

#[test]
fn when_ilegal_variable_then_except() {
    let mut lexer = Lexer::new("p1p p P");

    assert!(matches!(lexer.get_next_token(), Err(_)));
    assert!(matches!(lexer.get_next_token(), Err(_)));
    assert!(matches!(lexer.get_next_token(), Err(_)));
}

#[test]
fn when_invalid_token_then_except() {
    let mut lexer = Lexer::new("p1 * p2");

    assert!(matches!(lexer.get_next_token(), Ok(_)));
    assert!(matches!(lexer.get_next_token(), Err(_)));
}

#[test]
fn implies() {
    let tokens = vec![
        Token::Variable("p1".to_string()),
        Token::Implies,
        Token::Variable("p3".to_string()),
        Token::EOF,
    ];

    let mut lexer = Lexer::new("p1 -> p3");

    tokens
        .iter()
        .for_each(|expected| match lexer.get_next_token() {
            Ok(result) => assert_eq!(*expected, result),
            Err(message) => panic!("{:?}", message),
        });
}

#[test]
fn ilegal_token() {
    let mut lexer = Lexer::new("p1p p");

    assert!(matches!(lexer.get_next_token(), Err(_)));
    assert!(matches!(lexer.get_next_token(), Err(_)));
}

#[test]
fn all_operators_lex() {
    let got = tokens_of("~(p1 & p2) | p3 <-> p10", 11);
    let expected = vec![
        Token::Not,
        Token::LParen,
        Token::Variable("p1".to_string()),
        Token::And,
        Token::Variable("p2".to_string()),
        Token::RParen,
        Token::Or,
        Token::Variable("p3".to_string()),
        Token::Iff,
        Token::Variable("p10".to_string()),
        Token::EOF,
    ];
    for (g, e) in got.into_iter().zip(expected) {
        assert_eq!(g.unwrap(), e);
    }
}

#[test]
fn bad_variable_names_fail() {
    for input in ["p1p", "P1", "q1", "p", "pa1"] {
        let mut lexer = Lexer::new(input);
        assert!(matches!(lexer.get_next_token(), Err(LexError::InvalidVariable { .. })), "{}", input);
    }
}

#[test]
fn invalid_variable_reports_the_whole_run() {
    let mut lexer = Lexer::new("  p1p q");
    assert_eq!(lexer.get_next_token(), Err(LexError::InvalidVariable { start: 2, end: 5 }));
    assert_eq!(lexer.get_next_token(), Err(LexError::InvalidVariable { start: 6, end: 7 }));
    assert_eq!(lexer.get_next_token(), Ok(Token::EOF));
}

#[test]
fn non_ascii_letter_joins_the_run() {
    let mut lexer = Lexer::new("p1é");
    assert_eq!(lexer.get_next_token(), Err(LexError::InvalidVariable { start: 0, end: 3 }));
}

#[test]
fn unexpected_character_is_reported_with_its_position() {
    let mut lexer = Lexer::new("p1 * p2");
    assert_eq!(lexer.get_next_token(), Ok(Token::Variable("p1".to_string())));
    assert_eq!(
        lexer.get_next_token(),
        Err(LexError::UnexpectedCharacter { character: '*', position: 3 })
    );
}

#[test]
fn malformed_symbols_fail() {
    assert_eq!(tokens_of("<-", 1)[0], Err(LexError::MalformedSymbol { start: 0, end: 2 }));
    assert_eq!(tokens_of("<=>", 1)[0], Err(LexError::MalformedSymbol { start: 0, end: 3 }));
    assert_eq!(tokens_of("p1 -", 2)[1], Err(LexError::MalformedSymbol { start: 3, end: 4 }));
    assert_eq!(tokens_of("- >", 1)[0], Err(LexError::MalformedSymbol { start: 0, end: 2 }));
}

#[test]
fn end_of_input_repeats() {
    let got = tokens_of("p1 \t\n", 4);
    assert_eq!(got[0], Ok(Token::Variable("p1".to_string())));
    assert_eq!(got[1], Ok(Token::EOF));
    assert_eq!(got[2], Ok(Token::EOF));
    assert_eq!(got[3], Ok(Token::EOF));
    assert_eq!(tokens_of("", 2), vec![Ok(Token::EOF), Ok(Token::EOF)]);
}

#[test]
fn unicode_white_space_is_skipped() {
    let got = tokens_of("\u{3000}p1\u{a0}&\u{2003}p2", 4);
    assert_eq!(got[0], Ok(Token::Variable("p1".to_string())));
    assert_eq!(got[1], Ok(Token::And));
    assert_eq!(got[2], Ok(Token::Variable("p2".to_string())));
    assert_eq!(got[3], Ok(Token::EOF));
}

#[test]
fn operator_cut_off_at_the_end_is_malformed() {
    assert_eq!(tokens_of("p1 <", 2)[1], Err(LexError::MalformedSymbol { start: 3, end: 4 }));
    assert_eq!(tokens_of("p1 <-", 2)[1], Err(LexError::MalformedSymbol { start: 3, end: 5 }));
}
