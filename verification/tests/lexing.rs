use calculator::tokenize;
use calculator::Numeral;
use calculator::Token;
use calculator::TokenError;

#[test]
fn test_tokenize_numbers() {
    let input = "42 3.14 7";
    let tokens = tokenize(input).unwrap();
    assert_eq!(
        tokens,
        vec![
            Token::Number(Numeral::new(false, "42")),
            Token::Number(Numeral::new(false, "3.14")),
            Token::Number(Numeral::new(false, "7"))
        ]
    );
}

#[test]
fn test_tokenize_operators() {
    let input = "+ - * /";
    let tokens = tokenize(input).unwrap();
    assert_eq!(
        tokens,
        vec![
            Token::Operator('+'),
            Token::Operator('-'),
            Token::Operator('*'),
            Token::Operator('/')
        ]
    );
}

#[test]
fn test_tokenize_parentheses() {
    let input = "( )";
    let tokens = tokenize(input).unwrap();
    assert_eq!(tokens, vec![Token::LParen, Token::RParen]);
}

#[test]
fn test_tokenize_invalid_character() {
    let input = "42 &";
    let result = tokenize(input);
    assert!(result.is_err());
}

#[test]
fn invalid_character_is_named() {
    let err = tokenize("42 &").unwrap_err();
    assert_eq!(err, TokenError::InvalidCharacter('&'));
    assert_eq!(err.message(), "Invalid character: &");
}

#[test]
fn square_brackets_scan_as_parens() {
    assert_eq!(tokenize("[ ]").unwrap(), vec![Token::LParen, Token::RParen]);
    assert_eq!(tokenize("[1 + 2] * 3").unwrap(), tokenize("(1 + 2) * 3").unwrap());
}

#[test]
fn minus_folds_into_following_numeral() {
    let tokens = tokenize("3 -4").unwrap();
    assert_eq!(
        tokens,
        vec![
            Token::Number(Numeral::new(false, "3")),
            Token::Number(Numeral::new(true, "4"))
        ]
    );
}

#[test]
fn minus_before_space_is_an_operator() {
    let tokens = tokenize("3 - 4").unwrap();
    assert_eq!(
        tokens,
        vec![
            Token::Number(Numeral::new(false, "3")),
            Token::Operator('-'),
            Token::Number(Numeral::new(false, "4"))
        ]
    );
}

#[test]
fn two_dots_fail_as_parse_error() {
    let err = tokenize("1.2.3").unwrap_err();
    assert_eq!(err, TokenError::ParseError("1.2.3".to_string()));
    assert_eq!(err.message(), "Failed to parse number: 1.2.3");
}

#[test]
fn lone_dot_fails_as_parse_error() {
    let err = tokenize(".").unwrap_err();
    assert_eq!(err, TokenError::ParseError(".".to_string()));
}

#[test]
fn negative_lone_dot_fails_as_parse_error() {
    let err = tokenize("-.").unwrap_err();
    assert_eq!(err, TokenError::ParseError(".".to_string()));
}

#[test]
fn dotted_literals_scan_whole() {
    assert_eq!(
        tokenize(".5").unwrap(),
        vec![Token::Number(Numeral::new(false, ".5"))]
    );
    assert_eq!(
        tokenize("5.").unwrap(),
        vec![Token::Number(Numeral::new(false, "5."))]
    );
    assert_eq!(
        tokenize("-.5").unwrap(),
        vec![Token::Number(Numeral::new(true, ".5"))]
    );
}

#[test]
fn empty_input_scans_to_no_tokens() {
    assert_eq!(tokenize("").unwrap(), vec![]);
    assert_eq!(tokenize(" \t\n").unwrap(), vec![]);
}

#[test]
fn token_text_renders_as_written() {
    assert_eq!(Token::Number(Numeral::new(true, "3.14")).text(), "-3.14");
    assert_eq!(Token::Number(Numeral::new(false, "42")).text(), "42");
    assert_eq!(Token::Operator('+').text(), "+");
    assert_eq!(Token::LParen.text(), "(");
    assert_eq!(Token::RParen.text(), ")");
}
