use calculator::parse;
use calculator::tokenize;
use calculator::ASTError;
use calculator::Numeral;
use calculator::Token;
use calculator::AST;

/// Folds an expression tree into a 64-bit floating-point value, the
/// way a caller of the engine does.
fn eval_f64(ast: &AST) -> f64 {
    match ast {
        AST::Number(n) => {
            let v: f64 = n.digits.parse().unwrap();
            if n.neg {
                -v
            } else {
                v
            }
        }
        AST::BinOp(op, lhs, rhs) => {
            let a = eval_f64(lhs);
            let b = eval_f64(rhs);
            match op {
                '+' => a + b,
                '-' => a - b,
                '*' => a * b,
                '/' => a / b,
                '^' => a.powf(b),
                _ => unreachable!(),
            }
        }
        AST::Neg(e) => -eval_f64(e),
    }
}

#[test]
fn test_eval_simple_expression() {
    let tokens = tokenize("3 + 4").unwrap();
    let ast = parse(tokens).unwrap();
    let result = eval_f64(&ast);
    assert_eq!(result, 7.0);
}

#[test]
fn test_eval_nested_expression() {
    let tokens = tokenize("(1 + 2) * 3").unwrap();
    let ast = parse(tokens).unwrap();
    let result = eval_f64(&ast);
    assert_eq!(result, 9.0);
}

#[test]
fn test_eval_negative_numbers() {
    let tokens = tokenize("-3 + 4").unwrap();
    let ast = parse(tokens).unwrap();
    let result = eval_f64(&ast);
    assert_eq!(result, 1.0);
}

#[test]
fn test_double_negative() {
    let tokens = tokenize("-(-3)").unwrap();
    let ast = parse(tokens).unwrap();
    let result = eval_f64(&ast);
    assert_eq!(result, 3.0);
}

#[test]
fn test_really_long_equation() {
    let tokens = tokenize(
        "(15 + 6) * (3 - 1) + 4 * (10 / 2) - 8 + (5 * -2 - 3) * (6 / 2) + 12 - (4 + 1) * (3 - 2) + 9 * (8 / -4) - 7 + -5 + (2 - 9) * -3 + (12 / 4 - 5)",
    )
    .unwrap();
    let ast = parse(tokens).unwrap();
    let result = eval_f64(&ast);
    assert_eq!(result, 11.0);
}

#[test]
fn pemdas1() {
    let tokens = tokenize("-24 + 3 + 8 - [(-1 + 13)^2 - (2 + 13)]").unwrap();
    let ast = parse(tokens).unwrap();
    let result = eval_f64(&ast);
    assert_eq!(result, -142.0);
}

#[test]
fn pemdas2() {
    let tokens = tokenize("3 + 4 * 2 / (1 - 5)^2").unwrap();
    let ast = parse(tokens).unwrap();
    let result = eval_f64(&ast);
    assert_eq!(result, 3.5);
}

#[test]
fn single_literal_parses_to_its_number() {
    let ast = parse(tokenize("3.14").unwrap()).unwrap();
    assert_eq!(ast, AST::Number(Numeral::new(false, "3.14")));
    let ast = parse(tokenize("-42").unwrap()).unwrap();
    assert_eq!(ast, AST::Number(Numeral::new(true, "42")));
    assert_eq!(eval_f64(&parse(tokenize("007").unwrap()).unwrap()), 7.0);
    assert_eq!(eval_f64(&parse(tokenize(".5").unwrap()).unwrap()), 0.5);
}

#[test]
fn exponent_folds_to_the_left() {
    // the grammar folds `^` left-associatively: 2^3^2 groups as (2^3)^2
    let ast = parse(tokenize("2 ^ 3 ^ 2").unwrap()).unwrap();
    assert_eq!(eval_f64(&ast), 64.0);
}

#[test]
fn unbalanced_paren_is_an_error() {
    let err = parse(tokenize("(1 + 2").unwrap()).unwrap_err();
    assert_eq!(err, ASTError::ExpectedFound(Token::RParen, Token::LParen));
    assert_eq!(err.message(), "Expected ')', found '('");
}

#[test]
fn empty_input_is_unexpected_end() {
    let err = parse(tokenize("").unwrap()).unwrap_err();
    assert_eq!(err, ASTError::UnexpectedEnd);
    assert_eq!(err.message(), "Unexpected end of input");
}

#[test]
fn unspaced_subtraction_is_leftover_input() {
    // `3-4` scans as two adjacent numbers, which no grammar rule joins
    let err = parse(tokenize("3-4").unwrap()).unwrap_err();
    assert_eq!(err, ASTError::UnexpectedEnd);
}

#[test]
fn operator_where_term_expected_is_unexpected_end() {
    let err = parse(tokenize("3 + * 4").unwrap()).unwrap_err();
    assert_eq!(err, ASTError::UnexpectedEnd);
}

#[test]
fn brackets_evaluate_like_parens() {
    let with_brackets = parse(tokenize("-24 + 3 + 8 - [(-1 + 13)^2 - (2 + 13)]").unwrap()).unwrap();
    let with_parens = parse(tokenize("-24 + 3 + 8 - ((-1 + 13)^2 - (2 + 13))").unwrap()).unwrap();
    assert_eq!(with_brackets, with_parens);
    assert_eq!(eval_f64(&with_brackets), eval_f64(&with_parens));
}

#[test]
fn eval_is_pure() {
    let ast = parse(tokenize("3 + 4 * 2 / (1 - 5)^2").unwrap()).unwrap();
    let first = eval_f64(&ast);
    let second = eval_f64(&ast);
    assert_eq!(first, second);
}

#[test]
fn display_round_trip_keeps_the_value() {
    let inputs = vec![
        "3 + 4",
        "(1 + 2) * 3",
        "-3 + 4",
        "-(-3)",
        "3 + 4 * 2 / (1 - 5)^2",
        "5 * -2 - 3",
        "2 ^ 3 ^ 2",
    ];
    for input in inputs {
        let ast = parse(tokenize(input).unwrap()).unwrap();
        let rendered = ast.text();
        let again = parse(tokenize(rendered.as_str()).unwrap()).unwrap();
        assert_eq!(eval_f64(&ast), eval_f64(&again));
    }
}

#[test]
fn display_renders_fully_parenthesised() {
    let ast = parse(tokenize("3 + 4 * 2").unwrap()).unwrap();
    assert_eq!(ast.text(), "(3 + (4 * 2))");
    let ast = parse(tokenize("-(-3)").unwrap()).unwrap();
    assert_eq!(ast.text(), "--3");
}
