//! The parser: recursive descent over the token sequence, one
//! procedure per precedence tier.
//!
//! From loosest to tightest binding: an expression is a chain of
//! factors joined by `+` or `-`; a factor is a chain of exponents
//! joined by `*` or `/`, either side of which may carry a unary
//! minus; an exponent is a chain of terms joined by `^`, folded
//! left-associatively; a term is a numeric literal or a bracketed
//! expression. Every chain folds to the left.

use vstd::prelude::*;

use crate::ast::AstErrorV;
use crate::ast::ASTError;
use crate::ast::ExprV;
use crate::ast::AST;
use crate::token::Token;
use crate::token::TokenV;

verus! {

/// What parsing one term at position `i` yields: the expression and
/// the position just past it.
pub open spec fn spec_term(ts: Seq<TokenV>, i: int) -> Result<(ExprV, int), AstErrorV>
    decreases ts.len() - i, 0int,
{
    if !(0 <= i < ts.len()) {
        Err(AstErrorV::UnexpectedEnd)
    } else {
        match ts[i] {
            TokenV::Number(n) => Ok((ExprV::Number(n), i + 1)),
            TokenV::LParen => match spec_expr(ts, i + 1) {
                Ok((e, j)) => if j < ts.len() && ts[j] is RParen {
                    Ok((e, j + 1))
                } else {
                    Err(AstErrorV::ExpectedFound(TokenV::RParen, TokenV::LParen))
                },
                Err(er) => Err(er),
            },
            _ => Err(AstErrorV::UnexpectedEnd),
        }
    }
}

/// What parsing an exponent chain at position `i` yields.
pub open spec fn spec_exponent(ts: Seq<TokenV>, i: int) -> Result<(ExprV, int), AstErrorV>
    decreases ts.len() - i, 1int,
{
    match spec_term(ts, i) {
        Ok((lhs, j)) => if i < j <= ts.len() {
            spec_exponent_more(ts, j, lhs)
        } else {
            Err(AstErrorV::UnexpectedEnd)
        },
        Err(er) => Err(er),
    }
}

/// Folds further `^ term` steps onto `lhs`, left-associatively.
pub open spec fn spec_exponent_more(ts: Seq<TokenV>, j: int, lhs: ExprV) -> Result<
    (ExprV, int),
    AstErrorV,
>
    decreases ts.len() - j, 2int,
{
    if j < ts.len() && ts[j] == TokenV::Operator('^') {
        match spec_term(ts, j + 1) {
            Ok((rhs, k)) => if j < k <= ts.len() {
                spec_exponent_more(ts, k, ExprV::BinOp('^', Box::new(lhs), Box::new(rhs)))
            } else {
                Err(AstErrorV::UnexpectedEnd)
            },
            Err(er) => Err(er),
        }
    } else {
        Ok((lhs, j))
    }
}

/// What parsing a factor chain at position `i` yields. A leading
/// minus wraps the first exponent in a negation.
pub open spec fn spec_factor(ts: Seq<TokenV>, i: int) -> Result<(ExprV, int), AstErrorV>
    decreases ts.len() - i, 3int,
{
    if 0 <= i < ts.len() && ts[i] == TokenV::Operator('-') {
        match spec_exponent(ts, i + 1) {
            Ok((e, j)) => if i < j <= ts.len() {
                spec_factor_more(ts, j, ExprV::Neg(Box::new(e)))
            } else {
                Err(AstErrorV::UnexpectedEnd)
            },
            Err(er) => Err(er),
        }
    } else {
        match spec_exponent(ts, i) {
            Ok((lhs, j)) => if i < j <= ts.len() {
                spec_factor_more(ts, j, lhs)
            } else {
                Err(AstErrorV::UnexpectedEnd)
            },
            Err(er) => Err(er),
        }
    }
}

/// Folds further `* exponent` or `/ exponent` steps onto `lhs`; a
/// minus right after the operator negates only that next exponent.
pub open spec fn spec_factor_more(ts: Seq<TokenV>, j: int, lhs: ExprV) -> Result<
    (ExprV, int),
    AstErrorV,
>
    decreases ts.len() - j, 4int,
{
    if j < ts.len() {
        match ts[j] {
            TokenV::Operator(op) => if op == '*' || op == '/' {
                if j + 1 < ts.len() && ts[j + 1] == TokenV::Operator('-') {
                    match spec_exponent(ts, j + 2) {
                        Ok((rhs, k)) => if j < k <= ts.len() {
                            spec_factor_more(
                                ts,
                                k,
                                ExprV::BinOp(
                                    op,
                                    Box::new(lhs),
                                    Box::new(ExprV::Neg(Box::new(rhs))),
                                ),
                            )
                        } else {
                            Err(AstErrorV::UnexpectedEnd)
                        },
                        Err(er) => Err(er),
                    }
                } else {
                    match spec_exponent(ts, j + 1) {
                        Ok((rhs, k)) => if j < k <= ts.len() {
                            spec_factor_more(ts, k, ExprV::BinOp(op, Box::new(lhs), Box::new(rhs)))
                        } else {
                            Err(AstErrorV::UnexpectedEnd)
                        },
                        Err(er) => Err(er),
                    }
                }
            } else {
                Ok((lhs, j))
            },
            _ => Ok((lhs, j)),
        }
    } else {
        Ok((lhs, j))
    }
}

/// What parsing a whole expression at position `i` yields.
pub open spec fn spec_expr(ts: Seq<TokenV>, i: int) -> Result<(ExprV, int), AstErrorV>
    decreases ts.len() - i, 5int,
{
    match spec_factor(ts, i) {
        Ok((lhs, j)) => if i < j <= ts.len() {
            spec_expr_more(ts, j, lhs)
        } else {
            Err(AstErrorV::UnexpectedEnd)
        },
        Err(er) => Err(er),
    }
}

/// Folds further `+ factor` or `- factor` steps onto `lhs`.
pub open spec fn spec_expr_more(ts: Seq<TokenV>, j: int, lhs: ExprV) -> Result<
    (ExprV, int),
    AstErrorV,
>
    decreases ts.len() - j, 6int,
{
    if j < ts.len() {
        match ts[j] {
            TokenV::Operator(op) => if op == '+' || op == '-' {
                match spec_factor(ts, j + 1) {
                    Ok((rhs, k)) => if j < k <= ts.len() {
                        spec_expr_more(ts, k, ExprV::BinOp(op, Box::new(lhs), Box::new(rhs)))
                    } else {
                        Err(AstErrorV::UnexpectedEnd)
                    },
                    Err(er) => Err(er),
                }
            } else {
                Ok((lhs, j))
            },
            _ => Ok((lhs, j)),
        }
    } else {
        Ok((lhs, j))
    }
}

/// What parsing a whole token sequence yields: one expression
/// covering every token, or the first failure; tokens left over after
/// a complete expression are a failure of their own.
pub open spec fn spec_parse(ts: Seq<TokenV>) -> Result<ExprV, AstErrorV> {
    match spec_expr(ts, 0) {
        Ok((e, j)) => if j == ts.len() {
            Ok(e)
        } else {
            Err(AstErrorV::UnexpectedEnd)
        },
        Err(er) => Err(er),
    }
}

/// Whether the token is the given operator.
fn is_op_token(t: &Token, c: char) -> (r: bool)
    ensures
        r == (t@ == TokenV::Operator(c)),
{
    match t {
        Token::Operator(d) => *d == c,
        _ => false,
    }
}

/// Whether the token is a closing bracket.
fn is_rparen_token(t: &Token) -> (r: bool)
    ensures
        r == (t@ is RParen),
{
    match t {
        Token::RParen => true,
        _ => false,
    }
}

/// The operator character of a `*` or `/` token, if it is one.
fn muldiv_op(t: &Token) -> (r: Option<char>)
    ensures
        match r {
            Some(c) => t@ == TokenV::Operator(c) && (c == '*' || c == '/'),
            None => !(t@ matches TokenV::Operator(c) && (c == '*' || c == '/')),
        },
{
    match t {
        Token::Operator(d) => {
            if *d == '*' || *d == '/' {
                Some(*d)
            } else {
                None
            }
        },
        _ => None,
    }
}

/// The operator character of a `+` or `-` token, if it is one.
fn plusminus_op(t: &Token) -> (r: Option<char>)
    ensures
        match r {
            Some(c) => t@ == TokenV::Operator(c) && (c == '+' || c == '-'),
            None => !(t@ matches TokenV::Operator(c) && (c == '+' || c == '-')),
        },
{
    match t {
        Token::Operator(d) => {
            if *d == '+' || *d == '-' {
                Some(*d)
            } else {
                None
            }
        },
        _ => None,
    }
}

/// Parses one term: a numeric literal, or a bracketed expression
/// whose closing bracket must follow.
fn parse_term(tokens: &Vec<Token>, i: usize) -> (r: Result<(AST, usize), ASTError>)
    requires
        i <= tokens@.len(),
    ensures
        match r {
            Ok(p) => spec_term(tokens.deep_view(), i as int) == Ok::<(ExprV, int), AstErrorV>(
                (p.0.deep_view(), p.1 as int),
            ) && i < p.1 <= tokens@.len(),
            Err(e) => spec_term(tokens.deep_view(), i as int) == Err::<(ExprV, int), AstErrorV>(
                e@,
            ),
        },
    decreases tokens@.len() - i, 0int,
{
    if i >= tokens.len() {
        Err(ASTError::UnexpectedEnd)
    } else {
        match &tokens[i] {
            Token::Number(n) => Ok((AST::Number(n.clone()), i + 1)),
            Token::LParen => match parse_expr(tokens, i + 1) {
                Ok((e, j)) => {
                    if j < tokens.len() && is_rparen_token(&tokens[j]) {
                        Ok((e, j + 1))
                    } else {
                        Err(ASTError::ExpectedFound(Token::RParen, Token::LParen))
                    }
                },
                Err(er) => Err(er),
            },
            _ => Err(ASTError::UnexpectedEnd),
        }
    }
}

/// Parses an exponent chain: a term, then any number of `^ term`
/// steps folded to the left.
fn parse_exponent(tokens: &Vec<Token>, i: usize) -> (r: Result<(AST, usize), ASTError>)
    requires
        i <= tokens@.len(),
    ensures
        match r {
            Ok(p) => spec_exponent(tokens.deep_view(), i as int) == Ok::<(ExprV, int), AstErrorV>(
                (p.0.deep_view(), p.1 as int),
            ) && i < p.1 <= tokens@.len(),
            Err(e) => spec_exponent(tokens.deep_view(), i as int) == Err::<
                (ExprV, int),
                AstErrorV,
            >(e@),
        },
    decreases tokens@.len() - i, 1int,
{
    match parse_term(tokens, i) {
        Ok((lhs, j)) => parse_exponent_more(tokens, j, lhs),
        Err(er) => Err(er),
    }
}

/// Folds further `^ term` steps onto an already parsed left side.
fn parse_exponent_more(tokens: &Vec<Token>, j: usize, lhs: AST) -> (r: Result<
    (AST, usize),
    ASTError,
>)
    requires
        j <= tokens@.len(),
    ensures
        match r {
            Ok(p) => spec_exponent_more(tokens.deep_view(), j as int, lhs.deep_view()) == Ok::<
                (ExprV, int),
                AstErrorV,
            >((p.0.deep_view(), p.1 as int)) && j <= p.1 <= tokens@.len(),
            Err(e) => spec_exponent_more(tokens.deep_view(), j as int, lhs.deep_view()) == Err::<
                (ExprV, int),
                AstErrorV,
            >(e@),
        },
    decreases tokens@.len() - j, 2int,
{
    if j < tokens.len() && is_op_token(&tokens[j], '^') {
        match parse_term(tokens, j + 1) {
            Ok((rhs, k)) => parse_exponent_more(
                tokens,
                k,
                AST::BinOp('^', Box::new(lhs), Box::new(rhs)),
            ),
            Err(er) => Err(er),
        }
    } else {
        Ok((lhs, j))
    }
}

/// Parses a factor chain: an optional unary minus, an exponent, then
/// any number of `* exponent` or `/ exponent` steps folded to the
/// left.
fn parse_factor(tokens: &Vec<Token>, i: usize) -> (r: Result<(AST, usize), ASTError>)
    requires
        i <= tokens@.len(),
    ensures
        match r {
            Ok(p) => spec_factor(tokens.deep_view(), i as int) == Ok::<(ExprV, int), AstErrorV>(
                (p.0.deep_view(), p.1 as int),
            ) && i < p.1 <= tokens@.len(),
            Err(e) => spec_factor(tokens.deep_view(), i as int) == Err::<(ExprV, int), AstErrorV>(
                e@,
            ),
        },
    decreases tokens@.len() - i, 3int,
{
    if i < tokens.len() && is_op_token(&tokens[i], '-') {
        match parse_exponent(tokens, i + 1) {
            Ok((e, j)) => parse_factor_more(tokens, j, AST::Neg(Box::new(e))),
            Err(er) => Err(er),
        }
    } else {
        match parse_exponent(tokens, i) {
            Ok((lhs, j)) => parse_factor_more(tokens, j, lhs),
            Err(er) => Err(er),
        }
    }
}

/// Folds further `* exponent` or `/ exponent` steps onto an already
/// parsed left side; a minus right after the operator negates only
/// the next exponent.
fn parse_factor_more(tokens: &Vec<Token>, j: usize, lhs: AST) -> (r: Result<
    (AST, usize),
    ASTError,
>)
    requires
        j <= tokens@.len(),
    ensures
        match r {
            Ok(p) => spec_factor_more(tokens.deep_view(), j as int, lhs.deep_view()) == Ok::<
                (ExprV, int),
                AstErrorV,
            >((p.0.deep_view(), p.1 as int)) && j <= p.1 <= tokens@.len(),
            Err(e) => spec_factor_more(tokens.deep_view(), j as int, lhs.deep_view()) == Err::<
                (ExprV, int),
                AstErrorV,
            >(e@),
        },
    decreases tokens@.len() - j, 4int,
{
    if j < tokens.len() {
        match muldiv_op(&tokens[j]) {
            Some(op) => {
                if j + 1 < tokens.len() && is_op_token(&tokens[j + 1], '-') {
                    match parse_exponent(tokens, j + 2) {
                        Ok((rhs, k)) => {
                            let ghost rv = rhs.deep_view();
                            let negated = AST::Neg(Box::new(rhs));
                            proof {
                                assert(negated.deep_view() == ExprV::Neg(Box::new(rv)));
                            }
                            parse_factor_more(
                                tokens,
                                k,
                                AST::BinOp(op, Box::new(lhs), Box::new(negated)),
                            )
                        },
                        Err(er) => Err(er),
                    }
                } else {
                    match parse_exponent(tokens, j + 1) {
                        Ok((rhs, k)) => parse_factor_more(
                            tokens,
                            k,
                            AST::BinOp(op, Box::new(lhs), Box::new(rhs)),
                        ),
                        Err(er) => Err(er),
                    }
                }
            },
            None => Ok((lhs, j)),
        }
    } else {
        Ok((lhs, j))
    }
}

/// Parses a whole expression: a factor, then any number of
/// `+ factor` or `- factor` steps folded to the left.
fn parse_expr(tokens: &Vec<Token>, i: usize) -> (r: Result<(AST, usize), ASTError>)
    requires
        i <= tokens@.len(),
    ensures
        match r {
            Ok(p) => spec_expr(tokens.deep_view(), i as int) == Ok::<(ExprV, int), AstErrorV>(
                (p.0.deep_view(), p.1 as int),
            ) && i < p.1 <= tokens@.len(),
            Err(e) => spec_expr(tokens.deep_view(), i as int) == Err::<(ExprV, int), AstErrorV>(
                e@,
            ),
        },
    decreases tokens@.len() - i, 5int,
{
    match parse_factor(tokens, i) {
        Ok((lhs, j)) => parse_expr_more(tokens, j, lhs),
        Err(er) => Err(er),
    }
}

/// Folds further `+ factor` or `- factor` steps onto an already
/// parsed left side.
fn parse_expr_more(tokens: &Vec<Token>, j: usize, lhs: AST) -> (r: Result<(AST, usize), ASTError>)
    requires
        j <= tokens@.len(),
    ensures
        match r {
            Ok(p) => spec_expr_more(tokens.deep_view(), j as int, lhs.deep_view()) == Ok::<
                (ExprV, int),
                AstErrorV,
            >((p.0.deep_view(), p.1 as int)) && j <= p.1 <= tokens@.len(),
            Err(e) => spec_expr_more(tokens.deep_view(), j as int, lhs.deep_view()) == Err::<
                (ExprV, int),
                AstErrorV,
            >(e@),
        },
    decreases tokens@.len() - j, 6int,
{
    if j < tokens.len() {
        match plusminus_op(&tokens[j]) {
            Some(op) => match parse_factor(tokens, j + 1) {
                Ok((rhs, k)) => parse_expr_more(
                    tokens,
                    k,
                    AST::BinOp(op, Box::new(lhs), Box::new(rhs)),
                ),
                Err(er) => Err(er),
            },
            None => Ok((lhs, j)),
        }
    } else {
        Ok((lhs, j))
    }
}

/// Builds the expression tree for a whole token sequence, from the
/// loosest precedence tier down; a complete expression that does not
/// reach the end of the tokens is rejected as leftover input.
pub fn parse(tokens: Vec<Token>) -> (r: Result<AST, ASTError>)
    ensures
        match r {
            Ok(ast) => spec_parse(tokens.deep_view()) == Ok::<ExprV, AstErrorV>(ast.deep_view()),
            Err(e) => spec_parse(tokens.deep_view()) == Err::<ExprV, AstErrorV>(e@),
        },
{
    match parse_expr(&tokens, 0) {
        Ok((ast, j)) => {
            if j == tokens.len() {
                Ok(ast)
            } else {
                Err(ASTError::UnexpectedEnd)
            }
        },
        Err(er) => Err(er),
    }
}

} // verus!
