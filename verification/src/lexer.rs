//! The lexer: left-to-right scanning of expression text into tokens.
//!
//! A minus sign that stands immediately before a digit or a dot is
//! folded into the numeral it introduces, so `3-4` scans as the number
//! `3` directly followed by the number `-4`, with no operator between
//! them. A minus sign followed by anything else is an operator token.

use vstd::prelude::*;
use vstd::string::StrSliceExecFns;

use crate::token::all_num_chars;
use crate::token::digit_tally;
use crate::token::dot_tally;
use crate::token::is_digit_char;
use crate::token::is_lparen_char;
use crate::token::is_num_char;
use crate::token::is_op_char;
use crate::token::is_rparen_char;
use crate::token::is_space_char;
use crate::token::valid_literal;
use crate::token::Numeral;
use crate::token::NumeralV;
use crate::token::Token;
use crate::token::TokenError;
use crate::token::TokenErrorV;
use crate::token::TokenV;

verus! {

/// Prepends the tokens already scanned to the outcome of scanning the
/// rest.
pub open spec fn lex_cont(prefix: Seq<TokenV>, r: Result<Seq<TokenV>, TokenErrorV>) -> Result<
    Seq<TokenV>,
    TokenErrorV,
> {
    match r {
        Ok(ts) => Ok(prefix + ts),
        Err(e) => Err(e),
    }
}

/// Scans the body of a numeric literal: `bs` is where the digit run
/// began, `j` is the position reached, `neg` records a folded-in
/// minus sign. When the run ends, the literal is the slice from `bs`
/// to `j`; it must hold at least one digit and at most one dot, else
/// scanning fails naming that slice.
pub open spec fn lex_num(s: Seq<char>, bs: int, j: int, neg: bool) -> Result<
    Seq<TokenV>,
    TokenErrorV,
>
    decreases s.len() - j, 1int,
{
    if 0 <= j < s.len() && is_num_char(s[j]) {
        lex_num(s, bs, j + 1, neg)
    } else {
        let lit = s.subrange(bs, j);
        if valid_literal(lit) {
            lex_cont(seq![TokenV::Number(NumeralV { neg, digits: lit })], lex_from(s, j))
        } else {
            Err(TokenErrorV::ParseError(lit))
        }
    }
}

/// Scans the text from position `i` on into tokens, or fails at the
/// first character that fits nowhere.
pub open spec fn lex_from(s: Seq<char>, i: int) -> Result<Seq<TokenV>, TokenErrorV>
    decreases s.len() - i, 0int,
{
    if !(0 <= i < s.len()) {
        Ok(Seq::empty())
    } else {
        let c = s[i];
        if is_space_char(c) {
            lex_from(s, i + 1)
        } else if is_num_char(c) {
            lex_num(s, i, i + 1, false)
        } else if c == '-' && i + 1 < s.len() && is_num_char(s[i + 1]) {
            lex_num(s, i + 1, i + 1, true)
        } else if is_lparen_char(c) {
            lex_cont(seq![TokenV::LParen], lex_from(s, i + 1))
        } else if is_rparen_char(c) {
            lex_cont(seq![TokenV::RParen], lex_from(s, i + 1))
        } else if is_op_char(c) {
            lex_cont(seq![TokenV::Operator(c)], lex_from(s, i + 1))
        } else {
            Err(TokenErrorV::InvalidCharacter(c))
        }
    }
}

/// What tokenizing a whole text yields.
pub open spec fn spec_tokenize(s: Seq<char>) -> Result<Seq<TokenV>, TokenErrorV> {
    lex_from(s, 0)
}

proof fn lemma_tally_empty()
    ensures
        digit_tally(Seq::empty()) == 0,
        dot_tally(Seq::empty()) == 0,
{
}

proof fn lemma_tally_one(c: char)
    ensures
        digit_tally(seq![c]) == if is_digit_char(c) {
            1nat
        } else {
            0nat
        },
        dot_tally(seq![c]) == if c == '.' {
            1nat
        } else {
            0nat
        },
{
    assert(seq![c].drop_last() =~= Seq::<char>::empty());
    lemma_tally_empty();
}

/// Composing continuations: taking one token out of the prefix is the
/// same as scanning past it.
proof fn lemma_lex_cont_shift(p: Seq<TokenV>, t: TokenV, r: Result<Seq<TokenV>, TokenErrorV>)
    ensures
        lex_cont(p, lex_cont(seq![t], r)) == lex_cont(p.push(t), r),
{
    match r {
        Ok(ts) => {
            assert(p + (seq![t] + ts) =~= p.push(t) + ts);
        },
        Err(_) => {},
    }
}

/// Whether the character at position `j` may stand in the body of a
/// numeric literal.
fn num_char_at(input: &str, j: usize) -> (r: bool)
    requires
        j < input@.len(),
    ensures
        r == is_num_char(input@[j as int]),
{
    let d = input.get_char(j);
    (d >= '0' && d <= '9') || d == '.'
}

/// Splits a character stream into tokens, scanning left to right:
/// numeric literals (with a directly attached leading minus), brackets
/// of either style, the five operators; whitespace is skipped; any
/// other character stops the scan with an invalid-character error, and
/// a digit-and-dot run that denotes no number stops it with a parse
/// error naming that run.
pub fn tokenize(input: &str) -> (r: Result<Vec<Token>, TokenError>)
    ensures
        match r {
            Ok(ts) => spec_tokenize(input@) == Ok::<Seq<TokenV>, TokenErrorV>(ts.deep_view()),
            Err(e) => spec_tokenize(input@) == Err::<Seq<TokenV>, TokenErrorV>(e@),
        },
{
    let ghost s = input@;
    let n = input.unicode_len();
    let mut tokens: Vec<Token> = Vec::new();
    let mut i: usize = 0;
    proof {
        assert(tokens.deep_view() =~= Seq::<TokenV>::empty());
        assert(lex_cont(tokens.deep_view(), lex_from(s, 0)) == lex_from(s, 0)) by {
            match lex_from(s, 0) {
                Ok(ts) => {
                    assert(tokens.deep_view() + ts =~= ts);
                },
                Err(_) => {},
            }
        }
    }
    while i < n
        invariant
            s == input@,
            n == s.len(),
            i <= n,
            lex_from(s, 0) == lex_cont(tokens.deep_view(), lex_from(s, i as int)),
        decreases n - i,
    {
        let c = input.get_char(i);
        if c == ' ' || c == '\t' || c == '\n' {
            i = i + 1;
        } else if (c >= '0' && c <= '9') || c == '.' || (c == '-' && i + 1 < n && num_char_at(
            input,
            i + 1,
        )) {
            let neg = c == '-';
            let bs = if neg {
                i + 1
            } else {
                i
            };
            let mut j = i + 1;
            let mut digits: usize = if neg {
                0
            } else if c != '.' {
                1
            } else {
                0
            };
            let mut dots: usize = if !neg && c == '.' {
                1
            } else {
                0
            };
            proof {
                lemma_tally_empty();
                lemma_tally_one(c);
                if neg {
                    assert(s.subrange(bs as int, j as int) =~= Seq::<char>::empty());
                } else {
                    assert(s.subrange(bs as int, j as int) =~= seq![c]);
                }
            }
            while j < n && num_char_at(input, j)
                invariant
                    s == input@,
                    n == s.len(),
                    bs <= j <= n,
                    digits <= j,
                    dots <= j,
                    all_num_chars(s.subrange(bs as int, j as int)),
                    digits == digit_tally(s.subrange(bs as int, j as int)),
                    dots == dot_tally(s.subrange(bs as int, j as int)),
                    lex_num(s, bs as int, j as int, neg) == lex_num(s, bs as int, i + 1, neg),
                decreases n - j,
            {
                let d = input.get_char(j);
                proof {
                    assert(s.subrange(bs as int, j as int + 1).drop_last() =~= s.subrange(
                        bs as int,
                        j as int,
                    ));
                    assert(s.subrange(bs as int, j as int + 1).last() == d);
                }
                if d >= '0' && d <= '9' {
                    digits = digits + 1;
                } else {
                    dots = dots + 1;
                }
                j = j + 1;
            }
            let ghost lit = s.subrange(bs as int, j as int);
            proof {
                // the scan stopped, so the spec scan ends here too
                assert(lex_num(s, bs as int, j as int, neg) == if valid_literal(lit) {
                    lex_cont(
                        seq![TokenV::Number(NumeralV { neg, digits: lit })],
                        lex_from(s, j as int),
                    )
                } else {
                    Err::<Seq<TokenV>, TokenErrorV>(TokenErrorV::ParseError(lit))
                });
            }
            let lit_str = input.substring_char(bs, j);
            if digits >= 1 && dots <= 1 {
                let num = Numeral::new(neg, lit_str);
                let ghost before = tokens.deep_view();
                tokens.push(Token::Number(num));
                proof {
                    assert(tokens.deep_view() =~= before.push(
                        TokenV::Number(NumeralV { neg, digits: lit }),
                    ));
                    lemma_lex_cont_shift(
                        before,
                        TokenV::Number(NumeralV { neg, digits: lit }),
                        lex_from(s, j as int),
                    );
                }
                i = j;
            } else {
                return Err(TokenError::ParseError(lit_str.to_owned()));
            }
        } else if c == '(' || c == '[' {
            let ghost before = tokens.deep_view();
            tokens.push(Token::LParen);
            proof {
                assert(tokens.deep_view() =~= before.push(TokenV::LParen));
                lemma_lex_cont_shift(before, TokenV::LParen, lex_from(s, i + 1));
            }
            i = i + 1;
        } else if c == ')' || c == ']' {
            let ghost before = tokens.deep_view();
            tokens.push(Token::RParen);
            proof {
                assert(tokens.deep_view() =~= before.push(TokenV::RParen));
                lemma_lex_cont_shift(before, TokenV::RParen, lex_from(s, i + 1));
            }
            i = i + 1;
        } else if c == '+' || c == '-' || c == '*' || c == '/' || c == '^' {
            let ghost before = tokens.deep_view();
            tokens.push(Token::Operator(c));
            proof {
                assert(tokens.deep_view() =~= before.push(TokenV::Operator(c)));
                lemma_lex_cont_shift(before, TokenV::Operator(c), lex_from(s, i + 1));
            }
            i = i + 1;
        } else {
            return Err(TokenError::InvalidCharacter(c));
        }
    }
    proof {
        assert(lex_from(s, i as int) == Ok::<Seq<TokenV>, TokenErrorV>(Seq::empty()));
        assert(tokens.deep_view() + Seq::<TokenV>::empty() =~= tokens.deep_view());
    }
    Ok(tokens)
}

} // verus!
