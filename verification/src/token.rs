//! Lexical tokens of arithmetic expressions, and the characters and
//! numeric literals they are made of.

use vstd::prelude::*;
use vstd::string::StringExecFns;

use crate::text::push_char;

verus! {

/// A decimal digit.
pub open spec fn is_digit_char(c: char) -> bool {
    '0' <= c && c <= '9'
}

/// A character that may occur in the body of a numeric literal.
pub open spec fn is_num_char(c: char) -> bool {
    is_digit_char(c) || c == '.'
}

/// Whitespace that the lexer skips.
pub open spec fn is_space_char(c: char) -> bool {
    c == ' ' || c == '\t' || c == '\n'
}

/// An operator character.
pub open spec fn is_op_char(c: char) -> bool {
    c == '+' || c == '-' || c == '*' || c == '/' || c == '^'
}

/// An opening bracket; `[` means the same as `(`.
pub open spec fn is_lparen_char(c: char) -> bool {
    c == '(' || c == '['
}

/// A closing bracket; `]` means the same as `)`.
pub open spec fn is_rparen_char(c: char) -> bool {
    c == ')' || c == ']'
}

/// How many digits a character sequence holds.
pub open spec fn digit_tally(s: Seq<char>) -> nat
    decreases s.len(),
{
    if s.len() == 0 {
        0
    } else {
        digit_tally(s.drop_last()) + if is_digit_char(s.last()) {
            1nat
        } else {
            0nat
        }
    }
}

/// How many dots a character sequence holds.
pub open spec fn dot_tally(s: Seq<char>) -> nat
    decreases s.len(),
{
    if s.len() == 0 {
        0
    } else {
        dot_tally(s.drop_last()) + if s.last() == '.' {
            1nat
        } else {
            0nat
        }
    }
}

pub open spec fn all_num_chars(s: Seq<char>) -> bool {
    forall|k: int| 0 <= k < s.len() ==> is_num_char(s[k])
}

/// The digit-and-dot strings that denote a decimal number: at least
/// one digit and at most one dot, nothing else.
pub open spec fn valid_literal(s: Seq<char>) -> bool {
    all_num_chars(s) && digit_tally(s) >= 1 && dot_tally(s) <= 1
}

/// The body of a scanned numeric literal: the sign that was folded
/// into it, and the run of digits and dots as written, without the
/// sign.
#[derive(Debug, PartialEq)]
pub struct Numeral {
    pub neg: bool,
    pub digits: String,
}

impl Clone for Numeral {
    fn clone(&self) -> (r: Numeral)
        ensures
            r@ == self@,
    {
        Numeral { neg: self.neg, digits: self.digits.clone() }
    }
}

/// The mathematical image of a `Numeral`.
pub struct NumeralV {
    pub neg: bool,
    pub digits: Seq<char>,
}

impl View for Numeral {
    type V = NumeralV;

    open spec fn view(&self) -> NumeralV {
        NumeralV { neg: self.neg, digits: self.digits@ }
    }
}

impl DeepView for Numeral {
    type V = NumeralV;

    open spec fn deep_view(&self) -> NumeralV {
        self@
    }
}

pub open spec fn numeral_wf(n: NumeralV) -> bool {
    valid_literal(n.digits)
}

/// A lexical token of an arithmetic expression.
#[derive(Clone, Debug, PartialEq)]
pub enum Token {
    Number(Numeral),
    Operator(char),
    LParen,
    RParen,
}

/// The mathematical image of a `Token`.
pub enum TokenV {
    Number(NumeralV),
    Operator(char),
    LParen,
    RParen,
}

impl View for Token {
    type V = TokenV;

    open spec fn view(&self) -> TokenV {
        match self {
            Token::Number(n) => TokenV::Number(n@),
            Token::Operator(c) => TokenV::Operator(*c),
            Token::LParen => TokenV::LParen,
            Token::RParen => TokenV::RParen,
        }
    }
}

impl DeepView for Token {
    type V = TokenV;

    open spec fn deep_view(&self) -> TokenV {
        self@
    }
}

/// A token the lexer can produce: its numeral is a valid literal and
/// its operator is one of the five operator characters.
pub open spec fn token_wf(t: TokenV) -> bool {
    match t {
        TokenV::Number(n) => numeral_wf(n),
        TokenV::Operator(c) => is_op_char(c),
        TokenV::LParen => true,
        TokenV::RParen => true,
    }
}

/// A lexical failure: a character outside the expression alphabet, or
/// a scanned digit-and-dot run that denotes no number.
#[derive(Clone, Debug, PartialEq)]
pub enum TokenError {
    InvalidCharacter(char),
    ParseError(String),
}

/// The mathematical image of a `TokenError`.
pub enum TokenErrorV {
    InvalidCharacter(char),
    ParseError(Seq<char>),
}

impl View for TokenError {
    type V = TokenErrorV;

    open spec fn view(&self) -> TokenErrorV {
        match self {
            TokenError::InvalidCharacter(c) => TokenErrorV::InvalidCharacter(*c),
            TokenError::ParseError(s) => TokenErrorV::ParseError(s@),
        }
    }
}

impl DeepView for TokenError {
    type V = TokenErrorV;

    open spec fn deep_view(&self) -> TokenErrorV {
        self@
    }
}

/// The display text of a numeral: the sign, if any, then the digits
/// as written.
pub open spec fn spec_numeral_text(n: NumeralV) -> Seq<char> {
    if n.neg {
        seq!['-'] + n.digits
    } else {
        n.digits
    }
}

/// The display text of a token.
pub open spec fn spec_token_text(t: TokenV) -> Seq<char> {
    match t {
        TokenV::Number(n) => spec_numeral_text(n),
        TokenV::Operator(c) => seq![c],
        TokenV::LParen => seq!['('],
        TokenV::RParen => seq![')'],
    }
}

impl Numeral {
    /// Builds the numeral for a literal as written: `neg` for a
    /// leading minus sign, `digits` for the digit-and-dot run.
    pub fn new(neg: bool, digits: &str) -> (r: Numeral)
        ensures
            r@ == (NumeralV { neg, digits: digits@ }),
    {
        Numeral { neg, digits: digits.to_owned() }
    }

    /// The literal as it was written.
    pub fn text(&self) -> (r: String)
        ensures
            r@ == spec_numeral_text(self@),
    {
        let mut out = String::new();
        if self.neg {
            push_char(&mut out, '-');
        }
        out.append(self.digits.as_str());
        proof {
            assert(out@ =~= spec_numeral_text(self@));
        }
        out
    }
}

impl Token {
    /// The display text of the token.
    pub fn text(&self) -> (r: String)
        ensures
            r@ == spec_token_text(self@),
    {
        match self {
            Token::Number(n) => n.text(),
            Token::Operator(c) => {
                let mut out = String::new();
                push_char(&mut out, *c);
                proof {
                    assert(out@ =~= seq![*c]);
                }
                out
            },
            Token::LParen => {
                let mut out = String::new();
                push_char(&mut out, '(');
                proof {
                    assert(out@ =~= seq!['(']);
                }
                out
            },
            Token::RParen => {
                let mut out = String::new();
                push_char(&mut out, ')');
                proof {
                    assert(out@ =~= seq![')']);
                }
                out
            },
        }
    }
}

/// The display text of a lexical failure.
pub open spec fn spec_token_error_text(e: TokenErrorV) -> Seq<char> {
    match e {
        TokenErrorV::InvalidCharacter(c) => "Invalid character: "@ + seq![c],
        TokenErrorV::ParseError(s) => "Failed to parse number: "@ + s,
    }
}

impl TokenError {
    /// A human-readable description of the failure.
    pub fn message(&self) -> (r: String)
        ensures
            r@ == spec_token_error_text(self@),
    {
        match self {
            TokenError::InvalidCharacter(c) => {
                let mut out = String::new();
                out.append("Invalid character: ");
                push_char(&mut out, *c);
                proof {
                    assert(out@ =~= "Invalid character: "@ + seq![*c]);
                }
                out
            },
            TokenError::ParseError(s) => {
                let mut out = String::new();
                out.append("Failed to parse number: ");
                out.append(s.as_str());
                proof {
                    assert(out@ =~= "Failed to parse number: "@ + s@);
                }
                out
            },
        }
    }
}

} // verus!
