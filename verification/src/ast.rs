//! Expression trees and their display form.

use vstd::prelude::*;
use vstd::string::StringExecFns;

use crate::text::push_char;
use crate::token::is_op_char;
use crate::token::numeral_wf;
use crate::token::spec_numeral_text;
use crate::token::Numeral;
use crate::token::NumeralV;
use crate::token::Token;
use crate::token::TokenV;

verus! {

/// An expression tree: a numeric leaf, a binary operation on two
/// subtrees, or a unary negation. Children are owned by their parent,
/// so the tree is finite and acyclic by construction.
#[derive(Debug, PartialEq)]
pub enum AST {
    Number(Numeral),
    BinOp(char, Box<AST>, Box<AST>),
    Neg(Box<AST>),
}

/// The mathematical image of an `AST`.
pub enum ExprV {
    Number(NumeralV),
    BinOp(char, Box<ExprV>, Box<ExprV>),
    Neg(Box<ExprV>),
}

pub open spec fn ast_view(a: AST) -> ExprV
    decreases a,
{
    match a {
        AST::Number(n) => ExprV::Number(n@),
        AST::BinOp(op, l, r) => ExprV::BinOp(op, Box::new(ast_view(*l)), Box::new(ast_view(*r))),
        AST::Neg(e) => ExprV::Neg(Box::new(ast_view(*e))),
    }
}

impl DeepView for AST {
    type V = ExprV;

    open spec fn deep_view(&self) -> ExprV {
        ast_view(*self)
    }
}

/// An expression the parser can produce: every numeral is a valid
/// literal and every operator is one of the five operator characters.
pub open spec fn expr_wf(e: ExprV) -> bool
    decreases e,
{
    match e {
        ExprV::Number(n) => numeral_wf(n),
        ExprV::BinOp(op, l, r) => is_op_char(op) && expr_wf(*l) && expr_wf(*r),
        ExprV::Neg(c) => expr_wf(*c),
    }
}

/// A syntactic failure: the token found where another was expected,
/// or input that ended before a required token appeared.
#[derive(Clone, Debug, PartialEq)]
pub enum ASTError {
    ExpectedFound(Token, Token),
    UnexpectedEnd,
}

/// The mathematical image of an `ASTError`.
pub enum AstErrorV {
    ExpectedFound(TokenV, TokenV),
    UnexpectedEnd,
}

impl View for ASTError {
    type V = AstErrorV;

    open spec fn view(&self) -> AstErrorV {
        match self {
            ASTError::ExpectedFound(e, f) => AstErrorV::ExpectedFound(e@, f@),
            ASTError::UnexpectedEnd => AstErrorV::UnexpectedEnd,
        }
    }
}

impl DeepView for ASTError {
    type V = AstErrorV;

    open spec fn deep_view(&self) -> AstErrorV {
        self@
    }
}

/// The display text of an expression: a literal as written, a fully
/// parenthesised infix form `(lhs op rhs)`, or a prefixed minus.
pub open spec fn spec_ast_text(e: ExprV) -> Seq<char>
    decreases e,
{
    match e {
        ExprV::Number(n) => spec_numeral_text(n),
        ExprV::BinOp(op, l, r) => seq!['('] + spec_ast_text(*l) + seq![' ', op, ' ']
            + spec_ast_text(*r) + seq![')'],
        ExprV::Neg(c) => seq!['-'] + spec_ast_text(*c),
    }
}

impl AST {
    /// The display text of the expression.
    pub fn text(&self) -> (r: String)
        ensures
            r@ == spec_ast_text(self.deep_view()),
        decreases *self,
    {
        match self {
            AST::Number(n) => n.text(),
            AST::BinOp(op, l, r) => {
                let mut out = String::new();
                push_char(&mut out, '(');
                let lt = l.text();
                out.append(lt.as_str());
                push_char(&mut out, ' ');
                push_char(&mut out, *op);
                push_char(&mut out, ' ');
                let rt = r.text();
                out.append(rt.as_str());
                push_char(&mut out, ')');
                proof {
                    assert(out@ =~= spec_ast_text(self.deep_view()));
                }
                out
            },
            AST::Neg(c) => {
                let mut out = String::new();
                push_char(&mut out, '-');
                let ct = c.text();
                out.append(ct.as_str());
                proof {
                    assert(out@ =~= spec_ast_text(self.deep_view()));
                }
                out
            },
        }
    }
}

/// The display text of a syntactic failure.
pub open spec fn spec_ast_error_text(e: AstErrorV) -> Seq<char> {
    match e {
        AstErrorV::ExpectedFound(exp, fnd) => "Expected '"@ + crate::token::spec_token_text(exp)
            + "', found '"@ + crate::token::spec_token_text(fnd) + "'"@,
        AstErrorV::UnexpectedEnd => "Unexpected end of input"@,
    }
}

impl ASTError {
    /// A human-readable description of the failure.
    pub fn message(&self) -> (r: String)
        ensures
            r@ == spec_ast_error_text(self@),
    {
        match self {
            ASTError::ExpectedFound(exp, fnd) => {
                let mut out = String::new();
                out.append("Expected '");
                let et = exp.text();
                out.append(et.as_str());
                out.append("', found '");
                let ft = fnd.text();
                out.append(ft.as_str());
                out.append("'");
                proof {
                    assert(out@ =~= spec_ast_error_text(self@));
                }
                out
            },
            ASTError::UnexpectedEnd => {
                let out = "Unexpected end of input".to_owned();
                out
            },
        }
    }
}

} // verus!
