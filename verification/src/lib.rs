//! A verified arithmetic-expression engine: a lexer that turns text
//! into tokens, a recursive-descent parser that builds an expression
//! tree with the usual precedence tiers, and display forms for all of
//! them. Numeric literals are carried exactly as written (sign and
//! digit run), so every stage is a plain function on plain values.

mod text;
pub mod ast;
pub mod laws;
pub mod lexer;
pub mod parser;
pub mod token;

pub use ast::ASTError;
pub use ast::AST;
pub use lexer::tokenize;
pub use parser::parse;
pub use token::Numeral;
pub use token::Token;
pub use token::TokenError;
