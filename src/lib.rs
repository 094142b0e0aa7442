//! Arithmetic expressions over `i32`: text is scanned into tokens, tokens are
//! built into a binary expression tree, and the tree is evaluated.
pub mod ast;
pub mod compile;
pub mod helpers;
pub mod laws;
pub mod parse;
pub mod render;
pub mod token;
pub mod tokenize;

pub use crate::ast::Ast;
pub use crate::compile::compile;
pub use crate::helpers::valid_paren;
pub use crate::parse::parse;
pub use crate::token::{Error, Token};
pub use crate::tokenize::tokenize;
