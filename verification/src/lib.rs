//! Front end of the twotetrated compiler: the syntax tree and the parser
//! that turns source text into it.

pub mod ast;
pub mod parser;
pub mod laws;
