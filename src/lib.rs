pub mod env;
pub mod error;
pub mod eval;
pub mod host;
pub mod lexer;
pub mod parser;
pub mod primitive;
pub mod util;
pub mod value;
