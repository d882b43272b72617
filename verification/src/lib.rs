pub mod error;
pub mod text;
pub mod number;
pub mod value;
pub mod environment;
pub mod lexer;
pub mod parser;
pub mod macros;
pub mod builtins;
pub mod eval;
pub mod program;
