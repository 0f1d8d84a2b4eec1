pub mod point;
pub mod span;
pub mod token;
pub mod color;
pub mod ident;
pub mod grammar;
pub mod lex;
pub mod text;
pub mod file_kind;
