pub mod token;
pub mod lexer;
pub mod properties;
