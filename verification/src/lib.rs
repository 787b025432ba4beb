pub mod environment;
pub mod expr;
pub mod interpreter;
pub mod lox_callable;
pub mod number;
pub mod parser;
pub mod scanner;
pub mod stmt;
pub mod token;
pub mod token_type;
pub mod value;
