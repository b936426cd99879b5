pub mod exp;
pub mod laws;
pub mod lexer;
pub mod machine;
pub mod ownership_checker;
pub mod parser;
pub mod simplifier;
pub mod symset;
pub mod text;
pub mod token;
pub mod type_checker;
pub mod types;
