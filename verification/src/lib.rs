pub mod class;
pub mod expr;
pub mod grammar;
pub mod identity;
pub mod operators;
pub mod parser;
pub mod printers;
pub mod report;
pub mod resolver;
pub mod runtime;
pub mod stmt;
pub mod token;
