pub mod argument_collector;
pub mod assoc;
pub mod ast;
pub mod command;
pub mod error;
pub mod grammar;
pub mod parser;
pub mod registery;
pub mod roundtrip;
pub mod scope;
pub mod statements;
pub mod switch_usage;
mod text;
pub mod variable;
pub mod vm;
pub mod writer;
