//! The logic of a small Unix shell: parsing, expansion, line editing,
//! history, and job bookkeeping.

pub mod text;
pub mod span;
pub mod word;
pub mod token;
pub mod error;
pub mod lexer;
pub mod ast;
pub mod parser;
pub mod expand;
pub mod keys;
pub mod history;
pub mod editor;
pub mod render;
pub mod status;
pub mod job;
pub mod jobspec;
pub mod table;
pub mod path;
pub mod redirect;
pub mod builtin;
pub mod shell;
pub mod input;
pub mod complete;
pub mod interactive;
pub mod pipeline;
pub mod event;

pub use parser::parse;
pub use lexer::tokenize;
