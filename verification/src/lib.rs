//! A minimal imperative scripting language: a lexer, a recursive-descent
//! parser, and a tree-walking evaluator, each specified against a
//! mathematical model and verified.

pub mod ast;
pub mod env;
pub mod laws;
pub mod lexer;
pub mod parser;
pub mod printer;
pub mod semantics;
pub mod eval;

pub use ast::{ArgList, Block, DataType, Expr, Function, If, Opcode, Program, Stmt, VarVal, Variable};
pub use env::Env;
pub use eval::{execute, Builtins, Natives, NoNatives, RuntimeError, RuntimeErrorType, MAX_CALL_DEPTH};
pub use lexer::{tokenize, Error, Lexer, Token};
pub use parser::{parse, ParsingError};
pub use printer::to_source;
