//! A Brainfuck interpreter: source text is reduced to instructions, brackets
//! are paired into a jump table, and the program runs on a bounded tape.

pub mod interpreter;
pub mod jumps;
pub mod lexer;

pub use interpreter::{Interpreter, RunError, Step, TAPE_LEN};
pub use jumps::{resolve_jumps, SyntaxError};
pub use lexer::{lex, Token};
