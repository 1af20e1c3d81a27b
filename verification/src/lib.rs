use vstd::prelude::*;

pub mod ast;
pub mod calls;
pub mod code;
pub mod compiler;
pub mod constants;
pub mod depths;
pub mod errors;
pub mod evaluation;
pub mod jumps;
pub mod lexer;
pub mod module;
pub mod object;
pub mod opcodes;
pub mod parser;
pub mod seqs;
pub mod slots;
pub mod symbol;
pub mod text;
pub mod typing;
pub mod vm;


use crate::ast::{program_view, ModStmtAst};
use crate::lexer::{lex, lex_model};
use crate::parser::{parse_model, parse_tokens, SyntaxError};

verus! {

/// Parses the source text of a program into its definitions.
pub fn parse_str(input: &str) -> (r: Result<Vec<Box<ModStmtAst>>, SyntaxError>)
    ensures
        match parse_model(lex_model(input@)) {
            Ok(defs) => r matches Ok(ast) && program_view(ast@) == defs,
            Err(e) => r matches Err(x) && x@ == e,
        },
{
    parse_tokens(lex(input))
}

} // verus!
