//! A small compiler for a minimal scripting language: source text is split
//! into tokens, parsed into a syntax tree, and lowered onto a backend module
//! that a host program serialises to an object file.
pub mod nodes;
pub mod lexer;
pub mod parser;
pub mod codegen;
pub mod target;
pub mod cli;
pub mod theorems;

use vstd::prelude::*;

use crate::codegen::{CodegenError, Module, ModuleView, lower_program};
use crate::lexer::{LexError, lex, tokenize};
use crate::nodes::Node;
use crate::parser::{ParseError, nv, parse_program, parse_spec};

verus! {

/// The first problem met by a compilation.
#[derive(Debug, Clone, Copy, PartialEq, Eq)]
pub enum CompileError {
    Lex(LexError),
    Parse(ParseError),
    Codegen(CodegenError),
}

/// The module that a compilation starts from.
pub open spec fn empty_module() -> ModuleView {
    ModuleView { functions: seq![], strings: seq![] }
}

/// `p` is the tree of the source text `src`.
pub open spec fn is_parse_of(src: Seq<char>, p: Node) -> bool {
    &&& lex(src) is Ok
    &&& parse_spec(lex(src)->Ok_0) == Ok::<crate::parser::NodeView, ParseError>(nv(p))
}

/// Compiles source text into a backend module: tokens, then a syntax tree,
/// then the lowering of that tree.
pub fn compile(src: &str) -> (r: Result<Module, CompileError>)
    ensures
        match r {
            Ok(m) => {
                &&& exists|p: Node| is_parse_of(src@, p)
                &&& forall|p: Node| #[trigger] is_parse_of(src@, p) ==> lower_program(empty_module(), p) == Ok::<ModuleView, CodegenError>(m@)
            },
            Err(CompileError::Lex(e)) => lex(src@) == Err::<Seq<crate::lexer::TokenView>, LexError>(e),
            Err(CompileError::Parse(e)) => lex(src@) is Ok && parse_spec(lex(src@)->Ok_0) == Err::<crate::parser::NodeView, ParseError>(e),
            Err(CompileError::Codegen(e)) => {
                &&& exists|p: Node| is_parse_of(src@, p)
                &&& forall|p: Node| #[trigger] is_parse_of(src@, p) ==> lower_program(empty_module(), p) == Err::<ModuleView, CodegenError>(e)
            },
        },
{
    let toks = match tokenize(src) {
        Ok(t) => t,
        Err(e) => {
            return Err(CompileError::Lex(e));
        },
    };
    let program = match parse_program(&toks) {
        Ok(p) => p,
        Err(e) => {
            return Err(CompileError::Parse(e));
        },
    };
    assert(is_parse_of(src@, program));
    let ghost tree = program;
    assert forall|q: Node| #[trigger] is_parse_of(src@, q) implies lower_program(empty_module(), q) == lower_program(
        empty_module(),
        tree,
    ) by {
        crate::theorems::lowering_depends_on_view(empty_module(), q, tree);
    }
    let mut module = Module::new();
    assert(module@ == empty_module());
    match module.generate(program) {
        Ok(()) => Ok(module),
        Err(e) => Err(CompileError::Codegen(e)),
    }
}

} // verus!
