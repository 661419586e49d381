//! The emitter of one program: the program and its string literals' symbols.

use vstd::prelude::*;

use crate::codegen::llvm::strings::{collect_string_literals, literal_symbols, StringLiterals};
use crate::ir::IrProgram;

verus! {

/// Emits LLVM text for one program.
pub struct LlvmEmitter<'a> {
    program: &'a IrProgram,
    string_literals: StringLiterals,
}

impl<'a> LlvmEmitter<'a> {
    /// The program emitted.
    pub closed spec fn program(&self) -> IrProgram {
        *self.program
    }

    /// The symbols of the program's string literals.
    pub closed spec fn literals(&self) -> Map<Seq<char>, Seq<char>> {
        self.string_literals@
    }

    /// An emitter for `program`, with the symbols of its string literals collected.
    pub fn new(program: &'a IrProgram) -> (r: Self)
        ensures
            r.program() == *program,
            r.literals() == literal_symbols(*program),
    {
        LlvmEmitter { program, string_literals: collect_string_literals(program) }
    }

    /// The symbols of the program's string literals.
    pub fn string_literals(&self) -> (r: &StringLiterals)
        ensures
            r@ == self.literals(),
    {
        &self.string_literals
    }
}

} // verus!
