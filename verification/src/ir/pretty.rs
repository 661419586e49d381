//! A program to be printed in its textual form.

use vstd::prelude::*;

use crate::ir::IrProgram;

verus! {

/// A program to be printed: its structs, globals, module initializer and functions.
pub struct PrettyIr<'a> {
    pub program: &'a IrProgram,
}

impl<'a> PrettyIr<'a> {
    /// The printable form of `program`.
    pub fn new(program: &'a IrProgram) -> (r: Self)
        ensures
            *r.program == *program,
    {
        PrettyIr { program }
    }
}

} // verus!
