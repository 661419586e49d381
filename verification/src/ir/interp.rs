//! Failures of running an IR program.

use vstd::prelude::*;
use vstd::string::StringExecFns;

use crate::ir::{BlockId, FunctionId};
use crate::text::{decimal, usize_text};

verus! {

/// Why running an IR program failed.
#[derive(Debug, Clone, PartialEq, Eq)]
pub enum IrInterpError {
    MissingMain,
    MissingFunction(FunctionId),
    MissingBlock(BlockId),
    UnsupportedBuiltin(String),
    TypeMismatch(&'static str),
    DivisionByZero,
    InvalidOperand(&'static str),
    InvalidField(String),
    IndexOutOfBounds,
}

/// The text of a failure, as it is shown to users; ids are written as
/// `FunctionId(..)` and `BlockId(..)`.
pub open spec fn interp_message(e: IrInterpError) -> Seq<char> {
    match e {
        IrInterpError::MissingMain => "IR program has no main function"@,
        IrInterpError::MissingFunction(id) => "IR program is missing function "@ + ("FunctionId"@ + "("@ + decimal(id.0 as nat) + ")"@),
        IrInterpError::MissingBlock(id) => "IR function is missing block "@ + ("BlockId"@ + "("@ + decimal(id.0 as nat) + ")"@),
        IrInterpError::UnsupportedBuiltin(name) => "IR interpreter does not support builtin `"@ + name@ + "`"@,
        IrInterpError::TypeMismatch(m) => "IR type mismatch: "@ + m@,
        IrInterpError::DivisionByZero => "IR division by zero"@,
        IrInterpError::InvalidOperand(m) => "IR invalid operand: "@ + m@,
        IrInterpError::InvalidField(name) => "IR invalid field `"@ + name@ + "`"@,
        IrInterpError::IndexOutOfBounds => "IR index out of bounds"@,
    }
}

fn id_text(kind: &str, id: usize) -> (r: String)
    ensures
        r@ == kind@ + "("@ + decimal(id as nat) + ")"@,
{
    let mut s = String::from_str(kind);
    s.append("(");
    s.append(usize_text(id).as_str());
    s.append(")");
    s
}

impl IrInterpError {
    /// The text of the failure (see `interp_message`).
    pub fn message(&self) -> (r: String)
        ensures
            r@ == interp_message(*self),
    {
        match self {
            IrInterpError::MissingMain => String::from_str("IR program has no main function"),
            IrInterpError::MissingFunction(id) => {
                let mut s = String::from_str("IR program is missing function ");
                s.append(id_text("FunctionId", id.0).as_str());
                s
            },
            IrInterpError::MissingBlock(id) => {
                let mut s = String::from_str("IR function is missing block ");
                s.append(id_text("BlockId", id.0).as_str());
                s
            },
            IrInterpError::UnsupportedBuiltin(name) => {
                let mut s = String::from_str("IR interpreter does not support builtin `");
                s.append(name.as_str());
                s.append("`");
                s
            },
            IrInterpError::TypeMismatch(m) => {
                let mut s = String::from_str("IR type mismatch: ");
                s.append(m);
                s
            },
            IrInterpError::DivisionByZero => String::from_str("IR division by zero"),
            IrInterpError::InvalidOperand(m) => {
                let mut s = String::from_str("IR invalid operand: ");
                s.append(m);
                s
            },
            IrInterpError::InvalidField(name) => {
                let mut s = String::from_str("IR invalid field `");
                s.append(name.as_str());
                s.append("`");
                s
            },
            IrInterpError::IndexOutOfBounds => String::from_str("IR index out of bounds"),
        }
    }
}

} // verus!
