//! The LLVM types of IR types.

use vstd::prelude::*;

use crate::codegen::{CodegenError, Fault};
use crate::ir::IrType;

verus! {

/// The message of the failure to lower a type other than Int, Bool, String or Void.
pub open spec fn unsupported_type_message() -> Seq<char> {
    "only Int/Bool/String/Void lowering is implemented"@
}

/// The LLVM type of an IR type: `i64`, `i1`, `ptr` and `void` for Int, Bool,
/// String and Void; no other type is lowered.
pub open spec fn llvm_type(ty: IrType) -> Result<Seq<char>, Fault> {
    match ty {
        IrType::Int => Ok("i64"@),
        IrType::Bool => Ok("i1"@),
        IrType::String => Ok("ptr"@),
        IrType::Void => Ok("void"@),
        _ => Err(Fault::Unsupported(unsupported_type_message())),
    }
}

/// The LLVM type of `ty`.
pub fn llvm_ty(ty: &IrType) -> (r: Result<&'static str, CodegenError>)
    ensures
        match llvm_type(*ty) {
            Ok(t) => r matches Ok(s) && s@ == t,
            Err(f) => r matches Err(e) && e@ == f,
        },
{
    match ty {
        IrType::Int => Ok("i64"),
        IrType::Bool => Ok("i1"),
        IrType::String => Ok("ptr"),
        IrType::Void => Ok("void"),
        _ => Err(CodegenError::Unsupported("only Int/Bool/String/Void lowering is implemented")),
    }
}

} // verus!
