//! LLVM text emission for IR programs.

pub mod calls;
pub mod compare;
pub mod context;
pub mod instr_core;
pub mod instr_runtime;
pub mod runtime;
pub mod runtime_boxing;
pub mod runtime_decls;
pub mod strings;
pub mod type_text;
pub mod types;
pub mod value;
