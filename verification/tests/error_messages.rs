use lib::codegen::CodegenError;
use lib::ir::interp::IrInterpError;
use lib::ir::pretty::PrettyIr;
use lib::ir::{BlockId, FunctionId, IrProgram, ModuleInit};

#[test]
fn codegen_error_messages_name_the_failure() {
    assert_eq!(CodegenError::Unsupported("vectors").message(), "unsupported codegen shape: vectors");
    assert_eq!(CodegenError::MissingBlock("exit".to_string()).message(), "missing basic block `exit`");
    assert_eq!(CodegenError::InvalidIr("bad temp".to_string()).message(), "invalid IR for codegen: bad temp");
    assert_eq!(CodegenError::Io("disk full".to_string()).message(), "i/o failure during codegen: disk full");
    assert_eq!(CodegenError::Tool("clang failed".to_string()).message(), "native toolchain failure: clang failed");
}

#[test]
fn interpreter_error_messages_show_ids_in_debug_form() {
    assert_eq!(IrInterpError::MissingMain.message(), "IR program has no main function");
    assert_eq!(IrInterpError::MissingFunction(FunctionId(7)).message(), "IR program is missing function FunctionId(7)");
    assert_eq!(IrInterpError::MissingBlock(BlockId(12)).message(), "IR function is missing block BlockId(12)");
    assert_eq!(
        IrInterpError::UnsupportedBuiltin("net.open".to_string()).message(),
        "IR interpreter does not support builtin `net.open`"
    );
    assert_eq!(IrInterpError::TypeMismatch("int vs bool").message(), "IR type mismatch: int vs bool");
    assert_eq!(IrInterpError::DivisionByZero.message(), "IR division by zero");
    assert_eq!(IrInterpError::InvalidOperand("no such temp").message(), "IR invalid operand: no such temp");
    assert_eq!(IrInterpError::InvalidField("x".to_string()).message(), "IR invalid field `x`");
    assert_eq!(IrInterpError::IndexOutOfBounds.message(), "IR index out of bounds");
}

#[test]
fn pretty_printer_holds_the_program_it_was_given() {
    let program = IrProgram {
        functions: vec![],
        globals: vec![],
        structs: vec![],
        module_init: None::<ModuleInit>,
    };
    let pretty = PrettyIr::new(&program);
    assert!(std::ptr::eq(pretty.program, &program));
    assert!(pretty.program.functions.is_empty());
}
