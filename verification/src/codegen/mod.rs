//! Native code generation: LLVM text emission and the arguments of the link step.

use vstd::prelude::*;
use vstd::string::StringExecFns;

pub mod llvm;

verus! {

/// Why code generation failed.
#[derive(Debug, Clone, PartialEq, Eq)]
pub enum CodegenError {
    Unsupported(&'static str),
    MissingBlock(String),
    InvalidIr(String),
    Io(String),
    Tool(String),
}

/// A code generation failure, its message taken as text.
pub enum Fault {
    Unsupported(Seq<char>),
    MissingBlock(Seq<char>),
    InvalidIr(Seq<char>),
    Io(Seq<char>),
    Tool(Seq<char>),
}

impl View for CodegenError {
    type V = Fault;

    open spec fn view(&self) -> Fault {
        match self {
            CodegenError::Unsupported(m) => Fault::Unsupported(m@),
            CodegenError::MissingBlock(m) => Fault::MissingBlock(m@),
            CodegenError::InvalidIr(m) => Fault::InvalidIr(m@),
            CodegenError::Io(m) => Fault::Io(m@),
            CodegenError::Tool(m) => Fault::Tool(m@),
        }
    }
}

/// The text of a failure, as it is shown to users.
pub open spec fn fault_message(f: Fault) -> Seq<char> {
    match f {
        Fault::Unsupported(m) => "unsupported codegen shape: "@ + m,
        Fault::MissingBlock(m) => "missing basic block `"@ + m + "`"@,
        Fault::InvalidIr(m) => "invalid IR for codegen: "@ + m,
        Fault::Io(m) => "i/o failure during codegen: "@ + m,
        Fault::Tool(m) => "native toolchain failure: "@ + m,
    }
}

impl CodegenError {
    /// The text of the failure (see `fault_message`).
    pub fn message(&self) -> (r: String)
        ensures
            r@ == fault_message(self@),
    {
        match self {
            CodegenError::Unsupported(m) => {
                let mut s = String::from_str("unsupported codegen shape: ");
                s.append(m);
                s
            },
            CodegenError::MissingBlock(m) => {
                let mut s = String::from_str("missing basic block `");
                s.append(m.as_str());
                s.append("`");
                s
            },
            CodegenError::InvalidIr(m) => {
                let mut s = String::from_str("invalid IR for codegen: ");
                s.append(m.as_str());
                s
            },
            CodegenError::Io(m) => {
                let mut s = String::from_str("i/o failure during codegen: ");
                s.append(m.as_str());
                s
            },
            CodegenError::Tool(m) => {
                let mut s = String::from_str("native toolchain failure: ");
                s.append(m.as_str());
                s
            },
        }
    }
}

/// The arguments handed to `clang` to link an object file with the runtime
/// library into an executable, for a Windows or another host.
pub open spec fn link_args(object: Seq<char>, runtime: Seq<char>, output: Seq<char>, windows: bool) -> Seq<Seq<char>> {
    if windows {
        seq![object, "-Wl,--start-group"@, runtime, "-Wl,--end-group"@, "-o"@, output,
            "-lkernel32"@, "-lntdll"@, "-luserenv"@, "-lws2_32"@, "-ldbghelp"@]
    } else {
        seq![object, runtime, "-no-pie"@, "-o"@, output]
    }
}

/// The views of a sequence of strings.
pub open spec fn texts(v: Seq<String>) -> Seq<Seq<char>> {
    v.map_values(|s: String| s@)
}

/// The link arguments for a Windows host (`windows`) or another host: the
/// object first, the runtime library (grouped on Windows, followed by
/// `-no-pie` elsewhere), the output, and on Windows the system libraries
/// the runtime needs.
pub fn link_args_for_target(object: &str, runtime: &str, output: &str, windows: bool) -> (r: Vec<String>)
    ensures
        texts(r@) == link_args(object@, runtime@, output@, windows),
{
    let mut args: Vec<String> = Vec::new();
    args.push(object.to_string());
    if windows {
        args.push("-Wl,--start-group".to_string());
        args.push(runtime.to_string());
        args.push("-Wl,--end-group".to_string());
    } else {
        args.push(runtime.to_string());
        args.push("-no-pie".to_string());
    }
    args.push("-o".to_string());
    args.push(output.to_string());
    if windows {
        args.push("-lkernel32".to_string());
        args.push("-lntdll".to_string());
        args.push("-luserenv".to_string());
        args.push("-lws2_32".to_string());
        args.push("-ldbghelp".to_string());
    }
    assert(texts(args@) =~= link_args(object@, runtime@, output@, windows));
    args
}

/// `std::path::MAIN_SEPARATOR`: the separator of path components on the host.
/// Nothing is claimed of it.
#[verifier::external_body]
fn host_path_separator() -> char {
    std::path::MAIN_SEPARATOR
}

/// The link arguments for this host; a host whose path separator is `\` is
/// taken as Windows.
pub fn link_args_for_executable(object: &str, runtime: &str, output: &str) -> (r: Vec<String>)
    ensures
        texts(r@) == link_args(object@, runtime@, output@, false)
            || texts(r@) == link_args(object@, runtime@, output@, true),
{
    let windows = host_path_separator() == '\\';
    link_args_for_target(object, runtime, output, windows)
}

} // verus!
