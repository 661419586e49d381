//! A compiler library for the Skepa language: IR, its optimizer and verifier,
//! LLVM text emission, bytecode encoding, and module resolution.

#![allow(unused_imports)]

pub mod bytecode;
pub mod codegen;
pub mod ir;
pub mod resolver;
pub mod sema;
pub mod text;
