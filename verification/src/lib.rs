//! A single-pass compiler and stack-based bytecode virtual machine for a
//! small expression language: source text is scanned into tokens, compiled
//! by a Pratt (operator-precedence) parser directly into a flat bytecode
//! chunk, and executed by a stack interpreter.
//!
//! Runtime values are double-precision numbers. The library itself never
//! computes on floating point: a runtime [`machine::Value`] is the value's
//! 64-bit pattern, numeric literals travel through the pipeline as their
//! exact source spelling ([`op_code::Numeral`]), and the virtual machine
//! hands each arithmetic operation to its driver as an explicit request
//! (see [`machine::StepEvent`]). Everything else — scanning, parsing,
//! code generation, the chunk format, and the stack discipline of the
//! interpreter — is verified here.

pub mod compiler;
pub mod machine;
pub mod op_code;
pub mod token;
