//! A decompiler for JVM class binaries: the pipeline lifts a linear,
//! stack-based instruction stream into a structured tree of statements
//! and expressions.
//!
//! The stages run strictly in order: read the class binary
//! ([`classfile`]), resolve its constant pool and disassemble each
//! method ([`transform`], [`disassembler`]), split the instructions
//! into a control-flow graph ([`cfg`]), name the operand-stack slots
//! ([`stack_to_var`]), inline single-use assignments ([`var_prop`]),
//! recover constructors ([`constructors`]), and rebuild structured
//! control flow ([`structure`]).  [`decompile`] drives them all.
pub mod ast;
pub mod cfg;
pub mod classfile;
pub mod constructors;
pub mod decompile;
pub mod disassembler;
pub mod errors;
pub mod graph_algo;
pub mod instructions;
pub mod stack_to_var;
pub mod structure;
pub mod transform;
pub mod unit;
pub mod var_prop;
