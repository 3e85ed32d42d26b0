//! A backend that translates a small imperative IR over a byte-addressed
//! cell tape into x86-64 machine code, producing either a raw executable
//! instruction stream or a relocatable object artifact with a symbol
//! table and relocations.
//!
//! The instruction stream handed to the assembler is modeled as a
//! sequence of symbolic items; the translator is verified to emit
//! exactly the modeled sequence, and the object builder is verified to
//! turn the assembled result into the modeled artifact.

pub mod assembler;
pub mod compiler;
pub mod ir;
pub mod obj;
pub mod scope;
pub mod semantics;
