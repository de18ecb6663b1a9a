//! Constant construction for a SPIR-V code generator: integer, float, bool and
//! composite constants, their interning in a module-wide table, and the
//! decoding of constant memory allocations into SPIR-V constants.
pub mod types;
pub mod memory;
pub mod cx;
pub mod abi;
pub mod constant;
pub mod layout;
pub mod decode;
pub mod const_alloc;
pub mod laws;
