//! An interpreter for a small shape-based scripting language: values, a
//! runtime holding locals and objects, and an executor for resolved
//! expressions and statements, with its semantics stated as spec functions.
pub mod model;
pub mod value;
pub mod runtime;
pub mod semantics;
pub mod ops;
pub mod eval;
pub mod call;
pub mod exec;
pub mod executor;
pub mod intrinsic;
pub mod describe;
pub mod laws;
pub mod op_laws;
