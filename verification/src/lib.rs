//! Runtime core of a small functional-language virtual machine.
//!
//! - [`gc`]: a precise mark-and-sweep heap, parameterised over the payload it
//!   stores.
//! - [`verify`]: the bytecode verifier, which interprets a compiled function
//!   over abstract stack types before it may run.
//! - [`def_macro`]: the macro expansion hook, through which code that the
//!   machine itself runs rewrites the syntax tree of the program that defines
//!   it.
//! - [`vm`]: the state that these share: the heap, the globals, the macros and
//!   the registered types.
//! - [`base`] and [`types`]: source-level types, the syntax tree, the error
//!   list and the instructions.

pub mod base;
pub mod def_macro;
pub mod gc;
pub mod types;
pub mod verify;
pub mod vm;
