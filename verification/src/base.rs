//! What the front-end and the virtual machine share: source-level types, the
//! syntax tree and the error list.

pub mod ast;
pub mod error;
pub mod table;
pub mod types;
