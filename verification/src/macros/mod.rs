//! The attribute macros: what they write for the code that they are put on.
pub mod attributes;
pub mod code;
pub mod module;
pub mod register;
pub mod runner;
pub mod syntax;
pub mod tokens;

pub use crate::macros::attributes::get_attr;
pub use crate::macros::module::{test_gateway, test_module};
pub use crate::macros::runner::main;
