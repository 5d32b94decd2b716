//! What the operations of the crate are for: what holds of their results over
//! all inputs, said in terms of the texts, tokens and messages themselves.
pub mod messages;
pub mod modules;
pub mod queries;
pub mod runs;
pub mod sessions;
pub mod setups;
pub mod talks;
pub mod texts;
