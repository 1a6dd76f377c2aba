//! A single notebook record kept in an account: it is initialized once, then read
//! or overwritten by its owner, within a content length limit.
pub mod codec;
pub mod error;
pub mod instruction;
pub mod laws;
pub mod processor;
pub mod state;

pub use crate::processor::Processor;
pub use crate::state::Notebook;
