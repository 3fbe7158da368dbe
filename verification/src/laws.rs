//! What the library promises, said of what its functions return.
//!
//! Each law takes the arguments and the result of a call and says in plain terms
//! how they hang together: over the characters of a label or of a line of output,
//! over the numbers of a history, over which test stands in which group.

pub mod actions;
pub mod attempts;
pub mod batches;
pub mod command;
pub mod decode;
pub mod harness;
pub mod history;
pub mod labels;
pub mod plans;
pub mod records;
pub mod reports;
pub mod requests;
pub mod store;
pub mod texts;
pub mod verdicts;
