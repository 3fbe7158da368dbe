//! The decisions of the scheduler: what is asked of the build tool for each
//! target, how the answers are folded into results, and what the results mean for
//! the run. The program around the library runs the actions and brings the answers
//! back.

pub mod action;
pub mod batches;
pub mod ci_report;
pub mod discover;
pub mod finish;
pub mod group;
pub mod install;
pub mod observe;
pub mod plan;
pub mod report;
