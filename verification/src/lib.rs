//! `quokka`: the decision core of an external test runner.
//!
//! The crate holds what the runner computes: how test labels become policy, how
//! tests are batched and sharded, how requests are built and test output is
//! decoded, how attempts are folded into verdicts, and how timing history is
//! stored. Everything that performs I/O lives in the program around it.

pub mod batching;
pub mod caching;
pub mod cli;
pub mod config;
pub mod db_cli;
pub mod db_codec;
pub mod db_laws;
pub mod duration_db;
pub mod environment;
pub mod execution;
pub mod executor_server;
mod fx;
pub mod ids;
pub mod json;
pub mod laws;
pub mod listing;
pub mod listing_laws;
pub mod names;
pub mod num;
pub mod options;
pub mod order;
pub mod policy;
pub mod proto;
pub mod result;
pub mod scheduler;
pub mod spec;
pub mod text;
pub mod time;
pub mod translator;
pub mod variant;
