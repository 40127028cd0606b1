//! Verified building blocks of an agent runtime.

pub mod agent;
pub mod drivers;
pub mod evals;
pub mod filesystem;
pub mod hooks;
pub mod in_process;
pub mod json;
pub mod jsonl_log;
pub mod mcp;
pub mod members;
pub mod message;
pub mod session;
pub mod text;
pub mod text_facts;
