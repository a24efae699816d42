//! Agents: how a cycle of reasoning runs.
pub mod budget;
pub mod context;
pub mod context_edit;
pub mod cycle;
pub mod hook;
pub mod multi;
pub mod permission;
pub mod project;
pub mod prompts;
pub mod recovery;
pub mod session;
pub mod skills;
pub mod speculate;
pub mod strategy;
pub mod stuck;
pub mod summarizing;
pub mod tokens;
pub mod tool;
pub mod web;
pub mod worker;
