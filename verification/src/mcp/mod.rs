//! Tools of MCP (Model Context Protocol) servers.
pub mod client;
pub mod error;
pub mod tool;
