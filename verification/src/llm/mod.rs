//! Model requests and replies.
pub mod anthropic;
pub mod anthropic_stream;
pub mod content;
pub mod error;
pub mod mock;
pub mod openai;
pub mod qwen;
pub mod rate_limit;
pub mod responses;
pub mod retry;
pub mod sse;
pub mod structured;
pub mod types;
pub mod wire;
