//! What the operations of the library are for, stated over what goes in and what
//! comes out.
pub mod anthropic;
pub mod clearing;
pub mod compaction;
pub mod context;
pub mod extensions;
pub mod log;
pub mod network;
pub mod openai;
pub mod policy;
pub mod prompting;
pub mod recovery;
pub mod responses;
pub mod speculation;
pub mod streams;
pub mod texts;
pub mod tools;
pub mod values;
pub mod web;
