//! Failures of an MCP client.
use crate::text;
use crate::text::signed_decimal_of;
use vstd::prelude::*;

verus! {

#[derive(Debug)]
pub enum McpError {
    Http(String),
    Json(String),
    Protocol { code: i64, message: String },
    Tool(String),
    NoResult,
    Transport(String),
}

pub enum McpErrorView {
    Http(Seq<char>),
    Json(Seq<char>),
    Protocol { code: i64, message: Seq<char> },
    Tool(Seq<char>),
    NoResult,
    Transport(Seq<char>),
}

impl View for McpError {
    type V = McpErrorView;

    open spec fn view(&self) -> McpErrorView {
        match self {
            McpError::Http(m) => McpErrorView::Http(m@),
            McpError::Json(m) => McpErrorView::Json(m@),
            McpError::Protocol { code, message } => McpErrorView::Protocol {
                code: *code,
                message: message@,
            },
            McpError::Tool(m) => McpErrorView::Tool(m@),
            McpError::NoResult => McpErrorView::NoResult,
            McpError::Transport(m) => McpErrorView::Transport(m@),
        }
    }
}

/// The message of an error.
pub open spec fn mcp_error_text(e: McpErrorView) -> Seq<char> {
    match e {
        McpErrorView::Http(m) => "HTTP error: "@ + m,
        McpErrorView::Json(m) => "JSON error: "@ + m,
        McpErrorView::Protocol { code, message } => "MCP protocol error (code="@ + text::signed_decimal(
            code as int,
        ) + "): "@ + message,
        McpErrorView::Tool(m) => "tool execution error: "@ + m,
        McpErrorView::NoResult => "no result returned by tool"@,
        McpErrorView::Transport(m) => "transport error: "@ + m,
    }
}

fn prefixed(prefix: &str, m: &str) -> (r: String)
    ensures
        r@ == prefix@ + m@,
{
    let mut out = prefix.to_owned();
    out.push_str(m);
    out
}

impl McpError {
    /// The message of this error.
    pub fn to_text(&self) -> (r: String)
        ensures
            r@ == mcp_error_text(self@),
    {
        match self {
            McpError::Http(m) => prefixed("HTTP error: ", m.as_str()),
            McpError::Json(m) => prefixed("JSON error: ", m.as_str()),
            McpError::Protocol { code, message } => {
                let mut out = "MCP protocol error (code=".to_owned();
                let n = signed_decimal_of(*code);
                out.push_str(n.as_str());
                out.push_str("): ");
                out.push_str(message.as_str());
                out
            },
            McpError::Tool(m) => prefixed("tool execution error: ", m.as_str()),
            McpError::NoResult => "no result returned by tool".to_owned(),
            McpError::Transport(m) => prefixed("transport error: ", m.as_str()),
        }
    }
}

} // verus!
