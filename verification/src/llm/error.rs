//! Failures of a completion.
use crate::text;
use crate::text::decimal_of;
use vstd::prelude::*;

verus! {

/// A transport failure: what went wrong, and at which stage.
#[derive(Debug)]
pub struct HttpFailure {
    pub message: String,
    pub timeout: bool,
    pub connect: bool,
    pub request: bool,
}

#[derive(Debug)]
pub enum LlmError {
    Http(HttpFailure),
    Api { status: u16, body: String },
    EmptyResponse,
    Serde(String),
    Structured(String),
}

#[verifier::ext_equal]
pub enum LlmErrorView {
    Http { message: Seq<char>, timeout: bool, connect: bool, request: bool },
    Api { status: u16, body: Seq<char> },
    EmptyResponse,
    Serde(Seq<char>),
    Structured(Seq<char>),
}

impl View for LlmError {
    type V = LlmErrorView;

    open spec fn view(&self) -> LlmErrorView {
        match self {
            LlmError::Http(f) => LlmErrorView::Http {
                message: f.message@,
                timeout: f.timeout,
                connect: f.connect,
                request: f.request,
            },
            LlmError::Api { status, body } => LlmErrorView::Api { status: *status, body: body@ },
            LlmError::EmptyResponse => LlmErrorView::EmptyResponse,
            LlmError::Serde(t) => LlmErrorView::Serde(t@),
            LlmError::Structured(t) => LlmErrorView::Structured(t@),
        }
    }
}

/// The message of an error.
pub open spec fn llm_error_text(e: LlmErrorView) -> Seq<char> {
    match e {
        LlmErrorView::Http { message, .. } => "HTTP error: "@ + message,
        LlmErrorView::Api { status, body } => "API error "@ + text::decimal(status as nat) + ": "@ + body,
        LlmErrorView::EmptyResponse => "Empty response from LLM"@,
        LlmErrorView::Serde(t) => "Serialization error: "@ + t,
        LlmErrorView::Structured(t) => "Structured output error: "@ + t,
    }
}

impl LlmError {
    /// The message of this error.
    pub fn to_text(&self) -> (r: String)
        ensures
            r@ == llm_error_text(self@),
    {
        match self {
            LlmError::Http(f) => {
                let mut out = "HTTP error: ".to_owned();
                out.push_str(f.message.as_str());
                out
            },
            LlmError::Api { status, body } => {
                let mut out = "API error ".to_owned();
                let n = decimal_of(*status as u64);
                out.push_str(n.as_str());
                out.push_str(": ");
                out.push_str(body.as_str());
                out
            },
            LlmError::EmptyResponse => "Empty response from LLM".to_owned(),
            LlmError::Serde(t) => {
                let mut out = "Serialization error: ".to_owned();
                out.push_str(t.as_str());
                out
            },
            LlmError::Structured(t) => {
                let mut out = "Structured output error: ".to_owned();
                out.push_str(t.as_str());
                out
            },
        }
    }
}

/// A reply of status `status` is a success exactly in the 2xx range; any other
/// is an API error that carries the status and the reply's body.
pub fn check_status(status: u16, body: String) -> (r: Result<String, LlmError>)
    ensures
        match r {
            Ok(b) => 200 <= status < 300 && b == body,
            Err(e) => !(200 <= status < 300) && e@ == (LlmErrorView::Api { status, body: body@ }),
        },
{
    if 200 <= status && status < 300 {
        Ok(body)
    } else {
        Err(LlmError::Api { status, body })
    }
}

/// An HTTP request: where to, with which headers, and the JSON body.
pub struct HttpRequest {
    pub url: String,
    pub headers: Vec<(String, String)>,
    pub body: crate::json::Json,
}

#[verifier::ext_equal]
pub struct RequestView {
    pub url: Seq<char>,
    pub headers: Seq<(Seq<char>, Seq<char>)>,
    pub body: crate::json::JsonView,
}

impl View for HttpRequest {
    type V = RequestView;

    open spec fn view(&self) -> RequestView {
        RequestView {
            url: self.url@,
            headers: self.headers@.map_values(|h: (String, String)| (h.0@, h.1@)),
            body: self.body@,
        }
    }
}

} // verus!
