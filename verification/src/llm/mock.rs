//! A deterministic model for tests.
use crate::text;
use crate::llm::types::{LlmResponse, ResponseView};
use vstd::prelude::*;

verus! {

/// Hands out its responses one after another, and repeats the last one from then
/// on.
pub struct MockLlmProvider {
    pub responses: Vec<LlmResponse>,
    pub index: usize,
}

/// A plain text response.
pub open spec fn plain_response(text: Seq<char>) -> ResponseView {
    ResponseView {
        content: Some(text),
        reasoning_content: None,
        tool_calls: Seq::empty(),
        finish_reason: "stop"@,
        input_tokens: None,
        output_tokens: None,
        cached_input_tokens: None,
        provider_extra: None,
    }
}

fn plain(text: &str) -> (r: LlmResponse)
    ensures
        r@ == plain_response(text@),
{
    let r = LlmResponse {
        content: Some(text.to_owned()),
        reasoning_content: None,
        tool_calls: Vec::new(),
        finish_reason: "stop".to_owned(),
        input_tokens: None,
        output_tokens: None,
        cached_input_tokens: None,
        provider_extra: None,
    };
    assert(r@.tool_calls =~= Seq::empty());
    r
}

impl MockLlmProvider {
    /// Whether the index points at a response, if there is any.
    pub open spec fn wf(self) -> bool {
        self.responses@.len() == 0 || self.index < self.responses@.len()
    }

    pub fn new(responses: Vec<LlmResponse>) -> (r: MockLlmProvider)
        ensures
            r.wf(),
            r.responses == responses,
            r.index == 0,
    {
        MockLlmProvider { responses, index: 0 }
    }

    /// Plain text responses.
    pub fn with_texts(texts: &Vec<String>) -> (r: MockLlmProvider)
        ensures
            r.wf(),
            r.index == 0,
            text::views(r.responses@) == text::views(texts@).map_values(|t: Seq<char>| plain_response(t)),
    {
        let ghost all = text::views(texts@).map_values(|t: Seq<char>| plain_response(t));
        let mut out: Vec<LlmResponse> = Vec::new();
        let mut i: usize = 0;
        assert(text::views(out@) =~= all.take(0));
        while i < texts.len()
            invariant
                i <= texts@.len(),
                all == text::views(texts@).map_values(|t: Seq<char>| plain_response(t)),
                text::views(out@) == all.take(i as int),
            decreases texts@.len() - i,
        {
            let ghost before = text::views(out@);
            let r = plain(texts[i].as_str());
            out.push(r);
            proof {
                crate::seqs::lemma_take_push(all, i as int);
                assert(text::views(out@) =~= before.push(r@));
                assert(all[i as int] == r@);
            }
            i += 1;
        }
        assert(all.take(i as int) =~= all);
        MockLlmProvider::new(out)
    }

    /// The next response.
    pub fn complete(&mut self) -> (r: LlmResponse)
        requires
            old(self).wf(),
        ensures
            final(self).wf(),
            final(self).responses == old(self).responses,
            r@ == (if old(self).responses@.len() == 0 {
                plain_response("(mock empty response)"@)
            } else {
                old(self).responses@[old(self).index as int]@
            }),
            final(self).index == (if old(self).index + 1 < old(self).responses@.len() {
                old(self).index + 1
            } else {
                old(self).index as int
            }),
    {
        if self.responses.len() == 0 {
            return plain("(mock empty response)");
        }
        let response = self.responses[self.index].clone();
        if self.index < self.responses.len() - 1 {
            self.index = self.index + 1;
        }
        response
    }

    pub fn model(&self) -> (r: &'static str)
        ensures
            r@ == "mock"@,
    {
        "mock"
    }
}

} // verus!
