//! Streamed replies of the Anthropic Messages API.
use crate::text;
use crate::llm::wire;
use crate::llm::sse;
use crate::llm::anthropic;
use crate::json;
use super::anthropic::response_from_blocks;
use super::sse::{lossy_string, sse_data, LineBuffer};
use super::types::{DeltaView, LlmResponse, ResponseView, StreamDelta};
use super::wire::{append_str, copy_or_object, has_type, read_count};
use crate::json::{Json, JsonMap, JsonView};
use vstd::prelude::*;

verus! {

/// What a streamed reply has brought so far: the content blocks, the pieces of
/// each block's tool input, and the counts.
#[verifier::ext_equal]
pub struct ReplyView {
    pub blocks: Seq<JsonView>,
    pub tool_json: Seq<Seq<char>>,
    pub stop_reason: Option<Seq<char>>,
    pub input_tokens: Option<u32>,
    pub output_tokens: Option<u32>,
    pub cached_input_tokens: Option<u32>,
}

/// `s`, made at least `n` long with copies of `x`.
pub open spec fn padded<A>(s: Seq<A>, n: nat, x: A) -> Seq<A> {
    if s.len() >= n {
        s
    } else {
        s + Seq::new((n - s.len()) as nat, |i: int| x)
    }
}

/// The place of the block that an event speaks of.
pub open spec fn event_index(ev: JsonView) -> usize {
    match ev.u64_at("index"@) {
        Some(n) => n as usize,
        None => 0,
    }
}

pub open spec fn text_delta(t: Seq<char>) -> DeltaView {
    DeltaView { content: Some(t), reasoning_content: None }
}

pub open spec fn reasoning_delta(t: Seq<char>) -> DeltaView {
    DeltaView { content: None, reasoning_content: Some(t) }
}

/// A delta event changes one block: text, thinking and signature pieces are
/// appended to it, pieces of tool input are collected beside it.
pub open spec fn after_delta(st: ReplyView, i: int, delta: JsonView) -> (ReplyView, Seq<DeltaView>) {
    if wire::is_type(delta, "text_delta"@) {
        match delta.text_at("text"@) {
            Some(t) => (
                ReplyView { blocks: st.blocks.update(i, wire::appended(st.blocks[i], "text"@, t)), ..st },
                seq![text_delta(t)],
            ),
            None => (st, Seq::empty()),
        }
    } else if wire::is_type(delta, "thinking_delta"@) {
        match delta.text_at("thinking"@) {
            Some(t) => (
                ReplyView {
                    blocks: st.blocks.update(i, wire::appended(st.blocks[i], "thinking"@, t)),
                    ..st
                },
                seq![reasoning_delta(t)],
            ),
            None => (st, Seq::empty()),
        }
    } else if wire::is_type(delta, "signature_delta"@) {
        match delta.text_at("signature"@) {
            Some(t) => (
                ReplyView {
                    blocks: st.blocks.update(i, wire::appended(st.blocks[i], "signature"@, t)),
                    ..st
                },
                Seq::empty(),
            ),
            None => (st, Seq::empty()),
        }
    } else if wire::is_type(delta, "input_json_delta"@) {
        match delta.text_at("partial_json"@) {
            Some(t) => (
                ReplyView { tool_json: st.tool_json.update(i, st.tool_json[i] + t), ..st },
                Seq::empty(),
            ),
            None => (st, Seq::empty()),
        }
    } else {
        (st, Seq::empty())
    }
}

/// The field `inner` of the object field `outer`.
pub open spec fn nested(j: JsonView, outer: Seq<char>, inner: Seq<char>) -> Option<JsonView> {
    match j.get(outer) {
        Some(o) => o.get(inner),
        None => None,
    }
}

/// What one event does.
pub open spec fn after_event(st: ReplyView, ev: JsonView) -> (ReplyView, Seq<DeltaView>) {
    if wire::is_type(ev, "message_start"@) {
        let usage = nested(ev, "message"@, "usage"@);
        (
            ReplyView {
                input_tokens: wire::count_at(usage, "input_tokens"@),
                cached_input_tokens: wire::count_at(usage, "cache_read_input_tokens"@),
                ..st
            },
            Seq::empty(),
        )
    } else if wire::is_type(ev, "content_block_start"@) {
        let i = event_index(ev);
        (
            ReplyView {
                blocks: padded(
                    st.blocks,
                    (i + 1) as nat,
                    JsonView::Object(Map::empty()),
                ).update(i as int, wire::or_object(ev.get("content_block"@))),
                tool_json: padded(st.tool_json, (i + 1) as nat, Seq::empty()),
                ..st
            },
            Seq::empty(),
        )
    } else if wire::is_type(ev, "content_block_delta"@) {
        let i = event_index(ev);
        match ev.get("delta"@) {
            Some(d) => if i < st.blocks.len() {
                after_delta(st, i as int, d)
            } else {
                (st, Seq::empty())
            },
            None => (st, Seq::empty()),
        }
    } else if wire::is_type(ev, "message_delta"@) {
        (
            ReplyView {
                stop_reason: match nested(ev, "delta"@, "stop_reason"@) {
                    Some(JsonView::Text(t)) => Some(t),
                    _ => st.stop_reason,
                },
                output_tokens: match wire::count_at(ev.get("usage"@), "output_tokens"@) {
                    Some(n) => Some(n),
                    None => st.output_tokens,
                },
                ..st
            },
            Seq::empty(),
        )
    } else {
        (st, Seq::empty())
    }
}

/// What one line does: a `data:` line with a JSON document is an event, and
/// every other line is skipped.
pub open spec fn after_line(st: ReplyView, line: Seq<char>) -> (ReplyView, Seq<DeltaView>) {
    match sse::data_of(line) {
        Some(data) => match json::parsed_json(data) {
            Ok(ev) => after_event(st, ev),
            Err(_) => (st, Seq::empty()),
        },
        None => (st, Seq::empty()),
    }
}

/// What a list of lines does.
pub open spec fn after_lines(st: ReplyView, lines: Seq<Seq<char>>) -> (ReplyView, Seq<DeltaView>) {
    sse::run_lines(|s: ReplyView, l: Seq<char>| after_line(s, l), st, lines)
}

/// A block with its tool input, given what the collected text reads as; text that is
/// no JSON document is dropped.
pub open spec fn with_parsed(block: JsonView, parsed: Result<JsonView, Seq<char>>) -> JsonView {
    match block {
        JsonView::Object(m) => match parsed {
            Ok(j) => JsonView::Object(m.insert("input"@, j)),
            Err(_) => block,
        },
        _ => block,
    }
}

/// A block with its collected tool input, if there is any.
pub open spec fn with_input(block: JsonView, input: Seq<char>) -> JsonView {
    if input.len() > 0 {
        with_parsed(block, json::parsed_json(input))
    } else {
        block
    }
}

/// A block with its tool input, given what the collected text reads as.
pub fn parsed_block(block: Json, parsed: Result<Json, String>) -> (r: Json)
    ensures
        r@ == with_parsed(block@, json::read_view(parsed)),
{
    let mut out = block;
    if let Ok(input) = parsed {
        if let Json::Object(m) = &mut out {
            m.put("input", input);
        }
    }
    out
}

/// The reply that a finished stream makes.
pub open spec fn stream_reply(st: ReplyView) -> ResponseView {
    anthropic::reply(
        Seq::new(st.blocks.len(), |i: int| with_input(st.blocks[i], st.tool_json[i])),
        st.stop_reason,
        st.input_tokens,
        st.output_tokens,
        st.cached_input_tokens,
    )
}

/// Reads a streamed reply.
pub struct AnthropicStream {
    pub lines: LineBuffer,
    pub blocks: Vec<Json>,
    pub tool_json: Vec<String>,
    pub stop_reason: Option<String>,
    pub input_tokens: Option<u32>,
    pub output_tokens: Option<u32>,
    pub cached_input_tokens: Option<u32>,
}

impl View for AnthropicStream {
    type V = ReplyView;

    open spec fn view(&self) -> ReplyView {
        ReplyView {
            blocks: json::items_view(self.blocks@),
            tool_json: text::views(self.tool_json@),
            stop_reason: json::opt_text(self.stop_reason),
            input_tokens: self.input_tokens,
            output_tokens: self.output_tokens,
            cached_input_tokens: self.cached_input_tokens,
        }
    }
}

fn nested_field<'a>(j: &'a Json, outer: &str, inner: &str) -> (r: Option<&'a Json>)
    ensures
        wire::opt_ref(r) == nested(j@, outer@, inner@),
{
    match j.get(outer) {
        Some(o) => o.get(inner),
        None => None,
    }
}

impl AnthropicStream {
    /// Every block has its collected tool input.
    pub open spec fn wf(self) -> bool {
        self.blocks@.len() == self.tool_json@.len()
    }

    pub fn new() -> (r: AnthropicStream)
        ensures
            r.wf(),
            r.lines.pending@ == Seq::<char>::empty(),
            r@ == (ReplyView {
                blocks: Seq::empty(),
                tool_json: Seq::empty(),
                stop_reason: None,
                input_tokens: None,
                output_tokens: None,
                cached_input_tokens: None,
            }),
    {
        let r = AnthropicStream {
            lines: LineBuffer::new(),
            blocks: Vec::new(),
            tool_json: Vec::new(),
            stop_reason: None,
            input_tokens: None,
            output_tokens: None,
            cached_input_tokens: None,
        };
        assert(r@.blocks =~= Seq::empty());
        assert(r@.tool_json =~= Seq::empty());
        r
    }

    fn append_to(&mut self, i: usize, key: &str, text: &str)
        requires
            old(self).wf(),
            i < old(self).blocks@.len(),
        ensures
            final(self).wf(),
            final(self).lines == old(self).lines,
            final(self)@ == (ReplyView {
                blocks: old(self)@.blocks.update(
                    i as int,
                    wire::appended(old(self)@.blocks[i as int], key@, text@),
                ),
                ..old(self)@
            }),
    {
        let mut block = Json::Null;
        proof {
            json::lemma_items_view(self.blocks@);
        }
        std::mem::swap(&mut block, &mut self.blocks[i]);
        append_str(&mut block, key, text);
        proof {
            wire::lemma_items_update(old(self).blocks@, i as int, block);
        }
        let ghost mid = self.blocks@;
        self.blocks.set(i, block);
        proof {
            assert(self.blocks@ =~= old(self).blocks@.update(i as int, block));
        }
    }

    fn delta_event(&mut self, i: usize, delta: &Json) -> (r: Vec<StreamDelta>)
        requires
            old(self).wf(),
            i < old(self).blocks@.len(),
        ensures
            final(self).wf(),
            final(self).lines == old(self).lines,
            (final(self)@, text::views(r@)) == after_delta(old(self)@, i as int, delta@),
    {
        let mut out: Vec<StreamDelta> = Vec::new();
        assert(text::views(out@) =~= Seq::empty());
        if has_type(delta, "text_delta") {
            if let Some(t) = delta.text_at("text") {
                self.append_to(i, "text", t);
                out.push(StreamDelta { content: Some(t.to_owned()), reasoning_content: None });
                assert(text::views(out@) =~= seq![text_delta(t@)]);
            }
        } else if has_type(delta, "thinking_delta") {
            if let Some(t) = delta.text_at("thinking") {
                self.append_to(i, "thinking", t);
                out.push(StreamDelta { content: None, reasoning_content: Some(t.to_owned()) });
                assert(text::views(out@) =~= seq![reasoning_delta(t@)]);
            }
        } else if has_type(delta, "signature_delta") {
            if let Some(t) = delta.text_at("signature") {
                self.append_to(i, "signature", t);
            }
        } else if has_type(delta, "input_json_delta") {
            if let Some(t) = delta.text_at("partial_json") {
                let mut piece = self.tool_json[i].clone();
                piece.push_str(t);
                self.tool_json.set(i, piece);
                assert(self@.tool_json =~= old(self)@.tool_json.update(
                    i as int,
                    old(self)@.tool_json[i as int] + t@,
                ));
            }
        }
        out
    }

    /// Takes in one event and gives out the deltas that it brings.
    pub fn event(&mut self, ev: &Json) -> (r: Vec<StreamDelta>)
        requires
            old(self).wf(),
        ensures
            final(self).wf(),
            final(self).lines == old(self).lines,
            (final(self)@, text::views(r@)) == after_event(old(self)@, ev@),
    {
        let none: Vec<StreamDelta> = Vec::new();
        assert(text::views(none@) =~= Seq::empty());
        proof {
            json::lemma_items_view(self.blocks@);
        }
        let index: usize = match ev.u64_at("index") {
            Some(n) => #[verifier::truncate] (n as usize),
            None => 0,
        };
        if has_type(ev, "message_start") {
            let usage = nested_field(ev, "message", "usage");
            self.input_tokens = read_count(usage, "input_tokens");
            self.cached_input_tokens = read_count(usage, "cache_read_input_tokens");
        } else if has_type(ev, "content_block_start") {
            let block = copy_or_object(ev.get("content_block"));
            let ghost empty = JsonView::Object(Map::empty());
            let ghost n = (index + 1) as nat;
            while self.blocks.len() <= index
                invariant
                    self.blocks@.len() == self.tool_json@.len(),
                    json::items_view(self.blocks@).len() == self.blocks@.len(),
                    self.lines == old(self).lines,
                    self.stop_reason == old(self).stop_reason,
                    self.input_tokens == old(self).input_tokens,
                    self.output_tokens == old(self).output_tokens,
                    self.cached_input_tokens == old(self).cached_input_tokens,
                    empty == JsonView::Object(Map::empty()),
                    n == index + 1,
                    padded(self@.blocks, n, empty) == padded(old(self)@.blocks, n, empty),
                    padded(self@.tool_json, n, Seq::empty()) == padded(
                        old(self)@.tool_json,
                        n,
                        Seq::empty(),
                    ),
                decreases n - self.blocks@.len(),
            {
                let filler = Json::Object(JsonMap::new());
                let ghost b0 = self@.blocks;
                let ghost t0 = self@.tool_json;
                proof {
                    wire::lemma_items_push(self.blocks@, filler);
                }
                self.blocks.push(filler);
                self.tool_json.push(String::new());
                proof {
                    assert(self@.blocks == b0.push(empty));
                    assert(self@.tool_json =~= t0.push(Seq::empty()));
                    assert(padded(b0.push(empty), n, empty) =~= padded(b0, n, empty));
                    assert(padded(t0.push(Seq::empty()), n, Seq::empty()) =~= padded(
                        t0,
                        n,
                        Seq::empty(),
                    ));
                }
            }
            proof {
                wire::lemma_items_update(self.blocks@, index as int, block);
            }
            self.blocks.set(index, block);
        } else if has_type(ev, "content_block_delta") {
            if let Some(d) = ev.get("delta") {
                if index < self.blocks.len() {
                    return self.delta_event(index, d);
                }
            }
        } else if has_type(ev, "message_delta") {
            if let Some(reason) = nested_field(ev, "delta", "stop_reason") {
                if let Some(t) = reason.as_str() {
                    self.stop_reason = Some(t.to_owned());
                }
            }
            if let Some(n) = read_count(ev.get("usage"), "output_tokens") {
                self.output_tokens = Some(n);
            }
        }
        none
    }

    fn line(&mut self, line: &str) -> (r: Vec<StreamDelta>)
        requires
            old(self).wf(),
        ensures
            final(self).wf(),
            final(self).lines == old(self).lines,
            (final(self)@, text::views(r@)) == after_line(old(self)@, line@),
    {
        let none: Vec<StreamDelta> = Vec::new();
        assert(text::views(none@) =~= Seq::empty());
        match sse_data(line) {
            Some(data) => match Json::parse(data.as_str()) {
                Ok(ev) => self.event(&ev),
                Err(_) => none,
            },
            None => none,
        }
    }

    /// Reads a piece of the stream and gives out the deltas that it brings.
    pub fn feed(&mut self, bytes: &Vec<u8>) -> (r: Vec<StreamDelta>)
        requires
            old(self).wf(),
        ensures
            final(self).wf(),
            final(self).lines.pending@ == sse::unfinished(
                old(self).lines.pending@ + sse::lossy_text(bytes@),
            ),
            (final(self)@, text::views(r@)) == after_lines(
                old(self)@,
                sse::finished(old(self).lines.pending@ + sse::lossy_text(bytes@)),
            ),
    {
        let piece = lossy_string(bytes);
        self.feed_text(piece.as_str())
    }

    /// Reads a piece of the stream's text and gives out the deltas that it brings.
    pub fn feed_text(&mut self, piece: &str) -> (r: Vec<StreamDelta>)
        requires
            old(self).wf(),
        ensures
            final(self).wf(),
            final(self).lines.pending@ == sse::unfinished(
                old(self).lines.pending@ + piece@,
            ),
            (final(self)@, text::views(r@)) == after_lines(
                old(self)@,
                sse::finished(old(self).lines.pending@ + piece@),
            ),
    {
        let lines = self.lines.feed(piece);
        let mut out: Vec<StreamDelta> = Vec::new();
        let ghost ls = text::views(lines@);
        let ghost step = |s: ReplyView, l: Seq<char>| after_line(s, l);
        let ghost pending = self.lines;
        assert(text::views(out@) =~= Seq::empty());
        let mut i: usize = 0;
        while i < lines.len()
            invariant
                i <= lines@.len(),
                ls == text::views(lines@),
                step == (|s: ReplyView, l: Seq<char>| after_line(s, l)),
                self.wf(),
                self.lines == pending,
                (self@, text::views(out@)) == sse::run_lines(step, old(self)@, ls.take(i as int)),
            decreases lines@.len() - i,
        {
            proof {
                assert(ls.take(i + 1).drop_last() =~= ls.take(i as int));
            }
            let ghost before = text::views(out@);
            let mut deltas = self.line(lines[i].as_str());
            let ghost more = text::views(deltas@);
            out.append(&mut deltas);
            assert(text::views(out@) =~= before + more);
            i += 1;
        }
        assert(ls.take(i as int) =~= ls);
        out
    }

    /// The reply that the stream made.
    pub fn finish(&self) -> (r: LlmResponse)
        requires
            self.wf(),
        ensures
            r@ == stream_reply(self@),
    {
        let ghost full = Seq::new(
            self@.blocks.len(),
            |i: int| with_input(self@.blocks[i], self@.tool_json[i]),
        );
        proof {
            json::lemma_items_view(self.blocks@);
        }
        let mut blocks: Vec<Json> = Vec::new();
        let mut i: usize = 0;
        assert(json::items_view(blocks@) =~= full.take(0));
        while i < self.blocks.len()
            invariant
                i <= self.blocks@.len(),
                self.wf(),
                full == Seq::new(
                    self@.blocks.len(),
                    |i: int| with_input(self@.blocks[i], self@.tool_json[i]),
                ),
                full.len() == self.blocks@.len(),
                json::items_view(blocks@) == full.take(i as int),
            decreases self.blocks@.len() - i,
        {
            proof {
                json::lemma_items_view(self.blocks@);
                assert(self@.blocks[i as int] == self.blocks@[i as int]@);
                assert(self@.tool_json[i as int] == self.tool_json@[i as int]@);
            }
            let mut block = self.blocks[i].clone();
            if !self.tool_json[i].as_str().is_empty() {
                block = parsed_block(block, Json::parse(self.tool_json[i].as_str()));
            }
            proof {
                assert(block@ == with_input(self@.blocks[i as int], self@.tool_json[i as int]));
                wire::lemma_items_push(blocks@, block);
                assert(full.take(i + 1) =~= full.take(i as int).push(full[i as int]));
            }
            blocks.push(block);
            i += 1;
        }
        assert(full.take(i as int) =~= full);
        let stop_reason = match &self.stop_reason {
            Some(t) => Some(t.clone()),
            None => None,
        };
        response_from_blocks(
            &blocks,
            stop_reason,
            self.input_tokens,
            self.output_tokens,
            self.cached_input_tokens,
        )
    }
}

} // verus!
