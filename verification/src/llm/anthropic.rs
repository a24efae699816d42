//! The Anthropic Messages API: requests and replies.
use crate::text;
use crate::seqs;
use crate::llm::wire;
use crate::llm::types;
use crate::llm::content;
use crate::json;
use super::content::{text_block_json, ContentPart, PartView};
use super::wire::{has_type, named_text, one_block, opt_or_empty, read_count, text_or_empty};
use super::types::{
    non_empty_text, ChatMessage, FunctionCall, LlmResponse, MessageView, ResponseView, Role,
    ToolCall, ToolCallView, ToolDefView, ToolDefinition,
};
use super::error::{HttpRequest, LlmError, LlmErrorView, RequestView};
use super::wire::text_array_json;
use crate::json::{Json, JsonMap, JsonView};
use crate::text::join_strs;
use vstd::prelude::*;

verus! {

/// One turn of a conversation: who speaks, and the content blocks.
pub struct Turn {
    pub user: bool,
    pub blocks: Vec<Json>,
}

#[verifier::ext_equal]
pub struct TurnView {
    pub user: bool,
    pub blocks: Seq<JsonView>,
}

impl View for Turn {
    type V = TurnView;

    open spec fn view(&self) -> TurnView {
        TurnView { user: self.user, blocks: json::items_view(self.blocks@) }
    }
}

/// Adds blocks to the last turn when the same side speaks, else as a new turn.
pub open spec fn push_turn(turns: Seq<TurnView>, user: bool, blocks: Seq<JsonView>) -> Seq<TurnView> {
    if blocks.len() == 0 {
        turns
    } else if turns.len() > 0 && turns.last().user == user {
        turns.drop_last().push(TurnView { user, blocks: turns.last().blocks + blocks })
    } else {
        turns.push(TurnView { user, blocks })
    }
}

/// Whether place `i` holds the first text part.
pub open spec fn first_text(parts: Seq<PartView>, i: int) -> bool {
    &&& 0 <= i < parts.len()
    &&& parts[i] is Text
    &&& forall|j: int| 0 <= j < i ==> !(#[trigger] parts[j] is Text)
}

/// The blocks of a user message: one per part, with the sender's name before
/// the first text, or one text block for a message without images.
pub open spec fn user_blocks(m: MessageView) -> Seq<JsonView> {
    if types::multimodal(m) {
        Seq::new(
            m.parts.len(),
            |i: int|
                if first_text(m.parts, i) {
                    content::text_block("text"@, wire::named(m.name, m.parts[i]->text))
                } else {
                    content::anthropic_part(m.parts[i])
                },
        )
    } else {
        seq![content::text_block("text"@, wire::named(m.name, wire::or_empty(m.content)))]
    }
}

/// The block of a tool call, given what its arguments read as; arguments that are no
/// JSON count as none.
pub open spec fn tool_use_with(c: ToolCallView, parsed: Result<JsonView, Seq<char>>) -> JsonView {
    JsonView::Object(
        map![
            "type"@ => JsonView::Text("tool_use"@),
            "id"@ => JsonView::Text(c.id),
            "name"@ => JsonView::Text(c.name),
            "input"@ => match parsed {
                Ok(j) => j,
                Err(_) => JsonView::Object(Map::empty()),
            },
        ],
    )
}

/// The block of a tool call.
pub open spec fn tool_use_block(c: ToolCallView) -> JsonView {
    tool_use_with(c, json::parsed_json(c.arguments))
}

/// The thinking blocks that a message carries for this provider.
pub open spec fn kept_blocks(m: MessageView) -> Seq<JsonView> {
    match m.provider_extra {
        Some(e) => match e.array_at("anthropic_blocks"@) {
            Some(a) => a,
            None => Seq::empty(),
        },
        None => Seq::empty(),
    }
}

/// The blocks of an assistant message: thinking first, then the text, then the
/// tool calls.
pub open spec fn assistant_blocks(m: MessageView) -> Seq<JsonView> {
    let text = match m.content {
        Some(t) => if t.len() > 0 {
            seq![content::text_block("text"@, t)]
        } else {
            Seq::empty()
        },
        None => Seq::empty(),
    };
    let calls = match m.tool_calls {
        Some(c) => c.map_values(|t: ToolCallView| tool_use_block(t)),
        None => Seq::empty(),
    };
    kept_blocks(m) + text + calls
}

/// The block of a tool result.
pub open spec fn result_block(m: MessageView) -> JsonView {
    JsonView::Object(
        map![
            "type"@ => JsonView::Text("tool_result"@),
            "tool_use_id"@ => JsonView::Text(wire::or_empty(m.tool_call_id)),
            "content"@ => JsonView::Text(wire::or_empty(m.content)),
        ],
    )
}

/// Where a conversion stands: the system text so far, whether only system
/// messages were seen, and the turns.
#[verifier::ext_equal]
pub struct Progress {
    pub system: Seq<char>,
    pub leading: bool,
    pub turns: Seq<TurnView>,
}

/// Adds one message to a conversion.
pub open spec fn add_message(p: Progress, m: MessageView) -> Progress {
    match m.role {
        Role::System => if p.leading {
            let head = if p.system.len() > 0 {
                p.system + "\n\n"@
            } else {
                p.system
            };
            Progress { system: head + wire::or_empty(m.content), ..p }
        } else {
            Progress {
                turns: push_turn(
                    p.turns,
                    true,
                    seq![content::text_block("text"@, "[system]\n"@ + wire::or_empty(m.content))],
                ),
                ..p
            }
        },
        Role::User => Progress {
            leading: false,
            turns: push_turn(p.turns, true, user_blocks(m)),
            ..p
        },
        Role::Assistant => Progress {
            leading: false,
            turns: push_turn(p.turns, false, assistant_blocks(m)),
            ..p
        },
        Role::Tool => Progress {
            leading: false,
            turns: push_turn(p.turns, true, seq![result_block(m)]),
            ..p
        },
    }
}

/// The conversion of a history, message by message.
pub open spec fn progress(messages: Seq<MessageView>) -> Progress
    decreases messages.len(),
{
    if messages.len() == 0 {
        Progress { system: Seq::empty(), leading: true, turns: Seq::empty() }
    } else {
        add_message(progress(messages.drop_last()), messages.last())
    }
}

/// The mark that asks the provider to cache everything before it.
pub open spec fn breakpoint() -> JsonView {
    JsonView::Object(map!["type"@ => JsonView::Text("ephemeral"@)])
}

/// The `system` parameter.
pub open spec fn system_param(system: Seq<char>, caching: bool) -> Option<JsonView> {
    if system.len() == 0 {
        None
    } else if caching {
        Some(
            JsonView::Array(
                seq![
                    JsonView::Object(
                        map![
                            "type"@ => JsonView::Text("text"@),
                            "text"@ => JsonView::Text(system),
                            "cache_control"@ => breakpoint(),
                        ],
                    ),
                ],
            ),
        )
    } else {
        Some(JsonView::Text(system))
    }
}

/// A block with a cache mark; only an object can carry one.
pub open spec fn marked(block: JsonView) -> JsonView {
    match block {
        JsonView::Object(m) => JsonView::Object(m.insert("cache_control"@, breakpoint())),
        _ => block,
    }
}

/// The turns with a cache mark on the last block of the last one.
pub open spec fn mark_last(turns: Seq<TurnView>) -> Seq<TurnView> {
    if turns.len() > 0 && turns.last().blocks.len() > 0 {
        let t = turns.last();
        turns.drop_last().push(
            TurnView { user: t.user, blocks: t.blocks.drop_last().push(marked(t.blocks.last())) },
        )
    } else {
        turns
    }
}

/// The wire form of a turn.
pub open spec fn turn_json(t: TurnView) -> JsonView {
    JsonView::Object(
        map![
            "role"@ => JsonView::Text(
                if t.user {
                    "user"@
                } else {
                    "assistant"@
                },
            ),
            "content"@ => JsonView::Array(t.blocks),
        ],
    )
}

/// The `messages` parameter.
pub open spec fn messages_param(turns: Seq<TurnView>, caching: bool) -> Seq<JsonView> {
    (if caching {
        mark_last(turns)
    } else {
        turns
    }).map_values(|t: TurnView| turn_json(t))
}

fn push_blocks(turns: &mut Vec<Turn>, user: bool, blocks: Vec<Json>)
    ensures
        text::views(final(turns)@) == push_turn(text::views(old(turns)@), user, json::items_view(blocks@)),
{
    proof {
        json::lemma_items_view(blocks@);
    }
    if blocks.len() == 0 {
        return;
    }
    let n: usize = turns.len();
    if n > 0 && turns[n - 1].user == user {
        let ghost before = turns@;
        let last = turns.pop().unwrap();
        let mut all = last.blocks;
        let mut more = blocks;
        proof {
            wire::lemma_items_concat(all@, more@);
        }
        all.append(&mut more);
        turns.push(Turn { user, blocks: all });
        proof {
            assert(text::views(turns@) =~= push_turn(text::views(before), user, json::items_view(blocks@)));
        }
    } else {
        let ghost before = turns@;
        turns.push(Turn { user, blocks });
        proof {
            assert(text::views(turns@) =~= text::views(before).push(turns@.last()@));
        }
    }
}

fn user_blocks_of(m: &ChatMessage) -> (r: Vec<Json>)
    requires
        m.role == Role::User,
    ensures
        json::items_view(r@) == user_blocks(m@),
{
    let mut out: Vec<Json> = Vec::new();
    if m.is_multimodal() {
        let mut seen = false;
        let mut i: usize = 0;
        while i < m.parts.len()
            invariant
                i <= m.parts@.len(),
                types::multimodal(m@),
                json::items_view(out@) == user_blocks(m@).take(i as int),
                seen <==> exists|j: int| 0 <= j < i && #[trigger] m@.parts[j] is Text,
            decreases m.parts@.len() - i,
        {
            let block = match &m.parts[i] {
                ContentPart::Text { text } if !seen => {
                    assert(m@.parts[i as int] is Text);
                    assert(first_text(m@.parts, i as int));
                    let t = named_text(&m.name, text.as_str());
                    text_block_json("text", t.as_str())
                },
                p => {
                    assert(!first_text(m@.parts, i as int));
                    p.to_anthropic_json()
                },
            };
            if let ContentPart::Text { .. } = &m.parts[i] {
                assert(m@.parts[i as int] is Text);
                seen = true;
            } else {
                assert(!(m@.parts[i as int] is Text));
            }
            proof {
                wire::lemma_items_push(out@, block);
                seqs::lemma_take_push(user_blocks(m@), i as int);
            }
            out.push(block);
            i += 1;
        }
        assert(user_blocks(m@).take(i as int) =~= user_blocks(m@));
    } else {
        let content = opt_or_empty(&m.content);
        let t = named_text(&m.name, content.as_str());
        let block = text_block_json("text", t.as_str());
        proof {
            wire::lemma_items_push(out@, block);
        }
        out.push(block);
        assert(json::items_view(out@) =~= user_blocks(m@));
    }
    out
}

fn tool_use_json(c: &ToolCall) -> (r: Json)
    ensures
        r@ == tool_use_block(c@),
{
    let parsed = Json::parse(c.function.arguments.as_str());
    parsed_tool_use(c, parsed)
}

/// The block of a tool call, given what its arguments read as.
pub fn parsed_tool_use(c: &ToolCall, parsed: Result<Json, String>) -> (r: Json)
    ensures
        r@ == tool_use_with(c@, json::read_view(parsed)),
{
    let input = match parsed {
        Ok(j) => j,
        Err(_) => Json::Object(JsonMap::new()),
    };
    let m = JsonMap::new().with("type", Json::text("tool_use")).with(
        "id",
        Json::text(c.id.as_str()),
    ).with("name", Json::text(c.function.name.as_str())).with("input", input);
    Json::Object(m)
}

fn assistant_blocks_of(m: &ChatMessage) -> (r: Vec<Json>)
    ensures
        json::items_view(r@) == assistant_blocks(m@),
{
    let mut out: Vec<Json> = Vec::new();
    if let Some(e) = &m.provider_extra {
        if let Some(a) = e.array_at("anthropic_blocks") {
            out = crate::json::copy_items(a);
        }
    }
    assert(json::items_view(out@) =~= kept_blocks(m@));
    if let Some(t) = &m.content {
        if !t.as_str().is_empty() {
            let block = text_block_json("text", t.as_str());
            proof {
                wire::lemma_items_push(out@, block);
            }
            out.push(block);
        }
    }
    let ghost head = json::items_view(out@);
    if let Some(calls) = &m.tool_calls {
        let ghost all = text::views(calls@).map_values(|t: ToolCallView| tool_use_block(t));
        let mut i: usize = 0;
        assert(head + all.take(0) =~= head);
        while i < calls.len()
            invariant
                i <= calls@.len(),
                all == text::views(calls@).map_values(|t: ToolCallView| tool_use_block(t)),
                json::items_view(out@) == head + all.take(i as int),
            decreases calls@.len() - i,
        {
            let block = tool_use_json(&calls[i]);
            proof {
                wire::lemma_items_push(out@, block);
                seqs::lemma_take_push(all, i as int);
                assert((head + all.take(i as int)).push(block@) =~= head + all.take(i as int).push(
                    block@,
                ));
            }
            out.push(block);
            i += 1;
        }
        assert(all.take(i as int) =~= all);
    }
    assert(json::items_view(out@) =~= assistant_blocks(m@));
    out
}

fn result_json(m: &ChatMessage) -> (r: Json)
    ensures
        r@ == result_block(m@),
{
    let id = opt_or_empty(&m.tool_call_id);
    let content = opt_or_empty(&m.content);
    let b = JsonMap::new().with("type", Json::text("tool_result")).with(
        "tool_use_id",
        Json::Text(id),
    ).with("content", Json::Text(content));
    Json::Object(b)
}

fn breakpoint_json() -> (r: Json)
    ensures
        r@ == breakpoint(),
{
    Json::Object(JsonMap::new().with("type", Json::text("ephemeral")))
}

fn mark_last_block(turns: &mut Vec<Turn>)
    ensures
        text::views(final(turns)@) == mark_last(text::views(old(turns)@)),
{
    let ghost before = turns@;
    if turns.len() == 0 {
        return;
    }
    let last = turns.pop().unwrap();
    let user = last.user;
    let mut blocks = last.blocks;
    proof {
        json::lemma_items_view(blocks@);
    }
    if blocks.len() > 0 {
        let ghost b0 = blocks@;
        let block = blocks.pop().unwrap();
        let done = match block {
            Json::Object(m) => Json::Object(m.with("cache_control", breakpoint_json())),
            other => other,
        };
        proof {
            wire::lemma_items_push(blocks@, done);
            assert(b0 =~= blocks@.push(block));
            wire::lemma_items_push(blocks@, block);
            assert(json::items_view(b0).drop_last() =~= json::items_view(blocks@));
        }
        blocks.push(done);
    }
    turns.push(Turn { user, blocks });
    proof {
        assert(text::views(turns@) =~= mark_last(text::views(before)));
    }
}

/// Convert messages to the `system` and `messages` parameters.
///
/// - Leading `system` messages become the top-level `system` parameter; later
///   ones become `[system]`-prefixed user turns.
/// - Consecutive same-role messages are merged.
/// - Thinking blocks that an assistant message carries come first in its turn.
/// - With `caching`, cache marks are placed on the system prompt and the final
///   content block.
pub fn convert_messages(messages: &Vec<ChatMessage>, caching: bool) -> (r: (Option<Json>, Vec<Json>))
    ensures
        crate::json::opt_json(r.0) == system_param(progress(text::views(messages@)).system, caching),
        json::items_view(r.1@) == messages_param(progress(text::views(messages@)).turns, caching),
{
    let mut system = String::new();
    let mut leading = true;
    let mut turns: Vec<Turn> = Vec::new();
    let ghost ms = text::views(messages@);
    let mut i: usize = 0;
    assert(text::views(turns@) =~= Seq::empty());
    while i < messages.len()
        invariant
            i <= messages@.len(),
            ms == text::views(messages@),
            progress(ms.take(i as int)) == (Progress {
                system: system@,
                leading,
                turns: text::views(turns@),
            }),
        decreases messages@.len() - i,
    {
        proof {
            assert(ms.take(i + 1).drop_last() =~= ms.take(i as int));
        }
        let m = &messages[i];
        match m.role {
            Role::System => {
                let t = opt_or_empty(&m.content);
                if leading {
                    if !system.as_str().is_empty() {
                        system.push_str("\n\n");
                    }
                    system.push_str(t.as_str());
                } else {
                    let mut s = "[system]\n".to_owned();
                    s.push_str(t.as_str());
                    let block = text_block_json("text", s.as_str());
                    push_blocks(&mut turns, true, one_block(block));
                }
            },
            Role::User => {
                leading = false;
                push_blocks(&mut turns, true, user_blocks_of(m));
            },
            Role::Assistant => {
                leading = false;
                push_blocks(&mut turns, false, assistant_blocks_of(m));
            },
            Role::Tool => {
                leading = false;
                push_blocks(&mut turns, true, one_block(result_json(m)));
            },
        }
        i += 1;
    }
    assert(ms.take(i as int) =~= ms);
    let system_value = if system.as_str().is_empty() {
        None
    } else if caching {
        let b = JsonMap::new().with("type", Json::text("text")).with(
            "text",
            Json::Text(system),
        ).with("cache_control", breakpoint_json());
        Some(Json::Array(one_block(Json::Object(b))))
    } else {
        Some(Json::Text(system))
    };
    if caching {
        mark_last_block(&mut turns);
    }
    let converted = turns_json(turns);
    (system_value, converted)
}

fn turns_json(turns: Vec<Turn>) -> (r: Vec<Json>)
    ensures
        json::items_view(r@) == text::views(turns@).map_values(|t: TurnView| turn_json(t)),
{
    let mut out: Vec<Json> = Vec::new();
    let mut i: usize = 0;
    let ghost all = text::views(turns@).map_values(|t: TurnView| turn_json(t));
    while i < turns.len()
        invariant
            i <= turns@.len(),
            all == text::views(turns@).map_values(|t: TurnView| turn_json(t)),
            json::items_view(out@) == all.take(i as int),
        decreases turns@.len() - i,
    {
        let role = if turns[i].user {
            "user"
        } else {
            "assistant"
        };
        let m = JsonMap::new().with("role", Json::text(role)).with(
            "content",
            Json::Array(crate::json::copy_items(&turns[i].blocks)),
        );
        let item = Json::Object(m);
        proof {
            assert(item@ == turn_json(turns@[i as int]@));
            wire::lemma_items_push(out@, item);
            seqs::lemma_take_push(all, i as int);
        }
        out.push(item);
        i += 1;
    }
    assert(all.take(i as int) =~= all);
    out
}

// ── Laws of the conversion ─────────────────────────────────────────────────

/// Whether every turn says something and no two neighbours are of one side.
pub open spec fn alternating(turns: Seq<TurnView>) -> bool {
    &&& forall|i: int| 0 <= i < turns.len() ==> (#[trigger] turns[i]).blocks.len() > 0
    &&& forall|i: int, j: int|
        0 <= i && j == i + 1 && j < turns.len() ==> (#[trigger] turns[i]).user != (#[trigger] turns[j]).user
}

proof fn lemma_push_alternates(turns: Seq<TurnView>, user: bool, blocks: Seq<JsonView>)
    requires
        alternating(turns),
    ensures
        alternating(push_turn(turns, user, blocks)),
{
    let after = push_turn(turns, user, blocks);
    if blocks.len() > 0 && turns.len() > 0 && turns.last().user == user {
        assert forall|i: int| 0 <= i < after.len() implies (#[trigger] after[i]).blocks.len() > 0 by {
            if i < turns.len() - 1 {
                assert(after[i] == turns[i]);
            }
        }
        assert forall|i: int, j: int|
            0 <= i && j == i + 1 && j < after.len() implies (#[trigger] after[i]).user != (
        #[trigger] after[j]).user by {
            assert(after[i].user == turns[i].user);
            assert(after[j].user == turns[j].user);
        }
    } else if blocks.len() > 0 {
        assert forall|i: int| 0 <= i < after.len() implies (#[trigger] after[i]).blocks.len() > 0 by {
            if i < turns.len() {
                assert(after[i] == turns[i]);
            }
        }
        assert forall|i: int, j: int|
            0 <= i && j == i + 1 && j < after.len() implies (#[trigger] after[i]).user != (
        #[trigger] after[j]).user by {
            assert(after[i] == turns[i]);
            if j < turns.len() {
                assert(after[j] == turns[j]);
            }
        }
    }
}

/// Whatever the history, the converted turns alternate between the user and the
/// assistant and none is empty.
pub proof fn law_turns_alternate(messages: Seq<MessageView>)
    ensures
        alternating(progress(messages).turns),
    decreases messages.len(),
{
    if messages.len() > 0 {
        law_turns_alternate(messages.drop_last());
        let p = progress(messages.drop_last());
        let m = messages.last();
        lemma_push_alternates(p.turns, true, user_blocks(m));
        lemma_push_alternates(p.turns, false, assistant_blocks(m));
        lemma_push_alternates(p.turns, true, seq![result_block(m)]);
        lemma_push_alternates(
            p.turns,
            true,
            seq![content::text_block("text"@, "[system]\n"@ + wire::or_empty(m.content))],
        );
    }
}

/// Thinking blocks that an assistant message carries stand before everything
/// else that it says.
pub proof fn law_thinking_first(m: MessageView)
    ensures
        kept_blocks(m).is_prefix_of(assistant_blocks(m)),
{
}

// ── Replies ────────────────────────────────────────────────────────────────

/// What a block adds to the reply's text.
pub open spec fn block_text(b: JsonView) -> Seq<char> {
    if wire::is_type(b, "text"@) {
        wire::or_empty(b.text_at("text"@))
    } else {
        Seq::empty()
    }
}

/// What a block adds to the reply's reasoning.
pub open spec fn block_thinking(b: JsonView) -> Seq<char> {
    if wire::is_type(b, "thinking"@) {
        wire::or_empty(b.text_at("thinking"@))
    } else {
        Seq::empty()
    }
}

/// The tool call that a block makes.
pub open spec fn block_call(b: JsonView) -> Option<ToolCallView> {
    if wire::is_type(b, "tool_use"@) {
        Some(
            ToolCallView {
                id: wire::or_empty(b.text_at("id"@)),
                kind: "function"@,
                name: wire::or_empty(b.text_at("name"@)),
                arguments: json::json_text(
                    match b.get("input"@) {
                        Some(j) => j,
                        None => JsonView::Object(Map::empty()),
                    },
                ),
                extra_content: None,
            },
        )
    } else {
        None
    }
}

/// A block that must be sent again with the next request.
pub open spec fn block_opaque(b: JsonView) -> Option<JsonView> {
    if wire::is_type(b, "thinking"@) || wire::is_type(b, "redacted_thinking"@) {
        Some(b)
    } else {
        None
    }
}

/// The reply that content blocks make.
pub open spec fn reply(
    blocks: Seq<JsonView>,
    stop_reason: Option<Seq<char>>,
    input_tokens: Option<u32>,
    output_tokens: Option<u32>,
    cached_input_tokens: Option<u32>,
) -> ResponseView {
    let opaque = seqs::filter_map(blocks, |b: JsonView| block_opaque(b));
    ResponseView {
        content: types::non_empty(seqs::flat_map(blocks, |b: JsonView| block_text(b))),
        reasoning_content: types::non_empty(seqs::flat_map(blocks, |b: JsonView| block_thinking(b))),
        tool_calls: seqs::filter_map(blocks, |b: JsonView| block_call(b)),
        finish_reason: match stop_reason {
            Some(s) => s,
            None => "end_turn"@,
        },
        input_tokens,
        output_tokens,
        cached_input_tokens,
        provider_extra: if opaque.len() == 0 {
            None
        } else {
            Some(JsonView::Object(map!["anthropic_blocks"@ => JsonView::Array(opaque)]))
        },
    }
}

fn call_of_block(b: &Json) -> (r: ToolCall)
    requires
        wire::is_type(b@, "tool_use"@),
    ensures
        block_call(b@) == Some(r@),
{
    let arguments = match b.get("input") {
        Some(j) => j.print(),
        None => Json::Object(JsonMap::new()).print(),
    };
    ToolCall {
        id: text_or_empty(b, "id"),
        kind: "function".to_owned(),
        function: FunctionCall { name: text_or_empty(b, "name"), arguments },
        extra_content: None,
    }
}

/// The reply that content blocks make.
pub fn response_from_blocks(
    blocks: &Vec<Json>,
    stop_reason: Option<String>,
    input_tokens: Option<u32>,
    output_tokens: Option<u32>,
    cached_input_tokens: Option<u32>,
) -> (r: LlmResponse)
    ensures
        r@ == reply(
            json::items_view(blocks@),
            json::opt_text(stop_reason),
            input_tokens,
            output_tokens,
            cached_input_tokens,
        ),
{
    let mut content = String::new();
    let mut reasoning = String::new();
    let mut tool_calls: Vec<ToolCall> = Vec::new();
    let mut opaque: Vec<Json> = Vec::new();
    let ghost bs = json::items_view(blocks@);
    proof {
        json::lemma_items_view(blocks@);
        assert(text::views(tool_calls@) =~= Seq::empty());
        assert(json::items_view(opaque@) =~= Seq::empty());
    }
    let mut i: usize = 0;
    while i < blocks.len()
        invariant
            i <= blocks@.len(),
            bs == json::items_view(blocks@),
            bs.len() == blocks@.len(),
            content@ == seqs::flat_map(bs.take(i as int), |b: JsonView| block_text(b)),
            reasoning@ == seqs::flat_map(bs.take(i as int), |b: JsonView| block_thinking(b)),
            text::views(tool_calls@) == seqs::filter_map(bs.take(i as int), |b: JsonView| block_call(b)),
            json::items_view(opaque@) == seqs::filter_map(bs.take(i as int), |b: JsonView| block_opaque(b)),
        decreases blocks@.len() - i,
    {
        let b = &blocks[i];
        proof {
            json::lemma_items_view(blocks@);
            assert(bs[i as int] == b@);
            seqs::lemma_take_push(bs, i as int);
            seqs::lemma_flat_map_push(bs.take(i as int), |b: JsonView| block_text(b), b@);
            seqs::lemma_flat_map_push(bs.take(i as int), |b: JsonView| block_thinking(b), b@);
            seqs::lemma_filter_map_push(bs.take(i as int), |b: JsonView| block_call(b), b@);
            seqs::lemma_filter_map_push(bs.take(i as int), |b: JsonView| block_opaque(b), b@);
        }
        if has_type(b, "text") {
            let t = text_or_empty(b, "text");
            content.push_str(t.as_str());
        } else {
            assert(content@ + Seq::<char>::empty() =~= content@);
        }
        if has_type(b, "thinking") {
            let t = text_or_empty(b, "thinking");
            reasoning.push_str(t.as_str());
        } else {
            assert(reasoning@ + Seq::<char>::empty() =~= reasoning@);
        }
        if has_type(b, "tool_use") {
            let call = call_of_block(b);
            let ghost before = tool_calls@;
            tool_calls.push(call);
            assert(text::views(tool_calls@) =~= text::views(before).push(call@));
        }
        if has_type(b, "thinking") || has_type(b, "redacted_thinking") {
            let copy = b.clone();
            proof {
                wire::lemma_items_push(opaque@, copy);
            }
            opaque.push(copy);
        }
        i += 1;
    }
    assert(bs.take(i as int) =~= bs);
    proof {
        json::lemma_items_view(opaque@);
    }
    let provider_extra = if opaque.len() == 0 {
        None
    } else {
        Some(Json::Object(JsonMap::new().with("anthropic_blocks", Json::Array(opaque))))
    };
    let finish_reason = match stop_reason {
        Some(t) => t,
        None => "end_turn".to_owned(),
    };
    LlmResponse {
        content: non_empty_text(content),
        reasoning_content: non_empty_text(reasoning),
        tool_calls,
        finish_reason,
        input_tokens,
        output_tokens,
        cached_input_tokens,
        provider_extra,
    }
}

/// A reply's thinking blocks, stored with the assistant message that it becomes,
/// stand first in the next request, in their order.
pub proof fn law_thinking_returns(
    blocks: Seq<JsonView>,
    stop_reason: Option<Seq<char>>,
    input_tokens: Option<u32>,
    output_tokens: Option<u32>,
    cached_input_tokens: Option<u32>,
    m: MessageView,
)
    requires
        m.provider_extra == reply(
            blocks,
            stop_reason,
            input_tokens,
            output_tokens,
            cached_input_tokens,
        ).provider_extra,
    ensures
        kept_blocks(m) == seqs::filter_map(blocks, |b: JsonView| block_opaque(b)),
        seqs::filter_map(blocks, |b: JsonView| block_opaque(b)).is_prefix_of(assistant_blocks(m)),
{
    let opaque = seqs::filter_map(blocks, |b: JsonView| block_opaque(b));
    if opaque.len() == 0 {
        assert(opaque =~= Seq::empty());
    }
}

/// The reply in a complete response document.
pub open spec fn document_reply(doc: JsonView) -> ResponseView {
    reply(
        match doc.array_at("content"@) {
            Some(a) => a,
            None => Seq::empty(),
        },
        doc.text_at("stop_reason"@),
        wire::count_at(doc.get("usage"@), "input_tokens"@),
        wire::count_at(doc.get("usage"@), "output_tokens"@),
        wire::count_at(doc.get("usage"@), "cache_read_input_tokens"@),
    )
}

/// The reply in a complete response document.
pub fn parse_response(doc: &Json) -> (r: LlmResponse)
    ensures
        r@ == document_reply(doc@),
{
    let stop_reason = match doc.text_at("stop_reason") {
        Some(t) => Some(t.to_owned()),
        None => None,
    };
    let usage = doc.get("usage");
    let input = read_count(usage, "input_tokens");
    let output = read_count(usage, "output_tokens");
    let cached = read_count(usage, "cache_read_input_tokens");
    match doc.array_at("content") {
        Some(a) => response_from_blocks(a, stop_reason, input, output, cached),
        None => {
            let none: Vec<Json> = Vec::new();
            assert(json::items_view(none@) =~= Seq::empty());
            response_from_blocks(&none, stop_reason, input, output, cached)
        },
    }
}

// ── Requests ───────────────────────────────────────────────────────────────

/// The settings of a native Anthropic Messages API provider.
///
/// Sampling numbers are held as JSON numbers.
pub struct AnthropicProvider {
    pub base_url: String,
    pub api_key: String,
    pub model: String,
    pub max_tokens: u32,
    pub temperature: Option<Json>,
    pub top_p: Option<Json>,
    pub top_k: Option<u32>,
    pub stop_sequences: Vec<String>,
    /// Thinking budget in tokens; `None` disables extended thinking.
    pub thinking_budget: Option<u32>,
    /// Automatic cache marks (default on).
    pub prompt_caching: bool,
    pub tool_choice: Option<Json>,
    pub beta_headers: Vec<String>,
    pub extra_body: JsonMap,
}

/// The wire form of a tool.
pub open spec fn tool_json(t: ToolDefView) -> JsonView {
    JsonView::Object(
        map![
            "name"@ => JsonView::Text(t.name),
            "description"@ => JsonView::Text(t.description),
            "input_schema"@ => t.parameters,
        ],
    )
}

/// The body of a completion request. Fields that the caller adds never replace
/// one that is already there.
pub open spec fn request_body(
    p: AnthropicProvider,
    messages: Seq<MessageView>,
    tools: Seq<ToolDefView>,
    stream: bool,
) -> JsonView {
    let turns = progress(messages);
    let a = map![
        "model"@ => JsonView::Text(p.model@),
        "max_tokens"@ => JsonView::Int(p.max_tokens as int),
        "messages"@ => JsonView::Array(messages_param(turns.turns, p.prompt_caching)),
    ];
    let b = wire::with_some(a, "system"@, system_param(turns.system, p.prompt_caching));
    let c = if tools.len() > 0 {
        wire::with_some(
            b.insert("tools"@, JsonView::Array(tools.map_values(|t: ToolDefView| tool_json(t)))),
            "tool_choice"@,
            json::opt_json(p.tool_choice),
        )
    } else {
        b
    };
    let d = match p.thinking_budget {
        Some(n) => c.insert(
            "thinking"@,
            JsonView::Object(
                map![
                    "type"@ => JsonView::Text("enabled"@),
                    "budget_tokens"@ => JsonView::Int(n as int),
                ],
            ),
        ),
        None => wire::with_some(
            wire::with_some(
                wire::with_some(c, "temperature"@, json::opt_json(p.temperature)),
                "top_p"@,
                json::opt_json(p.top_p),
            ),
            "top_k"@,
            wire::opt_count(p.top_k),
        ),
    };
    let e = if p.stop_sequences@.len() > 0 {
        d.insert("stop_sequences"@, wire::text_array(text::views(p.stop_sequences@)))
    } else {
        d
    };
    let f = if stream {
        e.insert("stream"@, JsonView::Bool(true))
    } else {
        e
    };
    JsonView::Object(p.extra_body@.union_prefer_right(f))
}

fn tools_json(tools: &Vec<ToolDefinition>) -> (r: Vec<Json>)
    ensures
        json::items_view(r@) == text::views(tools@).map_values(|t: ToolDefView| tool_json(t)),
{
    let mut out: Vec<Json> = Vec::new();
    let ghost all = text::views(tools@).map_values(|t: ToolDefView| tool_json(t));
    let mut i: usize = 0;
    while i < tools.len()
        invariant
            i <= tools@.len(),
            all == text::views(tools@).map_values(|t: ToolDefView| tool_json(t)),
            json::items_view(out@) == all.take(i as int),
        decreases tools@.len() - i,
    {
        let f = &tools[i].function;
        let item = Json::Object(
            JsonMap::new().with("name", Json::text(f.name.as_str())).with(
                "description",
                Json::text(f.description.as_str()),
            ).with("input_schema", f.parameters.clone()),
        );
        proof {
            assert(item@ == tool_json(tools@[i as int]@));
            wire::lemma_items_push(out@, item);
            seqs::lemma_take_push(all, i as int);
        }
        out.push(item);
        i += 1;
    }
    assert(all.take(i as int) =~= all);
    out
}

/// The body of a request for a structured result: the schema becomes the only
/// tool and the model is made to call it.
pub open spec fn structured_request_body(
    p: AnthropicProvider,
    messages: Seq<MessageView>,
    schema_name: Seq<char>,
    schema: JsonView,
) -> JsonView {
    let turns = progress(messages);
    let tool = JsonView::Object(
        map![
            "name"@ => JsonView::Text(schema_name),
            "description"@ => JsonView::Text(
                "Return the structured '"@ + schema_name + "' result."@,
            ),
            "input_schema"@ => schema,
        ],
    );
    let a = map![
        "model"@ => JsonView::Text(p.model@),
        "max_tokens"@ => JsonView::Int(p.max_tokens as int),
        "messages"@ => JsonView::Array(messages_param(turns.turns, p.prompt_caching)),
        "tools"@ => JsonView::Array(seq![tool]),
        "tool_choice"@ => JsonView::Object(
            map!["type"@ => JsonView::Text("tool"@), "name"@ => JsonView::Text(schema_name)],
        ),
    ];
    let b = wire::with_some(a, "system"@, system_param(turns.system, p.prompt_caching));
    JsonView::Object(p.extra_body@.union_prefer_right(b))
}

/// The first tool call among the blocks of a reply.
pub open spec fn first_tool_use(blocks: Seq<JsonView>, i: int) -> Option<JsonView>
    decreases blocks.len() - i,
{
    if i < 0 || i >= blocks.len() {
        None
    } else if wire::is_type(blocks[i], "tool_use"@) {
        Some(blocks[i])
    } else {
        first_tool_use(blocks, i + 1)
    }
}

/// The structured result in a response document: the input of the first tool
/// call.
pub open spec fn structured_result(doc: JsonView) -> Option<JsonView> {
    match doc.array_at("content"@) {
        Some(blocks) => match first_tool_use(blocks, 0) {
            Some(b) => b.get("input"@),
            None => None,
        },
        None => None,
    }
}

impl AnthropicProvider {
    pub fn new(api_key: &str, model: &str) -> (r: AnthropicProvider)
        ensures
            r.base_url@ == "https://api.anthropic.com"@,
            r.api_key@ == api_key@,
            r.model@ == model@,
            r.max_tokens == 8192,
            r.temperature is None,
            r.top_p is None,
            r.top_k is None,
            r.stop_sequences@.len() == 0,
            r.thinking_budget is None,
            r.prompt_caching,
            r.tool_choice is None,
            r.beta_headers@.len() == 0,
            r.extra_body@ == Map::<Seq<char>, JsonView>::empty(),
    {
        AnthropicProvider {
            base_url: "https://api.anthropic.com".to_owned(),
            api_key: api_key.to_owned(),
            model: model.to_owned(),
            max_tokens: 8192,
            temperature: None,
            top_p: None,
            top_k: None,
            stop_sequences: Vec::new(),
            thinking_budget: None,
            prompt_caching: true,
            tool_choice: None,
            beta_headers: Vec::new(),
            extra_body: JsonMap::new(),
        }
    }

    /// Point at a different endpoint (proxy, gateway).
    pub fn with_base_url(self, url: &str) -> (r: AnthropicProvider)
        ensures
            r == (AnthropicProvider { base_url: r.base_url, ..self }),
            r.base_url@ == url@,
    {
        let mut out = self;
        out.base_url = url.to_owned();
        out
    }

    /// Required completion cap (`max_tokens`); defaults to 8192.
    pub fn with_max_tokens(self, max_tokens: u32) -> (r: AnthropicProvider)
        ensures
            r == (AnthropicProvider { max_tokens, ..self }),
    {
        let mut out = self;
        out.max_tokens = max_tokens;
        out
    }

    pub fn with_temperature(self, temperature: Json) -> (r: AnthropicProvider)
        ensures
            r == (AnthropicProvider { temperature: Some(temperature), ..self }),
    {
        let mut out = self;
        out.temperature = Some(temperature);
        out
    }

    pub fn with_top_p(self, top_p: Json) -> (r: AnthropicProvider)
        ensures
            r == (AnthropicProvider { top_p: Some(top_p), ..self }),
    {
        let mut out = self;
        out.top_p = Some(top_p);
        out
    }

    pub fn with_top_k(self, top_k: u32) -> (r: AnthropicProvider)
        ensures
            r == (AnthropicProvider { top_k: Some(top_k), ..self }),
    {
        let mut out = self;
        out.top_k = Some(top_k);
        out
    }

    pub fn with_stop_sequences(self, stops: Vec<String>) -> (r: AnthropicProvider)
        ensures
            r == (AnthropicProvider { stop_sequences: stops, ..self }),
    {
        let mut out = self;
        out.stop_sequences = stops;
        out
    }

    /// Enable extended thinking with the given token budget. Sampling numbers
    /// are left out of requests while thinking is enabled.
    pub fn with_thinking(self, budget_tokens: u32) -> (r: AnthropicProvider)
        ensures
            r == (AnthropicProvider { thinking_budget: Some(budget_tokens), ..self }),
    {
        let mut out = self;
        out.thinking_budget = Some(budget_tokens);
        out
    }

    /// Disable the automatic cache marks.
    pub fn without_prompt_caching(self) -> (r: AnthropicProvider)
        ensures
            r == (AnthropicProvider { prompt_caching: false, ..self }),
    {
        let mut out = self;
        out.prompt_caching = false;
        out
    }

    /// Force tool choice.
    pub fn with_tool_choice(self, choice: Json) -> (r: AnthropicProvider)
        ensures
            r == (AnthropicProvider { tool_choice: Some(choice), ..self }),
    {
        let mut out = self;
        out.tool_choice = Some(choice);
        out
    }

    /// Add an `anthropic-beta` header value.
    pub fn with_beta(self, beta: &str) -> (r: AnthropicProvider)
        ensures
            r == (AnthropicProvider { beta_headers: r.beta_headers, ..self }),
            text::views(r.beta_headers@) == text::views(self.beta_headers@).push(beta@),
    {
        let mut out = self;
        let mut headers = out.beta_headers;
        headers.push(beta.to_owned());
        assert(text::views(headers@) =~= text::views(self.beta_headers@).push(beta@));
        out.beta_headers = headers;
        out
    }

    /// Merge an arbitrary top-level field into every request.
    pub fn with_body_param(self, key: &str, value: Json) -> (r: AnthropicProvider)
        ensures
            r == (AnthropicProvider { extra_body: r.extra_body, ..self }),
            r.extra_body@ == self.extra_body@.insert(key@, value@),
    {
        let mut out = self;
        let body = out.extra_body.with(key, value);
        out.extra_body = body;
        out
    }

    /// The body of a completion request.
    pub fn build_body(
        &self,
        messages: &Vec<ChatMessage>,
        tools: &Vec<ToolDefinition>,
        stream: bool,
    ) -> (r: Json)
        ensures
            r@ == request_body(*self, text::views(messages@), text::views(tools@), stream),
    {
        let (system, converted) = convert_messages(messages, self.prompt_caching);
        let mut m = JsonMap::new().with("model", Json::text(self.model.as_str())).with(
            "max_tokens",
            Json::Unsigned(self.max_tokens as u64),
        ).with("messages", Json::Array(converted));
        if let Some(system) = system {
            m.put("system", system);
        }
        if tools.len() > 0 {
            m.put("tools", Json::Array(tools_json(tools)));
            if let Some(choice) = &self.tool_choice {
                m.put("tool_choice", choice.clone());
            }
        }
        if let Some(n) = self.thinking_budget {
            let t = JsonMap::new().with("type", Json::text("enabled")).with(
                "budget_tokens",
                Json::Unsigned(n as u64),
            );
            m.put("thinking", Json::Object(t));
        } else {
            if let Some(t) = &self.temperature {
                m.put("temperature", t.clone());
            }
            if let Some(p) = &self.top_p {
                m.put("top_p", p.clone());
            }
            if let Some(k) = self.top_k {
                m.put("top_k", Json::Unsigned(k as u64));
            }
        }
        if self.stop_sequences.len() > 0 {
            m.put("stop_sequences", text_array_json(&self.stop_sequences));
        }
        if stream {
            m.put("stream", Json::Bool(true));
        }
        m.fill_from(&self.extra_body);
        Json::Object(m)
    }

    /// The body of a request for a structured result.
    pub fn build_structured_body(
        &self,
        messages: &Vec<ChatMessage>,
        schema_name: &str,
        schema: Json,
    ) -> (r: Json)
        ensures
            r@ == structured_request_body(*self, text::views(messages@), schema_name@, schema@),
    {
        let (system, converted) = convert_messages(messages, self.prompt_caching);
        let mut description = "Return the structured '".to_owned();
        description.push_str(schema_name);
        description.push_str("' result.");
        let tool = JsonMap::new().with("name", Json::text(schema_name)).with(
            "description",
            Json::Text(description),
        ).with("input_schema", schema);
        let choice = JsonMap::new().with("type", Json::text("tool")).with(
            "name",
            Json::text(schema_name),
        );
        let mut m = JsonMap::new().with("model", Json::text(self.model.as_str())).with(
            "max_tokens",
            Json::Unsigned(self.max_tokens as u64),
        ).with("messages", Json::Array(converted)).with(
            "tools",
            Json::Array(one_block(Json::Object(tool))),
        ).with("tool_choice", Json::Object(choice));
        if let Some(system) = system {
            m.put("system", system);
        }
        m.fill_from(&self.extra_body);
        Json::Object(m)
    }

    /// The HTTP request that carries `body`.
    pub fn request(&self, body: Json) -> (r: HttpRequest)
        ensures
            r@ == (RequestView {
                url: self.base_url@ + "/v1/messages"@,
                headers: (if self.beta_headers@.len() > 0 {
                    seq![
                        ("x-api-key"@, self.api_key@),
                        ("anthropic-version"@, "2023-06-01"@),
                        ("anthropic-beta"@, text::join(text::views(self.beta_headers@), ","@)),
                    ]
                } else {
                    seq![("x-api-key"@, self.api_key@), ("anthropic-version"@, "2023-06-01"@)]
                }),
                body: body@,
            }),
    {
        let mut url = self.base_url.clone();
        url.push_str("/v1/messages");
        let mut headers: Vec<(String, String)> = Vec::new();
        headers.push(("x-api-key".to_owned(), self.api_key.clone()));
        headers.push(("anthropic-version".to_owned(), "2023-06-01".to_owned()));
        if self.beta_headers.len() > 0 {
            headers.push(("anthropic-beta".to_owned(), join_strs(&self.beta_headers, ",")));
        }
        let r = HttpRequest { url, headers, body };
        assert(r@.headers =~= (if self.beta_headers@.len() > 0 {
            seq![
                ("x-api-key"@, self.api_key@),
                ("anthropic-version"@, "2023-06-01"@),
                ("anthropic-beta"@, text::join(text::views(self.beta_headers@), ","@)),
            ]
        } else {
            seq![("x-api-key"@, self.api_key@), ("anthropic-version"@, "2023-06-01"@)]
        }));
        r
    }

    /// The structured result in a response document, or an error where the
    /// model did not call the tool.
    pub fn structured_result(doc: &Json, schema_name: &str) -> (r: Result<Json, LlmError>)
        ensures
            match structured_result(doc@) {
                Some(j) => r matches Ok(v) && v@ == j,
                None => r matches Err(e) && e@ == LlmErrorView::Structured(
                    "model did not invoke the '"@ + schema_name@ + "' structured-output tool"@,
                ),
            },
    {
        if let Some(blocks) = doc.array_at("content") {
            let ghost bs = json::items_view(blocks@);
            let mut i: usize = 0;
            let mut found: Option<usize> = None;
            while i < blocks.len() && found.is_none()
                invariant
                    i <= blocks@.len(),
                    bs == json::items_view(blocks@),
                    match found {
                        Some(k) => k < blocks@.len() && first_tool_use(bs, 0) == Some(
                            blocks@[k as int]@,
                        ),
                        None => first_tool_use(bs, 0) == first_tool_use(bs, i as int),
                    },
                decreases blocks@.len() - i,
            {
                proof {
                    json::lemma_items_view(blocks@);
                    assert(bs[i as int] == blocks@[i as int]@);
                }
                if has_type(&blocks[i], "tool_use") {
                    found = Some(i);
                }
                i += 1;
            }
            proof {
                json::lemma_items_view(blocks@);
            }
            if let Some(k) = found {
                if let Some(input) = blocks[k].get("input") {
                    return Ok(input.clone());
                }
            }
        }
        let mut text = "model did not invoke the '".to_owned();
        text.push_str(schema_name);
        text.push_str("' structured-output tool");
        Err(LlmError::Structured(text))
    }
}

} // verus!
