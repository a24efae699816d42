//! From the event log to the messages of a model request.
use crate::text;
use crate::seqs;
use crate::llm::wire;
use crate::llm::types;
use crate::json;
use crate::agent::strategy;
use crate::event::{Event, EventId, EventView};
use crate::json::{Json, JsonView};
use crate::kinds;
use crate::llm::types::{
    ChatMessage, FunctionCall, MessageView, ResponseView, Role, ToolCall, ToolCallView,
};
use crate::text::{bytes_in, chars_of, decimal_of, fit_prefix, join_strs, same, string_of};
use vstd::prelude::*;

verus! {

// ── Events to messages ─────────────────────────────────────────────────────

/// A message with the sender's name that the payload carries, if it is not
/// empty.
pub open spec fn named_message(m: MessageView, payload: JsonView) -> MessageView {
    match payload.text_at("name"@) {
        Some(n) => if n.len() > 0 {
            MessageView { name: Some(n), ..m }
        } else {
            m
        },
        None => m,
    }
}

/// A message that something other than the model says.
pub open spec fn incoming(payload: JsonView) -> Option<MessageView> {
    match payload.text_at("text"@) {
        Some(t) => Some(named_message(types::text_message(Role::User, t), payload)),
        None => None,
    }
}

/// The tool call that an item of an assistant payload holds; an item without an
/// ID, a name or arguments holds none.
pub open spec fn call_of(tc: JsonView) -> Option<ToolCallView> {
    match (tc.text_at("id"@), tc.get("function"@)) {
        (Some(id), Some(f)) => match (f.text_at("name"@), f.text_at("arguments"@)) {
            (Some(name), Some(arguments)) => Some(
                ToolCallView {
                    id,
                    kind: match tc.text_at("type"@) {
                        Some(k) => k,
                        None => "function"@,
                    },
                    name,
                    arguments,
                    extra_content: tc.get("extra_content"@),
                },
            ),
            _ => None,
        },
        _ => None,
    }
}

/// The tool calls of an assistant payload.
pub open spec fn calls_of(payload: JsonView) -> Seq<ToolCallView> {
    match payload.array_at("tool_calls"@) {
        Some(a) => seqs::filter_map(a, |tc: JsonView| call_of(tc)),
        None => Seq::empty(),
    }
}

/// The message of an assistant payload, with the provider's own blocks.
pub open spec fn spoken(payload: JsonView) -> Option<MessageView> {
    let content = payload.text_at("content"@);
    let calls = calls_of(payload);
    let extra = payload.get("provider_extra"@);
    if calls.len() > 0 {
        Some(
            MessageView {
                role: Role::Assistant,
                content,
                parts: Seq::empty(),
                tool_calls: Some(calls),
                tool_call_id: None,
                name: None,
                provider_extra: extra,
            },
        )
    } else {
        match content {
            Some(t) => Some(
                MessageView { provider_extra: extra, ..types::text_message(Role::Assistant, t) },
            ),
            None => None,
        }
    }
}

/// The text that a tool result's payload gives the model.
pub open spec fn result_text(payload: JsonView) -> Seq<char> {
    match payload.get("result"@) {
        Some(v) => json::json_text(v),
        None => match payload.get("error"@) {
            Some(e) => "error: "@ + json::json_text(e),
            None => Seq::empty(),
        },
    }
}

/// The message of a tool result's payload.
pub open spec fn answered(payload: JsonView) -> Option<MessageView> {
    match payload.text_at("tool_call_id"@) {
        Some(id) => Some(
            MessageView {
                tool_call_id: Some(id),
                ..types::text_message(Role::Tool, result_text(payload))
            },
        ),
        None => None,
    }
}

/// The message that an event stands for; most events stand for none.
pub open spec fn message_of(e: EventView) -> Option<MessageView> {
    if e.kind == kinds::USER_MESSAGE@ {
        incoming(e.payload)
    } else if e.kind == kinds::ASSISTANT_MESSAGE@ {
        spoken(e.payload)
    } else if e.kind == kinds::TOOL_RESULT@ {
        answered(e.payload)
    } else if e.kind == kinds::AGENT_MESSAGE@ || e.kind == kinds::SYSTEM_MESSAGE@ {
        incoming(e.payload)
    } else {
        None
    }
}

/// The messages that a log stands for.
pub open spec fn messages_of(events: Seq<EventView>) -> Seq<MessageView> {
    seqs::filter_map(events, |e: EventView| message_of(e))
}

fn apply_name(msg: ChatMessage, payload: &Json) -> (r: ChatMessage)
    ensures
        r@ == named_message(msg@, payload@),
{
    match payload.text_at("name") {
        Some(n) => if n.is_empty() {
            msg
        } else {
            msg.with_name(n)
        },
        None => msg,
    }
}

fn incoming_message(payload: &Json) -> (r: Option<ChatMessage>)
    ensures
        opt_message(r) == incoming(payload@),
{
    match payload.text_at("text") {
        Some(t) => Some(apply_name(ChatMessage::user(t), payload)),
        None => None,
    }
}

pub open spec fn opt_message(m: Option<ChatMessage>) -> Option<MessageView> {
    match m {
        Some(c) => Some(c@),
        None => None,
    }
}

fn read_call(tc: &Json) -> (r: Option<ToolCall>)
    ensures
        match r {
            Some(c) => call_of(tc@) == Some(c@),
            None => call_of(tc@) is None,
        },
{
    let id = match tc.text_at("id") {
        Some(t) => t,
        None => {
            return None;
        },
    };
    let f = match tc.get("function") {
        Some(f) => f,
        None => {
            return None;
        },
    };
    let name = match f.text_at("name") {
        Some(t) => t,
        None => {
            return None;
        },
    };
    let arguments = match f.text_at("arguments") {
        Some(t) => t,
        None => {
            return None;
        },
    };
    let kind = match tc.text_at("type") {
        Some(t) => t.to_owned(),
        None => "function".to_owned(),
    };
    let extra_content = match tc.get("extra_content") {
        Some(j) => Some(j.clone()),
        None => None,
    };
    Some(
        ToolCall {
            id: id.to_owned(),
            kind,
            function: FunctionCall { name: name.to_owned(), arguments: arguments.to_owned() },
            extra_content,
        },
    )
}

fn read_calls(payload: &Json) -> (r: Vec<ToolCall>)
    ensures
        text::views(r@) == calls_of(payload@),
{
    let mut out: Vec<ToolCall> = Vec::new();
    assert(text::views(out@) =~= Seq::empty());
    if let Some(a) = payload.array_at("tool_calls") {
        let ghost all = json::items_view(a@);
        let ghost f = |tc: JsonView| call_of(tc);
        let mut i: usize = 0;
        while i < a.len()
            invariant
                i <= a@.len(),
                all == json::items_view(a@),
                f == (|tc: JsonView| call_of(tc)),
                text::views(out@) == seqs::filter_map(all.take(i as int), f),
            decreases a@.len() - i,
        {
            proof {
                json::lemma_items_view(a@);
                assert(all[i as int] == a@[i as int]@);
                seqs::lemma_take_push(all, i as int);
                seqs::lemma_filter_map_push(all.take(i as int), f, all[i as int]);
            }
            if let Some(c) = read_call(&a[i]) {
                let ghost before = text::views(out@);
                out.push(c);
                assert(text::views(out@) =~= before.push(c@));
            }
            i += 1;
        }
        proof {
            json::lemma_items_view(a@);
            assert(all.take(i as int) =~= all);
        }
    }
    out
}

fn spoken_message(payload: &Json) -> (r: Option<ChatMessage>)
    ensures
        opt_message(r) == spoken(payload@),
{
    let content = match payload.text_at("content") {
        Some(t) => Some(t.to_owned()),
        None => None,
    };
    let calls = read_calls(payload);
    let bare = if calls.len() > 0 {
        ChatMessage::assistant_with_tool_calls(content, calls)
    } else {
        match content {
            Some(t) => ChatMessage::assistant(t.as_str()),
            None => {
                return None;
            },
        }
    };
    match payload.get("provider_extra") {
        Some(j) => Some(bare.with_provider_extra(j.clone())),
        None => Some(bare),
    }
}

fn answered_message(payload: &Json) -> (r: Option<ChatMessage>)
    ensures
        opt_message(r) == answered(payload@),
{
    match payload.text_at("tool_call_id") {
        Some(id) => {
            let text = match payload.get("result") {
                Some(v) => v.print(),
                None => match payload.get("error") {
                    Some(e) => {
                        let mut out = "error: ".to_owned();
                        let t = e.print();
                        out.push_str(t.as_str());
                        out
                    },
                    None => String::new(),
                },
            };
            Some(ChatMessage::tool_result(id, text.as_str()))
        },
        None => None,
    }
}

fn event_to_message(e: &Event) -> (r: Option<ChatMessage>)
    ensures
        opt_message(r) == message_of(e@),
{
    let kind = e.kind.as_str();
    if same(kind, kinds::USER_MESSAGE) {
        incoming_message(&e.payload)
    } else if same(kind, kinds::ASSISTANT_MESSAGE) {
        spoken_message(&e.payload)
    } else if same(kind, kinds::TOOL_RESULT) {
        answered_message(&e.payload)
    } else if same(kind, kinds::AGENT_MESSAGE) || same(kind, kinds::SYSTEM_MESSAGE) {
        incoming_message(&e.payload)
    } else {
        None
    }
}

/// The messages that the events from `from` on stand for.
pub fn messages_from(events: &Vec<Event>, from: usize) -> (r: Vec<ChatMessage>)
    requires
        from <= events@.len(),
    ensures
        text::views(r@) == messages_of(text::views(events@).skip(from as int)),
{
    let mut out: Vec<ChatMessage> = Vec::new();
    let ghost rest = text::views(events@).skip(from as int);
    let ghost f = |e: EventView| message_of(e);
    let mut i: usize = from;
    assert(text::views(out@) =~= Seq::empty());
    assert(rest.take(0) =~= Seq::empty());
    while i < events.len()
        invariant
            from <= i <= events@.len(),
            rest == text::views(events@).skip(from as int),
            f == (|e: EventView| message_of(e)),
            text::views(out@) == seqs::filter_map(rest.take(i - from), f),
        decreases events@.len() - i,
    {
        proof {
            seqs::lemma_take_push(rest, i - from);
            assert(rest[i - from] == events@[i as int]@);
            seqs::lemma_filter_map_push(rest.take(i - from), f, events@[i as int]@);
        }
        if let Some(m) = event_to_message(&events[i]) {
            let ghost before = text::views(out@);
            out.push(m);
            assert(text::views(out@) =~= before.push(m@));
        }
        i += 1;
    }
    assert(rest.take(i - from) =~= rest);
    out
}

/// Converts raw events to messages.
pub fn events_to_messages(events: &Vec<Event>) -> (r: Vec<ChatMessage>)
    ensures
        text::views(r@) == messages_of(text::views(events@)),
{
    assert(text::views(events@).skip(0) =~= text::views(events@));
    messages_from(events, 0)
}

// ── What a reply becomes ───────────────────────────────────────────────────

proof fn lemma_call_returns(c: ToolCallView)
    ensures
        call_of(types::tool_call_json(c)) == Some(c),
{
    reveal_strlit("id");
    reveal_strlit("type");
    reveal_strlit("function");
    reveal_strlit("name");
    reveal_strlit("arguments");
    reveal_strlit("extra_content");
    assert("id"@.len() == 2 && "type"@.len() == 4 && "function"@.len() == 8 && "name"@.len() == 4
        && "arguments"@.len() == 9 && "extra_content"@.len() == 13);
}

proof fn lemma_calls_return(calls: Seq<ToolCallView>)
    ensures
        seqs::filter_map(
            calls.map_values(|c: ToolCallView| types::tool_call_json(c)),
            |tc: JsonView| call_of(tc),
        ) == calls,
    decreases calls.len(),
{
    let wire = calls.map_values(|c: ToolCallView| types::tool_call_json(c));
    if calls.len() == 0 {
        assert(seqs::filter_map(wire, |tc: JsonView| call_of(tc)) =~= calls);
    } else {
        lemma_calls_return(calls.drop_last());
        lemma_call_returns(calls.last());
        assert(wire.drop_last() =~= calls.drop_last().map_values(
            |c: ToolCallView| types::tool_call_json(c),
        ));
        assert(calls.drop_last().push(calls.last()) =~= calls);
    }
}

/// A reply that was published comes back in the context with its text, its tool
/// calls and the provider's own blocks unchanged. Only a reply with neither text
/// nor tool calls leaves no message.
pub proof fn law_reply_returns(response: ResponseView)
    ensures
        spoken(strategy::assistant_payload(response, None)) == (if response.tool_calls.len() == 0
            && response.content is None {
            None
        } else {
            Some(
                MessageView {
                    role: Role::Assistant,
                    content: response.content,
                    parts: Seq::empty(),
                    tool_calls: if response.tool_calls.len() > 0 {
                        Some(response.tool_calls)
                    } else {
                        None
                    },
                    tool_call_id: None,
                    name: None,
                    provider_extra: response.provider_extra,
                },
            )
        }),
{
    reveal_strlit("content");
    reveal_strlit("tool_calls");
    reveal_strlit("reasoning_content");
    reveal_strlit("provider_extra");
    assert("content"@.len() == 7 && "tool_calls"@.len() == 10 && "reasoning_content"@.len() == 17
        && "provider_extra"@.len() == 14);
    lemma_calls_return(response.tool_calls);
}

// ── Assemblers ─────────────────────────────────────────────────────────────

/// What was converted before: the messages of the first `event_count` events, of
/// which the last had the given ID.
pub struct MessageCache {
    pub last_event_id: EventId,
    pub event_count: usize,
    pub messages: Vec<ChatMessage>,
}

#[verifier::ext_equal]
pub struct CacheView {
    pub last_event_id: EventId,
    pub event_count: usize,
    pub messages: Seq<MessageView>,
}

pub open spec fn opt_cache(c: Option<MessageCache>) -> Option<CacheView> {
    match c {
        Some(k) => Some(
            CacheView {
                last_event_id: k.last_event_id,
                event_count: k.event_count,
                messages: text::views(k.messages@),
            },
        ),
        None => None,
    }
}

/// Whether a cache holds the conversion of `events`.
pub open spec fn caches(c: Option<CacheView>, events: Seq<EventView>) -> bool {
    match c {
        None => events.len() == 0,
        Some(k) => {
            &&& events.len() > 0
            &&& k.last_event_id == events.last().id
            &&& k.event_count == events.len()
            &&& k.messages == messages_of(events)
        },
    }
}

/// Whether a cache can be extended to `events`: the event that it ended with
/// stands where it stood.
pub open spec fn extends_cache(k: CacheView, events: Seq<EventView>) -> bool {
    k.event_count > 0 && events.len() >= k.event_count && events[k.event_count - 1].id
        == k.last_event_id
}

/// The messages and the cache that a conversion with a cache gives.
pub open spec fn with_cache(c: Option<CacheView>, events: Seq<EventView>) -> (
    Seq<MessageView>,
    Option<CacheView>,
) {
    if events.len() == 0 {
        (Seq::empty(), None)
    } else {
        let fresh = CacheView {
            last_event_id: events.last().id,
            event_count: events.len() as usize,
            messages: messages_of(events),
        };
        match c {
            Some(k) => if k.last_event_id == events.last().id {
                (k.messages, c)
            } else if extends_cache(k, events) {
                let messages = k.messages + messages_of(events.skip(k.event_count as int));
                (messages, Some(CacheView { messages, ..fresh }))
            } else {
                (fresh.messages, Some(fresh))
            },
            None => (fresh.messages, Some(fresh)),
        }
    }
}

/// Converting a log that grew since the last time gives the same messages as
/// converting it from the start, and leaves a cache of it.
pub proof fn law_cache_is_transparent(
    c: Option<CacheView>,
    before: Seq<EventView>,
    events: Seq<EventView>,
)
    requires
        caches(c, before),
        before.is_prefix_of(events),
        events.len() <= usize::MAX,
        forall|i: int, j: int|
            0 <= i < j < events.len() ==> (#[trigger] events[i]).id != (#[trigger] events[j]).id,
    ensures
        with_cache(c, events).0 == messages_of(events),
        caches(with_cache(c, events).1, events),
{
    if events.len() == 0 {
        assert(messages_of(events) =~= Seq::empty());
    } else if before.len() > 0 {
        let n = before.len();
        assert(events[n - 1] == before.last());
        if before.last().id == events.last().id {
            assert(events[events.len() - 1] == events.last());
            assert(n == events.len());
            assert(before =~= events);
        } else {
            assert(events.take(n as int) =~= before);
            assert(before + events.skip(n as int) =~= events);
            seqs::lemma_filter_map_concat(
                before,
                events.skip(n as int),
                |e: EventView| message_of(e),
            );
        }
    }
}

/// Build (or extend) the messages using the incremental cache.
pub fn build_with_cache(cache: &mut Option<MessageCache>, events: &Vec<Event>) -> (r: Vec<
    ChatMessage,
>)
    ensures
        (text::views(r@), opt_cache(*final(cache))) == with_cache(opt_cache(*old(cache)), text::views(events@)),
{
    let ghost es = text::views(events@);
    let n: usize = events.len();
    if n == 0 {
        *cache = None;
        let none: Vec<ChatMessage> = Vec::new();
        assert(text::views(none@) =~= Seq::empty());
        return none;
    }
    let last: EventId = events[n - 1].id;
    assert(es.last() == events@[n - 1]@);
    let held = cache.take();
    match held {
        Some(c) => {
            if c.last_event_id == last {
                let out = c.messages.clone();
                assert(text::views(out@) =~= text::views(c.messages@));
                *cache = Some(c);
                return out;
            }
            if c.event_count > 0 && n >= c.event_count && events[c.event_count - 1].id
                == c.last_event_id {
                assert(es[c.event_count - 1] == events@[c.event_count - 1]@);
                let mut more = messages_from(events, c.event_count);
                let mut all = c.messages;
                let ghost a = text::views(all@);
                let ghost b = text::views(more@);
                all.append(&mut more);
                assert(text::views(all@) =~= a + b);
                let out = all.clone();
                assert(text::views(out@) =~= text::views(all@));
                *cache = Some(MessageCache { last_event_id: last, event_count: n, messages: all });
                return out;
            }
            proof {
                if c.event_count > 0 && n >= c.event_count {
                    assert(es[c.event_count - 1] == events@[c.event_count - 1]@);
                }
            }
        },
        None => {},
    }
    let messages = events_to_messages(events);
    let out = messages.clone();
    assert(text::views(out@) =~= text::views(messages@));
    *cache = Some(MessageCache { last_event_id: last, event_count: n, messages });
    out
}

/// Converts events sequentially into chat messages, with an optional system
/// prompt, an incremental cache and an optional window of recent events.
pub struct DefaultContextAssembler {
    pub system_prompt: Option<String>,
    pub max_events: Option<usize>,
    pub cache: Option<MessageCache>,
}

/// The system prompt as a message, where there is one.
pub open spec fn prompt_messages(prompt: Option<Seq<char>>) -> Seq<MessageView> {
    match prompt {
        Some(t) => seq![types::text_message(Role::System, t)],
        None => Seq::empty(),
    }
}

/// The last `n` items, or all of them.
pub open spec fn newest<A>(s: Seq<A>, n: int) -> Seq<A> {
    if s.len() > n {
        s.skip(s.len() - n)
    } else {
        s
    }
}

impl DefaultContextAssembler {
    pub fn new(system_prompt: &str) -> (r: DefaultContextAssembler)
        ensures
            json::opt_text(r.system_prompt) == Some(system_prompt@),
            r.max_events is None,
            r.cache is None,
    {
        DefaultContextAssembler {
            system_prompt: Some(system_prompt.to_owned()),
            max_events: None,
            cache: None,
        }
    }

    pub fn without_system_prompt() -> (r: DefaultContextAssembler)
        ensures
            r.system_prompt is None,
            r.max_events is None,
            r.cache is None,
    {
        DefaultContextAssembler { system_prompt: None, max_events: None, cache: None }
    }

    /// Caps the context to the most recent `n` events. Older events are left out
    /// but remain in the log. Bypasses the cache.
    pub fn with_max_events(self, n: usize) -> (r: DefaultContextAssembler)
        ensures
            r == (DefaultContextAssembler { max_events: Some(n), ..self }),
    {
        let mut out = self;
        out.max_events = Some(n);
        out
    }

    /// The messages of a request: the system prompt, then the events.
    pub fn assemble(&mut self, events: &Vec<Event>) -> (r: Vec<ChatMessage>)
        ensures
            old(self).system_prompt matches Some(t) ==> r@.len() > 0 && r@[0]@.role == Role::System
                && r@[0]@.content == Some(t@),
            final(self).system_prompt == old(self).system_prompt,
            final(self).max_events == old(self).max_events,
            match old(self).max_events {
                Some(n) => text::views(r@) == prompt_messages(json::opt_text(old(self).system_prompt))
                    + messages_of(newest(text::views(events@), n as int)) && final(self).cache
                    == old(self).cache,
                None => {
                    let (messages, cache) = with_cache(
                        opt_cache(old(self).cache),
                        text::views(events@),
                    );
                    text::views(r@) == prompt_messages(json::opt_text(old(self).system_prompt)) + messages
                        && opt_cache(final(self).cache) == cache
                },
            },
    {
        let mut out: Vec<ChatMessage> = Vec::new();
        if let Some(t) = &self.system_prompt {
            out.push(ChatMessage::system(t.as_str()));
        }
        assert(text::views(out@) =~= prompt_messages(json::opt_text(old(self).system_prompt)));
        let ghost head = text::views(out@);
        let mut more = match self.max_events {
            Some(max) => {
                let n: usize = events.len();
                let start: usize = if n > max {
                    n - max
                } else {
                    0
                };
                assert(text::views(events@).skip(start as int) =~= newest(text::views(events@), max as int));
                messages_from(events, start)
            },
            None => build_with_cache(&mut self.cache, events),
        };
        let ghost tail = text::views(more@);
        out.append(&mut more);
        assert(text::views(out@) =~= head + tail);
        proof {
            if let Some(t) = old(self).system_prompt {
                assert(text::views(out@)[0] == out@[0]@);
            }
        }
        out
    }
}

/// The messages with a fixed system prompt before them.
pub fn with_system_prompt(system_prompt: &str, events: &Vec<Event>) -> (r: Vec<ChatMessage>)
    ensures
        text::views(r@) == seq![types::text_message(Role::System, system_prompt@)] + messages_of(text::views(events@)),
        r@.len() > 0,
        r@[0]@.role == Role::System,
        r@[0]@.content == Some(system_prompt@),
        text::views(r@).skip(1) == messages_of(text::views(events@)),
{
    let mut out: Vec<ChatMessage> = Vec::new();
    out.push(ChatMessage::system(system_prompt));
    let ghost head = text::views(out@);
    assert(head =~= seq![types::text_message(Role::System, system_prompt@)]);
    let mut more = events_to_messages(events);
    let ghost tail = text::views(more@);
    out.append(&mut more);
    assert(text::views(out@) =~= head + tail);
    proof {
        assert(text::views(out@)[0] == out@[0]@);
        assert(text::views(out@).skip(1) =~= tail);
    }
    out
}

// ── Negative context ───────────────────────────────────────────────────────

/// How many messages at the start are of the system.
pub open spec fn leading_systems(messages: Seq<MessageView>) -> int
    decreases messages.len(),
{
    if messages.len() > 0 && messages[0].role == Role::System {
        1 + leading_systems(messages.skip(1))
    } else {
        0
    }
}

/// The messages with a system message after the leading ones.
pub open spec fn with_warning(messages: Seq<MessageView>, warning: Seq<char>) -> Seq<MessageView> {
    messages.insert(leading_systems(messages), types::text_message(Role::System, warning))
}

fn count_leading(messages: &Vec<ChatMessage>) -> (r: usize)
    ensures
        r == leading_systems(text::views(messages@)),
        r <= messages@.len(),
{
    let ghost ms = text::views(messages@);
    let mut i: usize = 0;
    assert(ms.skip(0) =~= ms);
    while i < messages.len() && messages[i].role == Role::System
        invariant
            i <= messages@.len(),
            ms == text::views(messages@),
            leading_systems(ms) == i + leading_systems(ms.skip(i as int)),
        decreases messages@.len() - i,
    {
        proof {
            assert(ms.skip(i as int)[0] == messages@[i as int]@);
            assert(ms.skip(i as int).skip(1) =~= ms.skip(i + 1));
        }
        i += 1;
    }
    proof {
        if i < messages.len() {
            assert(ms.skip(i as int)[0] == messages@[i as int]@);
        }
    }
    i
}

/// Injects the summary of failed branches after the leading system messages;
/// without failed branches there is nothing to inject.
pub fn inject_negative(messages: Vec<ChatMessage>, rejected: usize, summary: &str) -> (r: Vec<
    ChatMessage,
>)
    ensures
        rejected == 0 ==> r@ == messages@,
        rejected > 0 ==> text::views(r@) == with_warning(text::views(messages@), summary@),
{
    if rejected == 0 {
        return messages;
    }
    let mut out = messages;
    let at = count_leading(&out);
    out.insert(at, ChatMessage::system(summary));
    assert(text::views(out@) =~= with_warning(text::views(messages@), summary@));
    out
}

/// The longest prefix of `s` that takes at most `max` bytes.
pub fn truncate(s: &str, max: usize) -> (r: String)
    ensures
        r@ == s@.take(text::fitting(s@, max as int)),
{
    let v = chars_of(s);
    let total = bytes_in(s);
    let (k, _) = fit_prefix(&v, total, max);
    let out = string_of(&v, 0, k);
    assert(out@ =~= s@.take(k as int));
    out
}

/// A text cut to `max` bytes at a character boundary.
pub open spec fn cut(s: Seq<char>, max: int) -> Seq<char> {
    s.take(text::fitting(s, max))
}

/// A text inside the function of a call item, or `other`.
pub open spec fn function_text(tc: JsonView, key: Seq<char>, other: Seq<char>) -> Seq<char> {
    match tc.get("function"@) {
        Some(f) => match f.text_at(key) {
            Some(t) => t,
            None => other,
        },
        None => other,
    }
}

/// The line about a tool call.
pub open spec fn call_line(tc: JsonView) -> Seq<char> {
    "  Called tool: "@ + function_text(tc, "name"@, "?"@) + "("@ + cut(
        function_text(tc, "arguments"@, "{}"@),
        150,
    ) + ")"@
}

/// The lines about an event of a failed branch.
pub open spec fn failure_lines(e: EventView) -> Seq<Seq<char>> {
    if e.kind == kinds::ASSISTANT_MESSAGE@ {
        let said = match e.payload.text_at("content"@) {
            Some(t) => if t.len() > 0 {
                seq!["  Assistant said: "@ + cut(t, 200)]
            } else {
                Seq::empty()
            },
            None => Seq::empty(),
        };
        let calls = match e.payload.array_at("tool_calls"@) {
            Some(a) => a.map_values(|tc: JsonView| call_line(tc)),
            None => Seq::empty(),
        };
        said + calls
    } else if e.kind == kinds::TOOL_RESULT@ {
        match e.payload.text_at("error"@) {
            Some(t) => seq!["  Tool error: "@ + cut(t, 200)],
            None => Seq::empty(),
        }
    } else {
        Seq::empty()
    }
}

/// The text about the failed branch with number `n`.
pub open spec fn attempt_text(n: nat, branch: Seq<EventView>) -> Seq<char> {
    text::join(
        seq!["Attempt "@ + text::decimal(n) + ":"@] + seqs::flat_map(branch, |e: EventView| failure_lines(e)),
        "\n"@,
    )
}

/// The line above the failed branches.
pub open spec fn negative_heading() -> Seq<char> {
    "⚠ Previous attempt(s) on this"@ + " task failed. Do NOT repeat these approaches:"@
}

/// The text about failed branches.
pub open spec fn negative_text(branches: Seq<Seq<EventView>>) -> Seq<char> {
    text::join(
        seq![negative_heading()]
            + Seq::new(
            branches.len(),
            |i: int| attempt_text((i + 1) as nat, branches[i]),
        ),
        "\n"@,
    )
}

fn function_text_of(tc: &Json, key: &str, other: &str) -> (r: String)
    ensures
        r@ == function_text(tc@, key@, other@),
{
    match tc.get("function") {
        Some(f) => match f.text_at(key) {
            Some(t) => t.to_owned(),
            None => other.to_owned(),
        },
        None => other.to_owned(),
    }
}

fn call_line_of(tc: &Json) -> (r: String)
    ensures
        r@ == call_line(tc@),
{
    let name = function_text_of(tc, "name", "?");
    let args = function_text_of(tc, "arguments", "{}");
    let short = truncate(args.as_str(), 150);
    let mut out = "  Called tool: ".to_owned();
    out.push_str(name.as_str());
    out.push_str("(");
    out.push_str(short.as_str());
    out.push_str(")");
    out
}

fn failure_lines_of(e: &Event) -> (r: Vec<String>)
    ensures
        text::views(r@) == failure_lines(e@),
{
    let mut out: Vec<String> = Vec::new();
    assert(text::views(out@) =~= Seq::empty());
    let kind = e.kind.as_str();
    if same(kind, kinds::ASSISTANT_MESSAGE) {
        if let Some(t) = e.payload.text_at("content") {
            if !t.is_empty() {
                let mut line = "  Assistant said: ".to_owned();
                let short = truncate(t, 200);
                line.push_str(short.as_str());
                out.push(line);
                assert(text::views(out@) =~= seq![line@]);
            }
        }
        let ghost said = text::views(out@);
        if let Some(a) = e.payload.array_at("tool_calls") {
            let ghost items = json::items_view(a@);
            let ghost all = items.map_values(|tc: JsonView| call_line(tc));
            let mut i: usize = 0;
            assert(said + all.take(0) =~= said);
            while i < a.len()
                invariant
                    i <= a@.len(),
                    items == json::items_view(a@),
                    all == items.map_values(|tc: JsonView| call_line(tc)),
                    text::views(out@) == said + all.take(i as int),
                decreases a@.len() - i,
            {
                proof {
                    json::lemma_items_view(a@);
                    assert(items[i as int] == a@[i as int]@);
                    seqs::lemma_take_push(all, i as int);
                }
                let line = call_line_of(&a[i]);
                let ghost before = text::views(out@);
                out.push(line);
                proof {
                    assert(text::views(out@) =~= before.push(line@));
                    assert(before.push(line@) =~= said + all.take(i + 1));
                }
                i += 1;
            }
            proof {
                json::lemma_items_view(a@);
                assert(all.take(i as int) =~= all);
            }
        }
        assert(text::views(out@) =~= failure_lines(e@));
    } else if same(kind, kinds::TOOL_RESULT) {
        if let Some(t) = e.payload.text_at("error") {
            let mut line = "  Tool error: ".to_owned();
            let short = truncate(t, 200);
            line.push_str(short.as_str());
            out.push(line);
            assert(text::views(out@) =~= seq![line@]);
        }
    }
    out
}

fn attempt_text_of(n: usize, branch: &Vec<Event>) -> (r: String)
    ensures
        r@ == attempt_text(n as nat, text::views(branch@)),
{
    let mut label = "Attempt ".to_owned();
    let number = decimal_of(n as u64);
    label.push_str(number.as_str());
    label.push_str(":");
    let mut details: Vec<String> = Vec::new();
    details.push(label);
    let ghost head = text::views(details@);
    assert(head =~= seq!["Attempt "@ + text::decimal(n as nat) + ":"@]);
    let ghost es = text::views(branch@);
    let ghost f = |e: EventView| failure_lines(e);
    let mut i: usize = 0;
    assert(head + seqs::flat_map(es.take(0), f) =~= head);
    while i < branch.len()
        invariant
            i <= branch@.len(),
            es == text::views(branch@),
            f == (|e: EventView| failure_lines(e)),
            text::views(details@) == head + seqs::flat_map(es.take(i as int), f),
        decreases branch@.len() - i,
    {
        proof {
            seqs::lemma_take_push(es, i as int);
            seqs::lemma_flat_map_push(es.take(i as int), f, es[i as int]);
        }
        let mut lines = failure_lines_of(&branch[i]);
        let ghost before = text::views(details@);
        let ghost more = text::views(lines@);
        details.append(&mut lines);
        proof {
            assert(text::views(details@) =~= before + more);
            assert(before + more =~= head + (seqs::flat_map(es.take(i as int), f) + more));
        }
        i += 1;
    }
    assert(es.take(i as int) =~= es);
    join_strs(&details, "\n")
}

/// The views of branches of events.
pub open spec fn branch_views(branches: Seq<Vec<Event>>) -> Seq<Seq<EventView>> {
    branches.map_values(|b: Vec<Event>| text::views(b@))
}

/// Default text about rejected trajectories: a plain-English summary of each
/// failed branch, listing the assistant messages and tool errors.
pub fn default_negative_context_format(branches: &Vec<Vec<Event>>) -> (r: String)
    requires
        branches@.len() < usize::MAX,
    ensures
        r@ == negative_text(branch_views(branches@)),
{
    let mut parts: Vec<String> = Vec::new();
    let mut heading = "⚠ Previous attempt(s) on this".to_owned();
    heading.push_str(" task failed. Do NOT repeat these approaches:");
    parts.push(heading);
    let ghost bs = branch_views(branches@);
    let ghost head = text::views(parts@);
    assert(head =~= seq![negative_heading()]);
    let ghost all = Seq::new(bs.len(), |i: int| attempt_text((i + 1) as nat, bs[i]));
    let mut i: usize = 0;
    assert(head + all.take(0) =~= head);
    while i < branches.len()
        invariant
            i <= branches@.len(),
            branches@.len() < usize::MAX,
            bs == branch_views(branches@),
            all == Seq::new(bs.len(), |i: int| attempt_text((i + 1) as nat, bs[i])),
            text::views(parts@) == head + all.take(i as int),
        decreases branches@.len() - i,
    {
        let text = attempt_text_of(i + 1, &branches[i]);
        let ghost before = text::views(parts@);
        parts.push(text);
        proof {
            seqs::lemma_take_push(all, i as int);
            assert(text::views(parts@) =~= before.push(text@));
            assert(before.push(text@) =~= head + all.take(i + 1));
        }
        i += 1;
    }
    assert(all.take(i as int) =~= all);
    join_strs(&parts, "\n")
}

} // verus!
