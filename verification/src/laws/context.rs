//! Laws of the context: what of the log reaches the model.
use crate::agent::context;
use crate::agent::strategy;
use crate::agent::strategy::ToolOutcome;
use crate::event::EventView;
use crate::json;
use crate::json::JsonView;
use crate::llm::content;
use crate::llm::content::PartView;
use crate::llm::types::{MessageView, Role};
use crate::seqs;
use crate::text;
use vstd::prelude::*;

verus! {

/// A tool outcome that was published comes back: the tool message carries the call's ID
/// and the printed text of the result, whatever kind of value it is.
pub proof fn law_result_returns(e: EventView, id: Seq<char>, v: JsonView)
    requires
        e.kind == "tool.result"@,
        e.payload.text_at("tool_call_id"@) == Some(id),
        e.payload.get("result"@) == Some(v),
    ensures
        context::message_of(e) == Some(
            MessageView {
                role: Role::Tool,
                content: Some(json::json_text(v)),
                parts: Seq::empty(),
                tool_calls: None,
                tool_call_id: Some(id),
                name: None,
                provider_extra: None,
            },
        ),
{
    lemma_message_kinds();
}

/// An error that was published comes back as the text of the call's tool message.
pub proof fn law_error_returns(e: EventView, id: Seq<char>, error: JsonView)
    requires
        e.kind == "tool.result"@,
        e.payload.text_at("tool_call_id"@) == Some(id),
        e.payload.get("result"@) is None,
        e.payload.get("error"@) == Some(error),
    ensures
        context::message_of(e) == Some(
            MessageView {
                role: Role::Tool,
                content: Some("error: "@ + json::json_text(error)),
                parts: Seq::empty(),
                tool_calls: None,
                tool_call_id: Some(id),
                name: None,
                provider_extra: None,
            },
        ),
{
    lemma_message_kinds();
}

/// The kinds of events that stand for messages are different.
proof fn lemma_message_kinds()
    ensures
        "tool.result"@ != "user.message"@,
        "tool.result"@ != "assistant.message"@,
        "user.message"@ != "assistant.message"@,
        "tool.result"@ != "agent.message"@,
        "tool.result"@ != "system.message"@,
        "assistant.message"@ != "agent.message"@,
        "assistant.message"@ != "system.message"@,
{
    reveal_strlit("tool.result");
    reveal_strlit("user.message");
    reveal_strlit("assistant.message");
    reveal_strlit("agent.message");
    reveal_strlit("system.message");
    assert("tool.result"@.len() == 11 && "user.message"@.len() == 12 && "assistant.message"@.len()
        == 17 && "agent.message"@.len() == 13 && "system.message"@.len() == 14);
}

/// What a tool gave reaches the model: for an executed call whose value is within the
/// size limit, the context holds the printed value under the call's ID; for one that
/// failed, the error.
pub proof fn law_outcome_reaches_the_model(
    e: EventView,
    id: Seq<char>,
    name: Seq<char>,
    outcome: ToolOutcome,
    max: Option<usize>,
)
    requires
        e.kind == "tool.result"@,
        e.payload == strategy::outcome_payload(id, name, outcome, max),
    ensures
        context::message_of(e) is Some,
        context::message_of(e)->0.role == Role::Tool,
        context::message_of(e)->0.tool_call_id == Some(id),
        outcome matches ToolOutcome::Finished(v) ==> (max matches Some(n) ==> text::byte_len(
            json::json_text(v@),
        ) <= n) ==> context::message_of(e)->0.content == Some(json::json_text(v@)),
        outcome matches ToolOutcome::Failed(t) ==> context::message_of(e)->0.content == Some(
            "error: "@ + json::json_text(JsonView::Text(t@)),
        ),
{
    lemma_message_kinds();
    reveal_strlit("tool_call_id");
    reveal_strlit("name");
    reveal_strlit("result");
    reveal_strlit("error");
    assert("tool_call_id"@.len() == 12 && "name"@.len() == 4 && "result"@.len() == 6
        && "error"@.len() == 5);
}

/// What a person, another agent or the system says comes back as a user message with
/// its text, and with the sender's name where there is one.
pub proof fn law_said_text_returns(e: EventView, t: Seq<char>)
    requires
        e.kind == "user.message"@ || e.kind == "agent.message"@ || e.kind == "system.message"@,
        e.payload.text_at("text"@) == Some(t),
    ensures
        context::message_of(e) == Some(
            MessageView {
                role: Role::User,
                content: Some(t),
                parts: Seq::empty(),
                tool_calls: None,
                tool_call_id: None,
                name: match e.payload.text_at("name"@) {
                    Some(n) => if n.len() > 0 {
                        Some(n)
                    } else {
                        None
                    },
                    None => None,
                },
                provider_extra: None,
            },
        ),
{
    lemma_message_kinds();
}

/// A reply with a text and without tool calls comes back as that text.
pub proof fn law_plain_reply_returns(e: EventView, t: Seq<char>)
    requires
        e.kind == "assistant.message"@,
        e.payload.text_at("content"@) == Some(t),
        match e.payload.array_at("tool_calls"@) {
            Some(a) => a.len() == 0,
            None => true,
        },
    ensures
        context::message_of(e) == Some(
            MessageView {
                role: Role::Assistant,
                content: Some(t),
                parts: Seq::empty(),
                tool_calls: None,
                tool_call_id: None,
                name: None,
                provider_extra: e.payload.get("provider_extra"@),
            },
        ),
{
    lemma_message_kinds();
}

/// A proposed call comes back: an item of a reply with an ID, a name and arguments is a
/// tool call of the message, in its place among the others.
pub proof fn law_proposed_calls_return(e: EventView, calls: Seq<JsonView>)
    requires
        e.kind == "assistant.message"@,
        e.payload.array_at("tool_calls"@) == Some(calls),
        calls.len() > 0,
        forall|i: int|
            0 <= i < calls.len() ==> (#[trigger] calls[i]).text_at("id"@) is Some
                && calls[i].get("function"@) is Some && calls[i].get("function"@)->0.text_at(
                "name"@,
            ) is Some && calls[i].get("function"@)->0.text_at("arguments"@) is Some,
    ensures
        context::message_of(e) is Some,
        context::message_of(e)->0.role == Role::Assistant,
        context::message_of(e)->0.content == e.payload.text_at("content"@),
        context::message_of(e)->0.tool_calls is Some,
        context::message_of(e)->0.tool_calls->0.len() == calls.len(),
        forall|i: int|
            0 <= i < calls.len() ==> {
                let c = #[trigger] context::message_of(e)->0.tool_calls->0[i];
                &&& Some(c.id) == calls[i].text_at("id"@)
                &&& Some(c.name) == calls[i].get("function"@)->0.text_at("name"@)
                &&& Some(c.arguments) == calls[i].get("function"@)->0.text_at("arguments"@)
                &&& calls[i].text_at("type"@) is Some ==> Some(c.kind) == calls[i].text_at("type"@)
                &&& c.extra_content == calls[i].get("extra_content"@)
            },
{
    lemma_message_kinds();
    let f = |tc: JsonView| context::call_of(tc);
    assert forall|i: int| 0 <= i < calls.len() implies f(#[trigger] calls[i]) is Some by {}
    seqs::lemma_filter_map_total(calls, f);
}

/// The context is made event by event: the messages of a log are those of its first
/// part and then those of the rest, and one event gives its own message or none.
pub proof fn law_context_follows_the_log(a: Seq<EventView>, b: Seq<EventView>, e: EventView)
    ensures
        context::messages_of(a + b) == context::messages_of(a) + context::messages_of(b),
        match context::message_of(e) {
            Some(m) => context::messages_of(seq![e]) == seq![m],
            None => context::messages_of(seq![e]).len() == 0,
        },
{
    let f = |e: EventView| context::message_of(e);
    seqs::lemma_filter_map_concat(a, b, f);
    assert(seq![e] =~= Seq::<EventView>::empty().push(e));
    seqs::lemma_filter_map_push(Seq::<EventView>::empty(), f, e);
    assert(seqs::filter_map(Seq::<EventView>::empty(), f) =~= Seq::empty());
    if let Some(m) = context::message_of(e) {
        assert(context::messages_of(seq![e]) =~= seq![m]);
    }
}

/// Events of no other kind reach the model.
pub proof fn law_other_events_are_not_messages(e: EventView)
    requires
        e.kind != "user.message"@,
        e.kind != "assistant.message"@,
        e.kind != "tool.result"@,
        e.kind != "agent.message"@,
        e.kind != "system.message"@,
    ensures
        context::message_of(e) is None,
{
}

/// A system prompt is one system message with its text.
pub proof fn law_prompt_is_a_system_message(prompt: Option<Seq<char>>)
    ensures
        match prompt {
            Some(t) => context::prompt_messages(prompt).len() == 1 && context::prompt_messages(
                prompt,
            )[0].role == Role::System && context::prompt_messages(prompt)[0].content == Some(t)
                && context::prompt_messages(prompt)[0].parts.len() == 0,
            None => context::prompt_messages(prompt).len() == 0,
        },
{
}

/// A window holds the newest items, as many as it may, in their order.
pub proof fn law_window_holds_the_newest<A>(s: Seq<A>, n: int)
    requires
        0 <= n,
    ensures
        context::newest(s, n).len() == (if s.len() > n {
            n
        } else {
            s.len() as int
        }),
        context::newest(s, n).is_suffix_of(s),
{
}

proof fn lemma_leading(messages: Seq<MessageView>)
    ensures
        0 <= context::leading_systems(messages) <= messages.len(),
        forall|i: int|
            0 <= i < context::leading_systems(messages) ==> (#[trigger] messages[i]).role
                == Role::System,
        context::leading_systems(messages) < messages.len() ==> messages[context::leading_systems(
            messages,
        )].role != Role::System,
    decreases messages.len(),
{
    if messages.len() > 0 && messages[0].role == Role::System {
        let rest = messages.skip(1);
        lemma_leading(rest);
        assert forall|i: int| 0 <= i < context::leading_systems(messages) implies (
        #[trigger] messages[i]).role == Role::System by {
            if i > 0 {
                assert(rest[i - 1] == messages[i]);
            }
        }
    }
}

/// A warning stands right behind the leading system messages, and nothing else changes:
/// without it the messages are what they were.
pub proof fn law_warning_stands_behind_the_prompt(messages: Seq<MessageView>, warning: Seq<char>)
    ensures
        ({
            let r = context::with_warning(messages, warning);
            exists|k: int|
                {
                    &&& 0 <= k < r.len()
                    &&& #[trigger] r[k].role == Role::System
                    &&& r[k].content == Some(warning)
                    &&& r.remove(k) == messages
                    &&& forall|i: int| 0 <= i < k ==> (#[trigger] messages[i]).role == Role::System
                    &&& k < messages.len() ==> messages[k].role != Role::System
                }
        }),
{
    lemma_leading(messages);
    let k = context::leading_systems(messages);
    let r = context::with_warning(messages, warning);
    assert(r.remove(k) =~= messages);
    assert(r[k].role == Role::System);
}

/// The text of a message with parts is the text of its text parts, one to a line.
pub proof fn law_parts_are_read_in_order(parts: Seq<PartView>, p: PartView)
    ensures
        p matches PartView::Text { text: t } ==> content::texts(parts.push(p)) == content::texts(
            parts,
        ).push(t),
        p is Image ==> content::texts(parts.push(p)) == content::texts(parts),
        content::texts(Seq::empty()).len() == 0,
        content::text_of_parts(parts) == text::join(content::texts(parts), "\n"@),
{
    assert(parts.push(p).drop_last() =~= parts);
}

} // verus!
