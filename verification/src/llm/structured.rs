//! Structured output: a completion constrained to a JSON Schema.
//!
//! Providers with native support constrain decoding on their side. Others are
//! prompted for JSON, which is then found in the text of the reply.
use crate::text;
use crate::llm::wire;
use crate::llm::types;
use crate::json;
use crate::json::{Json, JsonView};
use crate::llm::error::{LlmError, LlmErrorView};
use crate::llm::types::{
    copy_opt_text, ChatMessage, MessageView, DeltaView, LlmResponse, ResponseView, Role, StreamDelta,
};
use crate::text::{chars_of, find_chars, string_of, strip_prefix_str, trim_start_char_str, trim_str};
use vstd::prelude::*;

verus! {

/// A text without the occurrences of `p` at its start.
pub open spec fn without_prefix(s: Seq<char>, p: Seq<char>) -> Seq<char>
    decreases s.len(),
{
    if p.len() > 0 {
        match text::after_prefix(s, p) {
            Some(rest) => if rest.len() < s.len() {
                without_prefix(rest, p)
            } else {
                s
            },
            None => s,
        }
    } else {
        s
    }
}

/// What stands after the first occurrence of `p`.
pub open spec fn behind(s: Seq<char>, p: Seq<char>) -> Option<Seq<char>> {
    match text::find(s, p) {
        Some(i) => Some(s.skip(i + p.len())),
        None => None,
    }
}

/// What a fence of three backquotes encloses, without the word `json` and the line
/// breaks at its start; the whole text where there is no such fence.
pub open spec fn unfenced(s: Seq<char>) -> Seq<char> {
    match behind(s, "```"@) {
        None => s,
        Some(rest) => {
            let body = text::trim_start_char(without_prefix(rest, "json"@), '\n');
            match text::find(body, "```"@) {
                Some(j) => body.take(j),
                None => s,
            }
        },
    }
}

/// The first opening bracket at or after `i`, or the length of `s`.
pub open spec fn first_open(s: Seq<char>, i: int) -> int
    decreases s.len() - i,
{
    if i >= s.len() || s[i] == '{' || s[i] == '[' {
        i
    } else {
        first_open(s, i + 1)
    }
}

/// How long `s` is up to its last closing bracket, that one included.
pub open spec fn last_close(s: Seq<char>) -> int
    decreases s.len(),
{
    if s.len() == 0 || s.last() == '}' || s.last() == ']' {
        s.len() as int
    } else {
        last_close(s.drop_last())
    }
}

/// From the first opening bracket to the last closing one.
pub open spec fn bracketed(s: Seq<char>) -> Option<Seq<char>> {
    let (from, to) = (first_open(s, 0), last_close(s));
    if from + 1 < to {
        Some(s.subrange(from, to))
    } else {
        None
    }
}

/// The texts in which a JSON value is looked for, in order: the whole text, what a
/// fence encloses, and the widest bracketed span.
pub open spec fn json_candidates(s: Seq<char>) -> Seq<Seq<char>> {
    let two = seq![text::trim(s), text::trim(unfenced(s))];
    match bracketed(unfenced(s)) {
        Some(span) => two.push(span),
        None => two,
    }
}

/// The value of the first text that is a JSON document.
pub open spec fn first_parsed(texts: Seq<Seq<char>>) -> Option<JsonView>
    decreases texts.len(),
{
    if texts.len() == 0 {
        None
    } else {
        match json::parsed_json(texts[0]) {
            Ok(j) => Some(j),
            Err(_) => first_parsed(texts.skip(1)),
        }
    }
}

/// A reply that is JSON as a whole is taken as it is; the value of any other reply is
/// one that a part of it writes.
pub proof fn law_value_is_in_the_reply(s: Seq<char>)
    ensures
        match json::parsed_json(text::trim(s)) {
            Ok(j) => first_parsed(json_candidates(s)) == Some(j),
            Err(_) => match first_parsed(json_candidates(s)) {
                Some(j) => exists|i: int|
                    0 <= i < json_candidates(s).len() && json::parsed_json(
                        #[trigger] json_candidates(s)[i],
                    ) == Ok::<JsonView, Seq<char>>(j),
                None => forall|i: int|
                    0 <= i < json_candidates(s).len() ==> json::parsed_json(
                        #[trigger] json_candidates(s)[i],
                    ) is Err,
            },
        },
{
    lemma_first_parsed(json_candidates(s));
}

proof fn lemma_first_parsed(texts: Seq<Seq<char>>)
    ensures
        match first_parsed(texts) {
            Some(j) => exists|i: int|
                0 <= i < texts.len() && json::parsed_json(#[trigger] texts[i]) == Ok::<
                    JsonView,
                    Seq<char>,
                >(j),
            None => forall|i: int|
                0 <= i < texts.len() ==> json::parsed_json(#[trigger] texts[i]) is Err,
        },
    decreases texts.len(),
{
    if texts.len() > 0 && json::parsed_json(texts[0]) is Err {
        let rest = texts.skip(1);
        lemma_first_parsed(rest);
        match first_parsed(rest) {
            Some(j) => {
                let i = choose|i: int|
                    0 <= i < rest.len() && json::parsed_json(#[trigger] rest[i]) == Ok::<
                        JsonView,
                        Seq<char>,
                    >(j);
                assert(texts[i + 1] == rest[i]);
            },
            None => {
                assert forall|i: int| 0 <= i < texts.len() implies json::parsed_json(
                    #[trigger] texts[i],
                ) is Err by {
                    if i > 0 {
                        assert(texts[i] == rest[i - 1]);
                    }
                }
            },
        }
    }
}

fn strip_word(s: String, p: &str) -> (r: String)
    requires
        p@.len() > 0,
    ensures
        r@ == without_prefix(s@, p@),
{
    let ghost start = s@;
    let mut out = s;
    loop
        invariant
            p@.len() > 0,
            start == s@,
            without_prefix(start, p@) == without_prefix(out@, p@),
        decreases out@.len(),
    {
        match strip_prefix_str(out.as_str(), p) {
            Some(rest) => {
                out = rest;
            },
            None => {
                return out;
            },
        }
    }
}

fn unfenced_of(text: &str) -> (r: String)
    ensures
        r@ == unfenced(text@),
{
    let v = chars_of(text);
    let fence = chars_of("```");
    proof {
        reveal_strlit("```");
        reveal_strlit("json");
    }
    match find_chars(&v, &fence, 0) {
        None => text.to_owned(),
        Some(i) => {
            let rest = string_of(&v, i + 3, v.len());
            assert(rest@ =~= text@.skip(i + 3));
            let word = strip_word(rest, "json");
            let body = trim_start_char_str(word.as_str(), '\n');
            let b = chars_of(body.as_str());
            match find_chars(&b, &fence, 0) {
                Some(j) => {
                    let inner = string_of(&b, 0, j);
                    assert(inner@ =~= body@.take(j as int));
                    inner
                },
                None => text.to_owned(),
            }
        },
    }
}

fn bracketed_of(text: &str) -> (r: Option<String>)
    ensures
        match (r, bracketed(text@)) {
            (Some(a), Some(b)) => a@ == b,
            (None, None) => true,
            _ => false,
        },
{
    let v = chars_of(text);
    let n: usize = v.len();
    let mut from: usize = 0;
    while from < n && v[from] != '{' && v[from] != '['
        invariant
            n == v@.len(),
            from <= n,
            first_open(v@, 0) == first_open(v@, from as int),
        decreases n - from,
    {
        from += 1;
    }
    let mut to: usize = n;
    assert(v@.take(n as int) =~= v@);
    while to > 0 && v[to - 1] != '}' && v[to - 1] != ']'
        invariant
            n == v@.len(),
            to <= n,
            last_close(v@) == last_close(v@.take(to as int)),
        decreases to,
    {
        assert(v@.take(to as int).drop_last() =~= v@.take(to - 1));
        to -= 1;
    }
    if to > 0 && from < to - 1 {
        let span = string_of(&v, from, to);
        assert(span@ =~= text@.subrange(from as int, to as int));
        Some(span)
    } else {
        None
    }
}

/// The texts in which a JSON value is looked for.
pub fn candidates(text: &str) -> (r: Vec<String>)
    ensures
        text::views(r@) == json_candidates(text@),
{
    let inner = unfenced_of(text);
    let whole = trim_str(text);
    let fenced = trim_str(inner.as_str());
    let mut out = vec![whole, fenced];
    assert(text::views(out@) =~= seq![text::trim(text@), text::trim(unfenced(text@))]);
    if let Some(span) = bracketed_of(inner.as_str()) {
        let ghost before = text::views(out@);
        out.push(span);
        assert(text::views(out@) =~= before.push(span@));
    }
    out
}

/// Extract a JSON value from model text that may be wrapped in prose or a fenced
/// code block.
pub fn extract_json(text: &str) -> (r: Option<Json>)
    ensures
        match (r, first_parsed(json_candidates(text@))) {
            (Some(j), Some(v)) => j@ == v,
            (None, None) => true,
            _ => false,
        },
{
    let list = candidates(text);
    let ghost all = text::views(list@);
    let mut i: usize = 0;
    assert(all.skip(0) =~= all);
    while i < list.len()
        invariant
            i <= list@.len(),
            all == text::views(list@),
            all == json_candidates(text@),
            first_parsed(all) == first_parsed(all.skip(i as int)),
        decreases list@.len() - i,
    {
        assert(all.skip(i as int)[0] == list@[i as int]@);
        assert(all.skip(i as int).skip(1) =~= all.skip(i + 1));
        if let Ok(j) = Json::parse(list[i].as_str()) {
            return Some(j);
        }
        i += 1;
    }
    None
}

/// The instruction that asks for JSON.
pub open spec fn instruction(name: Seq<char>, schema: JsonView) -> Seq<char> {
    "You must reply with a single JSON value named '"@ + name
        + "' that validates against this JSON Schema:\n\n"@ + json::json_text(schema)
        + "\n\nOutput ONLY the JSON — no prose, no code fences, no explanation."@
}

/// The prompt for providers without native support.
pub fn json_instruction(schema_name: &str, schema: &Json) -> (r: ChatMessage)
    ensures
        r@ == types::text_message(Role::System, instruction(schema_name@, schema@)),
{
    let mut out = "You must reply with a single JSON value named '".to_owned();
    out.push_str(schema_name);
    out.push_str("' that validates against this JSON Schema:\n\n");
    let printed = schema.print();
    out.push_str(printed.as_str());
    out.push_str("\n\nOutput ONLY the JSON — no prose, no code fences, no explanation.");
    ChatMessage::system(out.as_str())
}

/// The messages of a request for JSON.
pub open spec fn prompted(
    messages: Seq<MessageView>,
    name: Seq<char>,
    schema: JsonView,
) -> Seq<MessageView> {
    messages.push(types::text_message(Role::System, instruction(name, schema)))
}

/// The messages of a request for JSON: the instruction comes last.
pub fn prompted_messages(messages: Vec<ChatMessage>, schema_name: &str, schema: &Json) -> (r: Vec<
    ChatMessage,
>)
    ensures
        text::views(r@) == text::views(messages@).push(
            types::text_message(Role::System, instruction(schema_name@, schema@)),
        ),
        text::views(r@) == prompted(text::views(messages@), schema_name@, schema@),
{
    let mut out = messages;
    let ghost before = text::views(out@);
    let last = json_instruction(schema_name, schema);
    out.push(last);
    assert(text::views(out@) =~= before.push(last@));
    out
}

/// What is said of a reply without JSON: the start of its text.
pub open spec fn no_json(name: Seq<char>, reply: Seq<char>) -> Seq<char> {
    "model did not return JSON for schema '"@ + name + "': "@ + (if reply.len() <= 200 {
        reply
    } else {
        reply.take(200)
    })
}

/// The value in the reply to a request for JSON.
pub fn prompted_value(content: &Option<String>, schema_name: &str) -> (r: Result<Json, LlmError>)
    ensures
        ({
            let reply = wire::or_empty(crate::json::opt_text(*content));
            match (r, first_parsed(json_candidates(reply))) {
                (Ok(j), Some(v)) => j@ == v,
                (Err(e), None) => e@ == LlmErrorView::Structured(no_json(schema_name@, reply)),
                _ => false,
            }
        }),
{
    let reply = match content {
        Some(s) => s.clone(),
        None => String::new(),
    };
    assert(reply@ =~= wire::or_empty(crate::json::opt_text(*content)));
    match extract_json(reply.as_str()) {
        Some(j) => Ok(j),
        None => {
            let v = chars_of(reply.as_str());
            let n: usize = if v.len() <= 200 {
                v.len()
            } else {
                200
            };
            let start = string_of(&v, 0, n);
            assert(start@ =~= (if reply@.len() <= 200 {
                reply@
            } else {
                reply@.take(200)
            }));
            let mut out = "model did not return JSON for schema '".to_owned();
            out.push_str(schema_name);
            out.push_str("': ");
            out.push_str(start.as_str());
            Err(LlmError::Structured(out))
        },
    }
}

/// A value that was held against its schema: what is wrong with it makes an error.
pub fn checked_value(value: Json, schema_name: &str, violation: Option<String>) -> (r: Result<
    Json,
    LlmError,
>)
    ensures
        match violation {
            None => r == Ok::<Json, LlmError>(value),
            Some(v) => r matches Err(e) && e@ == LlmErrorView::Structured(
                "response did not match schema '"@ + schema_name@ + "': "@ + v@,
            ),
        },
{
    match violation {
        None => Ok(value),
        Some(v) => {
            let mut out = "response did not match schema '".to_owned();
            out.push_str(schema_name);
            out.push_str("': ");
            out.push_str(v.as_str());
            Err(LlmError::Structured(out))
        },
    }
}

/// A whole answer as the single delta of a stream, if it says anything.
pub open spec fn whole_delta(r: ResponseView) -> Option<DeltaView> {
    if r.content is Some || r.reasoning_content is Some {
        Some(DeltaView { content: r.content, reasoning_content: r.reasoning_content })
    } else {
        None
    }
}

/// A whole answer as the single delta of a stream: how a provider without
/// streaming streams.
pub fn single_delta(response: &LlmResponse) -> (r: Option<StreamDelta>)
    ensures
        match (r, whole_delta(response@)) {
            (Some(d), Some(v)) => d@ == v,
            (None, None) => true,
            _ => false,
        },
{
    if response.content.is_some() || response.reasoning_content.is_some() {
        Some(
            StreamDelta {
                content: copy_opt_text(&response.content),
                reasoning_content: copy_opt_text(&response.reasoning_content),
            },
        )
    } else {
        None
    }
}

} // verus!
