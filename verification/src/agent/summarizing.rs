//! Keeping the context within a token budget by summarizing old conversation.
//!
//! When the assembled context exceeds its budget, the oldest conversation
//! messages are summarized with a model call, and the summary takes their place.
//! Summarization is incremental: where the summary plus the remaining messages
//! still exceed the budget, the summary is extended to cover more of them.
//!
//! How much conversation survives a pass is decided in tokens, not in messages.
//! The cut itself is then moved to a turn boundary, so that a tool result is never
//! separated from the call that produced it.
use crate::text;
use crate::seqs;
use crate::llm::wire;
use crate::llm::types;
use crate::json;
use crate::agent::tokens;
use crate::agent::prompts;
use super::prompts::{names, size_of, PromptLibrary};
use super::tokens::{count_all, TokenCounter};
use crate::event::{Event, EventView};
use crate::json::{Json, JsonMap, JsonView};
use crate::kinds;
use crate::llm::content::{ContentPart, ImageSource, ImageSourceView, PartView};
use crate::llm::types::{ChatMessage, MessageView, Role, ToolCallView};
use crate::text::{
    bytes_in, chars_of, contains_str, decimal_of, join_strs, same, starts_with_str, string_of,
    trim_str,
};
use vstd::prelude::*;

pub use crate::kinds::AGENT_CONTEXT_SUMMARIZED;

verus! {

// ── Messages as text ───────────────────────────────────────────────────────

/// The first `n` characters of a text.
pub open spec fn first_chars(s: Seq<char>, n: int) -> Seq<char> {
    if s.len() <= n {
        s
    } else {
        s.take(n)
    }
}

/// The first `max_chars` characters of `s`.
pub fn truncate_str(s: &str, max_chars: usize) -> (r: String)
    ensures
        r@ == first_chars(s@, max_chars as int),
{
    let v = chars_of(s);
    let end: usize = if v.len() <= max_chars {
        v.len()
    } else {
        max_chars
    };
    let out = string_of(&v, 0, end);
    assert(out@ =~= first_chars(s@, max_chars as int));
    out
}

/// A tool call as the summarizer reads it.
pub open spec fn called_text(c: ToolCallView) -> Seq<char> {
    "[called "@ + c.name + "("@ + first_chars(c.arguments, 200) + ")]"@
}

/// What an assistant message says and calls.
pub open spec fn assistant_parts(m: MessageView) -> Seq<Seq<char>> {
    (match m.content {
        Some(t) => if text::trim(t).len() > 0 {
            seq![text::trim(t)]
        } else {
            Seq::empty()
        },
        None => Seq::empty(),
    }) + (match m.tool_calls {
        Some(calls) => calls.map_values(|c: ToolCallView| called_text(c)),
        None => Seq::empty(),
    })
}

/// A message as a line of the summarization prompt.
pub open spec fn message_line(m: MessageView) -> Seq<char> {
    match m.role {
        Role::System => Seq::empty(),
        Role::User => {
            let text = text::trim(wire::or_empty(m.content));
            if text.len() == 0 {
                Seq::empty()
            } else {
                "User: "@ + text + "\n"@
            }
        },
        Role::Assistant => if assistant_parts(m).len() == 0 {
            Seq::empty()
        } else {
            "Assistant: "@ + text::join(assistant_parts(m), " "@) + "\n"@
        },
        Role::Tool => "Tool result: "@ + first_chars(text::trim(wire::or_empty(m.content)), 300) + "\n"@,
    }
}

/// Messages as text for the summarization prompt.
pub open spec fn conversation_text(ms: Seq<MessageView>) -> Seq<char>
    decreases ms.len(),
{
    if ms.len() == 0 {
        Seq::empty()
    } else {
        conversation_text(ms.drop_last()) + message_line(ms.last())
    }
}

fn content_or_empty(m: &ChatMessage) -> (r: &str)
    ensures
        r@ == wire::or_empty(m@.content),
{
    match &m.content {
        Some(t) => t.as_str(),
        None => {
            proof {
                reveal_strlit("");
                assert(""@ =~= Seq::empty());
            }
            ""
        },
    }
}

fn parts_of(m: &ChatMessage) -> (r: Vec<String>)
    ensures
        text::views(r@) == assistant_parts(m@),
{
    let mut parts: Vec<String> = Vec::new();
    assert(text::views(parts@) =~= Seq::empty());
    if let Some(t) = &m.content {
        let trimmed = trim_str(t.as_str());
        if !trimmed.as_str().is_empty() {
            parts.push(trimmed);
            assert(text::views(parts@) =~= seq![trimmed@]);
        }
    }
    let ghost said = text::views(parts@);
    if let Some(calls) = &m.tool_calls {
        let ghost all = text::views(calls@).map_values(|c: ToolCallView| called_text(c));
        let mut i: usize = 0;
        assert(said + all.take(0) =~= said);
        while i < calls.len()
            invariant
                i <= calls@.len(),
                all == text::views(calls@).map_values(|c: ToolCallView| called_text(c)),
                text::views(parts@) == said + all.take(i as int),
            decreases calls@.len() - i,
        {
            let mut text = "[called ".to_owned();
            text.push_str(calls[i].function.name.as_str());
            text.push_str("(");
            let args = truncate_str(calls[i].function.arguments.as_str(), 200);
            text.push_str(args.as_str());
            text.push_str(")]");
            let ghost before = text::views(parts@);
            parts.push(text);
            proof {
                seqs::lemma_take_push(all, i as int);
                assert(all[i as int] == called_text(calls@[i as int]@));
                assert(text::views(parts@) =~= before.push(text@));
                assert(before.push(text@) =~= said + all.take(i + 1));
            }
            i += 1;
        }
        assert(all.take(i as int) =~= all);
    }
    assert(text::views(parts@) =~= assistant_parts(m@));
    parts
}

/// Render a message as a line for the summarization prompt. Tool calls and tool
/// results are written out, so that the summarizer sees the actual data.
pub fn message_to_text(m: &ChatMessage) -> (r: String)
    ensures
        r@ == message_line(m@),
{
    match m.role {
        Role::System => String::new(),
        Role::User => {
            let text = trim_str(content_or_empty(m));
            if text.as_str().is_empty() {
                String::new()
            } else {
                let mut out = "User: ".to_owned();
                out.push_str(text.as_str());
                out.push_str("\n");
                out
            }
        },
        Role::Assistant => {
            let parts = parts_of(m);
            if parts.len() == 0 {
                String::new()
            } else {
                let mut out = "Assistant: ".to_owned();
                let joined = join_strs(&parts, " ");
                out.push_str(joined.as_str());
                out.push_str("\n");
                out
            }
        },
        Role::Tool => {
            let text = trim_str(content_or_empty(m));
            let short = truncate_str(text.as_str(), 300);
            let mut out = "Tool result: ".to_owned();
            out.push_str(short.as_str());
            out.push_str("\n");
            out
        },
    }
}

/// The text of `messages[from..to]` for the summarization prompt.
pub fn conversation_of(messages: &Vec<ChatMessage>, from: usize, to: usize) -> (r: String)
    requires
        from <= to <= messages@.len(),
    ensures
        r@ == conversation_text(text::views(messages@).subrange(from as int, to as int)),
{
    let ghost ms = text::views(messages@);
    let mut out = String::new();
    let mut i: usize = from;
    while i < to
        invariant
            from <= i <= to <= messages@.len(),
            ms == text::views(messages@),
            out@ == conversation_text(ms.subrange(from as int, i as int)),
        decreases to - i,
    {
        let line = message_to_text(&messages[i]);
        out.push_str(line.as_str());
        assert(ms.subrange(from as int, i + 1).drop_last() =~= ms.subrange(from as int, i as int));
        i += 1;
    }
    out
}

/// A message in the archive.
pub open spec fn archived(m: MessageView) -> Seq<char> {
    "## "@ + (match m.role {
        Role::User => "User"@,
        Role::Assistant => "Assistant"@,
        Role::Tool => "Tool"@,
        Role::System => "System"@,
    }) + "\n"@ + (match m.content {
        Some(t) => t,
        None => "(tool calls)"@,
    }) + "\n\n"@
}

/// What a pass appends to the archive.
pub open spec fn archive(ms: Seq<MessageView>) -> Seq<char>
    decreases ms.len(),
{
    if ms.len() == 0 {
        Seq::empty()
    } else {
        archive(ms.drop_last()) + archived(ms.last())
    }
}

/// The text that archives `messages[from..to]`.
pub fn archive_text(messages: &Vec<ChatMessage>, from: usize, to: usize) -> (r: String)
    requires
        from <= to <= messages@.len(),
    ensures
        r@ == archive(text::views(messages@).subrange(from as int, to as int)),
{
    let ghost ms = text::views(messages@);
    let mut out = String::new();
    let mut i: usize = from;
    while i < to
        invariant
            from <= i <= to <= messages@.len(),
            ms == text::views(messages@),
            out@ == archive(ms.subrange(from as int, i as int)),
        decreases to - i,
    {
        let m = &messages[i];
        let ghost before = out@;
        let mut entry = "## ".to_owned();
        entry.push_str(
            match m.role {
                Role::User => "User",
                Role::Assistant => "Assistant",
                Role::Tool => "Tool",
                Role::System => "System",
            },
        );
        entry.push_str("\n");
        match &m.content {
            Some(t) => entry.push_str(t.as_str()),
            None => entry.push_str("(tool calls)"),
        }
        entry.push_str("\n\n");
        out.push_str(entry.as_str());
        proof {
            assert(entry@ =~= archived(m@));
            assert(ms.subrange(from as int, i + 1).drop_last() =~= ms.subrange(
                from as int,
                i as int,
            ));
        }
        i += 1;
    }
    out
}

// ── The assembly record ────────────────────────────────────────────────────

/// How many characters of a message the assembly record carries. Beyond this the
/// text is cut and its true length reported.
pub const MAX_RECORDED_CHARS: usize = 4_000;

/// An attached image, named rather than dumped.
pub open spec fn image_label(source: ImageSourceView) -> Seq<char> {
    match source {
        ImageSourceView::Url { url } => "[image: "@ + url + "]"@,
        ImageSourceView::Base64 { media_type, data } => "[image: "@ + media_type + ", "@ + text::decimal(
            (text::byte_len(data) * 3 / 4 + 1023) / 1024,
        ) + " KB inline]"@,
    }
}

/// What a part of a message says.
pub open spec fn part_section(p: PartView) -> Option<Seq<char>> {
    match p {
        PartView::Text { text } => if text::trim(text).len() > 0 {
            Some(text)
        } else {
            None
        },
        PartView::Image { source } => Some(image_label(source)),
    }
}

/// A tool call as the record shows it.
pub open spec fn call_section(c: ToolCallView) -> Seq<char> {
    c.name + "("@ + c.arguments + ")"@
}

/// What a message says: its content, its parts and its tool calls.
pub open spec fn sections(m: MessageView) -> Seq<Seq<char>> {
    (match m.content {
        Some(t) => if text::trim(t).len() > 0 {
            seq![t]
        } else {
            Seq::empty()
        },
        None => Seq::empty(),
    }) + seqs::filter_map(m.parts, |p: PartView| part_section(p)) + (match m.tool_calls {
        Some(calls) => calls.map_values(|c: ToolCallView| call_section(c)),
        None => Seq::empty(),
    })
}

/// The text of a message for the record, and its length where it was cut.
pub open spec fn recorded(m: MessageView) -> (Seq<char>, Option<nat>) {
    let body = text::join(sections(m), "\n\n"@);
    if body.len() <= MAX_RECORDED_CHARS {
        (body, None)
    } else {
        (body.take(MAX_RECORDED_CHARS as int), Some(body.len()))
    }
}

fn image_text(source: &ImageSource) -> (r: String)
    ensures
        r@ == image_label(source@),
{
    match source {
        ImageSource::Url { url } => {
            let mut out = "[image: ".to_owned();
            out.push_str(url.as_str());
            out.push_str("]");
            out
        },
        ImageSource::Base64 { media_type, data } => {
            let bytes: usize = bytes_in(data.as_str());
            let kb: u128 = (bytes as u128 * 3 / 4 + 1023) / 1024;
            let size = decimal_of(kb as u64);
            let mut out = "[image: ".to_owned();
            out.push_str(media_type.as_str());
            out.push_str(", ");
            out.push_str(size.as_str());
            out.push_str(" KB inline]");
            out
        },
    }
}

fn part_text(p: &ContentPart) -> (r: Option<String>)
    ensures
        match r {
            Some(t) => part_section(p@) == Some(t@),
            None => part_section(p@) is None,
        },
{
    match p {
        ContentPart::Text { text } => {
            let trimmed = trim_str(text.as_str());
            if trimmed.as_str().is_empty() {
                None
            } else {
                Some(text.clone())
            }
        },
        ContentPart::Image { source } => Some(image_text(source)),
    }
}

fn sections_of(m: &ChatMessage) -> (r: Vec<String>)
    ensures
        text::views(r@) == sections(m@),
{
    let mut out: Vec<String> = Vec::new();
    assert(text::views(out@) =~= Seq::empty());
    if let Some(t) = &m.content {
        let trimmed = trim_str(t.as_str());
        if !trimmed.as_str().is_empty() {
            out.push(t.clone());
            assert(text::views(out@) =~= seq![t@]);
        }
    }
    let ghost said = text::views(out@);
    let ghost parts = text::views(m.parts@);
    let ghost f = |p: PartView| part_section(p);
    let mut i: usize = 0;
    assert(said + seqs::filter_map(parts.take(0), f) =~= said);
    while i < m.parts.len()
        invariant
            i <= m.parts@.len(),
            parts == text::views(m.parts@),
            f == (|p: PartView| part_section(p)),
            text::views(out@) == said + seqs::filter_map(parts.take(i as int), f),
        decreases m.parts@.len() - i,
    {
        proof {
            seqs::lemma_take_push(parts, i as int);
            seqs::lemma_filter_map_push(parts.take(i as int), f, parts[i as int]);
        }
        let ghost before = text::views(out@);
        if let Some(t) = part_text(&m.parts[i]) {
            out.push(t);
            proof {
                assert(text::views(out@) =~= before.push(t@));
                assert(before.push(t@) =~= said + seqs::filter_map(parts.take(i as int), f).push(t@));
            }
        }
        i += 1;
    }
    assert(parts.take(i as int) =~= parts);
    let ghost spoken = text::views(out@);
    if let Some(calls) = &m.tool_calls {
        let ghost all = text::views(calls@).map_values(|c: ToolCallView| call_section(c));
        let mut k: usize = 0;
        assert(spoken + all.take(0) =~= spoken);
        while k < calls.len()
            invariant
                k <= calls@.len(),
                all == text::views(calls@).map_values(|c: ToolCallView| call_section(c)),
                text::views(out@) == spoken + all.take(k as int),
            decreases calls@.len() - k,
        {
            let mut text = calls[k].function.name.clone();
            text.push_str("(");
            text.push_str(calls[k].function.arguments.as_str());
            text.push_str(")");
            let ghost before = text::views(out@);
            out.push(text);
            proof {
                seqs::lemma_take_push(all, k as int);
                assert(all[k as int] == call_section(calls@[k as int]@));
                assert(text::views(out@) =~= before.push(text@));
                assert(before.push(text@) =~= spoken + all.take(k + 1));
            }
            k += 1;
        }
        assert(all.take(k as int) =~= all);
    }
    assert(text::views(out@) =~= sections(m@));
    out
}

/// What a message says, at length, for the assembly record; with its true length
/// in characters where the text was cut.
pub fn recorded_text(m: &ChatMessage) -> (r: (String, Option<usize>))
    ensures
        r.0@ == recorded(m@).0,
        match r.1 {
            Some(n) => recorded(m@).1 == Some(n as nat),
            None => recorded(m@).1 is None,
        },
{
    let list = sections_of(m);
    let body = join_strs(&list, "\n\n");
    let v = chars_of(body.as_str());
    let total: usize = v.len();
    if total <= MAX_RECORDED_CHARS {
        (body, None)
    } else {
        let short = truncate_str(body.as_str(), MAX_RECORDED_CHARS);
        (short, Some(total))
    }
}

// ── The log ────────────────────────────────────────────────────────────────

/// A summary, and how many conversation messages from the start are folded into
/// it.
#[derive(Debug)]
pub struct SummaryState {
    pub summary: String,
    pub summarized_count: usize,
}

#[verifier::ext_equal]
pub struct SummaryView {
    pub summary: Seq<char>,
    pub summarized_count: usize,
}

impl View for SummaryState {
    type V = SummaryView;

    open spec fn view(&self) -> SummaryView {
        SummaryView { summary: self.summary@, summarized_count: self.summarized_count }
    }
}

impl Clone for SummaryState {
    fn clone(&self) -> (r: SummaryState)
        ensures
            r == *self,
    {
        SummaryState {
            summary: self.summary.clone(),
            summarized_count: self.summarized_count,
        }
    }
}

pub open spec fn opt_summary(s: Option<SummaryState>) -> Option<SummaryView> {
    match s {
        Some(k) => Some(k@),
        None => None,
    }
}

/// The summary that a payload records.
pub open spec fn summary_in(payload: JsonView) -> Option<SummaryView> {
    match (payload.text_at("summary"@), payload.u64_at("summarized_count"@)) {
        (Some(summary), Some(n)) => Some(
            SummaryView { summary, summarized_count: n as usize },
        ),
        _ => None,
    }
}

/// The summary that the newest summary event of a log records.
pub open spec fn logged_summary(log: Seq<EventView>) -> Option<SummaryView>
    decreases log.len(),
{
    if log.len() == 0 {
        None
    } else if log.last().kind == kinds::AGENT_CONTEXT_SUMMARIZED@ {
        summary_in(log.last().payload)
    } else {
        logged_summary(log.drop_last())
    }
}

/// The newest summary recorded on the log, if any.
///
/// Whoever publishes the most recent `agent.context.summarized` decides what the
/// model sees.
pub fn summary_from_log(events: &Vec<Event>) -> (r: Option<SummaryState>)
    ensures
        opt_summary(r) == logged_summary(text::views(events@)),
{
    let ghost log = text::views(events@);
    let mut i: usize = events.len();
    assert(log.take(i as int) =~= log);
    while i > 0
        invariant
            i <= events@.len(),
            log == text::views(events@),
            logged_summary(log) == logged_summary(log.take(i as int)),
        decreases i,
    {
        let e = &events[i - 1];
        proof {
            assert(log.take(i as int).last() == e@);
            assert(log.take(i as int).drop_last() =~= log.take(i - 1));
        }
        if same(e.kind.as_str(), kinds::AGENT_CONTEXT_SUMMARIZED) {
            return match (e.payload.text_at("summary"), e.payload.u64_at("summarized_count")) {
                (Some(t), Some(n)) => Some(
                    SummaryState {
                        summary: t.to_owned(),
                        summarized_count: #[verifier::truncate]
                        (n as usize),
                    },
                ),
                _ => None,
            };
        }
        i -= 1;
    }
    None
}

/// The payload of a summary event.
pub open spec fn summarized_json(
    state: SummaryView,
    previous: int,
    session: Seq<char>,
) -> JsonView {
    JsonView::Object(
        Map::<Seq<char>, JsonView>::empty().insert(
            "summary"@,
            JsonView::Text(state.summary),
        ).insert("summarized_count"@, JsonView::Int(state.summarized_count as int)).insert(
            "replaced_messages"@,
            JsonView::Int(state.summarized_count - previous),
        ).insert("session"@, JsonView::Text(session)),
    )
}

/// The payload of a summary event that a person wrote.
pub open spec fn override_json(summary: Seq<char>, summarized_count: usize) -> JsonView {
    JsonView::Object(
        Map::<Seq<char>, JsonView>::empty().insert("summary"@, JsonView::Text(summary)).insert(
            "summarized_count"@,
            JsonView::Int(summarized_count as int),
        ).insert("source"@, JsonView::Text("manual_override"@)),
    )
}

/// The payload that replaces the summary the next assembly will use.
///
/// The old summary stays in the log; it is superseded, not edited.
pub fn override_summary(summary: &str, summarized_count: usize) -> (r: Json)
    ensures
        r@ == override_json(summary@, summarized_count),
{
    Json::Object(
        JsonMap::new().with("summary", Json::text(summary)).with(
            "summarized_count",
            Json::Unsigned(summarized_count as u64),
        ).with("source", Json::text("manual_override")),
    )
}

proof fn lemma_summary_keys()
    ensures
        "summary"@ != "summarized_count"@,
        "summary"@ != "replaced_messages"@,
        "summary"@ != "session"@,
        "summary"@ != "source"@,
        "summarized_count"@ != "replaced_messages"@,
        "summarized_count"@ != "session"@,
        "summarized_count"@ != "source"@,
{
    reveal_strlit("summary");
    reveal_strlit("summarized_count");
    reveal_strlit("replaced_messages");
    reveal_strlit("session");
    reveal_strlit("source");
    assert("summary"@.len() == 7 && "summarized_count"@.len() == 16 && "replaced_messages"@.len()
        == 17 && "session"@.len() == 7 && "source"@.len() == 6);
    assert("summary"@[1] == 'u' && "session"@[1] == 'e');
}

/// A summary on the log is what the next assembly starts from: the newest summary
/// event decides, whether a pass or a person published it, and no event of another
/// kind after it changes that.
pub proof fn law_newest_summary_wins(
    log: Seq<EventView>,
    e: EventView,
    later: Seq<EventView>,
    state: SummaryView,
    previous: int,
    session: Seq<char>,
)
    requires
        e.kind == kinds::AGENT_CONTEXT_SUMMARIZED@,
        e.payload == summarized_json(state, previous, session) || e.payload == override_json(
            state.summary,
            state.summarized_count,
        ),
        forall|i: int|
            0 <= i < later.len() ==> (#[trigger] later[i]).kind != kinds::AGENT_CONTEXT_SUMMARIZED@,
    ensures
        logged_summary(log.push(e) + later) == Some(state),
    decreases later.len(),
{
    if later.len() == 0 {
        lemma_summary_keys();
        assert(log.push(e) + later =~= log.push(e));
        assert(log.push(e).last() == e);
        assert(summary_in(e.payload) == Some(state));
    } else {
        let all = log.push(e) + later;
        assert(all.last() == later[later.len() - 1]);
        assert(all.drop_last() =~= log.push(e) + later.drop_last());
        assert forall|i: int| 0 <= i < later.drop_last().len() implies (
        #[trigger] later.drop_last()[i]).kind != kinds::AGENT_CONTEXT_SUMMARIZED@ by {
            assert(later.drop_last()[i] == later[i]);
        }
        law_newest_summary_wins(log, e, later.drop_last(), state, previous, session);
    }
}

/// The payload of a report on how much was summarized.
pub open spec fn counts_json(summary_len: int, summarized: int, retained: int) -> JsonView {
    JsonView::Object(
        Map::<Seq<char>, JsonView>::empty().insert("summary_len"@, JsonView::Int(summary_len)).insert(
            "summarized_events"@,
            JsonView::Int(summarized),
        ).insert("retained_events"@, JsonView::Int(retained)),
    )
}

/// Build the payload of a report on how much was summarized.
pub fn context_summarized_payload(
    summary_len: usize,
    summarized_events: usize,
    retained_events: usize,
) -> (r: Json)
    ensures
        r@ == counts_json(summary_len as int, summarized_events as int, retained_events as int),
{
    Json::Object(
        JsonMap::new().with("summary_len", Json::Unsigned(summary_len as u64)).with(
            "summarized_events",
            Json::Unsigned(summarized_events as u64),
        ).with("retained_events", Json::Unsigned(retained_events as u64)),
    )
}

/// How many cycles have started and not ended.
pub open spec fn cycle_depth(log: Seq<EventView>) -> int
    decreases log.len(),
{
    if log.len() == 0 {
        0
    } else {
        cycle_depth(log.drop_last()) + (if log.last().kind == kinds::AGENT_CYCLE_START@ {
            1int
        } else if log.last().kind == kinds::AGENT_CYCLE_END@ {
            -1int
        } else {
            0int
        })
    }
}

/// Is the agent between tasks rather than part-way through one?
///
/// A task is in flight while a cycle has started and not yet ended.
pub fn at_task_boundary(events: &Vec<Event>) -> (r: bool)
    ensures
        r == (cycle_depth(text::views(events@)) <= 0),
{
    let ghost log = text::views(events@);
    let mut depth: i128 = 0;
    let mut i: usize = 0;
    while i < events.len()
        invariant
            i <= events@.len(),
            log == text::views(events@),
            depth == cycle_depth(log.take(i as int)),
            -i <= depth <= i,
        decreases events@.len() - i,
    {
        proof {
            assert(log.take(i + 1).last() == events@[i as int]@);
            assert(log.take(i + 1).drop_last() =~= log.take(i as int));
        }
        let kind = events[i].kind.as_str();
        if same(kind, kinds::AGENT_CYCLE_START) {
            depth += 1;
        } else if same(kind, kinds::AGENT_CYCLE_END) {
            depth -= 1;
        }
        i += 1;
    }
    assert(log.take(i as int) =~= log);
    depth <= 0
}

// ── Where to cut ───────────────────────────────────────────────────────────

/// Whether a turn begins at place `i`.
pub open spec fn turn_start(conv: Seq<MessageView>, i: int) -> bool {
    0 <= i < conv.len() && conv[i].role == Role::User
}

/// Whether the tail from `i` on stands on its own: it does not open with a tool
/// result, whose call would be on the far side of the cut.
pub open spec fn clean_start(conv: Seq<MessageView>, i: int) -> bool {
    0 <= i < conv.len() ==> conv[i].role != Role::Tool
}

/// Whether a cut may be at place `i`: at the beginning of a turn, or anywhere that
/// strands no tool result.
pub open spec fn fits(conv: Seq<MessageView>, turns: bool, i: int) -> bool {
    if turns {
        turn_start(conv, i)
    } else {
        clean_start(conv, i)
    }
}

/// The first place in `lo..=hi` that fits.
pub open spec fn first_fit(conv: Seq<MessageView>, turns: bool, lo: int, hi: int) -> Option<int>
    decreases hi - lo + 1,
{
    if lo > hi {
        None
    } else if fits(conv, turns, lo) {
        Some(lo)
    } else {
        first_fit(conv, turns, lo + 1, hi)
    }
}

/// The last place in `lo..=hi` that fits.
pub open spec fn last_fit(conv: Seq<MessageView>, turns: bool, lo: int, hi: int) -> Option<int>
    decreases hi - lo + 1,
{
    if lo > hi {
        None
    } else if fits(conv, turns, hi) {
        Some(hi)
    } else {
        last_fit(conv, turns, lo, hi - 1)
    }
}

proof fn lemma_first_fit(conv: Seq<MessageView>, turns: bool, lo: int, hi: int)
    ensures
        match first_fit(conv, turns, lo, hi) {
            Some(i) => lo <= i <= hi && fits(conv, turns, i),
            None => forall|i: int| lo <= i <= hi ==> !#[trigger] fits(conv, turns, i),
        },
    decreases hi - lo + 1,
{
    if lo <= hi && !fits(conv, turns, lo) {
        lemma_first_fit(conv, turns, lo + 1, hi);
    }
}

proof fn lemma_last_fit(conv: Seq<MessageView>, turns: bool, lo: int, hi: int)
    ensures
        match last_fit(conv, turns, lo, hi) {
            Some(i) => lo <= i <= hi && fits(conv, turns, i),
            None => forall|i: int| lo <= i <= hi ==> !#[trigger] fits(conv, turns, i),
        },
    decreases hi - lo + 1,
{
    if lo <= hi && !fits(conv, turns, hi) {
        lemma_last_fit(conv, turns, lo, hi - 1);
    }
}

/// The first message that is kept when the tail from `i` on, of cost `used`, grows
/// backwards as far as the budget affords.
pub open spec fn kept_from<C: TokenCounter>(
    counter: &C,
    conv: Seq<MessageView>,
    already: int,
    i: int,
    used: int,
    retain: int,
) -> int
    decreases i,
{
    if i <= already || i <= 0 {
        i
    } else {
        let cost = counter.counted(seq![conv[i - 1]]) as int;
        if used + cost > retain {
            i
        } else {
            kept_from(counter, conv, already, i - 1, used + cost, retain)
        }
    }
}

/// The last place where a cut may be: the newest messages survive however tight
/// the budget gets, and at least one does.
pub open spec fn ceiling(len: int, keep_recent: int) -> int {
    let keep = if keep_recent > 1 {
        keep_recent
    } else {
        1
    };
    if len > keep {
        len - keep
    } else {
        0
    }
}

/// The place of the cut for a budget that keeps the tail from `raw` on: the next
/// turn that begins, or the one before; without a turn, the nearest place that
/// strands no tool result.
pub open spec fn snapped(conv: Seq<MessageView>, already: int, raw: int, top: int) -> int {
    match first_fit(conv, true, raw, top) {
        Some(i) => i,
        None => match last_fit(conv, true, already + 1, raw) {
            Some(i) => i,
            None => match first_fit(conv, false, raw, top) {
                Some(i) => i,
                None => match last_fit(conv, false, already, raw) {
                    Some(i) => i,
                    None => already,
                },
            },
        },
    }
}

/// How many messages from the start are folded into the summary.
pub open spec fn cutoff<C: TokenCounter>(
    counter: &C,
    conv: Seq<MessageView>,
    already: int,
    retain: int,
    keep_recent: int,
) -> int {
    let top = ceiling(conv.len() as int, keep_recent);
    if top <= already {
        already
    } else {
        let raw = kept_from(
            counter,
            conv,
            already,
            top,
            counter.counted(conv.skip(top)) as int,
            retain,
        );
        snapped(conv, already, raw, top)
    }
}

proof fn lemma_kept_from_range<C: TokenCounter>(
    counter: &C,
    conv: Seq<MessageView>,
    already: int,
    i: int,
    used: int,
    retain: int,
)
    requires
        0 <= already <= i,
    ensures
        already <= kept_from(counter, conv, already, i, used, retain) <= i,
    decreases i,
{
    if i > already {
        let cost = counter.counted(seq![conv[i - 1]]) as int;
        if used + cost <= retain {
            lemma_kept_from_range(counter, conv, already, i - 1, used + cost, retain);
        }
    }
}

/// A cut keeps the newest messages, never moves back, and never strands a tool
/// result from its call. Where a turn begins behind what is already summarized and
/// before the newest messages, the cut falls on the beginning of a turn.
pub proof fn law_cut_is_clean<C: TokenCounter>(
    counter: &C,
    conv: Seq<MessageView>,
    already: int,
    retain: int,
    keep_recent: int,
)
    requires
        0 <= already <= conv.len(),
    ensures
        ({
            let cut = cutoff(counter, conv, already, retain, keep_recent);
            let top = ceiling(conv.len() as int, keep_recent);
            &&& already <= cut
            &&& cut > already ==> cut <= top && cut < conv.len() && conv[cut].role != Role::Tool
            &&& (exists|i: int| already < i <= top && #[trigger] turn_start(conv, i)) ==> turn_start(
                conv,
                cut,
            )
        }),
{
    let top = ceiling(conv.len() as int, keep_recent);
    if top > already {
        let used = counter.counted(conv.skip(top)) as int;
        let raw = kept_from(counter, conv, already, top, used, retain);
        lemma_kept_from_range(counter, conv, already, top, used, retain);
        lemma_first_fit(conv, true, raw, top);
        lemma_last_fit(conv, true, already + 1, raw);
        lemma_first_fit(conv, false, raw, top);
        lemma_last_fit(conv, false, already, raw);
        if exists|i: int| already < i <= top && #[trigger] turn_start(conv, i) {
            let i = choose|i: int| already < i <= top && #[trigger] turn_start(conv, i);
            assert(fits(conv, true, i));
        }
    }
}

fn may_cut(m: &ChatMessage, turns: bool) -> (r: bool)
    ensures
        r == (if turns {
            m@.role == Role::User
        } else {
            m@.role != Role::Tool
        }),
{
    if turns {
        m.role == Role::User
    } else {
        m.role != Role::Tool
    }
}

fn find_up(conv: &Vec<ChatMessage>, turns: bool, lo: usize, hi: usize) -> (r: Option<usize>)
    requires
        hi < conv@.len(),
    ensures
        match (r, first_fit(text::views(conv@), turns, lo as int, hi as int)) {
            (Some(i), Some(k)) => i == k,
            (None, None) => true,
            _ => false,
        },
{
    let n: usize = conv.len();
    let mut i: usize = lo;
    while i <= hi
        invariant
            hi < n,
            n == conv@.len(),
            first_fit(text::views(conv@), turns, lo as int, hi as int) == first_fit(
                text::views(conv@),
                turns,
                i as int,
                hi as int,
            ),
        decreases hi + 1 - i,
    {
        if may_cut(&conv[i], turns) {
            return Some(i);
        }
        i += 1;
    }
    None
}

fn find_down(conv: &Vec<ChatMessage>, turns: bool, lo: usize, hi: usize) -> (r: Option<usize>)
    requires
        hi < conv@.len(),
        lo <= hi + 1,
    ensures
        match (r, last_fit(text::views(conv@), turns, lo as int, hi as int)) {
            (Some(i), Some(k)) => i == k,
            (None, None) => true,
            _ => false,
        },
{
    let n: usize = conv.len();
    let mut i: usize = hi + 1;
    while i > lo
        invariant
            lo <= i <= hi + 1,
            hi < n,
            n == conv@.len(),
            last_fit(text::views(conv@), turns, lo as int, hi as int) == last_fit(
                text::views(conv@),
                turns,
                lo as int,
                i - 1,
            ),
        decreases i,
    {
        if may_cut(&conv[i - 1], turns) {
            return Some(i - 1);
        }
        i -= 1;
    }
    None
}

/// How many leading conversation messages to fold into the summary.
///
/// The raw cut is wherever the retention budget runs out, walking back from the
/// newest message. It is moved to a real boundary before use: folding half a turn
/// strands tool results whose call is on the other side of the cut.
pub fn choose_cutoff<C: TokenCounter>(
    conv: &Vec<ChatMessage>,
    already: usize,
    retain_tokens: usize,
    keep_recent: usize,
    calibration: &C,
) -> (r: usize)
    ensures
        r == cutoff(
            calibration,
            text::views(conv@),
            already as int,
            retain_tokens as int,
            keep_recent as int,
        ),
{
    let ghost ms = text::views(conv@);
    let n: usize = conv.len();
    let keep: usize = if keep_recent > 1 {
        keep_recent
    } else {
        1
    };
    let top: usize = if n > keep {
        n - keep
    } else {
        0
    };
    if top <= already {
        return already;
    }
    let mut used: usize = calibration.count_range(conv, top, n);
    let mut raw: usize = top;
    let ghost used0 = used as int;
    assert(ms.subrange(top as int, n as int) =~= ms.skip(top as int));
    let mut walking = true;
    while walking && raw > already
        invariant
            n == conv@.len(),
            ms == text::views(conv@),
            already <= raw <= top < n,
            walking ==> kept_from(
                calibration,
                ms,
                already as int,
                top as int,
                used0,
                retain_tokens as int,
            ) == kept_from(
                calibration,
                ms,
                already as int,
                raw as int,
                used as int,
                retain_tokens as int,
            ),
            !walking ==> kept_from(
                calibration,
                ms,
                already as int,
                top as int,
                used0,
                retain_tokens as int,
            ) == raw,
        decreases raw + (if walking {
            1int
        } else {
            0int
        }),
    {
        let cost: usize = calibration.count_range(conv, raw - 1, raw);
        assert(ms.subrange(raw - 1, raw as int) =~= seq![ms[raw - 1]]);
        if cost > retain_tokens || used > retain_tokens - cost {
            walking = false;
        } else {
            used = used + cost;
            raw -= 1;
        }
    }
    if let Some(i) = find_up(conv, true, raw, top) {
        return i;
    }
    if let Some(i) = find_down(conv, true, already + 1, raw) {
        return i;
    }
    if let Some(i) = find_up(conv, false, raw, top) {
        return i;
    }
    if let Some(i) = find_down(conv, false, already, raw) {
        return i;
    }
    already
}

/// Room reserved for a summary that has not been generated yet.
pub const MIN_SUMMARY_RESERVE: usize = 1_024;

/// The room that the summary is given: twice its cost, as it is about to grow.
pub open spec fn summary_room<C: TokenCounter>(counter: &C, summary: Option<Seq<char>>) -> int {
    let held: int = match summary {
        Some(t) => 2int * counter.counted(seq![types::text_message(Role::System, t)]),
        None => 0,
    };
    if held > MIN_SUMMARY_RESERVE {
        held
    } else {
        MIN_SUMMARY_RESERVE as int
    }
}

/// The tokens that verbatim conversation may take once a pass finishes.
pub open spec fn retention<C: TokenCounter>(
    counter: &C,
    low_water: int,
    sys: Seq<MessageView>,
    summary: Option<Seq<char>>,
) -> int {
    let spent = counter.counted(sys) + summary_room(counter, summary);
    if low_water > spent {
        low_water - spent
    } else {
        0
    }
}

/// Token room for verbatim conversation once a summarization pass finishes.
///
/// A pass costs a model call and every cached token after the cut, so it aims at a
/// low-water mark rather than at the trigger.
pub fn retention_budget<C: TokenCounter>(
    low_water: usize,
    sys_msgs: &Vec<ChatMessage>,
    summary: Option<&str>,
    calibration: &C,
) -> (r: usize)
    ensures
        r == retention(
            calibration,
            low_water as int,
            text::views(sys_msgs@),
            match summary {
                Some(t) => Some(t@),
                None => None,
            },
        ),
{
    let held: u128 = match summary {
        Some(t) => {
            let one = vec![ChatMessage::system(t)];
            assert(text::views(one@) =~= seq![types::text_message(Role::System, t@)]);
            count_all(calibration, &one) as u128 * 2
        },
        None => 0,
    };
    let room: u128 = if held > MIN_SUMMARY_RESERVE as u128 {
        held
    } else {
        MIN_SUMMARY_RESERVE as u128
    };
    let spent: u128 = count_all(calibration, sys_msgs) as u128 + room;
    if (low_water as u128) > spent {
        (low_water as u128 - spent) as usize
    } else {
        0
    }
}

// ── Assembling ─────────────────────────────────────────────────────────────

/// The messages of the system, or the others.
pub open spec fn of_system(ms: Seq<MessageView>, system: bool) -> Seq<MessageView> {
    seqs::filter_map(
        ms,
        |m: MessageView|
            if (m.role == Role::System) == system {
                Some(m)
            } else {
                None
            },
    )
}

fn select_messages(messages: &Vec<ChatMessage>, system: bool) -> (r: Vec<ChatMessage>)
    ensures
        text::views(r@) == of_system(text::views(messages@), system),
{
    let ghost ms = text::views(messages@);
    let ghost f = |m: MessageView|
        if (m.role == Role::System) == system {
            Some(m)
        } else {
            None
        };
    let mut out: Vec<ChatMessage> = Vec::new();
    let mut i: usize = 0;
    assert(text::views(out@) =~= seqs::filter_map(ms.take(0), f));
    while i < messages.len()
        invariant
            i <= messages@.len(),
            ms == text::views(messages@),
            f == (|m: MessageView|
                if (m.role == Role::System) == system {
                    Some(m)
                } else {
                    None
                }),
            text::views(out@) == seqs::filter_map(ms.take(i as int), f),
        decreases messages@.len() - i,
    {
        proof {
            seqs::lemma_take_push(ms, i as int);
            seqs::lemma_filter_map_push(ms.take(i as int), f, ms[i as int]);
        }
        if (messages[i].role == Role::System) == system {
            let ghost before = text::views(out@);
            let m = messages[i].clone();
            out.push(m);
            assert(text::views(out@) =~= before.push(m@));
        }
        i += 1;
    }
    assert(ms.take(i as int) =~= ms);
    out
}

/// The system messages and the conversation.
pub fn split_by_role(messages: &Vec<ChatMessage>) -> (r: (Vec<ChatMessage>, Vec<ChatMessage>))
    ensures
        text::views(r.0@) == of_system(text::views(messages@), true),
        text::views(r.1@) == of_system(text::views(messages@), false),
{
    (select_messages(messages, true), select_messages(messages, false))
}

/// How many messages a summary covers.
pub open spec fn covered(state: Option<SummaryView>) -> int {
    match state {
        Some(s) => s.summarized_count as int,
        None => 0,
    }
}

/// The text of a summary, if there is one.
pub open spec fn summary_of(state: Option<SummaryView>) -> Option<Seq<char>> {
    match state {
        Some(s) => Some(s.summary),
        None => None,
    }
}

/// The system message that carries a summary.
pub open spec fn summary_block(summary: Seq<char>) -> MessageView {
    types::text_message(
        Role::System,
        "<conversation_summary>\nThe following is a summary of the earlier conversation:\n\n"@
            + summary + "\n</conversation_summary>"@,
    )
}

/// The system messages, the summary, and the conversation that it does not cover.
pub open spec fn candidate(
    sys: Seq<MessageView>,
    state: Option<SummaryView>,
    conv: Seq<MessageView>,
) -> Seq<MessageView> {
    sys + (match state {
        Some(s) => if s.summarized_count > 0 {
            seq![summary_block(s.summary)]
        } else {
            Seq::empty()
        },
        None => Seq::empty(),
    }) + conv.skip(covered(state))
}

/// Build the candidate message list from system messages, an optional summary
/// block, and the unsummarized tail of conversation messages.
pub fn build_candidate(
    sys_msgs: &Vec<ChatMessage>,
    state: &Option<SummaryState>,
    conv_msgs: &Vec<ChatMessage>,
) -> (r: Vec<ChatMessage>)
    requires
        covered(opt_summary(*state)) <= conv_msgs@.len(),
    ensures
        text::views(r@) == candidate(text::views(sys_msgs@), opt_summary(*state), text::views(conv_msgs@)),
{
    let mut out: Vec<ChatMessage> = sys_msgs.clone();
    assert(text::views(out@) =~= text::views(sys_msgs@));
    let mut from: usize = 0;
    if let Some(s) = state {
        from = s.summarized_count;
        if s.summarized_count > 0 {
            let mut text =
                "<conversation_summary>\nThe following is a summary of the earlier conversation:\n\n".to_owned();
            text.push_str(s.summary.as_str());
            text.push_str("\n</conversation_summary>");
            let ghost before = text::views(out@);
            let block = ChatMessage::system(text.as_str());
            out.push(block);
            assert(text::views(out@) =~= before + seq![summary_block(s.summary@)]);
        }
    }
    let ghost head = text::views(out@);
    let ghost tail = text::views(conv_msgs@).skip(from as int);
    let mut i: usize = from;
    assert(head + tail.take(0) =~= head);
    while i < conv_msgs.len()
        invariant
            from <= i <= conv_msgs@.len(),
            tail == text::views(conv_msgs@).skip(from as int),
            text::views(out@) == head + tail.take(i - from),
        decreases conv_msgs@.len() - i,
    {
        let m = conv_msgs[i].clone();
        let ghost before = text::views(out@);
        out.push(m);
        proof {
            seqs::lemma_take_push(tail, i - from);
            assert(text::views(out@) =~= before.push(m@));
            assert(before.push(m@) =~= head + tail.take(i - from + 1));
        }
        i += 1;
    }
    proof {
        assert(tail.take(i - from) =~= tail);
        assert(text::views(out@) =~= candidate(
            text::views(sys_msgs@),
            opt_summary(*state),
            text::views(conv_msgs@),
        ));
    }
    out
}

/// Where a message of a request comes from; the verbatim tail begins at `head`.
pub open spec fn source_of(m: MessageView, i: int, head: int) -> Seq<char> {
    let text = wire::or_empty(m.content);
    if m.role == Role::System {
        if text::contains(text, "<conversation_summary>"@) {
            "summary"@
        } else {
            "system"@
        }
    } else if text::starts_with(text, "[cleared by harness:"@) {
        "cleared"@
    } else if i >= head {
        "verbatim"@
    } else {
        "other"@
    }
}

/// The entry of a message in the assembly record.
pub open spec fn manifest_entry<C: TokenCounter>(
    counter: &C,
    m: MessageView,
    i: int,
    head: int,
) -> JsonView {
    JsonView::Object(
        Map::<Seq<char>, JsonView>::empty().insert("index"@, JsonView::Int(i)).insert(
            "role"@,
            JsonView::Text(types::role_name(m.role)),
        ).insert("tokens"@, JsonView::Int(counter.counted(seq![m]) as int)).insert(
            "source"@,
            JsonView::Text(source_of(m, i, head)),
        ).insert("text"@, JsonView::Text(recorded(m).0)).insert(
            "truncated_from"@,
            match recorded(m).1 {
                Some(n) => JsonView::Int(n as int),
                None => JsonView::Null,
            },
        ),
    )
}

/// The tokens of the system messages, each counted by itself.
pub open spec fn system_tokens<C: TokenCounter>(counter: &C, ms: Seq<MessageView>) -> nat
    decreases ms.len(),
{
    if ms.len() == 0 {
        0
    } else {
        system_tokens(counter, ms.drop_last()) + (if ms.last().role == Role::System {
            counter.counted(seq![ms.last()])
        } else {
            0
        })
    }
}

/// Where the verbatim tail of a request begins.
pub open spec fn verbatim_head(len: int, verbatim: int) -> int {
    if len > verbatim {
        len - verbatim
    } else {
        0
    }
}

/// The record of what a request was made of, message by message.
pub open spec fn assembly_record<C: TokenCounter>(
    counter: &C,
    session: Seq<char>,
    budget: int,
    messages: Seq<MessageView>,
    state: Option<SummaryView>,
    conv_len: int,
) -> JsonView {
    let verbatim = conv_len - covered(state);
    let head = verbatim_head(messages.len() as int, verbatim);
    JsonView::Object(
        Map::<Seq<char>, JsonView>::empty().insert("session"@, JsonView::Text(session)).insert(
            "messages"@,
            JsonView::Int(messages.len() as int),
        ).insert("total_tokens"@, JsonView::Int(counter.counted(messages) as int)).insert(
            "system_tokens"@,
            JsonView::Int(tokens::capped(system_tokens(counter, messages)) as int),
        ).insert("verbatim_messages"@, JsonView::Int(verbatim)).insert(
            "summarized_messages"@,
            JsonView::Int(covered(state)),
        ).insert(
            "summary_tokens"@,
            JsonView::Int(
                match state {
                    Some(s) => prompts::cost(s.summary) as int,
                    None => 0,
                },
            ),
        ).insert("compacted"@, JsonView::Bool(state is Some)).insert(
            "budget"@,
            JsonView::Int(budget),
        ).insert(
            "manifest"@,
            JsonView::Array(
                Seq::new(
                    messages.len(),
                    |i: int| manifest_entry(counter, messages[i], i, head),
                ),
            ),
        ),
    )
}

fn source_name(m: &ChatMessage, i: usize, head: usize) -> (r: &'static str)
    ensures
        r@ == source_of(m@, i as int, head as int),
{
    let text = content_or_empty(m);
    if m.role == Role::System {
        if contains_str(text, "<conversation_summary>") {
            "summary"
        } else {
            "system"
        }
    } else if starts_with_str(text, "[cleared by harness:") {
        "cleared"
    } else if i >= head {
        "verbatim"
    } else {
        "other"
    }
}

fn manifest_of<C: TokenCounter>(
    counter: &C,
    messages: &Vec<ChatMessage>,
    head: usize,
) -> (r: Vec<Json>)
    ensures
        json::items_view(r@) == Seq::new(
            messages@.len(),
            |i: int| manifest_entry(counter, text::views(messages@)[i], i, head as int),
        ),
{
    let ghost ms = text::views(messages@);
    let ghost all = Seq::new(
        ms.len(),
        |i: int| manifest_entry(counter, ms[i], i, head as int),
    );
    let mut out: Vec<Json> = Vec::new();
    let mut i: usize = 0;
    assert(json::items_view(out@) =~= all.take(0));
    while i < messages.len()
        invariant
            i <= messages@.len(),
            ms == text::views(messages@),
            all == Seq::new(ms.len(), |i: int| manifest_entry(counter, ms[i], i, head as int)),
            json::items_view(out@) == all.take(i as int),
        decreases messages@.len() - i,
    {
        let m = &messages[i];
        let tokens: usize = counter.count_range(messages, i, i + 1);
        assert(ms.subrange(i as int, i + 1) =~= seq![ms[i as int]]);
        let (text, cut) = recorded_text(m);
        let truncated = match cut {
            Some(n) => Json::Unsigned(n as u64),
            None => Json::Null,
        };
        let entry = Json::Object(
            JsonMap::new().with("index", Json::Unsigned(i as u64)).with(
                "role",
                Json::text(m.role.as_str()),
            ).with("tokens", Json::Unsigned(tokens as u64)).with(
                "source",
                Json::text(source_name(m, i, head)),
            ).with("text", Json::text(text.as_str())).with("truncated_from", truncated),
        );
        proof {
            seqs::lemma_take_push(all, i as int);
            assert(all[i as int] == manifest_entry(counter, m@, i as int, head as int));
            assert(entry@ == all[i as int]);
            wire::lemma_items_push(out@, entry);
        }
        out.push(entry);
        i += 1;
    }
    assert(all.take(i as int) =~= all);
    out
}

fn count_system<C: TokenCounter>(counter: &C, messages: &Vec<ChatMessage>) -> (r: usize)
    ensures
        r == tokens::capped(system_tokens(counter, text::views(messages@))),
{
    let ghost ms = text::views(messages@);
    let mut total: usize = 0;
    let mut i: usize = 0;
    while i < messages.len()
        invariant
            i <= messages@.len(),
            ms == text::views(messages@),
            total == tokens::capped(system_tokens(counter, ms.take(i as int))),
        decreases messages@.len() - i,
    {
        assert(ms.take(i + 1).drop_last() =~= ms.take(i as int));
        assert(ms.take(i + 1).last() == messages@[i as int]@);
        if messages[i].role == Role::System {
            assert(ms.subrange(i as int, i + 1) =~= seq![ms[i as int]]);
            let one: usize = counter.count_range(messages, i, i + 1);
            total = total.saturating_add(one);
        }
        i += 1;
    }
    assert(ms.take(i as int) =~= ms);
    total
}

/// What the next step of an assembly is.
pub enum AssemblyStep {
    /// The request, and the record of what it is made of. `over_budget` says that
    /// nothing more could be folded away.
    Done { messages: Vec<ChatMessage>, record: Json, over_budget: bool },
    /// Archive and summarize the conversation messages `from..to`.
    Summarize { from: usize, to: usize, prompt: String, archive: String },
}

/// The settings of a summarizing assembler.
///
/// The context is compressed when it reaches `soft_limit` tokens between tasks, or
/// `hard_limit` tokens in the middle of one, and then down to `low_water` tokens.
pub struct SummarizingContextAssembler {
    /// Token budget for the entire context; zero disables summarization.
    pub max_tokens: usize,
    pub soft_limit: usize,
    pub hard_limit: usize,
    pub low_water: usize,
    /// How many recent conversation messages stay verbatim at least.
    pub keep_recent: usize,
    /// Names the archive and marks what is published.
    pub session_id: String,
    /// How this assembler asks for a summary.
    pub prompts: PromptLibrary,
    /// The summary of an assembler that publishes none.
    pub state: Option<SummaryState>,
}

/// The prompt that asks for a summary of new conversation.
pub open spec fn summary_prompt(
    prompts: Map<Seq<char>, Seq<char>>,
    existing: Option<Seq<char>>,
    new_text: Seq<char>,
) -> Seq<char> {
    match existing {
        Some(prev) => prompts::rendered(
            prompts,
            names::SUMMARIZE_EXTEND@,
            seq![("summary"@, prev), ("conversation"@, new_text)],
        ),
        None => prompts::rendered(
            prompts,
            names::SUMMARIZE_FRESH@,
            seq![("conversation"@, new_text)],
        ),
    }
}

/// The summary that a model's reply gives. An error keeps the summary that exists.
pub open spec fn summary_from_reply(
    existing: Option<Seq<char>>,
    reply: Result<Option<Seq<char>>, Seq<char>>,
) -> Seq<char> {
    match reply {
        Ok(Some(t)) => t,
        Ok(None) => "(empty summary)"@,
        Err(e) => match existing {
            Some(prev) => prev,
            None => "[Summary unavailable: "@ + e + "]"@,
        },
    }
}

pub open spec fn reply_view(reply: Result<Option<String>, String>) -> Result<
    Option<Seq<char>>,
    Seq<char>,
> {
    match reply {
        Ok(Some(t)) => Ok(Some(t@)),
        Ok(None) => Ok(None),
        Err(e) => Err(e@),
    }
}

impl SummarizingContextAssembler {
    /// A new assembler for a budget of `max_tokens`, with the limits that follow
    /// from it.
    pub fn new(
        max_tokens: usize,
        soft_limit: usize,
        hard_limit: usize,
        low_water: usize,
        session_id: &str,
    ) -> (r: SummarizingContextAssembler)
        ensures
            r.max_tokens == max_tokens,
            r.soft_limit == soft_limit,
            r.hard_limit == hard_limit,
            r.low_water == low_water,
            r.keep_recent == 20,
            r.session_id@ == session_id@,
            r.prompts@ == prompts::default_prompts(),
            r.state is None,
    {
        SummarizingContextAssembler {
            max_tokens,
            soft_limit,
            hard_limit,
            low_water,
            keep_recent: 20,
            session_id: session_id.to_owned(),
            prompts: PromptLibrary::with_defaults(),
            state: None,
        }
    }

    /// Use a different prompt library.
    pub fn with_prompts(self, prompts: PromptLibrary) -> (r: SummarizingContextAssembler)
        ensures
            r == (SummarizingContextAssembler { prompts, ..self }),
    {
        let mut out = self;
        out.prompts = prompts;
        out
    }

    /// The number of tokens at which the context is compressed.
    pub fn trigger(&self, events: &Vec<Event>) -> (r: usize)
        ensures
            r == (if cycle_depth(text::views(events@)) <= 0 {
                self.soft_limit
            } else {
                self.hard_limit
            }),
    {
        if at_task_boundary(events) {
            self.soft_limit
        } else {
            self.hard_limit
        }
    }

    /// The summary that an assembly starts from: the newest on the log, or the one
    /// that this assembler holds.
    pub fn starting_state(&self, events: &Vec<Event>) -> (r: Option<SummaryState>)
        ensures
            opt_summary(r) == (match logged_summary(text::views(events@)) {
                Some(s) => Some(s),
                None => opt_summary(self.state),
            }),
    {
        match summary_from_log(events) {
            Some(s) => Some(s),
            None => match &self.state {
                Some(s) => Some(s.clone()),
                None => None,
            },
        }
    }

    /// The record of what a request was made of.
    pub fn record_assembly<C: TokenCounter>(
        &self,
        calibration: &C,
        messages: &Vec<ChatMessage>,
        summary: &Option<SummaryState>,
        conv: &Vec<ChatMessage>,
    ) -> (r: Json)
        requires
            covered(opt_summary(*summary)) <= conv@.len(),
        ensures
            r@ == assembly_record(
                calibration,
                self.session_id@,
                self.max_tokens as int,
                text::views(messages@),
                opt_summary(*summary),
                conv@.len() as int,
            ),
    {
        let summarized: usize = match summary {
            Some(s) => s.summarized_count,
            None => 0,
        };
        let verbatim: usize = conv.len() - summarized;
        let head: usize = if messages.len() > verbatim {
            messages.len() - verbatim
        } else {
            0
        };
        let manifest = manifest_of(calibration, messages, head);
        let summary_tokens: usize = match summary {
            Some(s) => size_of(s.summary.as_str()),
            None => 0,
        };
        let system: usize = count_system(calibration, messages);
        let total: usize = count_all(calibration, messages);
        Json::Object(
            JsonMap::new().with("session", Json::text(self.session_id.as_str())).with(
                "messages",
                Json::Unsigned(messages.len() as u64),
            ).with("total_tokens", Json::Unsigned(total as u64)).with(
                "system_tokens",
                Json::Unsigned(system as u64),
            ).with("verbatim_messages", Json::Unsigned(verbatim as u64)).with(
                "summarized_messages",
                Json::Unsigned(summarized as u64),
            ).with("summary_tokens", Json::Unsigned(summary_tokens as u64)).with(
                "compacted",
                Json::Bool(summary.is_some()),
            ).with("budget", Json::Unsigned(self.max_tokens as u64)).with(
                "manifest",
                Json::Array(manifest),
            ),
        )
    }

    /// The prompt that asks for a summary of `conv[from..to]`, extending the
    /// summary that exists.
    pub fn summarize_prompt(
        &self,
        existing: Option<&str>,
        conv: &Vec<ChatMessage>,
        from: usize,
        to: usize,
    ) -> (r: String)
        requires
            from <= to <= conv@.len(),
        ensures
            r@ == summary_prompt(
                self.prompts@,
                match existing {
                    Some(t) => Some(t@),
                    None => None,
                },
                conversation_text(text::views(conv@).subrange(from as int, to as int)),
            ),
    {
        let new_text = conversation_of(conv, from, to);
        match existing {
            Some(prev) => {
                let vars = [("summary", prev), ("conversation", new_text.as_str())];
                assert(prompts::vars_view(vars@) =~= seq![
                    ("summary"@, prev@),
                    ("conversation"@, new_text@),
                ]);
                self.prompts.render(names::SUMMARIZE_EXTEND, &vars)
            },
            None => {
                let vars = [("conversation", new_text.as_str())];
                assert(prompts::vars_view(vars@) =~= seq![("conversation"@, new_text@)]);
                self.prompts.render(names::SUMMARIZE_FRESH, &vars)
            },
        }
    }

    /// The next step of an assembly: the request, where the context is under
    /// `budget` tokens or nothing more can be folded away, and otherwise what to
    /// summarize next.
    pub fn next_step<C: TokenCounter>(
        &self,
        calibration: &C,
        sys_msgs: &Vec<ChatMessage>,
        conv_msgs: &Vec<ChatMessage>,
        state: &Option<SummaryState>,
        budget: usize,
    ) -> (r: AssemblyStep)
        requires
            covered(opt_summary(*state)) <= conv_msgs@.len(),
        ensures
            ({
                let conv = text::views(conv_msgs@);
                let now = opt_summary(*state);
                let request = candidate(text::views(sys_msgs@), now, conv);
                let fits = calibration.counted(request) < budget;
                let cut = cutoff(
                    calibration,
                    conv,
                    covered(now),
                    retention(
                        calibration,
                        self.low_water as int,
                        text::views(sys_msgs@),
                        summary_of(now),
                    ),
                    self.keep_recent as int,
                );
                match r {
                    AssemblyStep::Done { messages, record, over_budget } => {
                        &&& fits || cut <= covered(now)
                        &&& over_budget == !fits
                        &&& text::views(messages@) == request
                        &&& record@ == assembly_record(
                            calibration,
                            self.session_id@,
                            self.max_tokens as int,
                            request,
                            now,
                            conv.len() as int,
                        )
                    },
                    AssemblyStep::Summarize { from, to, prompt, archive: kept } => {
                        &&& !fits
                        &&& from == covered(now)
                        &&& to == cut
                        &&& from < to < conv.len()
                        &&& prompt@ == summary_prompt(
                            self.prompts@,
                            summary_of(now),
                            conversation_text(conv.subrange(from as int, to as int)),
                        )
                        &&& kept@ == archive(conv.subrange(from as int, to as int))
                    },
                }
            }),
    {
        let messages = build_candidate(sys_msgs, state, conv_msgs);
        let under = count_all(calibration, &messages) < budget;
        if under {
            let record = self.record_assembly(calibration, &messages, state, conv_msgs);
            return AssemblyStep::Done { messages, record, over_budget: false };
        }
        let from: usize = match state {
            Some(s) => s.summarized_count,
            None => 0,
        };
        let existing: Option<&str> = match state {
            Some(s) => Some(s.summary.as_str()),
            None => None,
        };
        let retain: usize = retention_budget(self.low_water, sys_msgs, existing, calibration);
        let to: usize = choose_cutoff(conv_msgs, from, retain, self.keep_recent, calibration);
        proof {
            law_cut_is_clean(
                calibration,
                text::views(conv_msgs@),
                from as int,
                retain as int,
                self.keep_recent as int,
            );
        }
        if to <= from {
            let record = self.record_assembly(calibration, &messages, state, conv_msgs);
            return AssemblyStep::Done { messages, record, over_budget: true };
        }
        let prompt = self.summarize_prompt(existing, conv_msgs, from, to);
        let archive = archive_text(conv_msgs, from, to);
        AssemblyStep::Summarize { from, to, prompt, archive }
    }

    /// Takes the model's reply to a summarization of the messages up to `to`.
    ///
    /// With `on_bus`, the summary lives on the log from here on: the payload to
    /// publish is returned. Without, this assembler keeps the summary.
    pub fn summarized(
        &mut self,
        previous: &Option<SummaryState>,
        to: usize,
        reply: Result<Option<String>, String>,
        on_bus: bool,
    ) -> (r: (SummaryState, Option<Json>))
        requires
            covered(opt_summary(*previous)) <= to,
        ensures
            r.0@ == (SummaryView {
                summary: summary_from_reply(
                    summary_of(opt_summary(*previous)),
                    reply_view(reply),
                ),
                summarized_count: to,
            }),
            on_bus ==> *final(self) == *old(self),
            !on_bus ==> opt_summary(final(self).state) == Some(r.0@) && *final(self) == (
            SummarizingContextAssembler { state: final(self).state, ..*old(self) }),
            match r.1 {
                Some(payload) => on_bus && payload@ == summarized_json(
                    r.0@,
                    covered(opt_summary(*previous)),
                    old(self).session_id@,
                ),
                None => !on_bus,
            },
    {
        let summary = match reply {
            Ok(Some(t)) => t,
            Ok(None) => "(empty summary)".to_owned(),
            Err(e) => match previous {
                Some(s) => s.summary.clone(),
                None => {
                    let mut out = "[Summary unavailable: ".to_owned();
                    out.push_str(e.as_str());
                    out.push_str("]");
                    out
                },
            },
        };
        let before: usize = match previous {
            Some(s) => s.summarized_count,
            None => 0,
        };
        let state = SummaryState { summary, summarized_count: to };
        if on_bus {
            let payload = Json::Object(
                JsonMap::new().with("summary", Json::text(state.summary.as_str())).with(
                    "summarized_count",
                    Json::Unsigned(to as u64),
                ).with("replaced_messages", Json::Unsigned((to - before) as u64)).with(
                    "session",
                    Json::text(self.session_id.as_str()),
                ),
            );
            (state, Some(payload))
        } else {
            self.state = Some(state.clone());
            (state, None)
        }
    }
}

/// Each pass folds at least one more message into the summary and leaves the
/// newest ones alone, so an assembly makes fewer passes than there are messages.
pub proof fn law_passes_end<C: TokenCounter>(
    counter: &C,
    conv: Seq<MessageView>,
    from: int,
    retain: int,
    keep_recent: int,
)
    requires
        0 <= from <= conv.len(),
        cutoff(counter, conv, from, retain, keep_recent) > from,
    ensures
        0 <= conv.len() - cutoff(counter, conv, from, retain, keep_recent) < conv.len() - from,
        cutoff(counter, conv, from, retain, keep_recent) <= conv.len() - keep_recent,
{
    law_cut_is_clean(counter, conv, from, retain, keep_recent);
}

} // verus!
