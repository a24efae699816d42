//! Laws of compaction: what is summarized, what stays, and what is recorded of it.
use crate::agent::prompts;
use crate::agent::summarizing;
use crate::agent::summarizing::SummaryView;
use crate::agent::tokens::TokenCounter;
use crate::event::EventView;
use crate::json::JsonView;
use crate::laws::anthropic as blocks;
use crate::laws::prompting;
use crate::laws::texts;
use crate::llm::content::{ImageSourceView, PartView};
use crate::llm::types::{MessageView, Role, ToolCallView};
use crate::seqs;
use crate::text;
use vstd::prelude::*;

verus! {

/// The assembled request begins with the system messages and ends with the conversation
/// that the summary does not cover. Between them stands the summary, where it covers
/// anything.
pub proof fn law_request_is_whole(
    sys: Seq<MessageView>,
    state: Option<SummaryView>,
    conv: Seq<MessageView>,
)
    requires
        state matches Some(s) ==> s.summarized_count <= conv.len(),
    ensures
        ({
            let r = summarizing::candidate(sys, state, conv);
            let n = match state {
                Some(s) => s.summarized_count as int,
                None => 0,
            };
            &&& sys.is_prefix_of(r)
            &&& conv.skip(n).is_suffix_of(r)
            &&& r.len() == sys.len() + (if n > 0 {
                1int
            } else {
                0
            }) + conv.len() - n
            &&& n > 0 ==> {
                let m = r[sys.len() as int];
                &&& m.role == Role::System
                &&& m.content is Some
                &&& text::contains(m.content->0, state->0.summary)
                &&& text::starts_with(m.content->0, "<conversation_summary>\n"@)
                &&& m.parts.len() == 0
                &&& m.tool_calls is None
            }
        }),
{
    let r = summarizing::candidate(sys, state, conv);
    let n = match state {
        Some(s) => s.summarized_count as int,
        None => 0,
    };
    assert(r.subrange(0, sys.len() as int) =~= sys);
    assert(r.subrange(r.len() - (conv.len() - n), r.len() as int) =~= conv.skip(n));
    if n > 0 {
        let head
            = "<conversation_summary>\nThe following is a summary of the earlier conversation:\n\n"@;
        let summary = state->0.summary;
        let t = head + summary + "\n</conversation_summary>"@;
        assert(t.subrange(head.len() as int, (head.len() + summary.len()) as int) =~= summary);
        assert(text::occurs_at(t, summary, head.len() as int));
        reveal_strlit(
            "<conversation_summary>\nThe following is a summary of the earlier conversation:\n\n",
        );
        reveal_strlit("<conversation_summary>\n");
        let k = "<conversation_summary>\n"@.len() as int;
        assert(t.subrange(0, k) =~= "<conversation_summary>\n"@);
    }
}

/// Nothing is lost between the system messages and the conversation: each message is in
/// one of the two, and both keep their order.
pub proof fn law_messages_are_parted(a: Seq<MessageView>, b: Seq<MessageView>, m: MessageView)
    ensures
        forall|system: bool| #[trigger]
            summarizing::of_system(a + b, system) == summarizing::of_system(a, system)
                + summarizing::of_system(b, system),
        m.role == Role::System ==> summarizing::of_system(seq![m], true) == seq![m]
            && summarizing::of_system(seq![m], false).len() == 0,
        m.role != Role::System ==> summarizing::of_system(seq![m], false) == seq![m]
            && summarizing::of_system(seq![m], true).len() == 0,
{
    assert forall|system: bool| #[trigger]
        summarizing::of_system(a + b, system) == summarizing::of_system(a, system)
            + summarizing::of_system(b, system) by {
        let f = |m: MessageView|
            if (m.role == Role::System) == system {
                Some(m)
            } else {
                None
            };
        seqs::lemma_filter_map_concat(a, b, f);
    }
    let t = |m: MessageView|
        if (m.role == Role::System) == true {
            Some(m)
        } else {
            None
        };
    let f = |m: MessageView|
        if (m.role == Role::System) == false {
            Some(m)
        } else {
            None
        };
    assert(seq![m] =~= Seq::<MessageView>::empty().push(m));
    seqs::lemma_filter_map_push(Seq::<MessageView>::empty(), t, m);
    seqs::lemma_filter_map_push(Seq::<MessageView>::empty(), f, m);
    assert(summarizing::of_system(seq![m], true) =~= (if m.role == Role::System {
        seq![m]
    } else {
        Seq::empty()
    }));
    assert(summarizing::of_system(seq![m], false) =~= (if m.role == Role::System {
        Seq::empty()
    } else {
        seq![m]
    }));
}

/// The text that is summarized holds the messages in order.
pub proof fn law_conversation_is_told_in_order(a: Seq<MessageView>, b: Seq<MessageView>)
    ensures
        summarizing::conversation_text(a + b) == summarizing::conversation_text(a)
            + summarizing::conversation_text(b),
    decreases b.len(),
{
    if b.len() == 0 {
        assert(a + b =~= a);
        assert(summarizing::conversation_text(a) + Seq::<char>::empty()
            =~= summarizing::conversation_text(a));
    } else {
        assert((a + b).drop_last() =~= a + b.drop_last());
        assert((a + b).last() == b.last());
        law_conversation_is_told_in_order(a, b.drop_last());
        assert(summarizing::conversation_text(a) + (summarizing::conversation_text(b.drop_last())
            + summarizing::message_line(b.last())) =~= summarizing::conversation_text(a)
            + summarizing::conversation_text(b.drop_last()) + summarizing::message_line(b.last()));
    }
}

/// What the text that is summarized holds of one message: what was said, the calls that
/// were made and what came back, each with who said it. A system message is left out.
pub proof fn law_message_is_told(m: MessageView)
    ensures
        ({
            let line = summarizing::conversation_text(seq![m]);
            let said = text::trim(blocks::text_in(m.content));
            match m.role {
                Role::System => line.len() == 0,
                Role::User => if said.len() > 0 {
                    line == "User: "@ + said + "\n"@
                } else {
                    line.len() == 0
                },
                Role::Assistant => {
                    &&& said.len() > 0 && m.tool_calls is None ==> line == "Assistant: "@ + said
                        + "\n"@
                    &&& said.len() == 0 && m.tool_calls is None ==> line.len() == 0
                    &&& said.len() == 0 && m.tool_calls is Some && m.tool_calls->0.len() == 1
                        ==> line == "Assistant: [called "@ + m.tool_calls->0[0].name + "("@
                        + summarizing::first_chars(m.tool_calls->0[0].arguments, 200) + ")]\n"@
                },
                Role::Tool => line == "Tool result: "@ + summarizing::first_chars(said, 300)
                    + "\n"@,
            }
        }),
{
    assert(seq![m].drop_last() =~= Seq::<MessageView>::empty());
    let line = summarizing::conversation_text(seq![m]);
    assert(summarizing::conversation_text(Seq::<MessageView>::empty()) =~= Seq::<char>::empty());
    assert(line =~= summarizing::message_line(m));
    let said = text::trim(blocks::text_in(m.content));
    lemma_trim_empty();
    if m.role == Role::Assistant {
        if m.tool_calls is None {
            let parts = summarizing::assistant_parts(m);
            if said.len() > 0 {
                assert(parts =~= seq![said]);
            } else {
                assert(parts =~= Seq::empty());
            }
        } else if said.len() == 0 && m.tool_calls->0.len() == 1 {
            let c = m.tool_calls->0[0];
            let parts = summarizing::assistant_parts(m);
            assert(parts =~= seq![summarizing::called_text(c)]);
            reveal_strlit("Assistant: ");
            reveal_strlit("[called ");
            reveal_strlit("Assistant: [called ");
            reveal_strlit(")]");
            reveal_strlit("\n");
            reveal_strlit(")]\n");
            assert("Assistant: "@ + "[called "@ =~= "Assistant: [called "@);
            assert(")]"@ + "\n"@ =~= ")]\n"@);
            assert(line =~= "Assistant: [called "@ + c.name + "("@ + summarizing::first_chars(
                c.arguments,
                200,
            ) + ")]\n"@);
        }
    }
}

proof fn lemma_trim_empty()
    ensures
        text::trim(Seq::<char>::empty()).len() == 0,
{
}

/// A shortened text is the beginning of the text, and all of it where it is short.
pub proof fn law_shortening_keeps_the_beginning(s: Seq<char>, n: int)
    requires
        0 <= n,
    ensures
        summarizing::first_chars(s, n).is_prefix_of(s),
        summarizing::first_chars(s, n).len() == (if s.len() <= n {
            s.len() as int
        } else {
            n
        }),
{
}

/// The archive holds what was folded away, message by message and in full.
pub proof fn law_archive_keeps_everything(
    a: Seq<MessageView>,
    b: Seq<MessageView>,
    m: MessageView,
)
    ensures
        summarizing::archive(a + b) == summarizing::archive(a) + summarizing::archive(b),
        m.content matches Some(t) ==> text::contains(summarizing::archive(seq![m]), t),
        m.content is None ==> text::contains(summarizing::archive(seq![m]), "(tool calls)"@),
        text::starts_with(
            summarizing::archive(seq![m]),
            match m.role {
                Role::User => "## User\n"@,
                Role::Assistant => "## Assistant\n"@,
                Role::Tool => "## Tool\n"@,
                Role::System => "## System\n"@,
            },
        ),
    decreases b.len(),
{
    if b.len() == 0 {
        assert(a + b =~= a);
        assert(summarizing::archive(a) + Seq::<char>::empty() =~= summarizing::archive(a));
    } else {
        assert((a + b).drop_last() =~= a + b.drop_last());
        assert((a + b).last() == b.last());
        law_archive_keeps_everything(a, b.drop_last(), m);
        assert(summarizing::archive(a) + (summarizing::archive(b.drop_last())
            + summarizing::archived(b.last())) =~= summarizing::archive(a) + summarizing::archive(
            b.drop_last(),
        ) + summarizing::archived(b.last()));
    }
    assert(seq![m].drop_last() =~= Seq::<MessageView>::empty());
    let r = summarizing::archive(seq![m]);
    assert(summarizing::archive(Seq::<MessageView>::empty()) =~= Seq::<char>::empty());
    assert(r =~= summarizing::archived(m));
    let who = match m.role {
        Role::User => "User"@,
        Role::Assistant => "Assistant"@,
        Role::Tool => "Tool"@,
        Role::System => "System"@,
    };
    let head = "## "@ + who + "\n"@;
    let body = match m.content {
        Some(t) => t,
        None => "(tool calls)"@,
    };
    assert(r =~= head + body + "\n\n"@);
    assert(r.subrange(head.len() as int, (head.len() + body.len()) as int) =~= body);
    assert(text::occurs_at(r, body, head.len() as int));
    reveal_strlit("## ");
    reveal_strlit("\n");
    reveal_strlit("User");
    reveal_strlit("Assistant");
    reveal_strlit("Tool");
    reveal_strlit("System");
    reveal_strlit("## User\n");
    reveal_strlit("## Assistant\n");
    reveal_strlit("## Tool\n");
    reveal_strlit("## System\n");
    let title = match m.role {
        Role::User => "## User\n"@,
        Role::Assistant => "## Assistant\n"@,
        Role::Tool => "## Tool\n"@,
        Role::System => "## System\n"@,
    };
    assert(head =~= title);
    assert(r.subrange(0, title.len() as int) =~= title);
}

/// What is recorded of a message with a text alone is that text; of a longer one than the
/// limit its beginning, and how long it was.
pub proof fn law_record_keeps_the_text(m: MessageView, t: Seq<char>)
    requires
        m.content == Some(t),
        text::trim(t).len() > 0,
        m.parts.len() == 0,
        m.tool_calls is None,
    ensures
        t.len() <= 4000 ==> summarizing::recorded(m) == (t, None::<nat>),
        t.len() > 4000 ==> summarizing::recorded(m).0.is_prefix_of(t) && summarizing::recorded(
            m,
        ).0.len() == 4000 && summarizing::recorded(m).1 == Some(t.len()),
{
    let f = |p: PartView| summarizing::part_section(p);
    assert(seqs::filter_map(m.parts, f) =~= Seq::<Seq<char>>::empty());
    assert(summarizing::sections(m) =~= seq![t]);
}

/// The sections of a record are the text, each part and each call, in order.
pub proof fn law_record_holds_every_call(m: MessageView, i: int)
    requires
        m.tool_calls is Some,
        0 <= i < m.tool_calls->0.len(),
    ensures
        ({
            let s = summarizing::sections(m);
            let c = m.tool_calls->0[i];
            &&& s.len() >= m.tool_calls->0.len()
            &&& s[s.len() - m.tool_calls->0.len() + i] == c.name + "("@ + c.arguments + ")"@
        }),
{
}

/// An image is recorded by where it is, or by its type and size.
pub proof fn law_image_is_described(source: ImageSourceView)
    ensures
        summarizing::part_section(PartView::Image { source }) == Some(
            match source {
                ImageSourceView::Url { url } => "[image: "@ + url + "]"@,
                ImageSourceView::Base64 { media_type, data } => "[image: "@ + media_type + ", "@
                    + text::decimal((text::byte_len(data) * 3 / 4 + 1023) / 1024) + " KB inline]"@,
            },
        ),
{
}

/// The newest summary of a log counts: what it says, or that there is none.
pub proof fn law_newest_summary_is_read(
    log: Seq<EventView>,
    i: int,
    summary: Seq<char>,
    n: u64,
)
    requires
        0 <= i < log.len(),
        log[i].kind == "agent.context.summarized"@,
        log[i].payload.text_at("summary"@) == Some(summary),
        log[i].payload.u64_at("summarized_count"@) == Some(n),
        n <= usize::MAX,
        forall|k: int|
            i < k < log.len() ==> (#[trigger] log[k]).kind != "agent.context.summarized"@,
    ensures
        summarizing::logged_summary(log) is Some,
        summarizing::logged_summary(log)->0.summary == summary,
        summarizing::logged_summary(log)->0.summarized_count == n,
    decreases log.len(),
{
    if i < log.len() - 1 {
        let front = log.drop_last();
        assert(log[log.len() - 1].kind != "agent.context.summarized"@);
        assert forall|k: int| i < k < front.len() implies (#[trigger] front[k]).kind
            != "agent.context.summarized"@ by {
            assert(front[k] == log[k]);
        }
        law_newest_summary_is_read(front, i, summary, n);
    }
}

/// Without a summary event there is no summary.
pub proof fn law_no_summary_without_an_event(log: Seq<EventView>)
    requires
        forall|k: int|
            0 <= k < log.len() ==> (#[trigger] log[k]).kind != "agent.context.summarized"@,
    ensures
        summarizing::logged_summary(log) is None,
    decreases log.len(),
{
    if log.len() > 0 {
        let front = log.drop_last();
        assert(log[log.len() - 1].kind != "agent.context.summarized"@);
        assert forall|k: int| 0 <= k < front.len() implies (#[trigger] front[k]).kind
            != "agent.context.summarized"@ by {
            assert(front[k] == log[k]);
        }
        law_no_summary_without_an_event(front);
    }
}

/// What is published of a summary: its text, how many messages it covers, how many of
/// them are new, and the session.
pub proof fn law_summary_is_published(state: SummaryView, previous: int, session: Seq<char>)
    ensures
        ({
            let p = summarizing::summarized_json(state, previous, session);
            &&& p.text_at("summary"@) == Some(state.summary)
            &&& p.get("summarized_count"@) == Some(JsonView::Int(state.summarized_count as int))
            &&& p.get("replaced_messages"@) == Some(
                JsonView::Int(state.summarized_count - previous),
            )
            &&& p.text_at("session"@) == Some(session)
        }),
        ({
            let p = summarizing::override_json(state.summary, state.summarized_count);
            &&& p.text_at("summary"@) == Some(state.summary)
            &&& p.get("summarized_count"@) == Some(JsonView::Int(state.summarized_count as int))
            &&& p.text_at("source"@) == Some("manual_override"@)
        }),
{
    reveal_strlit("summary");
    reveal_strlit("summarized_count");
    reveal_strlit("replaced_messages");
    reveal_strlit("session");
    reveal_strlit("source");
    assert("summary"@.len() == 7 && "summarized_count"@.len() == 16 && "replaced_messages"@.len()
        == 17 && "session"@.len() == 7 && "source"@.len() == 6 && "summary"@[1] == 'u'
        && "session"@[1] == 'e');
}

/// The counts of a summary are published as they are.
pub proof fn law_counts_are_published(summary_len: int, summarized: int, retained: int)
    ensures
        ({
            let p = summarizing::counts_json(summary_len, summarized, retained);
            &&& p.get("summary_len"@) == Some(JsonView::Int(summary_len))
            &&& p.get("summarized_events"@) == Some(JsonView::Int(summarized))
            &&& p.get("retained_events"@) == Some(JsonView::Int(retained))
        }),
{
    reveal_strlit("summary_len");
    reveal_strlit("summarized_events");
    reveal_strlit("retained_events");
    assert("summary_len"@.len() == 11 && "summarized_events"@.len() == 17
        && "retained_events"@.len() == 15);
}

/// A cycle that began and ended leaves the depth as it was, whatever else happened.
pub proof fn law_cycles_are_counted(log: Seq<EventView>, e: EventView)
    ensures
        summarizing::cycle_depth(Seq::empty()) == 0,
        summarizing::cycle_depth(log.push(e)) == summarizing::cycle_depth(log) + (if e.kind
            == "agent.cycle.start"@ {
            1int
        } else if e.kind == "agent.cycle.end"@ {
            -1int
        } else {
            0int
        }),
{
    assert(log.push(e).drop_last() =~= log);
}

/// A cut leaves the newest messages alone, never falls back, and never parts a result
/// from its call.
pub proof fn law_cut_leaves_the_newest<C: TokenCounter>(
    counter: &C,
    conv: Seq<MessageView>,
    already: int,
    retain: int,
    keep_recent: int,
)
    requires
        0 <= already <= conv.len(),
    ensures
        ({
            let cut = summarizing::cutoff(counter, conv, already, retain, keep_recent);
            &&& already <= cut
            &&& cut > already ==> cut < conv.len() && cut <= conv.len() - keep_recent
                && conv[cut].role != Role::Tool
        }),
{
    summarizing::law_cut_is_clean(counter, conv, already, retain, keep_recent);
}

/// The costs of the messages `from..to`, one by one.
pub open spec fn costs<C: TokenCounter>(
    counter: &C,
    conv: Seq<MessageView>,
    from: int,
    to: int,
) -> int
    decreases to - from,
{
    if from >= to {
        0
    } else {
        counter.counted(seq![conv[to - 1]]) + costs(counter, conv, from, to - 1)
    }
}

/// What stays is as much as the budget takes: the kept messages fit, and one more would
/// not.
pub proof fn law_budget_is_used<C: TokenCounter>(
    counter: &C,
    conv: Seq<MessageView>,
    already: int,
    i: int,
    used: int,
    retain: int,
)
    requires
        0 <= already <= i <= conv.len(),
    ensures
        ({
            let k = summarizing::kept_from(counter, conv, already, i, used, retain);
            &&& already <= k <= i
            &&& k < i ==> used + costs(counter, conv, k, i) <= retain
            &&& k > already ==> used + costs(counter, conv, k - 1, i) > retain
        }),
    decreases i,
{
    if i > already {
        let cost = counter.counted(seq![conv[i - 1]]) as int;
        if used + cost <= retain {
            law_budget_is_used(counter, conv, already, i - 1, used + cost, retain);
            let k = summarizing::kept_from(counter, conv, already, i - 1, used + cost, retain);
            assert(costs(counter, conv, i - 1, i - 1) == 0);
            assert(costs(counter, conv, k, i) == cost + costs(counter, conv, k, i - 1));
            if k > already {
                assert(costs(counter, conv, k - 1, i) == cost + costs(counter, conv, k - 1, i - 1));
            }
        } else {
            assert(costs(counter, conv, i - 1, i - 1) == 0);
            assert(costs(counter, conv, i - 1, i) == cost);
        }
    }
}

/// What may stay is the mark less the system messages and a reserve for the summary.
pub proof fn law_retention_leaves_room<C: TokenCounter>(
    counter: &C,
    low_water: int,
    sys: Seq<MessageView>,
    summary: Option<Seq<char>>,
)
    requires
        0 <= low_water,
    ensures
        ({
            let r = summarizing::retention(counter, low_water, sys, summary);
            &&& 0 <= r <= low_water
            &&& r > 0 ==> r + counter.counted(sys) + 1024 <= low_water
            &&& r > 0 && summary is None ==> r + counter.counted(sys) + 1024 == low_water
            &&& r == 0 && summary is None ==> low_water <= counter.counted(sys) + 1024
        }),
{
}

/// A summary is the model's reply. Where the call failed the old summary stays, and
/// without one the error is told.
pub proof fn law_summary_is_the_reply(
    existing: Option<Seq<char>>,
    reply: Result<Option<Seq<char>>, Seq<char>>,
)
    ensures
        reply matches Ok(Some(t)) ==> summarizing::summary_from_reply(existing, reply) == t,
        reply is Err && existing is Some ==> summarizing::summary_from_reply(existing, reply)
            == existing->0,
        reply matches Err(e) ==> existing is None ==> text::contains(
            summarizing::summary_from_reply(existing, reply),
            e,
        ),
        reply matches Ok(None) ==> summarizing::summary_from_reply(existing, reply)
            == "(empty summary)"@,
{
    if let Err(e) = reply {
        if existing is None {
            let head = "[Summary unavailable: "@;
            let t = head + e + "]"@;
            assert(t.subrange(head.len() as int, (head.len() + e.len()) as int) =~= e);
            assert(text::occurs_at(t, e, head.len() as int));
        }
    }
}

/// The record of a request lists its messages in order, each with its role, its cost and
/// its text, and where it came from.
pub proof fn law_manifest_lists_the_request<C: TokenCounter>(
    counter: &C,
    session: Seq<char>,
    budget: int,
    messages: Seq<MessageView>,
    state: Option<SummaryView>,
    conv_len: int,
)
    ensures
        ({
            let r = summarizing::assembly_record(
                counter,
                session,
                budget,
                messages,
                state,
                conv_len,
            );
            let n = match state {
                Some(s) => s.summarized_count as int,
                None => 0,
            };
            &&& r.text_at("session"@) == Some(session)
            &&& r.get("messages"@) == Some(JsonView::Int(messages.len() as int))
            &&& r.get("total_tokens"@) == Some(JsonView::Int(counter.counted(messages) as int))
            &&& r.get("verbatim_messages"@) == Some(JsonView::Int(conv_len - n))
            &&& r.get("summarized_messages"@) == Some(JsonView::Int(n))
            &&& r.get("compacted"@) == Some(JsonView::Bool(state is Some))
            &&& r.get("budget"@) == Some(JsonView::Int(budget))
            &&& r.array_at("manifest"@) is Some
            &&& r.array_at("manifest"@)->0.len() == messages.len()
            &&& forall|i: int|
                0 <= i < messages.len() ==> {
                    let e = #[trigger] r.array_at("manifest"@)->0[i];
                    &&& e.get("index"@) == Some(JsonView::Int(i))
                    &&& e.text_at("role"@) == Some(
                        match messages[i].role {
                            Role::System => "system"@,
                            Role::User => "user"@,
                            Role::Assistant => "assistant"@,
                            Role::Tool => "tool"@,
                        },
                    )
                    &&& e.get("tokens"@) == Some(
                        JsonView::Int(counter.counted(seq![messages[i]]) as int),
                    )
                    &&& e.text_at("text"@) == Some(summarizing::recorded(messages[i]).0)
                    &&& (messages[i].role != Role::System && !text::starts_with(
                        blocks::text_in(messages[i].content),
                        "[cleared by harness:"@,
                    ) ==> (e.text_at("source"@) == Some("verbatim"@) <==> i >= messages.len() - (
                    conv_len - n)))
                    &&& (messages[i].role != Role::System && text::starts_with(
                        blocks::text_in(messages[i].content),
                        "[cleared by harness:"@,
                    ) ==> e.text_at("source"@) == Some("cleared"@))
                    &&& (messages[i].role == Role::System ==> e.text_at("source"@) == Some(
                        if text::contains(
                            blocks::text_in(messages[i].content),
                            "<conversation_summary>"@,
                        ) {
                            "summary"@
                        } else {
                            "system"@
                        },
                    ))
                }
        }),
{
    reveal_strlit("session");
    reveal_strlit("messages");
    reveal_strlit("total_tokens");
    reveal_strlit("system_tokens");
    reveal_strlit("verbatim_messages");
    reveal_strlit("summarized_messages");
    reveal_strlit("summary_tokens");
    reveal_strlit("compacted");
    reveal_strlit("budget");
    reveal_strlit("manifest");
    assert("session"@.len() == 7 && "messages"@.len() == 8 && "total_tokens"@.len() == 12
        && "system_tokens"@.len() == 13 && "verbatim_messages"@.len() == 17
        && "summarized_messages"@.len() == 19 && "summary_tokens"@.len() == 14
        && "compacted"@.len() == 9 && "budget"@.len() == 6 && "manifest"@.len() == 8
        && "messages"@[1] == 'e' && "manifest"@[1] == 'a');
    reveal_strlit("index");
    reveal_strlit("role");
    reveal_strlit("tokens");
    reveal_strlit("source");
    reveal_strlit("text");
    reveal_strlit("truncated_from");
    assert("index"@.len() == 5 && "role"@.len() == 4 && "tokens"@.len() == 6 && "source"@.len()
        == 6 && "text"@.len() == 4 && "truncated_from"@.len() == 14 && "role"@[0] == 'r'
        && "text"@[0] == 't' && "tokens"@[0] == 't' && "source"@[0] == 's');
    reveal_strlit("verbatim");
    reveal_strlit("other");
    assert("verbatim"@.len() == 8 && "other"@.len() == 5);
}

/// The model is asked for a summary of the whole new conversation, where the library's own
/// template asks for it.
pub proof fn law_summary_is_asked_of_the_conversation(
    library: Map<Seq<char>, Seq<char>>,
    a: Seq<char>,
    b: Seq<char>,
    conversation: Seq<char>,
)
    requires
        library.contains_key("context.summarize.fresh"@),
        library["context.summarize.fresh"@] == a + ("{"@ + "conversation"@ + "}"@) + b,
        forall|i: int|
            0 <= i < a.len() ==> !#[trigger] text::occurs_at(
                a + ("{"@ + "conversation"@ + "}"@) + b,
                "{"@ + "conversation"@ + "}"@,
                i,
            ),
        forall|i: int|
            0 <= i ==> !#[trigger] text::occurs_at(b, "{"@ + "conversation"@ + "}"@, i),
    ensures
        summarizing::summary_prompt(library, None, conversation) == a + conversation + b,
{
    prompting::law_variable_is_filled_in(a, "conversation"@, b, conversation);
}

/// A summary that there is, is asked to be extended: both it and the new conversation are
/// filled in.
pub proof fn law_summary_is_extended(
    library: Map<Seq<char>, Seq<char>>,
    template: Seq<char>,
    previous: Seq<char>,
    conversation: Seq<char>,
)
    requires
        library.contains_key("context.summarize.extend"@),
        library["context.summarize.extend"@] == template,
    ensures
        summarizing::summary_prompt(library, Some(previous), conversation) == prompts::filled(
            prompts::filled(template, seq![("summary"@, previous)]),
            seq![("conversation"@, conversation)],
        ),
{
    let first = seq![("summary"@, previous)];
    prompting::law_variables_are_filled_in_order(
        template,
        first,
        ("conversation"@, conversation),
    );
    assert(first.push(("conversation"@, conversation)) =~= seq![
        ("summary"@, previous),
        ("conversation"@, conversation),
    ]);
}

/// A summary has room for twice what it costs.
pub proof fn law_summary_has_room<C: TokenCounter>(
    counter: &C,
    low_water: int,
    sys: Seq<MessageView>,
    summary: Seq<char>,
    m: MessageView,
)
    requires
        0 <= low_water,
        m.role == Role::System,
        m.content == Some(summary),
        m.parts == Seq::<PartView>::empty(),
        m.tool_calls is None,
        m.tool_call_id is None,
        m.name is None,
        m.provider_extra is None,
    ensures
        ({
            let r = summarizing::retention(counter, low_water, sys, Some(summary));
            r > 0 ==> r + counter.counted(sys) + 2 * counter.counted(seq![m]) <= low_water
        }),
{
}

/// The first message that may begin what stays is taken, looking forward; the last,
/// looking back.
pub proof fn law_nearest_fit_is_taken(
    conv: Seq<MessageView>,
    turns: bool,
    lo: int,
    hi: int,
)
    ensures
        match summarizing::first_fit(conv, turns, lo, hi) {
            Some(i) => lo <= i <= hi && summarizing::fits(conv, turns, i) && forall|k: int|
                lo <= k < i ==> !#[trigger] summarizing::fits(conv, turns, k),
            None => forall|k: int| lo <= k <= hi ==> !#[trigger] summarizing::fits(conv, turns, k),
        },
        match summarizing::last_fit(conv, turns, lo, hi) {
            Some(i) => lo <= i <= hi && summarizing::fits(conv, turns, i) && forall|k: int|
                i < k <= hi ==> !#[trigger] summarizing::fits(conv, turns, k),
            None => forall|k: int| lo <= k <= hi ==> !#[trigger] summarizing::fits(conv, turns, k),
        },
    decreases hi - lo + 1,
{
    if lo <= hi {
        if !summarizing::fits(conv, turns, lo) {
            law_nearest_fit_is_taken(conv, turns, lo + 1, hi);
        }
        if !summarizing::fits(conv, turns, hi) {
            law_nearest_fit_is_taken(conv, turns, lo, hi - 1);
        }
    }
}

/// A turn begins with a user's message; otherwise anything but a result may stand first.
pub proof fn law_what_may_stand_first(conv: Seq<MessageView>, i: int)
    requires
        0 <= i < conv.len(),
    ensures
        summarizing::fits(conv, true, i) <==> conv[i].role == Role::User,
        summarizing::fits(conv, false, i) <==> conv[i].role != Role::Tool,
{
}

/// A reply with a text and calls is told with the text first and then the calls.
pub proof fn law_text_is_told_before_calls(m: MessageView, said: Seq<char>, c: ToolCallView)
    requires
        m.role == Role::Assistant,
        text::trim(blocks::text_in(m.content)) == said,
        said.len() > 0,
        m.tool_calls == Some(seq![c]),
    ensures
        summarizing::conversation_text(seq![m]) == "Assistant: "@ + (said + " "@ + ("[called "@
            + c.name + "("@ + summarizing::first_chars(c.arguments, 200) + ")]"@)) + "\n"@,
{
    assert(seq![m].drop_last() =~= Seq::<MessageView>::empty());
    assert(summarizing::conversation_text(Seq::<MessageView>::empty()) =~= Seq::<char>::empty());
    let line = summarizing::conversation_text(seq![m]);
    assert(line =~= summarizing::message_line(m));
    lemma_trim_empty();
    let call = "[called "@ + c.name + "("@ + summarizing::first_chars(c.arguments, 200) + ")]"@;
    let parts = summarizing::assistant_parts(m);
    assert(parts =~= seq![said].push(call));
    texts::law_join_adds_at_the_end(seq![said], " "@, call);
    assert(text::join(seq![said], " "@) == said);
}

/// The text of a message is recorded before its parts, and its calls last.
pub proof fn law_record_begins_with_the_text(m: MessageView, t: Seq<char>)
    requires
        m.content == Some(t),
        text::trim(t).len() > 0,
    ensures
        summarizing::sections(m).len() > 0,
        summarizing::sections(m)[0] == t,
{
}

} // verus!
