//! Conversations with one agent.
use crate::text;
use crate::seqs;
use crate::json;
use super::context::DefaultContextAssembler;
use super::strategy::ReactStrategy;
use crate::event::{Event, EventView};
use crate::kinds;
use crate::text::same;
use vstd::prelude::*;

verus! {

/// The settings of a session.
pub struct SessionBuilder {
    pub system_prompt: Option<String>,
    pub max_steps: Option<usize>,
    pub max_concurrent_tools: Option<usize>,
    pub context_max_events: Option<usize>,
}

impl SessionBuilder {
    pub fn new() -> (r: SessionBuilder)
        ensures
            r.system_prompt is None,
            r.max_steps is None,
            r.max_concurrent_tools is None,
            r.context_max_events is None,
    {
        SessionBuilder {
            system_prompt: None,
            max_steps: None,
            max_concurrent_tools: None,
            context_max_events: None,
        }
    }

    /// Sets the system prompt.
    pub fn system_prompt(self, prompt: &str) -> (r: SessionBuilder)
        ensures
            r == (SessionBuilder { system_prompt: r.system_prompt, ..self }),
            json::opt_text(r.system_prompt) == Some(prompt@),
    {
        let mut out = self;
        out.system_prompt = Some(prompt.to_owned());
        out
    }

    /// Sets the maximum number of steps of a cycle.
    pub fn max_steps(self, n: usize) -> (r: SessionBuilder)
        ensures
            r == (SessionBuilder { max_steps: Some(n), ..self }),
    {
        let mut out = self;
        out.max_steps = Some(n);
        out
    }

    /// Sets the maximum number of tools that execute at the same time in a step.
    pub fn max_concurrent_tools(self, n: usize) -> (r: SessionBuilder)
        ensures
            r == (SessionBuilder { max_concurrent_tools: Some(n), ..self }),
    {
        let mut out = self;
        out.max_concurrent_tools = Some(n);
        out
    }

    /// Bounds the context window to the most recent events.
    pub fn context_window(self, max_events: usize) -> (r: SessionBuilder)
        ensures
            r == (SessionBuilder { context_max_events: Some(max_events), ..self }),
    {
        let mut out = self;
        out.context_max_events = Some(max_events);
        out
    }

    /// The strategy of the session: twenty steps and four tools at a time, unless
    /// set otherwise.
    pub fn strategy(&self) -> (r: ReactStrategy)
        ensures
            r.max_steps == (match self.max_steps {
                Some(n) => n,
                None => 20,
            }),
            r.max_concurrent_tools == (match self.max_concurrent_tools {
                Some(n) => n,
                None => 4,
            }),
            r.tool_timeout == Some(crate::agent::strategy::TimeLimit { secs: 300, nanos: 0 }),
            r.max_tool_result_chars == Some(30_000usize),
            r.finalize_on_max_steps,
            !r.stream,
    {
        let mut out = ReactStrategy::default();
        if let Some(n) = self.max_steps {
            out.max_steps = n;
        }
        if let Some(n) = self.max_concurrent_tools {
            out.max_concurrent_tools = n;
        }
        out
    }

    /// The assembler of the session.
    pub fn assembler(&self) -> (r: DefaultContextAssembler)
        ensures
            json::opt_text(r.system_prompt) == json::opt_text(self.system_prompt),
            r.max_events == self.context_max_events,
            r.cache is None,
    {
        let out = match &self.system_prompt {
            Some(t) => DefaultContextAssembler::new(t.as_str()),
            None => DefaultContextAssembler::without_system_prompt(),
        };
        match self.context_max_events {
            Some(n) => out.with_max_events(n),
            None => out,
        }
    }
}

/// The text of the newest assistant message of a log, or the empty text.
pub open spec fn reply(log: Seq<EventView>) -> Seq<char>
    decreases log.len(),
{
    if log.len() == 0 {
        Seq::empty()
    } else if log.last().kind == kinds::ASSISTANT_MESSAGE@ {
        match log.last().payload.text_at("content"@) {
            Some(t) => t,
            None => Seq::empty(),
        }
    } else {
        reply(log.drop_last())
    }
}

/// The text of the newest assistant message of a log, or the empty text.
pub fn last_reply(events: &Vec<Event>) -> (r: String)
    ensures
        r@ == reply(text::views(events@)),
{
    let ghost log = text::views(events@);
    let mut i: usize = events.len();
    assert(log.take(i as int) =~= log);
    while i > 0
        invariant
            i <= events@.len(),
            log == text::views(events@),
            reply(log) == reply(log.take(i as int)),
        decreases i,
    {
        let e = &events[i - 1];
        proof {
            assert(log.take(i as int).last() == e@);
            assert(log.take(i as int).drop_last() =~= log.take(i - 1));
        }
        if same(e.kind.as_str(), kinds::ASSISTANT_MESSAGE) {
            return match e.payload.text_at("content") {
                Some(t) => t.to_owned(),
                None => String::new(),
            };
        }
        i -= 1;
    }
    String::new()
}

/// The turn that an event stands for: who spoke, and what.
pub open spec fn turn_of(e: EventView) -> Option<(Seq<char>, Seq<char>)> {
    if e.kind == kinds::USER_MESSAGE@ {
        match e.payload.text_at("text"@) {
            Some(t) => Some(("user"@, t)),
            None => None,
        }
    } else if e.kind == kinds::ASSISTANT_MESSAGE@ {
        match e.payload.text_at("content"@) {
            Some(t) => if t.len() > 0 {
                Some(("assistant"@, t))
            } else {
                None
            },
            None => None,
        }
    } else if e.kind == kinds::TOOL_RESULT@ {
        Some(
            (
                "tool:"@ + (match e.payload.text_at("name"@) {
                    Some(t) => t,
                    None => "tool"@,
                }),
                match e.payload.get("result"@) {
                    Some(v) => json::json_text(v),
                    None => Seq::empty(),
                },
            ),
        )
    } else {
        None
    }
}

fn read_turn(e: &Event) -> (r: Option<(String, String)>)
    ensures
        match r {
            Some(t) => turn_of(e@) == Some(t@),
            None => turn_of(e@) is None,
        },
{
    let kind = e.kind.as_str();
    if same(kind, kinds::USER_MESSAGE) {
        match e.payload.text_at("text") {
            Some(t) => Some(("user".to_owned(), t.to_owned())),
            None => None,
        }
    } else if same(kind, kinds::ASSISTANT_MESSAGE) {
        match e.payload.text_at("content") {
            Some(t) => if t.is_empty() {
                None
            } else {
                Some(("assistant".to_owned(), t.to_owned()))
            },
            None => None,
        }
    } else if same(kind, kinds::TOOL_RESULT) {
        let mut who = "tool:".to_owned();
        match e.payload.text_at("name") {
            Some(t) => who.push_str(t),
            None => who.push_str("tool"),
        }
        let what = match e.payload.get("result") {
            Some(v) => v.print(),
            None => String::new(),
        };
        Some((who, what))
    } else {
        None
    }
}

/// The turns of a log, in order.
pub open spec fn turns_of(log: Seq<EventView>) -> Seq<(Seq<char>, Seq<char>)> {
    seqs::filter_map(log, |e: EventView| turn_of(e))
}

/// The conversation of a log as pairs of role and content.
pub fn history(events: &Vec<Event>) -> (r: Vec<(String, String)>)
    ensures
        text::views(r@) == seqs::filter_map(text::views(events@), |e: EventView| turn_of(e)),
        text::views(r@) == turns_of(text::views(events@)),
{
    let ghost log = text::views(events@);
    let ghost f = |e: EventView| turn_of(e);
    let mut out: Vec<(String, String)> = Vec::new();
    let mut i: usize = 0;
    assert(text::views(out@) =~= seqs::filter_map(log.take(0), f));
    while i < events.len()
        invariant
            i <= events@.len(),
            log == text::views(events@),
            f == (|e: EventView| turn_of(e)),
            text::views(out@) == seqs::filter_map(log.take(i as int), f),
        decreases events@.len() - i,
    {
        proof {
            seqs::lemma_take_push(log, i as int);
            seqs::lemma_filter_map_push(log.take(i as int), f, log[i as int]);
        }
        if let Some(t) = read_turn(&events[i]) {
            let ghost before = text::views(out@);
            out.push(t);
            assert(text::views(out@) =~= before.push(t@));
        }
        i += 1;
    }
    assert(log.take(i as int) =~= log);
    out
}

} // verus!
