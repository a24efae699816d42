//! Epitaphs: what is kept of a rejected branch that is evicted.
//!
//! A model is asked for one or two sentences about what the branch attempted and
//! why it failed. The branch's events are gone then, and the epitaph is what steers
//! later attempts away from the same mistake.
use crate::text;
use crate::seqs;
use crate::llm::types;
use crate::json;
use crate::event;
use crate::dag::{BranchData, BranchDataView, BranchId};
use crate::event::{uuid_string, Event, EventView};
use crate::json::{Json, JsonMap, JsonView};
use crate::llm::types::{ChatMessage, MessageView, Role};
use crate::text::{join_strs, trim_str};
use std::collections::{HashMap, VecDeque};
use vstd::prelude::*;

verus! {

broadcast use vstd::std_specs::hash::group_hash_axioms;

/// How many branches may wait for their epitaph; more are dropped.
pub const EPITAPH_QUEUE_DEPTH: usize = 256;

/// Whether a payload says anything: an object with an entry.
pub open spec fn says_something(payload: JsonView) -> bool {
    match payload {
        JsonView::Object(m) => m != Map::<Seq<char>, JsonView>::empty(),
        _ => false,
    }
}

/// The line that stands for an event.
pub open spec fn event_line(e: EventView) -> Seq<char> {
    if says_something(e.payload) {
        "["@ + e.kind + "] "@ + json::json_text(e.payload)
    } else {
        "["@ + e.kind + "]"@
    }
}

/// The lines of a branch's events.
pub open spec fn event_summary(events: Seq<EventView>) -> Seq<char> {
    text::join(events.map_values(|e: EventView| event_line(e)), "\n"@)
}

/// What the model is told to do.
pub const EPITAPH_INSTRUCTIONS: &'static str = "You generate concise epitaphs for rejected agent execution branches. Given a chronological list of events from a failed or abandoned trajectory, write one or two sentences that capture what was attempted and why it failed or was abandoned. Be factual and brief — this summary will be stored as negative context to guide future attempts away from the same mistake.";

/// What the model is told of a branch.
pub open spec fn branch_text(branch: BranchDataView) -> Seq<char> {
    "Branch "@ + event::uuid_text(branch.id) + " (diverged from "@ + (match branch.parent_event_id {
        Some(id) => event::uuid_text(id),
        None => "root"@,
    }) + "):\n\n"@ + event_summary(branch.events)
}

fn line_of(e: &Event) -> (r: String)
    ensures
        r@ == event_line(e@),
{
    let mut out = "[".to_owned();
    out.push_str(e.kind.as_str());
    let filled = match e.payload.as_object() {
        Some(m) => !m.is_empty(),
        None => false,
    };
    if filled {
        out.push_str("] ");
        let printed = e.payload.print();
        out.push_str(printed.as_str());
    } else {
        out.push_str("]");
    }
    out
}

/// The messages that ask for the epitaph of a branch.
pub open spec fn epitaph_request(branch: BranchDataView) -> Seq<MessageView> {
    seq![
        types::text_message(Role::System, EPITAPH_INSTRUCTIONS@),
        types::text_message(Role::User, branch_text(branch)),
    ]
}

/// The request for the epitaph of a branch.
pub fn epitaph_messages(branch: &BranchData) -> (r: Vec<ChatMessage>)
    ensures
        text::views(r@) == seq![
            types::text_message(Role::System, EPITAPH_INSTRUCTIONS@),
            types::text_message(Role::User, branch_text(branch@)),
        ],
        text::views(r@) == epitaph_request(branch@),
{
    let ghost events = text::views(branch.events@);
    let ghost all = events.map_values(|e: EventView| event_line(e));
    let mut parts: Vec<String> = Vec::new();
    let mut i: usize = 0;
    assert(text::views(parts@) =~= all.take(0));
    while i < branch.events.len()
        invariant
            i <= branch.events@.len(),
            events == text::views(branch.events@),
            all == events.map_values(|e: EventView| event_line(e)),
            text::views(parts@) == all.take(i as int),
        decreases branch.events@.len() - i,
    {
        let ghost before = text::views(parts@);
        let line = line_of(&branch.events[i]);
        parts.push(line);
        proof {
            seqs::lemma_take_push(all, i as int);
            assert(events[i as int] == branch.events@[i as int]@);
            assert(text::views(parts@) =~= before.push(line@));
        }
        i += 1;
    }
    assert(all.take(i as int) =~= all);
    let summary = join_strs(&parts, "\n");
    let mut text = "Branch ".to_owned();
    let id = uuid_string(branch.id);
    text.push_str(id.as_str());
    text.push_str(" (diverged from ");
    match branch.parent_event_id {
        Some(p) => {
            let parent = uuid_string(p);
            text.push_str(parent.as_str());
        },
        None => {
            text.push_str("root");
        },
    }
    text.push_str("):\n\n");
    text.push_str(summary.as_str());
    let out = vec![ChatMessage::system(EPITAPH_INSTRUCTIONS), ChatMessage::user(text.as_str())];
    assert(text::views(out@) =~= seq![
        types::text_message(Role::System, EPITAPH_INSTRUCTIONS@),
        types::text_message(Role::User, branch_text(branch@)),
    ]);
    out
}

/// The epitaph that the model's answer gives: its text, or what is said in its
/// place.
pub open spec fn epitaph(id: BranchId, answer: Result<Option<Seq<char>>, Seq<char>>) -> Seq<char> {
    match answer {
        Ok(Some(text)) => text::trim(text),
        Ok(None) => "Branch "@ + event::uuid_text(id) + " — no summary generated."@,
        Err(e) => "Branch "@ + event::uuid_text(id) + " — epitaph generation failed: "@ + e,
    }
}

/// The view of a model's answer, or of why there is none.
pub open spec fn answer_view(answer: Result<Option<String>, String>) -> Result<
    Option<Seq<char>>,
    Seq<char>,
> {
    match answer {
        Ok(text) => Ok(json::opt_text(text)),
        Err(e) => Err(e@),
    }
}

/// The epitaph of a branch, from the model's answer.
pub fn epitaph_of(id: BranchId, answer: &Result<Option<String>, String>) -> (r: String)
    ensures
        r@ == epitaph(id, answer_view(*answer)),
{
    match answer {
        Ok(Some(text)) => trim_str(text.as_str()),
        Ok(None) => {
            let mut out = "Branch ".to_owned();
            let name = uuid_string(id);
            out.push_str(name.as_str());
            out.push_str(" — no summary generated.");
            out
        },
        Err(e) => {
            let mut out = "Branch ".to_owned();
            let name = uuid_string(id);
            out.push_str(name.as_str());
            out.push_str(" — epitaph generation failed: ");
            out.push_str(e.as_str());
            out
        },
    }
}

/// The payload of the event that records an epitaph.
pub open spec fn epitaph_json(id: BranchId, events_lost: int, text: Seq<char>) -> JsonView {
    JsonView::Object(
        Map::<Seq<char>, JsonView>::empty().insert(
            "branch_id"@,
            JsonView::Text(event::uuid_text(id)),
        ).insert("events_lost"@, JsonView::Int(events_lost)).insert(
            "epitaph"@,
            JsonView::Text(text),
        ),
    )
}

/// The payload of the event that records the epitaph of a branch.
pub fn epitaph_payload(branch: &BranchData, text: &str) -> (r: Json)
    ensures
        r@ == epitaph_json(branch@.id, branch@.events.len() as int, text@),
{
    let id = uuid_string(branch.id);
    Json::Object(
        JsonMap::new().with("branch_id", Json::text(id.as_str())).with(
            "events_lost",
            Json::Unsigned(branch.events.len() as u64),
        ).with("epitaph", Json::text(text)),
    )
}

/// Epitaphs by branch, and the branches that wait for theirs.
pub struct EpitaphStrategy {
    pub store: HashMap<BranchId, String>,
    pub queue: VecDeque<BranchData>,
}

impl EpitaphStrategy {
    pub fn new() -> (r: EpitaphStrategy)
        ensures
            r.store@ == Map::<BranchId, String>::empty(),
            r.queue@ == Seq::<BranchData>::empty(),
    {
        EpitaphStrategy { store: HashMap::new(), queue: VecDeque::new() }
    }

    /// Takes in an evicted branch: it is queued, unless the queue is full. Then it is
    /// dropped, and the answer is `false`.
    pub fn on_evict(&mut self, branch: BranchData) -> (r: bool)
        ensures
            r == (old(self).queue@.len() < EPITAPH_QUEUE_DEPTH),
            final(self).store == old(self).store,
            final(self).queue@ == (if r {
                old(self).queue@.push(branch)
            } else {
                old(self).queue@
            }),
    {
        if self.queue.len() < EPITAPH_QUEUE_DEPTH {
            self.queue.push_back(branch);
            true
        } else {
            false
        }
    }

    /// Takes out the branch that waited longest. Its place is free from then on, while
    /// its epitaph is still being written.
    pub fn take(&mut self) -> (r: Option<BranchData>)
        ensures
            final(self).store == old(self).store,
            match r {
                Some(b) => old(self).queue@.len() > 0 && b == old(self).queue@[0]
                    && final(self).queue@ == old(self).queue@.skip(1),
                None => old(self).queue@.len() == 0 && final(self).queue@ == old(self).queue@,
            },
    {
        let r = self.queue.pop_front();
        proof {
            if r is Some {
                assert(self.queue@ =~= old(self).queue@.skip(1));
            }
        }
        r
    }

    /// Records the epitaph of a branch.
    pub fn record(&mut self, id: BranchId, text: String)
        ensures
            final(self).store@ == old(self).store@.insert(id, text),
            final(self).queue == old(self).queue,
    {
        self.store.insert(id, text);
    }

    /// The epitaph of a branch, once there is one.
    pub fn epitaph(&self, id: BranchId) -> (r: Option<&String>)
        ensures
            match r {
                Some(t) => self.store@.contains_key(id) && *t == self.store@[id],
                None => !self.store@.contains_key(id),
            },
    {
        self.store.get(&id)
    }

    pub fn name(&self) -> (r: &'static str)
        ensures
            r@ == "epitaph"@,
    {
        "epitaph"
    }
}

} // verus!
