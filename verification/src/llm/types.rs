//! Messages, tools and replies.
use crate::text;
use crate::seqs;
use crate::llm::wire;
use crate::llm::content;
use crate::json;
use super::content::{parts_to_text, read_parts, ContentPart, PartView};
use crate::json::{Json, JsonMap, JsonView};
use crate::text::same;
use vstd::prelude::*;

verus! {

#[derive(Debug, Clone, Copy, PartialEq, Eq, Structural)]
pub enum Role {
    System,
    User,
    Assistant,
    Tool,
}

/// The wire name of a role.
pub open spec fn role_name(role: Role) -> Seq<char> {
    match role {
        Role::System => "system"@,
        Role::User => "user"@,
        Role::Assistant => "assistant"@,
        Role::Tool => "tool"@,
    }
}

impl Role {
    /// The wire name of this role.
    pub fn as_str(&self) -> (r: &'static str)
        ensures
            r@ == role_name(*self),
    {
        match self {
            Role::System => "system",
            Role::User => "user",
            Role::Assistant => "assistant",
            Role::Tool => "tool",
        }
    }
}

#[derive(Debug)]
pub struct FunctionCall {
    pub name: String,
    /// JSON-encoded arguments string.
    pub arguments: String,
}

impl Clone for FunctionCall {
    fn clone(&self) -> (r: FunctionCall)
        ensures
            r == *self,
    {
        FunctionCall { name: self.name.clone(), arguments: self.arguments.clone() }
    }
}

#[derive(Debug)]
pub struct ToolCall {
    pub id: String,
    pub kind: String,
    pub function: FunctionCall,
    /// Provider-specific extra fields, carried as they came.
    pub extra_content: Option<Json>,
}

#[verifier::ext_equal]
pub struct ToolCallView {
    pub id: Seq<char>,
    pub kind: Seq<char>,
    pub name: Seq<char>,
    pub arguments: Seq<char>,
    pub extra_content: Option<JsonView>,
}

impl View for ToolCall {
    type V = ToolCallView;

    open spec fn view(&self) -> ToolCallView {
        ToolCallView {
            id: self.id@,
            kind: self.kind@,
            name: self.function.name@,
            arguments: self.function.arguments@,
            extra_content: json::opt_json(self.extra_content),
        }
    }
}

/// A copy of an optional value.
pub fn copy_opt_json(o: &Option<Json>) -> (r: Option<Json>)
    ensures
        json::opt_json(r) == json::opt_json(*o),
{
    match o {
        Some(j) => Some(j.clone()),
        None => None,
    }
}

/// A copy of an optional string.
pub fn copy_opt_text(o: &Option<String>) -> (r: Option<String>)
    ensures
        json::opt_text(r) == json::opt_text(*o),
{
    match o {
        Some(t) => Some(t.clone()),
        None => None,
    }
}

impl Clone for ToolCall {
    fn clone(&self) -> (r: ToolCall)
        ensures
            r@ == self@,
    {
        ToolCall {
            id: self.id.clone(),
            kind: self.kind.clone(),
            function: self.function.clone(),
            extra_content: copy_opt_json(&self.extra_content),
        }
    }
}

/// The views of an optional list of tool calls.
pub open spec fn opt_calls(o: Option<Vec<ToolCall>>) -> Option<Seq<ToolCallView>> {
    match o {
        Some(v) => Some(text::views(v@)),
        None => None,
    }
}

/// A single message in the chat history.
///
/// Content is either plain `content` text or, for multimodal messages, an
/// ordered list of `parts`. When `parts` is non-empty it takes precedence.
#[derive(Debug)]
pub struct ChatMessage {
    pub role: Role,
    pub content: Option<String>,
    /// Multimodal content parts (text + images). Empty for text-only messages.
    pub parts: Vec<ContentPart>,
    pub tool_calls: Option<Vec<ToolCall>>,
    pub tool_call_id: Option<String>,
    pub name: Option<String>,
    /// Provider-opaque blocks carried through the event log so that stateful
    /// reasoning survives multi-step tool loops. Never sent on the
    /// OpenAI-compatible wire; native providers read it explicitly.
    pub provider_extra: Option<Json>,
}

#[verifier::ext_equal]
pub struct MessageView {
    pub role: Role,
    pub content: Option<Seq<char>>,
    pub parts: Seq<PartView>,
    pub tool_calls: Option<Seq<ToolCallView>>,
    pub tool_call_id: Option<Seq<char>>,
    pub name: Option<Seq<char>>,
    pub provider_extra: Option<JsonView>,
}

impl View for ChatMessage {
    type V = MessageView;

    open spec fn view(&self) -> MessageView {
        MessageView {
            role: self.role,
            content: json::opt_text(self.content),
            parts: text::views(self.parts@),
            tool_calls: opt_calls(self.tool_calls),
            tool_call_id: json::opt_text(self.tool_call_id),
            name: json::opt_text(self.name),
            provider_extra: json::opt_json(self.provider_extra),
        }
    }
}

/// A copy of an optional list of tool calls.
pub fn copy_opt_calls(o: &Option<Vec<ToolCall>>) -> (r: Option<Vec<ToolCall>>)
    ensures
        opt_calls(r) == opt_calls(*o),
{
    match o {
        Some(v) => {
            let w = v.clone();
            assert(text::views(w@) =~= text::views(v@));
            Some(w)
        },
        None => None,
    }
}

impl Clone for ChatMessage {
    fn clone(&self) -> (r: ChatMessage)
        ensures
            r@ == self@,
    {
        let parts = self.parts.clone();
        assert(text::views(parts@) =~= text::views(self.parts@));
        ChatMessage {
            role: self.role,
            content: copy_opt_text(&self.content),
            parts,
            tool_calls: copy_opt_calls(&self.tool_calls),
            tool_call_id: copy_opt_text(&self.tool_call_id),
            name: copy_opt_text(&self.name),
            provider_extra: copy_opt_json(&self.provider_extra),
        }
    }
}

/// A message of role `role` with text `content` and nothing else.
pub open spec fn text_message(role: Role, content: Seq<char>) -> MessageView {
    MessageView {
        role,
        content: Some(content),
        parts: Seq::empty(),
        tool_calls: None,
        tool_call_id: None,
        name: None,
        provider_extra: None,
    }
}

/// `Some` of a text that is not empty.
pub open spec fn non_empty(t: Seq<char>) -> Option<Seq<char>> {
    if t.len() == 0 {
        None
    } else {
        Some(t)
    }
}

/// `Some` of a text that is not empty.
pub fn non_empty_text(t: String) -> (r: Option<String>)
    ensures
        json::opt_text(r) == non_empty(t@),
{
    if t.as_str().is_empty() {
        None
    } else {
        Some(t)
    }
}

/// The Chat Completions wire form of a tool call.
pub open spec fn tool_call_json(c: ToolCallView) -> JsonView {
    let m = map![
        "id"@ => JsonView::Text(c.id),
        "type"@ => JsonView::Text(c.kind),
        "function"@ => JsonView::Object(
            map!["name"@ => JsonView::Text(c.name), "arguments"@ => JsonView::Text(c.arguments)],
        ),
    ];
    match c.extra_content {
        Some(e) => JsonView::Object(m.insert("extra_content"@, e)),
        None => JsonView::Object(m),
    }
}

impl ToolCall {
    /// The Chat Completions wire form of this call.
    pub fn to_json(&self) -> (r: Json)
        ensures
            r@ == tool_call_json(self@),
    {
        let f = JsonMap::new().with("name", Json::text(self.function.name.as_str())).with(
            "arguments",
            Json::text(self.function.arguments.as_str()),
        );
        let m = JsonMap::new().with("id", Json::text(self.id.as_str())).with(
            "type",
            Json::text(self.kind.as_str()),
        ).with("function", Json::Object(f));
        match &self.extra_content {
            Some(e) => Json::Object(m.with("extra_content", e.clone())),
            None => Json::Object(m),
        }
    }
}

/// The Chat Completions wire form of a message: `content` is a string for a
/// text-only message and an array of parts for a multimodal one, and no field
/// stands for what is absent. `provider_extra` is never sent.
pub open spec fn message_json(m: MessageView) -> JsonView {
    let a = map!["role"@ => JsonView::Text(role_name(m.role))];
    let b = if m.parts.len() > 0 {
        a.insert("content"@, JsonView::Array(m.parts.map_values(|p: PartView| content::openai_part(p))))
    } else {
        match m.content {
            Some(t) => a.insert("content"@, JsonView::Text(t)),
            None => a,
        }
    };
    let c = match m.tool_calls {
        Some(calls) => b.insert(
            "tool_calls"@,
            JsonView::Array(calls.map_values(|t: ToolCallView| tool_call_json(t))),
        ),
        None => b,
    };
    let d = match m.tool_call_id {
        Some(id) => c.insert("tool_call_id"@, JsonView::Text(id)),
        None => c,
    };
    let e = match m.name {
        Some(n) => d.insert("name"@, JsonView::Text(n)),
        None => d,
    };
    JsonView::Object(e)
}

/// The role with a wire name.
pub open spec fn role_of(name: Seq<char>) -> Option<Role> {
    if name == "system"@ {
        Some(Role::System)
    } else if name == "user"@ {
        Some(Role::User)
    } else if name == "assistant"@ {
        Some(Role::Assistant)
    } else if name == "tool"@ {
        Some(Role::Tool)
    } else {
        None
    }
}

/// An optional text field: absent or null stands for none, and nothing but a text
/// for one.
pub open spec fn text_field(field: Option<JsonView>) -> Option<Option<Seq<char>>> {
    match field {
        None => Some(None),
        Some(JsonView::Null) => Some(None),
        Some(JsonView::Text(t)) => Some(Some(t)),
        _ => None,
    }
}

/// An optional field of any form: absent or null stands for none.
pub open spec fn any_field(field: Option<JsonView>) -> Option<JsonView> {
    match field {
        Some(JsonView::Null) => None,
        _ => field,
    }
}

/// The tool call that an object is.
pub open spec fn tool_call_of(j: JsonView) -> Option<ToolCallView> {
    match (j.text_at("id"@), j.text_at("type"@), j.get("function"@)) {
        (Some(id), Some(kind), Some(f)) => match (f.text_at("name"@), f.text_at("arguments"@)) {
            (Some(name), Some(arguments)) => Some(
                ToolCallView {
                    id,
                    kind,
                    name,
                    arguments,
                    extra_content: any_field(j.get("extra_content"@)),
                },
            ),
            _ => None,
        },
        _ => None,
    }
}

/// An optional list of tool calls: absent or null stands for none.
pub open spec fn calls_field(field: Option<JsonView>) -> Option<Option<Seq<ToolCallView>>> {
    match field {
        None => Some(None),
        Some(JsonView::Null) => Some(None),
        Some(JsonView::Array(a)) => match seqs::map_all(a, |j: JsonView| tool_call_of(j)) {
            Some(calls) => Some(Some(calls)),
            None => None,
        },
        _ => None,
    }
}

/// The content of a message, text or parts: absent or null stands for none. Parts bring
/// their own text along.
pub open spec fn content_field(field: Option<JsonView>) -> Option<
    (Option<Seq<char>>, Seq<PartView>),
> {
    match field {
        None => Some((None, Seq::empty())),
        Some(JsonView::Null) => Some((None, Seq::empty())),
        Some(JsonView::Text(t)) => Some((Some(t), Seq::empty())),
        Some(JsonView::Array(a)) => match content::parts_of(a) {
            Some(parts) => Some((non_empty(content::text_of_parts(parts)), parts)),
            None => None,
        },
        _ => None,
    }
}

/// The message that an object is. Fields that a message does not have are passed over.
pub open spec fn message_of(j: JsonView) -> Option<MessageView> {
    match j.text_at("role"@) {
        Some(r) => match (
            role_of(r),
            content_field(j.get("content"@)),
            calls_field(j.get("tool_calls"@)),
            text_field(j.get("tool_call_id"@)),
            text_field(j.get("name"@)),
        ) {
            (Some(role), Some((content, parts)), Some(tool_calls), Some(tool_call_id), Some(name)) => Some(
                MessageView {
                    role,
                    content,
                    parts,
                    tool_calls,
                    tool_call_id,
                    name,
                    provider_extra: any_field(j.get("provider_extra"@)),
                },
            ),
            _ => None,
        },
        None => None,
    }
}

/// Whether a call can be told from what is written of it: its extra fields are not
/// null.
pub open spec fn call_is_written(c: ToolCallView) -> bool {
    c.extra_content != Some(JsonView::Null)
}

/// Whether a message can be told from what is written of it: it has no blocks of a
/// provider, its parts are texts and its content is theirs.
pub open spec fn message_is_written(m: MessageView) -> bool {
    &&& m.provider_extra is None
    &&& forall|i: int| 0 <= i < m.parts.len() ==> (#[trigger] m.parts[i]) is Text
    &&& m.parts.len() > 0 ==> m.content == non_empty(content::text_of_parts(m.parts))
    &&& match m.tool_calls {
        Some(calls) => forall|i: int|
            0 <= i < calls.len() ==> call_is_written(#[trigger] calls[i]),
        None => true,
    }
}

/// A tool call that was written reads back as what it was.
pub proof fn law_call_reads_back(c: ToolCallView)
    requires
        call_is_written(c),
    ensures
        tool_call_of(tool_call_json(c)) == Some(c),
{
    reveal_strlit("id");
    reveal_strlit("type");
    reveal_strlit("function");
    reveal_strlit("extra_content");
    reveal_strlit("name");
    reveal_strlit("arguments");
    assert("id"@.len() == 2 && "type"@.len() == 4 && "function"@.len() == 8
        && "extra_content"@.len() == 13 && "name"@.len() == 4 && "arguments"@.len() == 9);
}

proof fn lemma_role_reads_back(role: Role)
    ensures
        role_of(role_name(role)) == Some(role),
{
    reveal_strlit("system");
    reveal_strlit("user");
    reveal_strlit("assistant");
    reveal_strlit("tool");
    assert("system"@.len() == 6 && "assistant"@.len() == 9 && "user"@[0] == 'u' && "tool"@[0]
        == 't' && "user"@.len() == 4 && "tool"@.len() == 4);
}

/// A message that was written reads back as what it was.
pub proof fn law_message_reads_back(m: MessageView)
    requires
        message_is_written(m),
    ensures
        message_of(message_json(m)) == Some(m),
{
    reveal_strlit("role");
    reveal_strlit("content");
    reveal_strlit("tool_calls");
    reveal_strlit("tool_call_id");
    reveal_strlit("name");
    reveal_strlit("provider_extra");
    assert("role"@.len() == 4 && "name"@.len() == 4 && "role"@[0] == 'r' && "name"@[0] == 'n'
        && "content"@.len() == 7 && "tool_calls"@.len() == 10 && "tool_call_id"@.len() == 12
        && "provider_extra"@.len() == 14);
    lemma_role_reads_back(m.role);
    let j = message_json(m);
    assert(j.text_at("role"@) == Some(role_name(m.role)));
    assert(content_field(j.get("content"@)) == Some((m.content, m.parts))) by {
        if m.parts.len() > 0 {
            let a = m.parts.map_values(|p: PartView| content::openai_part(p));
            let f = |j: JsonView| content::part_of(j);
            assert(j.get("content"@) == Some(JsonView::Array(a)));
            assert forall|i: int| 0 <= i < a.len() implies f(#[trigger] a[i]) == Some(m.parts[i]) by {
                assert(m.parts[i] is Text);
                content::law_part_reads_back(m.parts[i]);
            }
            assert(Seq::new(a.len(), |i: int| f(a[i])->0) =~= m.parts);
            assert(content::parts_of(a) == Some(m.parts));
        } else {
            assert(m.parts =~= Seq::empty());
        }
    }
    assert(calls_field(j.get("tool_calls"@)) == Some(m.tool_calls)) by {
        if let Some(calls) = m.tool_calls {
            let a = calls.map_values(|t: ToolCallView| tool_call_json(t));
            let f = |j: JsonView| tool_call_of(j);
            assert(j.get("tool_calls"@) == Some(JsonView::Array(a)));
            assert forall|i: int| 0 <= i < a.len() implies f(#[trigger] a[i]) == Some(calls[i]) by {
                assert(call_is_written(calls[i]));
                law_call_reads_back(calls[i]);
            }
            assert(Seq::new(a.len(), |i: int| f(a[i])->0) =~= calls);
        }
    }
    assert(text_field(j.get("tool_call_id"@)) == Some(m.tool_call_id));
    assert(text_field(j.get("name"@)) == Some(m.name));
    assert(any_field(j.get("provider_extra"@)) is None);
}

impl Role {
    /// The role with a wire name.
    pub fn from_name(name: &str) -> (r: Option<Role>)
        ensures
            r == role_of(name@),
    {
        if same(name, "system") {
            Some(Role::System)
        } else if same(name, "user") {
            Some(Role::User)
        } else if same(name, "assistant") {
            Some(Role::Assistant)
        } else if same(name, "tool") {
            Some(Role::Tool)
        } else {
            None
        }
    }
}

fn read_text_field(field: Option<&Json>) -> (r: Option<Option<String>>)
    ensures
        match r {
            Some(t) => text_field(wire::opt_ref(field)) == Some(json::opt_text(t)),
            None => text_field(wire::opt_ref(field)) is None,
        },
{
    match field {
        None => Some(None),
        Some(Json::Null) => Some(None),
        Some(Json::Text(t)) => Some(Some(t.clone())),
        _ => None,
    }
}

fn read_any_field(field: Option<&Json>) -> (r: Option<Json>)
    ensures
        json::opt_json(r) == any_field(wire::opt_ref(field)),
{
    match field {
        None => None,
        Some(Json::Null) => None,
        Some(j) => Some(j.clone()),
    }
}

impl ToolCall {
    /// Reads a tool call from its wire form.
    pub fn from_json(j: &Json) -> (r: Option<ToolCall>)
        ensures
            match r {
                Some(c) => tool_call_of(j@) == Some(c@),
                None => tool_call_of(j@) is None,
            },
    {
        match (j.text_at("id"), j.text_at("type"), j.get("function")) {
            (Some(id), Some(kind), Some(f)) => match (f.text_at("name"), f.text_at("arguments")) {
                (Some(name), Some(arguments)) => {
                    let extra_content = read_any_field(j.get("extra_content"));
                    Some(
                        ToolCall {
                            id: id.to_owned(),
                            kind: kind.to_owned(),
                            function: FunctionCall {
                                name: name.to_owned(),
                                arguments: arguments.to_owned(),
                            },
                            extra_content,
                        },
                    )
                },
                _ => None,
            },
            _ => None,
        }
    }
}

fn read_calls_field(field: Option<&Json>) -> (r: Option<Option<Vec<ToolCall>>>)
    ensures
        match r {
            Some(c) => calls_field(wire::opt_ref(field)) == Some(opt_calls(c)),
            None => calls_field(wire::opt_ref(field)) is None,
        },
{
    let items = match field {
        None => {
            return Some(None);
        },
        Some(Json::Null) => {
            return Some(None);
        },
        Some(Json::Array(a)) => a,
        _ => {
            return None;
        },
    };
    let ghost all = json::items_view(items@);
    let ghost f = |j: JsonView| tool_call_of(j);
    let mut out: Vec<ToolCall> = Vec::new();
    let mut i: usize = 0;
    proof {
        json::lemma_items_view(items@);
    }
    while i < items.len()
        invariant
            i <= items@.len(),
            all == json::items_view(items@),
            wire::opt_ref(field) == Some(JsonView::Array(all)),
            all.len() == items@.len(),
            forall|k: int| 0 <= k < items@.len() ==> #[trigger] all[k] == items@[k]@,
            f == (|j: JsonView| tool_call_of(j)),
            out@.len() == i,
            forall|k: int| 0 <= k < i ==> f(#[trigger] all[k]) == Some(out@[k]@),
        decreases items@.len() - i,
    {
        assert(all[i as int] == items@[i as int]@);
        match ToolCall::from_json(&items[i]) {
            Some(c) => {
                out.push(c);
            },
            None => {
                assert(f(all[i as int]) is None);
                return None;
            },
        }
        i += 1;
    }
    assert(text::views(out@) =~= Seq::new(all.len(), |k: int| f(all[k])->0));
    Some(Some(out))
}

fn read_content_field(field: Option<&Json>) -> (r: Option<(Option<String>, Vec<ContentPart>)>)
    ensures
        match r {
            Some((t, p)) => content_field(wire::opt_ref(field)) == Some(
                (json::opt_text(t), text::views(p@)),
            ),
            None => content_field(wire::opt_ref(field)) is None,
        },
{
    let none: Vec<ContentPart> = Vec::new();
    assert(text::views(none@) =~= Seq::empty());
    match field {
        None => Some((None, none)),
        Some(Json::Null) => Some((None, none)),
        Some(Json::Text(t)) => Some((Some(t.clone()), none)),
        Some(Json::Array(a)) => match read_parts(a) {
            Some(parts) => {
                let text = non_empty_text(parts_to_text(&parts));
                Some((text, parts))
            },
            None => None,
        },
        _ => None,
    }
}

/// The Chat Completions wire forms of a list of tool calls.
pub fn tool_calls_json(calls: &Vec<ToolCall>) -> (r: Vec<Json>)
    ensures
        json::items_view(r@) == text::views(calls@).map_values(|t: ToolCallView| tool_call_json(t)),
{
    let mut out: Vec<Json> = Vec::new();
    let mut i: usize = 0;
    while i < calls.len()
        invariant
            i <= calls@.len(),
            json::items_view(out@) == text::views(calls@).take(i as int).map_values(
                |t: ToolCallView| tool_call_json(t),
            ),
        decreases calls@.len() - i,
    {
        let item = calls[i].to_json();
        proof {
            wire::lemma_items_push(out@, item);
            assert(text::views(calls@).take(i + 1) =~= text::views(calls@).take(i as int).push(calls@[i as int]@));
        }
        out.push(item);
        i += 1;
        assert(json::items_view(out@) =~= text::views(calls@).take(i as int).map_values(
            |t: ToolCallView| tool_call_json(t),
        ));
    }
    assert(text::views(calls@).take(i as int) =~= text::views(calls@));
    out
}

impl ChatMessage {
    fn of_text(role: Role, content: &str) -> (r: ChatMessage)
        ensures
            r@ == text_message(role, content@),
    {
        let m = ChatMessage {
            role,
            content: Some(content.to_owned()),
            parts: Vec::new(),
            tool_calls: None,
            tool_call_id: None,
            name: None,
            provider_extra: None,
        };
        assert(m@.parts =~= Seq::empty());
        m
    }

    pub fn system(content: &str) -> (r: ChatMessage)
        ensures
            r@ == text_message(Role::System, content@),
    {
        Self::of_text(Role::System, content)
    }

    pub fn user(content: &str) -> (r: ChatMessage)
        ensures
            r@ == text_message(Role::User, content@),
    {
        Self::of_text(Role::User, content)
    }

    pub fn assistant(content: &str) -> (r: ChatMessage)
        ensures
            r@ == text_message(Role::Assistant, content@),
    {
        Self::of_text(Role::Assistant, content)
    }

    pub fn assistant_with_tool_calls(
        content: Option<String>,
        tool_calls: Vec<ToolCall>,
    ) -> (r: ChatMessage)
        ensures
            r@ == (MessageView {
                role: Role::Assistant,
                content: json::opt_text(content),
                parts: Seq::empty(),
                tool_calls: Some(text::views(tool_calls@)),
                tool_call_id: None,
                name: None,
                provider_extra: None,
            }),
    {
        let m = ChatMessage {
            role: Role::Assistant,
            content,
            parts: Vec::new(),
            tool_calls: Some(tool_calls),
            tool_call_id: None,
            name: None,
            provider_extra: None,
        };
        assert(m@.parts =~= Seq::empty());
        m
    }

    pub fn tool_result(tool_call_id: &str, content: &str) -> (r: ChatMessage)
        ensures
            r@ == (MessageView {
                tool_call_id: Some(tool_call_id@),
                ..text_message(Role::Tool, content@)
            }),
    {
        let mut m = Self::of_text(Role::Tool, content);
        m.tool_call_id = Some(tool_call_id.to_owned());
        m
    }

    /// A user message with multimodal content (text and/or images).
    pub fn user_with_parts(parts: Vec<ContentPart>) -> (r: ChatMessage)
        ensures
            r@ == (MessageView {
                role: Role::User,
                content: non_empty(content::text_of_parts(text::views(parts@))),
                parts: text::views(parts@),
                tool_calls: None,
                tool_call_id: None,
                name: None,
                provider_extra: None,
            }),
    {
        let text = parts_to_text(&parts);
        ChatMessage {
            role: Role::User,
            content: non_empty_text(text),
            parts,
            tool_calls: None,
            tool_call_id: None,
            name: None,
            provider_extra: None,
        }
    }

    /// Replace this message's content with multimodal parts.
    pub fn with_parts(self, parts: Vec<ContentPart>) -> (r: ChatMessage)
        ensures
            r@ == (MessageView {
                content: non_empty(content::text_of_parts(text::views(parts@))),
                parts: text::views(parts@),
                ..self@
            }),
    {
        let text = parts_to_text(&parts);
        let mut out = self;
        out.content = non_empty_text(text);
        out.parts = parts;
        out
    }

    /// `true` if this message carries any non-text content.
    pub fn is_multimodal(&self) -> (r: bool)
        ensures
            r == multimodal(self@),
    {
        let mut i: usize = 0;
        while i < self.parts.len()
            invariant
                i <= self.parts@.len(),
                forall|j: int| 0 <= j < i ==> !(#[trigger] self@.parts[j] is Image),
            decreases self.parts@.len() - i,
        {
            if let ContentPart::Image { .. } = &self.parts[i] {
                assert(self@.parts[i as int] is Image);
                return true;
            }
            assert(!(self@.parts[i as int] is Image));
            i += 1;
        }
        false
    }

    /// The message's content as content parts, with a single text part for a
    /// plain-text message. Empty when there is no content.
    pub fn content_parts(&self) -> (r: Vec<ContentPart>)
        ensures
            text::views(r@) == (if self@.parts.len() > 0 {
                self@.parts
            } else {
                match self@.content {
                    Some(t) => if t.len() > 0 {
                        seq![PartView::Text { text: t }]
                    } else {
                        Seq::empty()
                    },
                    None => Seq::empty(),
                }
            }),
    {
        if self.parts.len() > 0 {
            let out = self.parts.clone();
            assert(text::views(out@) =~= self@.parts);
            return out;
        }
        let mut out: Vec<ContentPart> = Vec::new();
        match &self.content {
            Some(t) => {
                if !t.as_str().is_empty() {
                    out.push(ContentPart::text(t.as_str()));
                    assert(text::views(out@) =~= seq![PartView::Text { text: t@ }]);
                } else {
                    assert(text::views(out@) =~= Seq::empty());
                }
            },
            None => {
                assert(text::views(out@) =~= Seq::empty());
            },
        }
        out
    }

    /// Set the `name` field to identify the message sender.
    pub fn with_name(self, name: &str) -> (r: ChatMessage)
        ensures
            r@ == (MessageView { name: Some(name@), ..self@ }),
    {
        let mut out = self;
        out.name = Some(name.to_owned());
        out
    }

    /// Attach provider-opaque blocks.
    pub fn with_provider_extra(self, extra: Json) -> (r: ChatMessage)
        ensures
            r@ == (MessageView { provider_extra: Some(extra@), ..self@ }),
    {
        let mut out = self;
        out.provider_extra = Some(extra);
        out
    }

    /// Reads a message from its wire form. The content is a string or an array of parts.
    pub fn from_json(j: &Json) -> (r: Option<ChatMessage>)
        ensures
            match r {
                Some(m) => message_of(j@) == Some(m@),
                None => message_of(j@) is None,
            },
    {
        let role = match j.text_at("role") {
            Some(name) => match Role::from_name(name) {
                Some(role) => role,
                None => {
                    return None;
                },
            },
            None => {
                return None;
            },
        };
        let (content, parts) = match read_content_field(j.get("content")) {
            Some(c) => c,
            None => {
                return None;
            },
        };
        let tool_calls = match read_calls_field(j.get("tool_calls")) {
            Some(c) => c,
            None => {
                return None;
            },
        };
        let tool_call_id = match read_text_field(j.get("tool_call_id")) {
            Some(t) => t,
            None => {
                return None;
            },
        };
        let name = match read_text_field(j.get("name")) {
            Some(t) => t,
            None => {
                return None;
            },
        };
        let provider_extra = read_any_field(j.get("provider_extra"));
        Some(
            ChatMessage {
                role,
                content,
                parts,
                tool_calls,
                tool_call_id,
                name,
                provider_extra,
            },
        )
    }

    /// The Chat Completions wire form of this message.
    pub fn to_json(&self) -> (r: Json)
        ensures
            r@ == message_json(self@),
    {
        let mut m = JsonMap::new().with("role", Json::text(self.role.as_str()));
        if self.parts.len() > 0 {
            let mut out: Vec<Json> = Vec::new();
            let mut i: usize = 0;
            while i < self.parts.len()
                invariant
                    i <= self.parts@.len(),
                    json::items_view(out@) == self@.parts.take(i as int).map_values(
                        |p: PartView| content::openai_part(p),
                    ),
                decreases self.parts@.len() - i,
            {
                let item = self.parts[i].to_openai_json();
                proof {
                    wire::lemma_items_push(out@, item);
                    assert(self@.parts.take(i + 1) =~= self@.parts.take(i as int).push(
                        self.parts@[i as int]@,
                    ));
                }
                out.push(item);
                i += 1;
                assert(json::items_view(out@) =~= self@.parts.take(i as int).map_values(
                    |p: PartView| content::openai_part(p),
                ));
            }
            assert(self@.parts.take(i as int) =~= self@.parts);
            m.put("content", Json::Array(out));
        } else if let Some(t) = &self.content {
            m.put("content", Json::text(t.as_str()));
        }
        if let Some(calls) = &self.tool_calls {
            m.put("tool_calls", Json::Array(tool_calls_json(calls)));
        }
        if let Some(id) = &self.tool_call_id {
            m.put("tool_call_id", Json::text(id.as_str()));
        }
        if let Some(n) = &self.name {
            m.put("name", Json::text(n.as_str()));
        }
        Json::Object(m)
    }
}

/// Whether a message carries any non-text content.
pub open spec fn multimodal(m: MessageView) -> bool {
    exists|i: int| 0 <= i < m.parts.len() && #[trigger] m.parts[i] is Image
}

#[derive(Debug)]
pub struct FunctionDefinition {
    pub name: String,
    pub description: String,
    /// JSON Schema for parameters.
    pub parameters: Json,
}

/// Tool definition exposing a function to the model.
#[derive(Debug)]
pub struct ToolDefinition {
    pub kind: String,
    pub function: FunctionDefinition,
}

#[verifier::ext_equal]
pub struct ToolDefView {
    pub kind: Seq<char>,
    pub name: Seq<char>,
    pub description: Seq<char>,
    pub parameters: JsonView,
}

impl View for ToolDefinition {
    type V = ToolDefView;

    open spec fn view(&self) -> ToolDefView {
        ToolDefView {
            kind: self.kind@,
            name: self.function.name@,
            description: self.function.description@,
            parameters: self.function.parameters@,
        }
    }
}

impl Clone for ToolDefinition {
    fn clone(&self) -> (r: ToolDefinition)
        ensures
            r@ == self@,
    {
        ToolDefinition {
            kind: self.kind.clone(),
            function: FunctionDefinition {
                name: self.function.name.clone(),
                description: self.function.description.clone(),
                parameters: self.function.parameters.clone(),
            },
        }
    }
}

impl ToolDefinition {
    pub fn function(name: &str, description: &str, parameters: Json) -> (r: ToolDefinition)
        ensures
            r@ == (ToolDefView {
                kind: "function"@,
                name: name@,
                description: description@,
                parameters: parameters@,
            }),
    {
        ToolDefinition {
            kind: "function".to_owned(),
            function: FunctionDefinition {
                name: name.to_owned(),
                description: description.to_owned(),
                parameters,
            },
        }
    }
}

/// An incremental piece of a streaming completion.
#[derive(Debug)]
pub struct StreamDelta {
    /// New completion text, if this chunk carried any.
    pub content: Option<String>,
    /// New reasoning text, if this chunk carried any.
    pub reasoning_content: Option<String>,
}

#[verifier::ext_equal]
pub struct DeltaView {
    pub content: Option<Seq<char>>,
    pub reasoning_content: Option<Seq<char>>,
}

impl View for StreamDelta {
    type V = DeltaView;

    open spec fn view(&self) -> DeltaView {
        DeltaView {
            content: json::opt_text(self.content),
            reasoning_content: json::opt_text(self.reasoning_content),
        }
    }
}

impl Default for StreamDelta {
    fn default() -> (r: StreamDelta)
        ensures
            r@ == (DeltaView { content: None, reasoning_content: None }),
    {
        StreamDelta { content: None, reasoning_content: None }
    }
}

/// The parsed response from a completion.
#[derive(Debug)]
pub struct LlmResponse {
    pub content: Option<String>,
    /// Reasoning text emitted by thinking models.
    pub reasoning_content: Option<String>,
    pub tool_calls: Vec<ToolCall>,
    pub finish_reason: String,
    /// Prompt tokens consumed, when reported by the provider.
    pub input_tokens: Option<u32>,
    /// Completion tokens generated, when reported by the provider.
    pub output_tokens: Option<u32>,
    /// Prompt tokens served from the provider's prompt cache, when reported.
    pub cached_input_tokens: Option<u32>,
    /// Provider-opaque blocks that must be sent again on the next request.
    pub provider_extra: Option<Json>,
}

#[verifier::ext_equal]
pub struct ResponseView {
    pub content: Option<Seq<char>>,
    pub reasoning_content: Option<Seq<char>>,
    pub tool_calls: Seq<ToolCallView>,
    pub finish_reason: Seq<char>,
    pub input_tokens: Option<u32>,
    pub output_tokens: Option<u32>,
    pub cached_input_tokens: Option<u32>,
    pub provider_extra: Option<JsonView>,
}

impl View for LlmResponse {
    type V = ResponseView;

    open spec fn view(&self) -> ResponseView {
        ResponseView {
            content: json::opt_text(self.content),
            reasoning_content: json::opt_text(self.reasoning_content),
            tool_calls: text::views(self.tool_calls@),
            finish_reason: self.finish_reason@,
            input_tokens: self.input_tokens,
            output_tokens: self.output_tokens,
            cached_input_tokens: self.cached_input_tokens,
            provider_extra: json::opt_json(self.provider_extra),
        }
    }
}

impl Clone for LlmResponse {
    fn clone(&self) -> (r: LlmResponse)
        ensures
            r@ == self@,
    {
        let tool_calls = self.tool_calls.clone();
        assert(text::views(tool_calls@) =~= text::views(self.tool_calls@));
        LlmResponse {
            content: copy_opt_text(&self.content),
            reasoning_content: copy_opt_text(&self.reasoning_content),
            tool_calls,
            finish_reason: self.finish_reason.clone(),
            input_tokens: self.input_tokens,
            output_tokens: self.output_tokens,
            cached_input_tokens: self.cached_input_tokens,
            provider_extra: copy_opt_json(&self.provider_extra),
        }
    }
}

impl Default for LlmResponse {
    fn default() -> (r: LlmResponse)
        ensures
            r@ == (ResponseView {
                content: None,
                reasoning_content: None,
                tool_calls: Seq::empty(),
                finish_reason: Seq::empty(),
                input_tokens: None,
                output_tokens: None,
                cached_input_tokens: None,
                provider_extra: None,
            }),
    {
        let r = LlmResponse {
            content: None,
            reasoning_content: None,
            tool_calls: Vec::new(),
            finish_reason: String::new(),
            input_tokens: None,
            output_tokens: None,
            cached_input_tokens: None,
            provider_extra: None,
        };
        assert(r@.tool_calls =~= Seq::empty());
        r
    }
}

} // verus!
