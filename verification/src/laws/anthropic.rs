//! Laws of the Anthropic wire format: what of a history reaches the request, and what
//! of a reply comes back.
use crate::json;
use crate::json::JsonView;
use crate::llm::anthropic;
use crate::llm::anthropic::{AnthropicProvider, TurnView};
use crate::llm::content::{ImageSourceView, PartView};
use crate::llm::types::{MessageView, Role, ToolCallView, ToolDefView};
use crate::seqs;
use crate::text;
use vstd::prelude::*;

verus! {

/// The text, or nothing.
pub open spec fn text_in(t: Option<Seq<char>>) -> Seq<char> {
    match t {
        Some(s) => s,
        None => Seq::empty(),
    }
}

/// The content blocks of wire messages, in order.
pub open spec fn wire_blocks(messages: Seq<JsonView>) -> Seq<JsonView> {
    seqs::flat_map(
        messages,
        |m: JsonView|
            match m.array_at("content"@) {
                Some(a) => a,
                None => Seq::empty(),
            },
    )
}

/// The content blocks of turns, in order.
pub open spec fn turn_blocks(turns: Seq<TurnView>) -> Seq<JsonView> {
    seqs::flat_map(turns, |t: TurnView| t.blocks)
}

/// Whether a message carries no provider blocks but thinking.
pub open spec fn carries_thinking_only(m: MessageView) -> bool {
    forall|i: int|
        m.provider_extra is Some && m.provider_extra->0.array_at("anthropic_blocks"@) is Some && 0
            <= i < m.provider_extra->0.array_at("anthropic_blocks"@)->0.len() ==> {
            let b = #[trigger] m.provider_extra->0.array_at("anthropic_blocks"@)->0[i];
            b.text_at("type"@) == Some("thinking"@) || b.text_at("type"@) == Some(
                "redacted_thinking"@,
            )
        }
}

proof fn lemma_block_types()
    ensures
        "type"@ != "text"@,
        "type"@ != "id"@,
        "type"@ != "name"@,
        "type"@ != "input"@,
        "type"@ != "tool_use_id"@,
        "type"@ != "content"@,
        "type"@ != "source"@,
        "type"@ != "cache_control"@,
        "text"@ != "cache_control"@,
        "id"@ != "cache_control"@,
        "name"@ != "cache_control"@,
        "input"@ != "cache_control"@,
        "tool_use_id"@ != "cache_control"@,
        "content"@ != "cache_control"@,
        "id"@ != "name"@,
        "id"@ != "input"@,
        "name"@ != "input"@,
        "tool_use_id"@ != "content"@,
        "role"@ != "content"@,
        "text"@ != "tool_use"@,
        "text"@ != "tool_result"@,
        "text"@ != "image"@,
        "tool_use"@ != "tool_result"@,
        "tool_use"@ != "image"@,
        "tool_result"@ != "image"@,
        "thinking"@ != "tool_use"@,
        "thinking"@ != "tool_result"@,
        "thinking"@ != "text"@,
        "redacted_thinking"@ != "tool_use"@,
        "redacted_thinking"@ != "tool_result"@,
        "redacted_thinking"@ != "text"@,
        "redacted_thinking"@ != "thinking"@,
{
    reveal_strlit("type");
    reveal_strlit("text");
    reveal_strlit("id");
    reveal_strlit("name");
    reveal_strlit("input");
    reveal_strlit("tool_use_id");
    reveal_strlit("content");
    reveal_strlit("source");
    reveal_strlit("cache_control");
    reveal_strlit("role");
    reveal_strlit("tool_use");
    reveal_strlit("tool_result");
    reveal_strlit("image");
    reveal_strlit("thinking");
    reveal_strlit("redacted_thinking");
    assert("type"@[1] == 'y' && "text"@[1] == 'e' && "name"@[1] == 'a' && "input"@[2] == 'p'
        && "image"@[2] == 'a');
    assert("tool_use_id"@[5] == 'u' && "tool_result"@[5] == 'r' && "thinking"@[1] == 'h'
        && "tool_use"@[1] == 'o');
    assert("type"@.len() == 4 && "text"@.len() == 4 && "id"@.len() == 2 && "name"@.len() == 4
        && "input"@.len() == 5 && "tool_use_id"@.len() == 11 && "content"@.len() == 7
        && "source"@.len() == 6 && "cache_control"@.len() == 13 && "role"@.len() == 4
        && "tool_use"@.len() == 8 && "tool_result"@.len() == 11 && "image"@.len() == 5
        && "thinking"@.len() == 8 && "redacted_thinking"@.len() == 17);
}

/// One item gives what `f` gives on it.
pub proof fn lemma_flat_one<A, B>(a: A, f: spec_fn(A) -> Seq<B>)
    ensures
        seqs::flat_map(seq![a], f) == f(a),
{
    assert(seq![a] =~= Seq::<A>::empty().push(a));
    seqs::lemma_flat_map_push(Seq::<A>::empty(), f, a);
    assert(seqs::flat_map(Seq::<A>::empty(), f) =~= Seq::<B>::empty());
    assert(seqs::flat_map(seq![a], f) =~= f(a));
}

/// One item gives its value, if it has one.
pub proof fn lemma_filter_one<A, B>(a: A, f: spec_fn(A) -> Option<B>)
    ensures
        f(a) is None ==> seqs::filter_map(seq![a], f) == Seq::<B>::empty(),
        f(a) is Some ==> seqs::filter_map(seq![a], f) == seq![f(a)->0],
{
    assert(seq![a] =~= Seq::<A>::empty().push(a));
    seqs::lemma_filter_map_push(Seq::<A>::empty(), f, a);
    assert(seqs::filter_map(Seq::<A>::empty(), f) =~= Seq::<B>::empty());
}

proof fn lemma_filter_none<A, B>(s: Seq<A>, f: spec_fn(A) -> Option<B>)
    requires
        forall|i: int| 0 <= i < s.len() ==> f(#[trigger] s[i]) is None,
    ensures
        seqs::filter_map(s, f) == Seq::<B>::empty(),
    decreases s.len(),
{
    if s.len() > 0 {
        let front = s.drop_last();
        assert forall|i: int| 0 <= i < front.len() implies f(#[trigger] front[i]) is None by {
            assert(front[i] == s[i]);
        }
        lemma_filter_none(front, f);
        assert(f(s[s.len() - 1]) is None);
    }
}

/// Giving a value or none is giving one value or no values.
proof fn lemma_filter_is_flat<A, B>(s: Seq<A>, f: spec_fn(A) -> Option<B>, g: spec_fn(A) -> Seq<B>)
    requires
        forall|i: int|
            0 <= i < s.len() ==> g(#[trigger] s[i]) == (match f(s[i]) {
                Some(b) => seq![b],
                None => Seq::<B>::empty(),
            }),
    ensures
        seqs::filter_map(s, f) == seqs::flat_map(s, g),
    decreases s.len(),
{
    if s.len() > 0 {
        let front = s.drop_last();
        assert forall|i: int| 0 <= i < front.len() implies g(#[trigger] front[i]) == (match f(
            front[i],
        ) {
            Some(b) => seq![b],
            None => Seq::<B>::empty(),
        }) by {
            assert(front[i] == s[i]);
        }
        lemma_filter_is_flat(front, f, g);
        assert(s.last() == s[s.len() - 1]);
        let rest = seqs::filter_map(front, f);
        match f(s.last()) {
            Some(b) => {
                assert(rest.push(b) =~= rest + seq![b]);
            },
            None => {
                assert(rest + Seq::<B>::empty() =~= rest);
            },
        }
    }
}

proof fn lemma_push_turn(turns: Seq<TurnView>, user: bool, blocks: Seq<JsonView>)
    ensures
        turn_blocks(anthropic::push_turn(turns, user, blocks)) == turn_blocks(turns) + blocks,
{
    let f = |t: TurnView| t.blocks;
    if blocks.len() == 0 {
        assert(turn_blocks(turns) + blocks =~= turn_blocks(turns));
    } else if turns.len() > 0 && turns.last().user == user {
        let t = TurnView { user, blocks: turns.last().blocks + blocks };
        seqs::lemma_flat_map_push(turns.drop_last(), f, t);
        assert(turn_blocks(turns) == turn_blocks(turns.drop_last()) + turns.last().blocks);
        assert(turn_blocks(turns.drop_last()) + (turns.last().blocks + blocks) =~= (turn_blocks(
            turns.drop_last(),
        ) + turns.last().blocks) + blocks);
    } else {
        seqs::lemma_flat_map_push(turns, f, TurnView { user, blocks });
    }
}

proof fn lemma_wire_blocks(turns: Seq<TurnView>)
    ensures
        wire_blocks(turns.map_values(|t: TurnView| anthropic::turn_json(t))) == turn_blocks(turns),
    decreases turns.len(),
{
    let w = turns.map_values(|t: TurnView| anthropic::turn_json(t));
    if turns.len() > 0 {
        lemma_wire_blocks(turns.drop_last());
        lemma_block_types();
        assert(w.drop_last() =~= turns.drop_last().map_values(
            |t: TurnView| anthropic::turn_json(t),
        ));
        assert(w.last() == anthropic::turn_json(turns.last()));
        assert(w.last().array_at("content"@) == Some(turns.last().blocks));
    }
}

/// What is read of the blocks is not changed by a cache mark.
proof fn lemma_marks_do_not_matter<X>(
    turns: Seq<TurnView>,
    caching: bool,
    f: spec_fn(JsonView) -> Option<X>,
)
    requires
        forall|b: JsonView| f(#[trigger] anthropic::marked(b)) == f(b),
    ensures
        seqs::filter_map(wire_blocks(anthropic::messages_param(turns, caching)), f)
            == seqs::filter_map(turn_blocks(turns), f),
{
    if caching && turns.len() > 0 && turns.last().blocks.len() > 0 {
        let t = turns.last();
        let front = turns.drop_last();
        let m = TurnView {
            user: t.user,
            blocks: t.blocks.drop_last().push(anthropic::marked(t.blocks.last())),
        };
        lemma_wire_blocks(front.push(m));
        seqs::lemma_flat_map_push(front, |t: TurnView| t.blocks, m);
        seqs::lemma_filter_map_concat(turn_blocks(front), m.blocks, f);
        seqs::lemma_filter_map_concat(turn_blocks(front), t.blocks, f);
        seqs::lemma_filter_map_push(
            t.blocks.drop_last(),
            f,
            anthropic::marked(t.blocks.last()),
        );
        seqs::lemma_filter_map_push(t.blocks.drop_last(), f, t.blocks.last());
        assert(t.blocks =~= t.blocks.drop_last().push(t.blocks.last()));
    } else {
        lemma_wire_blocks(turns);
    }
}

proof fn lemma_leading_systems(sys: Seq<MessageView>)
    requires
        forall|i: int| 0 <= i < sys.len() ==> (#[trigger] sys[i]).role == Role::System,
    ensures
        anthropic::progress(sys).leading,
        anthropic::progress(sys).turns.len() == 0,
    decreases sys.len(),
{
    if sys.len() > 0 {
        let front = sys.drop_last();
        assert forall|i: int| 0 <= i < front.len() implies (#[trigger] front[i]).role
            == Role::System by {
            assert(front[i] == sys[i]);
        }
        lemma_leading_systems(front);
        assert(sys.last() == sys[sys.len() - 1]);
    }
}

proof fn lemma_added(p: anthropic::Progress, m: MessageView, blocks: Seq<JsonView>)
    requires
        m.role == Role::System ==> !p.leading,
        blocks == (match m.role {
            Role::System => seq![
                JsonView::Object(
                    map![
                        "type"@ => JsonView::Text("text"@),
                        "text"@ => JsonView::Text("[system]\n"@ + text_in(m.content)),
                    ],
                ),
            ],
            Role::User => anthropic::user_blocks(m),
            Role::Assistant => anthropic::assistant_blocks(m),
            Role::Tool => seq![anthropic::result_block(m)],
        }),
    ensures
        turn_blocks(anthropic::add_message(p, m).turns) == turn_blocks(p.turns) + blocks,
        anthropic::add_message(p, m).leading ==> p.leading && m.role == Role::System,
        anthropic::add_message(p, m).system == p.system,
{
    lemma_push_turn(
        p.turns,
        m.role != Role::Assistant,
        blocks,
    );
}

/// What each message adds is read in the order of the messages.
proof fn lemma_read_in_order<X>(
    sys: Seq<MessageView>,
    conv: Seq<MessageView>,
    f: spec_fn(JsonView) -> Option<X>,
    g: spec_fn(MessageView) -> Seq<X>,
)
    requires
        forall|i: int| 0 <= i < sys.len() ==> (#[trigger] sys[i]).role == Role::System,
        conv.len() > 0 ==> conv[0].role != Role::System,
        forall|i: int|
            0 <= i < conv.len() ==> (match (#[trigger] conv[i]).role {
                Role::System => f(
                    JsonView::Object(
                        map![
                            "type"@ => JsonView::Text("text"@),
                            "text"@ => JsonView::Text("[system]\n"@ + text_in(conv[i].content)),
                        ],
                    ),
                ) == (if g(conv[i]).len() == 0 {
                    None
                } else {
                    Some(g(conv[i])[0])
                }) && g(conv[i]).len() <= 1,
                Role::User => seqs::filter_map(anthropic::user_blocks(conv[i]), f) == g(conv[i]),
                Role::Assistant => seqs::filter_map(anthropic::assistant_blocks(conv[i]), f) == g(
                    conv[i],
                ),
                Role::Tool => seqs::filter_map(seq![anthropic::result_block(conv[i])], f) == g(
                    conv[i],
                ),
            }),
    ensures
        seqs::filter_map(turn_blocks(anthropic::progress(sys + conv).turns), f) == seqs::flat_map(
            conv,
            g,
        ),
        conv.len() > 0 ==> !anthropic::progress(sys + conv).leading,
        anthropic::progress(sys + conv).system == anthropic::progress(sys).system,
    decreases conv.len(),
{
    if conv.len() == 0 {
        assert(sys + conv =~= sys);
        lemma_leading_systems(sys);
        assert(anthropic::progress(sys).turns =~= Seq::empty());
        assert(turn_blocks(Seq::<TurnView>::empty()) =~= Seq::<JsonView>::empty());
        assert(seqs::filter_map(Seq::<JsonView>::empty(), f) =~= Seq::<X>::empty());
    } else {
        let front = conv.drop_last();
        let m = conv[conv.len() - 1];
        assert((sys + conv).drop_last() =~= sys + front);
        assert((sys + conv).last() == m);
        assert forall|i: int| 0 <= i < front.len() implies #[trigger] front[i] == conv[i] by {}
        lemma_read_in_order(sys, front, f, g);
        let p = anthropic::progress(sys + front);
        let blocks = match m.role {
            Role::System => seq![
                JsonView::Object(
                    map![
                        "type"@ => JsonView::Text("text"@),
                        "text"@ => JsonView::Text("[system]\n"@ + text_in(m.content)),
                    ],
                ),
            ],
            Role::User => anthropic::user_blocks(m),
            Role::Assistant => anthropic::assistant_blocks(m),
            Role::Tool => seq![anthropic::result_block(m)],
        };
        lemma_added(p, m, blocks);
        seqs::lemma_filter_map_concat(turn_blocks(p.turns), blocks, f);
        if m.role == Role::System {
            lemma_filter_one(blocks[0], f);
            assert(blocks =~= seq![blocks[0]]);
            assert(seqs::filter_map(blocks, f) =~= g(m));
        }
    }
}

/// Every tool message of a history reaches the request as one tool result, in order:
/// with the ID of the call and the message's own text.
pub proof fn law_results_reach_the_request(
    sys: Seq<MessageView>,
    conv: Seq<MessageView>,
    caching: bool,
)
    requires
        forall|i: int| 0 <= i < sys.len() ==> (#[trigger] sys[i]).role == Role::System,
        conv.len() > 0 ==> conv[0].role != Role::System,
        forall|i: int| 0 <= i < conv.len() ==> carries_thinking_only(#[trigger] conv[i]),
    ensures
        seqs::filter_map(
            wire_blocks(
                anthropic::messages_param(anthropic::progress(sys + conv).turns, caching),
            ),
            |b: JsonView|
                if b.text_at("type"@) == Some("tool_result"@) {
                    Some((b.text_at("tool_use_id"@), b.text_at("content"@)))
                } else {
                    None
                },
        ) == seqs::filter_map(
            conv,
            |m: MessageView|
                if m.role == Role::Tool {
                    Some((Some(text_in(m.tool_call_id)), Some(text_in(m.content))))
                } else {
                    None
                },
        ),
{
    lemma_block_types();
    let f = |b: JsonView|
        if b.text_at("type"@) == Some("tool_result"@) {
            Some((b.text_at("tool_use_id"@), b.text_at("content"@)))
        } else {
            None
        };
    let h = |m: MessageView|
        if m.role == Role::Tool {
            Some((Some(text_in(m.tool_call_id)), Some(text_in(m.content))))
        } else {
            None
        };
    let g = |m: MessageView|
        match h(m) {
            Some(b) => seq![b],
            None => Seq::<(Option<Seq<char>>, Option<Seq<char>>)>::empty(),
        };
    assert forall|b: JsonView| f(#[trigger] anthropic::marked(b)) == f(b) by {}
    assert forall|i: int| 0 <= i < conv.len() && (#[trigger] conv[i]).role
        == Role::User implies seqs::filter_map(anthropic::user_blocks(conv[i]), f) == g(conv[i]) by {
        lemma_filter_none(anthropic::user_blocks(conv[i]), f);
    }
    assert forall|i: int| 0 <= i < conv.len() && (#[trigger] conv[i]).role
        == Role::Assistant implies seqs::filter_map(anthropic::assistant_blocks(conv[i]), f) == g(
        conv[i],
    ) by {
        let bs = anthropic::assistant_blocks(conv[i]);
        assert forall|k: int| 0 <= k < bs.len() implies f(#[trigger] bs[k]) is None by {
            let kept = anthropic::kept_blocks(conv[i]);
            if k < kept.len() {
                assert(bs[k] == kept[k]);
                assert(kept == conv[i].provider_extra->0.array_at("anthropic_blocks"@)->0);
            }
        }
        lemma_filter_none(bs, f);
    }
    assert forall|i: int| 0 <= i < conv.len() && (#[trigger] conv[i]).role
        == Role::Tool implies seqs::filter_map(seq![anthropic::result_block(conv[i])], f) == g(
        conv[i],
    ) by {
        lemma_filter_one(anthropic::result_block(conv[i]), f);
    }
    lemma_read_in_order(sys, conv, f, g);
    lemma_marks_do_not_matter(anthropic::progress(sys + conv).turns, caching, f);
    lemma_filter_is_flat(conv, h, g);
}

/// Every tool call of a history reaches the request as one tool use, in order: with its
/// ID, its name and what its arguments read as.
pub proof fn law_calls_reach_the_request(
    sys: Seq<MessageView>,
    conv: Seq<MessageView>,
    caching: bool,
)
    requires
        forall|i: int| 0 <= i < sys.len() ==> (#[trigger] sys[i]).role == Role::System,
        conv.len() > 0 ==> conv[0].role != Role::System,
        forall|i: int| 0 <= i < conv.len() ==> carries_thinking_only(#[trigger] conv[i]),
    ensures
        seqs::filter_map(
            wire_blocks(
                anthropic::messages_param(anthropic::progress(sys + conv).turns, caching),
            ),
            |b: JsonView|
                if b.text_at("type"@) == Some("tool_use"@) {
                    Some((b.text_at("id"@), b.text_at("name"@), b.get("input"@)))
                } else {
                    None
                },
        ) == seqs::flat_map(
            conv,
            |m: MessageView|
                if m.role == Role::Assistant && m.tool_calls is Some {
                    Seq::new(
                        m.tool_calls->0.len(),
                        |i: int|
                            (
                                Some(m.tool_calls->0[i].id),
                                Some(m.tool_calls->0[i].name),
                                Some(
                                    match json::parsed_json(m.tool_calls->0[i].arguments) {
                                        Ok(j) => j,
                                        Err(_) => JsonView::Object(Map::empty()),
                                    },
                                ),
                            ),
                    )
                } else {
                    Seq::empty()
                },
        ),
{
    lemma_block_types();
    let f = |b: JsonView|
        if b.text_at("type"@) == Some("tool_use"@) {
            Some((b.text_at("id"@), b.text_at("name"@), b.get("input"@)))
        } else {
            None
        };
    let g = |m: MessageView|
        if m.role == Role::Assistant && m.tool_calls is Some {
            Seq::new(
                m.tool_calls->0.len(),
                |i: int|
                    (
                        Some(m.tool_calls->0[i].id),
                        Some(m.tool_calls->0[i].name),
                        Some(
                            match json::parsed_json(m.tool_calls->0[i].arguments) {
                                Ok(j) => j,
                                Err(_) => JsonView::Object(Map::empty()),
                            },
                        ),
                    ),
            )
        } else {
            Seq::empty()
        };
    assert forall|b: JsonView| f(#[trigger] anthropic::marked(b)) == f(b) by {}
    assert forall|i: int| 0 <= i < conv.len() && (#[trigger] conv[i]).role
        == Role::User implies seqs::filter_map(anthropic::user_blocks(conv[i]), f) == g(conv[i]) by {
        lemma_filter_none(anthropic::user_blocks(conv[i]), f);
    }
    assert forall|i: int| 0 <= i < conv.len() && (#[trigger] conv[i]).role
        == Role::Assistant implies seqs::filter_map(anthropic::assistant_blocks(conv[i]), f) == g(
        conv[i],
    ) by {
        let m = conv[i];
        let bs = anthropic::assistant_blocks(m);
        let calls = match m.tool_calls {
            Some(c) => c.map_values(|t: ToolCallView| anthropic::tool_use_block(t)),
            None => Seq::empty(),
        };
        let head = bs.take(bs.len() - calls.len());
        assert(bs =~= head + calls);
        assert forall|k: int| 0 <= k < head.len() implies f(#[trigger] head[k]) is None by {
            let kept = anthropic::kept_blocks(m);
            if k < kept.len() {
                assert(head[k] == kept[k]);
                assert(kept == m.provider_extra->0.array_at("anthropic_blocks"@)->0);
            }
        }
        lemma_filter_none(head, f);
        seqs::lemma_filter_map_concat(head, calls, f);
        assert forall|k: int| 0 <= k < calls.len() implies f(#[trigger] calls[k]) is Some by {}
        seqs::lemma_filter_map_total(calls, f);
        assert(seqs::filter_map(calls, f) =~= g(m));
        assert(seqs::filter_map(bs, f) =~= g(m));
    }
    assert forall|i: int| 0 <= i < conv.len() && (#[trigger] conv[i]).role
        == Role::Tool implies seqs::filter_map(seq![anthropic::result_block(conv[i])], f) == g(
        conv[i],
    ) by {
        lemma_filter_one(anthropic::result_block(conv[i]), f);
    }
    lemma_read_in_order(sys, conv, f, g);
    lemma_marks_do_not_matter(anthropic::progress(sys + conv).turns, caching, f);
}

/// Every text of a history reaches the request as one text block, in order: what was
/// said to the model with the sender's name before it, what the model said unless it is
/// empty, and a later system message under a heading.
pub proof fn law_texts_reach_the_request(
    sys: Seq<MessageView>,
    conv: Seq<MessageView>,
    caching: bool,
)
    requires
        forall|i: int| 0 <= i < sys.len() ==> (#[trigger] sys[i]).role == Role::System,
        conv.len() > 0 ==> conv[0].role != Role::System,
        forall|i: int| 0 <= i < conv.len() ==> carries_thinking_only(#[trigger] conv[i]),
        forall|i: int| 0 <= i < conv.len() ==> (#[trigger] conv[i]).parts.len() == 0,
    ensures
        seqs::filter_map(
            wire_blocks(
                anthropic::messages_param(anthropic::progress(sys + conv).turns, caching),
            ),
            |b: JsonView|
                if b.text_at("type"@) == Some("text"@) {
                    Some(b.text_at("text"@))
                } else {
                    None
                },
        ) == seqs::filter_map(
            conv,
            |m: MessageView|
                match m.role {
                    Role::System => Some(Some("[system]\n"@ + text_in(m.content))),
                    Role::User => Some(
                        Some(
                            match m.name {
                                Some(n) => "["@ + n + "] "@ + text_in(m.content),
                                None => text_in(m.content),
                            },
                        ),
                    ),
                    Role::Assistant => if text_in(m.content).len() > 0 {
                        Some(m.content)
                    } else {
                        None
                    },
                    Role::Tool => None,
                },
        ),
{
    lemma_block_types();
    let f = |b: JsonView|
        if b.text_at("type"@) == Some("text"@) {
            Some(b.text_at("text"@))
        } else {
            None
        };
    let h = |m: MessageView|
        match m.role {
            Role::System => Some(Some("[system]\n"@ + text_in(m.content))),
            Role::User => Some(
                Some(
                    match m.name {
                        Some(n) => "["@ + n + "] "@ + text_in(m.content),
                        None => text_in(m.content),
                    },
                ),
            ),
            Role::Assistant => if text_in(m.content).len() > 0 {
                Some(m.content)
            } else {
                None
            },
            Role::Tool => None,
        };
    let g = |m: MessageView|
        match h(m) {
            Some(b) => seq![b],
            None => Seq::<Option<Seq<char>>>::empty(),
        };
    assert forall|b: JsonView| f(#[trigger] anthropic::marked(b)) == f(b) by {}
    assert forall|i: int| 0 <= i < conv.len() && (#[trigger] conv[i]).role
        == Role::User implies seqs::filter_map(anthropic::user_blocks(conv[i]), f) == g(conv[i]) by {
        let bs = anthropic::user_blocks(conv[i]);
        assert(bs =~= seq![bs[0]]);
        lemma_filter_one(bs[0], f);
    }
    assert forall|i: int| 0 <= i < conv.len() && (#[trigger] conv[i]).role
        == Role::Assistant implies seqs::filter_map(anthropic::assistant_blocks(conv[i]), f) == g(
        conv[i],
    ) by {
        let m = conv[i];
        let bs = anthropic::assistant_blocks(m);
        let kept = anthropic::kept_blocks(m);
        let text = if text_in(m.content).len() > 0 {
            seq![bs[kept.len() as int]]
        } else {
            Seq::empty()
        };
        let calls = bs.skip((kept.len() + text.len()) as int);
        assert(bs =~= kept + text + calls);
        assert forall|k: int| 0 <= k < kept.len() implies f(#[trigger] kept[k]) is None by {
            assert(kept == m.provider_extra->0.array_at("anthropic_blocks"@)->0);
        }
        lemma_filter_none(kept, f);
        assert forall|k: int| 0 <= k < calls.len() implies f(#[trigger] calls[k]) is None by {
            assert(calls[k] == anthropic::tool_use_block(m.tool_calls->0[k]));
        }
        lemma_filter_none(calls, f);
        seqs::lemma_filter_map_concat(kept, text, f);
        seqs::lemma_filter_map_concat(kept + text, calls, f);
        if text_in(m.content).len() > 0 {
            lemma_filter_one(text[0], f);
        } else {
            lemma_filter_none(text, f);
        }
        assert(seqs::filter_map(bs, f) =~= g(m));
    }
    assert forall|i: int| 0 <= i < conv.len() && (#[trigger] conv[i]).role
        == Role::Tool implies seqs::filter_map(seq![anthropic::result_block(conv[i])], f) == g(
        conv[i],
    ) by {
        lemma_filter_one(anthropic::result_block(conv[i]), f);
    }
    lemma_read_in_order(sys, conv, f, g);
    lemma_marks_do_not_matter(anthropic::progress(sys + conv).turns, caching, f);
    lemma_filter_is_flat(conv, h, g);
}

/// The parts of a message with images are the blocks of its turn, in order: a text ends
/// with its own text, an image stands with its address or its data.
pub proof fn law_parts_reach_the_request(m: MessageView, i: int)
    requires
        exists|k: int| 0 <= k < m.parts.len() && #[trigger] m.parts[k] is Image,
        0 <= i < m.parts.len(),
    ensures
        anthropic::user_blocks(m).len() == m.parts.len(),
        ({
            let b = anthropic::user_blocks(m)[i];
            match m.parts[i] {
                PartView::Text { text } => {
                    &&& b.text_at("type"@) == Some("text"@)
                    &&& b.text_at("text"@) is Some
                    &&& text.is_suffix_of(b.text_at("text"@)->0)
                    &&& m.name is None || (exists|j: int|
                        0 <= j < i && #[trigger] m.parts[j] is Text) ==> b.text_at("text"@) == Some(
                        text,
                    )
                    &&& m.name is Some && (forall|j: int|
                        0 <= j < i ==> !(#[trigger] m.parts[j] is Text)) ==> b.text_at("text"@)
                        == Some("["@ + m.name->0 + "] "@ + text)
                },
                PartView::Image { source } => {
                    &&& b.text_at("type"@) == Some("image"@)
                    &&& b.get("source"@) is Some
                    &&& match source {
                        ImageSourceView::Url { url } => b.get("source"@)->0.text_at("type"@)
                            == Some("url"@) && b.get("source"@)->0.text_at("url"@) == Some(url),
                        ImageSourceView::Base64 { media_type, data } => b.get("source"@)->0.text_at(
                            "type"@,
                        ) == Some("base64"@) && b.get("source"@)->0.text_at("media_type"@) == Some(
                            media_type,
                        ) && b.get("source"@)->0.text_at("data"@) == Some(data),
                    }
                },
            }
        }),
{
    lemma_block_types();
    reveal_strlit("type");
    reveal_strlit("url");
    reveal_strlit("media_type");
    reveal_strlit("data");
    assert("type"@.len() == 4 && "url"@.len() == 3 && "media_type"@.len() == 10 && "data"@.len()
        == 4 && "type"@[0] == 't' && "data"@[0] == 'd');
    if let PartView::Text { text } = m.parts[i] {
        if let Some(n) = m.name {
            assert(text.is_suffix_of("["@ + n + "] "@ + text));
        }
    }
}

/// Leading system messages with a text are the system prompt, one after the other, with
/// an empty line between two.
pub proof fn law_system_prompt_is_joined(sys: Seq<MessageView>, conv: Seq<MessageView>)
    requires
        forall|i: int|
            0 <= i < sys.len() ==> (#[trigger] sys[i]).role == Role::System && text_in(
                sys[i].content,
            ).len() > 0,
        conv.len() > 0 ==> conv[0].role != Role::System,
    ensures
        anthropic::progress(sys + conv).system == text::join(
            Seq::new(sys.len(), |i: int| text_in(sys[i].content)),
            "\n\n"@,
        ),
        sys.len() > 0 ==> anthropic::progress(sys + conv).system.len() > 0,
    decreases sys.len() + conv.len(),
{
    if conv.len() > 0 {
        let front = conv.drop_last();
        assert((sys + conv).drop_last() =~= sys + front);
        law_system_prompt_is_joined(sys, front);
        lemma_not_leading(sys, conv);
        if front.len() == 0 {
            assert(sys + front =~= sys);
        } else {
            lemma_not_leading(sys, front);
        }
    } else {
        assert(sys + conv =~= sys);
        if sys.len() > 0 {
            let front = sys.drop_last();
            assert forall|i: int| 0 <= i < front.len() implies (#[trigger] front[i]).role
                == Role::System && text_in(front[i].content).len() > 0 by {
                assert(front[i] == sys[i]);
            }
            assert(front + conv =~= front);
            law_system_prompt_is_joined(front, conv);
            lemma_leading_systems(front);
            let all = Seq::new(sys.len(), |i: int| text_in(sys[i].content));
            assert(all.drop_last() =~= Seq::new(front.len(), |i: int| text_in(front[i].content)));
            assert(sys.last() == sys[sys.len() - 1]);
            if sys.len() == 1 {
                assert(anthropic::progress(front).system =~= Seq::empty());
                assert(anthropic::progress(sys).system =~= text_in(sys[0].content));
            }
        }
    }
}

proof fn lemma_not_leading(sys: Seq<MessageView>, conv: Seq<MessageView>)
    requires
        forall|i: int| 0 <= i < sys.len() ==> (#[trigger] sys[i]).role == Role::System,
        conv.len() > 0,
        conv[0].role != Role::System,
    ensures
        !anthropic::progress(sys + conv).leading,
    decreases conv.len(),
{
    let front = conv.drop_last();
    assert((sys + conv).drop_last() =~= sys + front);
    if front.len() > 0 {
        lemma_not_leading(sys, front);
    }
}

/// The system prompt is sent as it is, and not at all where it is empty; with caching it
/// is one marked text block.
pub proof fn law_system_prompt_is_sent(system: Seq<char>, caching: bool)
    ensures
        system.len() == 0 <==> anthropic::system_param(system, caching) is None,
        system.len() > 0 && !caching ==> anthropic::system_param(system, caching) == Some(
            JsonView::Text(system),
        ),
        system.len() > 0 && caching ==> ({
            let p = anthropic::system_param(system, caching)->0;
            &&& p is Array
            &&& p->Array_0.len() == 1
            &&& p->Array_0[0].text_at("type"@) == Some("text"@)
            &&& p->Array_0[0].text_at("text"@) == Some(system)
            &&& p->Array_0[0].get("cache_control"@) is Some
            &&& p->Array_0[0].get("cache_control"@)->0.text_at("type"@) == Some("ephemeral"@)
        }),
{
    lemma_block_types();
}

/// With caching the last block is marked and all else is as it is without.
pub proof fn law_caching_marks_the_end(turns: Seq<TurnView>)
    requires
        turns.len() > 0,
        turns.last().blocks.len() > 0,
        turns.last().blocks.last() is Object,
    ensures
        ({
            let plain = anthropic::messages_param(turns, false);
            let cached = anthropic::messages_param(turns, true);
            let n = turns.len() - 1;
            let a = plain[n].array_at("content"@)->0;
            let b = cached[n].array_at("content"@)->0;
            &&& cached.len() == plain.len() == turns.len()
            &&& forall|i: int| 0 <= i < n ==> #[trigger] cached[i] == plain[i]
            &&& cached[n].text_at("role"@) == plain[n].text_at("role"@)
            &&& b.len() == a.len() == turns.last().blocks.len()
            &&& forall|k: int| 0 <= k < a.len() - 1 ==> #[trigger] b[k] == a[k]
            &&& b.last().get("cache_control"@) is Some
            &&& b.last().get("cache_control"@)->0.text_at("type"@) == Some("ephemeral"@)
            &&& forall|key: Seq<char>|
                key != "cache_control"@ ==> #[trigger] b.last().get(key) == a.last().get(key)
        }),
{
    lemma_block_types();
}

/// A turn says who speaks.
pub proof fn law_turns_name_the_speaker(turns: Seq<TurnView>, i: int)
    requires
        0 <= i < turns.len(),
    ensures
        anthropic::messages_param(turns, false).len() == turns.len(),
        anthropic::messages_param(turns, false)[i].text_at("role"@) == Some(
            if turns[i].user {
                "user"@
            } else {
                "assistant"@
            },
        ),
        anthropic::messages_param(turns, false)[i].array_at("content"@) == Some(turns[i].blocks),
{
    lemma_block_types();
}

/// The model speaks in the turns of the assistant's messages, the others in the user's.
pub proof fn law_only_the_model_speaks_as_the_model(messages: Seq<MessageView>, m: MessageView)
    ensures
        ({
            let before = anthropic::progress(messages).turns;
            let after = anthropic::progress(messages.push(m)).turns;
            after != before ==> after.len() > 0 && (after.last().user <==> m.role
                != Role::Assistant)
        }),
{
    assert(messages.push(m).drop_last() =~= messages);
}

proof fn lemma_body_keys()
    ensures
        "model"@ != "max_tokens"@,
        "model"@ != "messages"@,
        "model"@ != "system"@,
        "model"@ != "tools"@,
        "model"@ != "tool_choice"@,
        "model"@ != "thinking"@,
        "model"@ != "temperature"@,
        "model"@ != "top_p"@,
        "model"@ != "top_k"@,
        "model"@ != "stop_sequences"@,
        "model"@ != "stream"@,
        "max_tokens"@ != "messages"@,
        "max_tokens"@ != "system"@,
        "max_tokens"@ != "tools"@,
        "max_tokens"@ != "tool_choice"@,
        "max_tokens"@ != "thinking"@,
        "max_tokens"@ != "temperature"@,
        "max_tokens"@ != "top_p"@,
        "max_tokens"@ != "top_k"@,
        "max_tokens"@ != "stop_sequences"@,
        "max_tokens"@ != "stream"@,
        "messages"@ != "system"@,
        "messages"@ != "tools"@,
        "messages"@ != "tool_choice"@,
        "messages"@ != "thinking"@,
        "messages"@ != "temperature"@,
        "messages"@ != "top_p"@,
        "messages"@ != "top_k"@,
        "messages"@ != "stop_sequences"@,
        "messages"@ != "stream"@,
        "system"@ != "tools"@,
        "system"@ != "tool_choice"@,
        "system"@ != "thinking"@,
        "system"@ != "temperature"@,
        "system"@ != "top_p"@,
        "system"@ != "top_k"@,
        "system"@ != "stop_sequences"@,
        "system"@ != "stream"@,
        "tools"@ != "tool_choice"@,
        "tools"@ != "thinking"@,
        "tools"@ != "temperature"@,
        "tools"@ != "top_p"@,
        "tools"@ != "top_k"@,
        "tools"@ != "stop_sequences"@,
        "tools"@ != "stream"@,
        "tool_choice"@ != "thinking"@,
        "tool_choice"@ != "temperature"@,
        "tool_choice"@ != "top_p"@,
        "tool_choice"@ != "top_k"@,
        "tool_choice"@ != "stop_sequences"@,
        "tool_choice"@ != "stream"@,
        "thinking"@ != "temperature"@,
        "thinking"@ != "top_p"@,
        "thinking"@ != "top_k"@,
        "thinking"@ != "stop_sequences"@,
        "thinking"@ != "stream"@,
        "temperature"@ != "top_p"@,
        "temperature"@ != "top_k"@,
        "temperature"@ != "stop_sequences"@,
        "temperature"@ != "stream"@,
        "top_p"@ != "top_k"@,
        "top_p"@ != "stop_sequences"@,
        "top_p"@ != "stream"@,
        "top_k"@ != "stop_sequences"@,
        "top_k"@ != "stream"@,
        "stop_sequences"@ != "stream"@,
{
    reveal_strlit("model");
    reveal_strlit("max_tokens");
    reveal_strlit("messages");
    reveal_strlit("system");
    reveal_strlit("tools");
    reveal_strlit("tool_choice");
    reveal_strlit("thinking");
    reveal_strlit("temperature");
    reveal_strlit("top_p");
    reveal_strlit("top_k");
    reveal_strlit("stop_sequences");
    reveal_strlit("stream");
    assert("model"@.len() == 5 && "max_tokens"@.len() == 10 && "messages"@.len() == 8
        && "system"@.len() == 6 && "tools"@.len() == 5 && "tool_choice"@.len() == 11
        && "thinking"@.len() == 8 && "temperature"@.len() == 11 && "top_p"@.len() == 5
        && "top_k"@.len() == 5 && "stop_sequences"@.len() == 14 && "stream"@.len() == 6);
    assert("model"@[0] == 'm' && "tools"@[0] == 't' && "top_p"@[0] == 't' && "top_k"@[0] == 't');
    assert("tools"@[2] == 'o' && "top_p"@[2] == 'p' && "top_k"@[2] == 'p' && "top_p"@[4] == 'p'
        && "top_k"@[4] == 'k');
    assert("messages"@[0] == 'm' && "thinking"@[0] == 't' && "system"@[1] == 'y' && "stream"@[1]
        == 't' && "tool_choice"@[1] == 'o' && "temperature"@[1] == 'e');
}

/// A request names the model, the limit and the conversation, and each setting that was
/// made; sampling settings are left out where thinking is on.
pub proof fn law_request_carries_the_settings(
    p: AnthropicProvider,
    messages: Seq<MessageView>,
    tools: Seq<ToolDefView>,
    stream: bool,
)
    ensures
        ({
            let b = anthropic::request_body(p, messages, tools, stream);
            &&& b.text_at("model"@) == Some(p.model@)
            &&& b.get("max_tokens"@) == Some(JsonView::Int(p.max_tokens as int))
            &&& b.array_at("messages"@) == Some(
                anthropic::messages_param(anthropic::progress(messages).turns, p.prompt_caching),
            )
            &&& anthropic::progress(messages).system.len() > 0 && !p.prompt_caching ==> b.text_at(
                "system"@,
            ) == Some(anthropic::progress(messages).system)
            &&& tools.len() > 0 ==> {
                &&& b.array_at("tools"@) is Some
                &&& b.array_at("tools"@)->0.len() == tools.len()
                &&& forall|i: int|
                    0 <= i < tools.len() ==> {
                        let t = #[trigger] b.array_at("tools"@)->0[i];
                        &&& t.text_at("name"@) == Some(tools[i].name)
                        &&& t.text_at("description"@) == Some(tools[i].description)
                        &&& t.get("input_schema"@) == Some(tools[i].parameters)
                    }
                &&& p.tool_choice matches Some(c) ==> b.get("tool_choice"@) == Some(c@)
            }
            &&& p.thinking_budget matches Some(n) ==> {
                &&& b.get("thinking"@) is Some
                &&& b.get("thinking"@)->0.text_at("type"@) == Some("enabled"@)
                &&& b.get("thinking"@)->0.get("budget_tokens"@) == Some(JsonView::Int(n as int))
            }
            &&& p.thinking_budget is None ==> {
                &&& p.temperature matches Some(t) ==> b.get("temperature"@) == Some(t@)
                &&& p.top_p matches Some(t) ==> b.get("top_p"@) == Some(t@)
                &&& p.top_k matches Some(k) ==> b.get("top_k"@) == Some(JsonView::Int(k as int))
            }
            &&& p.stop_sequences@.len() > 0 ==> {
                &&& b.array_at("stop_sequences"@) is Some
                &&& b.array_at("stop_sequences"@)->0.len() == p.stop_sequences@.len()
                &&& forall|i: int|
                    0 <= i < p.stop_sequences@.len() ==> #[trigger] b.array_at(
                        "stop_sequences"@,
                    )->0[i] == JsonView::Text(p.stop_sequences@[i]@)
            }
            &&& stream ==> b.get("stream"@) == Some(JsonView::Bool(true))
        }),
{
    lemma_body_keys();
    reveal_strlit("name");
    reveal_strlit("description");
    reveal_strlit("input_schema");
    reveal_strlit("type");
    reveal_strlit("budget_tokens");
    assert("name"@.len() == 4 && "description"@.len() == 11 && "input_schema"@.len() == 12
        && "type"@.len() == 4 && "budget_tokens"@.len() == 13);
}

/// What was not set is sent only where it was added to the body by hand.
pub proof fn law_request_carries_nothing_else(
    p: AnthropicProvider,
    messages: Seq<MessageView>,
    tools: Seq<ToolDefView>,
    stream: bool,
    key: Seq<char>,
)
    requires
        key != "model"@,
        key != "max_tokens"@,
        key != "messages"@,
        key == "system"@ ==> anthropic::progress(messages).system.len() == 0,
        key == "tools"@ ==> tools.len() == 0,
        key == "tool_choice"@ ==> tools.len() == 0 || p.tool_choice is None,
        key == "thinking"@ ==> p.thinking_budget is None,
        key == "temperature"@ ==> p.thinking_budget is Some || p.temperature is None,
        key == "top_p"@ ==> p.thinking_budget is Some || p.top_p is None,
        key == "top_k"@ ==> p.thinking_budget is Some || p.top_k is None,
        key == "stop_sequences"@ ==> p.stop_sequences@.len() == 0,
        key == "stream"@ ==> !stream,
    ensures
        anthropic::request_body(p, messages, tools, stream).get(key) == JsonView::Object(
            p.extra_body@,
        ).get(key),
{
    lemma_body_keys();
}

/// A request for a structured result offers one tool with the schema, and asks for it.
pub proof fn law_structured_request_asks_for_the_schema(
    p: AnthropicProvider,
    messages: Seq<MessageView>,
    schema_name: Seq<char>,
    schema: JsonView,
)
    ensures
        ({
            let b = anthropic::structured_request_body(p, messages, schema_name, schema);
            &&& b.text_at("model"@) == Some(p.model@)
            &&& b.get("max_tokens"@) == Some(JsonView::Int(p.max_tokens as int))
            &&& b.array_at("messages"@) == Some(
                anthropic::messages_param(anthropic::progress(messages).turns, p.prompt_caching),
            )
            &&& anthropic::progress(messages).system.len() > 0 && !p.prompt_caching ==> b.text_at(
                "system"@,
            ) == Some(anthropic::progress(messages).system)
            &&& b.array_at("tools"@) is Some
            &&& b.array_at("tools"@)->0.len() == 1
            &&& b.array_at("tools"@)->0[0].text_at("name"@) == Some(schema_name)
            &&& b.array_at("tools"@)->0[0].get("input_schema"@) == Some(schema)
            &&& b.get("tool_choice"@) is Some
            &&& b.get("tool_choice"@)->0.text_at("type"@) == Some("tool"@)
            &&& b.get("tool_choice"@)->0.text_at("name"@) == Some(schema_name)
        }),
{
    lemma_body_keys();
    reveal_strlit("name");
    reveal_strlit("description");
    reveal_strlit("input_schema");
    reveal_strlit("type");
    assert("name"@.len() == 4 && "description"@.len() == 11 && "input_schema"@.len() == 12
        && "type"@.len() == 4 && "name"@[0] == 'n' && "type"@[0] == 't');
}

/// A structured result is the input of the first tool use of the reply.
pub proof fn law_structured_result_is_the_first_tool_use(
    doc: JsonView,
    blocks: Seq<JsonView>,
    i: int,
)
    requires
        doc.array_at("content"@) == Some(blocks),
        0 <= i <= blocks.len(),
        forall|k: int| 0 <= k < i ==> (#[trigger] blocks[k]).text_at("type"@) != Some("tool_use"@),
        i < blocks.len() ==> blocks[i].text_at("type"@) == Some("tool_use"@),
    ensures
        anthropic::structured_result(doc) == (if i < blocks.len() {
            blocks[i].get("input"@)
        } else {
            None
        }),
{
    lemma_first_tool_use(blocks, 0, i);
}

proof fn lemma_first_tool_use(blocks: Seq<JsonView>, from: int, i: int)
    requires
        0 <= from <= i <= blocks.len(),
        forall|k: int| 0 <= k < i ==> (#[trigger] blocks[k]).text_at("type"@) != Some("tool_use"@),
        i < blocks.len() ==> blocks[i].text_at("type"@) == Some("tool_use"@),
    ensures
        anthropic::first_tool_use(blocks, from) == (if i < blocks.len() {
            Some(blocks[i])
        } else {
            None
        }),
    decreases i - from,
{
    if from < i {
        lemma_first_tool_use(blocks, from + 1, i);
    }
}

/// What a reply says in blocks is what its parts say, one after the other.
pub proof fn law_reply_is_read_in_order(
    a: Seq<JsonView>,
    b: Seq<JsonView>,
    stop_reason: Option<Seq<char>>,
)
    ensures
        ({
            let whole = anthropic::reply(a + b, stop_reason, None, None, None);
            let first = anthropic::reply(a, stop_reason, None, None, None);
            let second = anthropic::reply(b, stop_reason, None, None, None);
            &&& text_in(whole.content) == text_in(first.content) + text_in(second.content)
            &&& text_in(whole.reasoning_content) == text_in(first.reasoning_content) + text_in(
                second.reasoning_content,
            )
            &&& whole.tool_calls == first.tool_calls + second.tool_calls
        }),
{
    lemma_flat_concat(a, b, |x: JsonView| anthropic::block_text(x));
    lemma_flat_concat(a, b, |x: JsonView| anthropic::block_thinking(x));
    seqs::lemma_filter_map_concat(a, b, |x: JsonView| anthropic::block_call(x));
    let whole = anthropic::reply(a + b, stop_reason, None, None, None);
    let first = anthropic::reply(a, stop_reason, None, None, None);
    let second = anthropic::reply(b, stop_reason, None, None, None);
    assert(text_in(whole.content) =~= text_in(first.content) + text_in(second.content));
    assert(text_in(whole.reasoning_content) =~= text_in(first.reasoning_content) + text_in(
        second.reasoning_content,
    ));
}

/// The values on a concatenation are those on its two parts.
pub proof fn lemma_flat_concat<A, B>(a: Seq<A>, b: Seq<A>, f: spec_fn(A) -> Seq<B>)
    ensures
        seqs::flat_map(a + b, f) == seqs::flat_map(a, f) + seqs::flat_map(b, f),
    decreases b.len(),
{
    if b.len() == 0 {
        assert(a + b =~= a);
        assert(seqs::flat_map(a, f) + Seq::<B>::empty() =~= seqs::flat_map(a, f));
    } else {
        assert((a + b).drop_last() =~= a + b.drop_last());
        assert((a + b).last() == b.last());
        lemma_flat_concat(a, b.drop_last(), f);
        assert(seqs::flat_map(a, f) + (seqs::flat_map(b.drop_last(), f) + f(b.last()))
            =~= seqs::flat_map(a, f) + seqs::flat_map(b.drop_last(), f) + f(b.last()));
    }
}

/// What one block of a reply says: a text block its text, a thinking block its thought,
/// and a tool use one call with its ID, its name and the printed input.
pub proof fn law_block_is_read(b: JsonView, stop_reason: Option<Seq<char>>)
    ensures
        ({
            let r = anthropic::reply(seq![b], stop_reason, None, None, None);
            &&& b.text_at("type"@) == Some("text"@) ==> {
                &&& text_in(r.content) == text_in(b.text_at("text"@))
                &&& r.reasoning_content is None
                &&& r.tool_calls.len() == 0
                &&& r.provider_extra is None
            }
            &&& b.text_at("type"@) == Some("thinking"@) ==> {
                &&& r.content is None
                &&& text_in(r.reasoning_content) == text_in(b.text_at("thinking"@))
                &&& r.tool_calls.len() == 0
            }
            &&& b.text_at("type"@) == Some("tool_use"@) && b.get("input"@) is Some ==> {
                &&& r.content is None
                &&& r.reasoning_content is None
                &&& r.provider_extra is None
                &&& r.tool_calls.len() == 1
                &&& r.tool_calls[0].id == text_in(b.text_at("id"@))
                &&& r.tool_calls[0].name == text_in(b.text_at("name"@))
                &&& r.tool_calls[0].arguments == json::json_text(b.get("input"@)->0)
                &&& r.tool_calls[0].kind == "function"@
                &&& r.tool_calls[0].extra_content is None
            }
            &&& b.text_at("type"@) is None ==> {
                &&& r.content is None
                &&& r.reasoning_content is None
                &&& r.provider_extra is None
                &&& r.tool_calls.len() == 0
            }
            &&& b.text_at("type"@) == Some("thinking"@) || b.text_at("type"@) == Some(
                "redacted_thinking"@,
            ) ==> {
                &&& r.provider_extra is Some
                &&& r.provider_extra->0.array_at("anthropic_blocks"@) == Some(seq![b])
            }
            &&& r.finish_reason == match stop_reason {
                Some(s) => s,
                None => "end_turn"@,
            }
        }),
{
    lemma_block_types();
    lemma_flat_one(b, |x: JsonView| anthropic::block_text(x));
    lemma_flat_one(b, |x: JsonView| anthropic::block_thinking(x));
    lemma_filter_one(b, |x: JsonView| anthropic::block_call(x));
    lemma_filter_one(b, |x: JsonView| anthropic::block_opaque(x));
    let r = anthropic::reply(seq![b], stop_reason, None, None, None);
    if b.text_at("type"@) == Some("text"@) {
        assert(text_in(r.content) =~= text_in(b.text_at("text"@)));
    }
    if b.text_at("type"@) == Some("thinking"@) {
        assert(text_in(r.reasoning_content) =~= text_in(b.text_at("thinking"@)));
    }
}

/// A reply document is read block by block, with its reason to stop and its counts.
pub proof fn law_document_is_read(doc: JsonView, blocks: Seq<JsonView>)
    requires
        doc.array_at("content"@) == Some(blocks),
    ensures
        ({
            let r = anthropic::document_reply(doc);
            let s = anthropic::reply(blocks, doc.text_at("stop_reason"@), None, None, None);
            &&& r.content == s.content
            &&& r.reasoning_content == s.reasoning_content
            &&& r.tool_calls == s.tool_calls
            &&& r.provider_extra == s.provider_extra
            &&& doc.text_at("stop_reason"@) matches Some(t) ==> r.finish_reason == t
            &&& doc.get("usage"@) matches Some(u) ==> {
                &&& u.u64_at("input_tokens"@) matches Some(n) ==> r.input_tokens == Some(n as u32)
                &&& u.u64_at("output_tokens"@) matches Some(n) ==> r.output_tokens == Some(
                    n as u32,
                )
                &&& u.u64_at("cache_read_input_tokens"@) matches Some(n) ==> r.cached_input_tokens
                    == Some(n as u32)
                &&& u.u64_at("input_tokens"@) is None ==> r.input_tokens is None
                &&& u.u64_at("output_tokens"@) is None ==> r.output_tokens is None
                &&& u.u64_at("cache_read_input_tokens"@) is None ==> r.cached_input_tokens is None
            }
            &&& doc.text_at("stop_reason"@) is None ==> r.finish_reason == "end_turn"@
            &&& doc.get("usage"@) is None ==> r.input_tokens is None && r.output_tokens is None
                && r.cached_input_tokens is None
        }),
{
}

/// The blocks of a reply stand in order: what it carries, then its text, then its calls.
pub proof fn law_text_stands_before_calls(m: MessageView, kept: Seq<JsonView>, t: Seq<char>)
    requires
        m.content == Some(t),
        t.len() > 0,
        m.provider_extra is Some,
        m.provider_extra->0.array_at("anthropic_blocks"@) == Some(kept),
    ensures
        ({
            let b = anthropic::assistant_blocks(m);
            &&& kept.is_prefix_of(b)
            &&& b.len() == kept.len() + 1 + match m.tool_calls {
                Some(c) => c.len(),
                None => 0,
            }
            &&& b[kept.len() as int].text_at("type"@) == Some("text"@)
            &&& b[kept.len() as int].text_at("text"@) == Some(t)
        }),
{
    lemma_block_types();
}

/// A turn of the same side goes on, and a turn of the other side begins: the blocks of a
/// message stand together, behind those of the messages before.
pub proof fn law_turns_hold_their_messages(messages: Seq<MessageView>, m: MessageView)
    requires
        m.role == Role::Tool,
    ensures
        ({
            let before = anthropic::progress(messages).turns;
            let after = anthropic::progress(messages.push(m)).turns;
            let b = after.last().blocks.last();
            &&& after.len() > 0
            &&& after.last().user
            &&& after.last().blocks.len() > 0
            &&& b.text_at("type"@) == Some("tool_result"@)
            &&& b.text_at("tool_use_id"@) == Some(text_in(m.tool_call_id))
            &&& b.text_at("content"@) == Some(text_in(m.content))
            &&& before.len() > 0 && before.last().user ==> after.len() == before.len()
            &&& before.len() > 0 && !before.last().user ==> after.len() == before.len() + 1
        }),
{
    lemma_block_types();
    assert(messages.push(m).drop_last() =~= messages);
}

} // verus!
