//! Laws of what the model is told besides the conversation: failed attempts, prompts,
//! project files, skills and tools.
use crate::agent::context;
use crate::agent::cycle;
use crate::agent::project;
use crate::agent::project::{ContextFiles, ProjectView};
use crate::agent::prompts;
use crate::agent::session;
use crate::agent::skills;
use crate::agent::skills::{SkillFile, SkillView};
use crate::agent::stuck::StuckKind;
use crate::agent::tokens;
use crate::agent::tool;
use crate::event::EventView;
use crate::json;
use crate::json::JsonView;
use crate::laws::anthropic as blocks;
use crate::laws::texts;
use crate::llm::types::{MessageView, ToolCallView, ToolDefView};
use crate::seqs;
use crate::text;
use vstd::prelude::*;

verus! {

/// A text is cut to the bytes that it may have: as much of its beginning as fits.
pub proof fn law_cut_keeps_the_beginning(s: Seq<char>, max: int)
    requires
        0 <= max,
    ensures
        context::cut(s, max).is_prefix_of(s),
        text::byte_len(context::cut(s, max)) <= max,
        text::byte_len(s) <= max ==> context::cut(s, max) == s,
        context::cut(s, max).len() < s.len() ==> text::byte_len(
            s.take((context::cut(s, max).len() + 1) as int),
        ) > max,
{
    texts::law_as_much_as_fits(s, max);
    if text::byte_len(s) <= max {
        assert(s.take(s.len() as int) =~= s);
    }
}

/// What a failed attempt is told by: what the model said, the tools that it called with
/// their arguments, and the errors that came back.
pub proof fn law_failure_is_told(e: EventView, i: int)
    ensures
        ({
            let lines = context::failure_lines(e);
            &&& e.kind == "assistant.message"@ ==> {
                let said = blocks::text_in(e.payload.text_at("content"@));
                let calls = match e.payload.array_at("tool_calls"@) {
                    Some(a) => a,
                    None => Seq::empty(),
                };
                let n = if said.len() > 0 {
                    1int
                } else {
                    0
                };
                &&& lines.len() == n + calls.len()
                &&& n == 1 ==> lines[0] == "  Assistant said: "@ + context::cut(said, 200)
                &&& 0 <= i < calls.len() && calls[i].get("function"@) is Some && calls[i].get(
                    "function"@,
                )->0.text_at("name"@) is Some && calls[i].get("function"@)->0.text_at(
                    "arguments"@,
                ) is Some ==> lines[n + i] == "  Called tool: "@ + calls[i].get(
                    "function"@,
                )->0.text_at("name"@)->0 + "("@ + context::cut(
                    calls[i].get("function"@)->0.text_at("arguments"@)->0,
                    150,
                ) + ")"@
            }
            &&& e.kind == "tool.result"@ ==> match e.payload.text_at("error"@) {
                Some(t) => lines.len() == 1 && lines[0] == "  Tool error: "@ + context::cut(t, 200),
                None => lines.len() == 0,
            }
            &&& e.kind != "assistant.message"@ && e.kind != "tool.result"@ ==> lines.len() == 0
        }),
{
    reveal_strlit("assistant.message");
    reveal_strlit("tool.result");
    assert("assistant.message"@.len() == 17 && "tool.result"@.len() == 11);
}

/// Every line of every failed attempt is in the warning, and every attempt is numbered.
pub proof fn law_warning_tells_every_failure(
    branches: Seq<Seq<EventView>>,
    b: int,
    i: int,
    k: int,
)
    requires
        0 <= b < branches.len(),
        0 <= i < branches[b].len(),
        0 <= k < context::failure_lines(branches[b][i]).len(),
    ensures
        text::contains(
            context::negative_text(branches),
            context::failure_lines(branches[b][i])[k],
        ),
        text::contains(
            context::negative_text(branches),
            "Attempt "@ + text::decimal((b + 1) as nat) + ":"@,
        ),
{
    let f = |e: EventView| context::failure_lines(e);
    let lines = seqs::flat_map(branches[b], f);
    lemma_flat_has(branches[b], f, i, k);
    let line = context::failure_lines(branches[b][i])[k];
    let title = "Attempt "@ + text::decimal((b + 1) as nat) + ":"@;
    let parts = seq![title] + lines;
    let j = choose|j: int| 0 <= j < lines.len() && lines[j] == line;
    assert(parts[j + 1] == line);
    assert(parts[0] == title);
    texts::law_join_holds_every_part(parts, "\n"@, j + 1);
    texts::law_join_holds_every_part(parts, "\n"@, 0);
    let all = seq![context::negative_heading()] + Seq::new(
        branches.len(),
        |i: int| context::attempt_text((i + 1) as nat, branches[i]),
    );
    assert(all[b + 1] == context::attempt_text((b + 1) as nat, branches[b]));
    texts::law_join_holds_every_part(all, "\n"@, b + 1);
    texts::law_containment_is_transitive(context::negative_text(branches), all[b + 1], line);
    texts::law_containment_is_transitive(context::negative_text(branches), all[b + 1], title);
}

proof fn lemma_flat_has<A, B>(s: Seq<A>, f: spec_fn(A) -> Seq<B>, i: int, k: int)
    requires
        0 <= i < s.len(),
        0 <= k < f(s[i]).len(),
    ensures
        seqs::flat_map(s, f).contains(f(s[i])[k]),
    decreases s.len(),
{
    let front = s.drop_last();
    let head = seqs::flat_map(front, f);
    let r = seqs::flat_map(s, f);
    if i < front.len() {
        assert(front[i] == s[i]);
        lemma_flat_has(front, f, i, k);
        let j = choose|j: int| 0 <= j < head.len() && head[j] == f(s[i])[k];
        assert(r[j] == f(s[i])[k]);
    } else {
        assert(r[head.len() + k] == f(s[i])[k]);
    }
}

/// Who is woken: everyone by a user, the system and the heartbeat; one agent by what is
/// addressed to it, or to nobody.
pub proof fn law_who_is_woken(e: EventView, agent_id: Seq<char>)
    ensures
        cycle::wakes(e, agent_id) <==> (e.kind == "user.message"@ || e.kind == "system.heartbeat"@
            || e.kind == "system.message"@ || (e.kind == "agent.message"@ && (e.meta_text(
            "to_agent_id"@,
        ) is None || e.meta_text("to_agent_id"@) == Some(agent_id)))),
{
}

/// A failed cycle tells its error.
pub proof fn law_error_is_told(error: Seq<char>)
    ensures
        cycle::error_json(error).text_at("content"@) is Some,
        text::contains(cycle::error_json(error).text_at("content"@)->0, error),
{
    let t = cycle::error_json(error).text_at("content"@)->0;
    let n = "⚠️ Error: "@.len() as int;
    assert(t.subrange(n, n + error.len()) =~= error);
    assert(text::occurs_at(t, error, n));
}

/// A loop is published with its kind, how often it repeated, and the hint.
pub proof fn law_loop_is_published(hint: Seq<char>, kind: StuckKind, repeats: int)
    ensures
        ({
            let p = cycle::stuck_json(hint, kind, repeats);
            &&& p.text_at("kind"@) == Some(
                match kind {
                    StuckKind::RepeatingAction => "RepeatingAction"@,
                    StuckKind::RepeatingError => "RepeatingError"@,
                    StuckKind::Monologue => "Monologue"@,
                    StuckKind::ContextWindowLoop => "ContextWindowLoop"@,
                },
            )
            &&& p.get("repeat_count"@) == Some(JsonView::Int(repeats))
            &&& p.text_at("hint"@) == Some(hint)
        }),
{
    reveal_strlit("kind");
    reveal_strlit("repeat_count");
    reveal_strlit("hint");
    assert("kind"@.len() == 4 && "repeat_count"@.len() == 12 && "hint"@.len() == 4 && "kind"@[0]
        == 'k' && "hint"@[0] == 'h');
}

/// The estimate of a text is the larger of two: four thirds of a token a word, rounded up
/// from thirteen tenths, and one a four bytes; four tokens stand on top.
pub proof fn law_text_is_estimated(s: Seq<char>)
    ensures
        tokens::text_tokens(s) >= 4 + text::byte_len(s) / 4,
        10 * (tokens::text_tokens(s) - 4) >= 13 * text::words(s),
        tokens::text_tokens(s) == 4 + text::byte_len(s) / 4 || 10 * (tokens::text_tokens(s) - 4)
            < 13 * text::words(s) + 10,
{
}

/// The estimate of a request is the sum over its messages: each has its text, its calls
/// with name and arguments, and four tokens.
pub proof fn law_request_is_estimated(ms: Seq<MessageView>, m: MessageView, c: ToolCallView)
    ensures
        tokens::messages_tokens(Seq::empty()) == 0,
        tokens::messages_tokens(ms.push(m)) == tokens::messages_tokens(ms)
            + tokens::messages_tokens(seq![m]),
        m.content is None && m.tool_calls is None ==> tokens::messages_tokens(seq![m]) == 4,
        m.tool_calls is None ==> (m.content matches Some(t) ==> tokens::messages_tokens(seq![m])
            == tokens::text_tokens(t) + 4),
        m.content is None ==> m.tool_calls == Some(seq![c]) ==> tokens::messages_tokens(seq![m])
            == tokens::text_tokens(c.name) + tokens::text_tokens(c.arguments) + 8,
{
    assert(ms.push(m).drop_last() =~= ms);
    assert(seq![m].drop_last() =~= Seq::<MessageView>::empty());
    assert(tokens::messages_tokens(Seq::<MessageView>::empty()) == 0);
    assert(seq![c].drop_last() =~= Seq::<ToolCallView>::empty());
    assert(tokens::calls_tokens(Seq::<ToolCallView>::empty()) == 0);
    assert(tokens::calls_tokens(seq![c]) == tokens::call_tokens(c));
}

/// The calls of a message count one by one.
pub proof fn law_calls_are_estimated(calls: Seq<ToolCallView>, c: ToolCallView)
    ensures
        tokens::calls_tokens(calls.push(c)) == tokens::calls_tokens(calls) + tokens::text_tokens(
            c.name,
        ) + tokens::text_tokens(c.arguments) + 4,
{
    assert(calls.push(c).drop_last() =~= calls);
}

/// A variable stands where its name stood in braces, and the text around it stays.
pub proof fn law_variable_is_filled_in(
    a: Seq<char>,
    key: Seq<char>,
    b: Seq<char>,
    value: Seq<char>,
)
    requires
        forall|i: int|
            0 <= i < a.len() ==> !#[trigger] text::occurs_at(
                a + ("{"@ + key + "}"@) + b,
                "{"@ + key + "}"@,
                i,
            ),
        forall|i: int| 0 <= i ==> !#[trigger] text::occurs_at(b, "{"@ + key + "}"@, i),
    ensures
        prompts::filled(a + ("{"@ + key + "}"@) + b, seq![(key, value)]) == a + value + b,
{
    reveal_strlit("{");
    let p = "{"@ + key + "}"@;
    assert(p.len() > 0);
    let vars = seq![(key, value)];
    assert(vars.drop_last() =~= Seq::<(Seq<char>, Seq<char>)>::empty());
    let t = a + p + b;
    assert(prompts::filled(t, Seq::empty()) == t);
    texts::law_replaced_where_it_stands(a, p, b, value);
}

/// Variables are filled in one after the other; without any the template stays.
pub proof fn law_variables_are_filled_in_order(
    template: Seq<char>,
    vars: Seq<(Seq<char>, Seq<char>)>,
    v: (Seq<char>, Seq<char>),
)
    ensures
        prompts::filled(template, Seq::empty()) == template,
        prompts::filled(template, vars.push(v)) == prompts::filled(
            prompts::filled(template, vars),
            seq![v],
        ),
{
    assert(vars.push(v).drop_last() =~= vars);
    assert(seq![v].drop_last() =~= Seq::<(Seq<char>, Seq<char>)>::empty());
    assert(seq![v].last() == v);
    let t = prompts::filled(template, vars);
    assert(prompts::filled(t, Seq::empty()) == t);
}

/// A prompt is the library's own; one that it has not is empty.
pub proof fn law_prompt_is_the_librarys(
    library: Map<Seq<char>, Seq<char>>,
    name: Seq<char>,
    template: Seq<char>,
)
    ensures
        prompts::rendered(library.insert(name, template), name, Seq::empty()) == template,
        prompts::rendered(library.remove(name), name, Seq::empty()).len() == 0,
{
}

/// A prompt costs a token a four bytes, rounded up.
pub proof fn law_prompt_has_its_cost(body: Seq<char>)
    ensures
        4 * prompts::cost(body) >= text::byte_len(body),
        4 * prompts::cost(body) < text::byte_len(body) + 4,
{
}

/// The first file with a text is the context of a directory; the other stands in only
/// where the first is missing or blank.
pub proof fn law_first_file_counts(files: ContextFiles)
    ensures
        ({
            let r = project::context_of(files);
            &&& files.agents matches Some(c) ==> text::trim(c.content@).len() > 0 ==> r is Some
                && r->0.source == c.source@ && r->0.content == c.content@
            &&& (files.agents is None || text::trim(files.agents->0.content@).len() == 0) ==> (
            files.fallback matches Some(c) ==> text::trim(c.content@).len() > 0 ==> r is Some
                && r->0.source == c.source@ && r->0.content == c.content@)
            &&& (files.agents is None || text::trim(files.agents->0.content@).len() == 0) && (
            files.fallback is None || text::trim(files.fallback->0.content@).len() == 0)
                ==> r is None
        }),
{
}

/// The reply of a session is the text of its newest assistant message.
pub proof fn law_reply_is_the_newest(log: Seq<EventView>, i: int)
    requires
        0 <= i < log.len(),
        log[i].kind == "assistant.message"@,
        forall|k: int| i < k < log.len() ==> (#[trigger] log[k]).kind != "assistant.message"@,
    ensures
        session::reply(log) == blocks::text_in(log[i].payload.text_at("content"@)),
    decreases log.len(),
{
    if i < log.len() - 1 {
        let front = log.drop_last();
        assert(log[log.len() - 1].kind != "assistant.message"@);
        assert forall|k: int| i < k < front.len() implies (#[trigger] front[k]).kind
            != "assistant.message"@ by {
            assert(front[k] == log[k]);
        }
        law_reply_is_the_newest(front, i);
    }
}

/// The history of a session tells what the user said, what the model replied and what
/// the tools gave.
pub proof fn law_turn_is_told(e: EventView)
    ensures
        e.kind == "user.message"@ ==> (e.payload.text_at("text"@) matches Some(t)
            ==> session::turn_of(e) == Some(("user"@, t))),
        e.kind == "assistant.message"@ ==> (e.payload.text_at("content"@) matches Some(t) ==> t.len()
            > 0 ==> session::turn_of(e) == Some(("assistant"@, t))),
        e.kind == "assistant.message"@ && blocks::text_in(e.payload.text_at("content"@)).len() == 0
            ==> session::turn_of(e) is None,
        e.kind == "tool.result"@ ==> (e.payload.text_at("name"@) matches Some(n) ==> (e.payload.get(
            "result"@,
        ) matches Some(v) ==> session::turn_of(e) == Some(("tool:"@ + n, json::json_text(v))))),
        e.kind != "user.message"@ && e.kind != "assistant.message"@ && e.kind != "tool.result"@
            ==> session::turn_of(e) is None,
{
    reveal_strlit("user.message");
    reveal_strlit("assistant.message");
    reveal_strlit("tool.result");
    assert("user.message"@.len() == 12 && "assistant.message"@.len() == 17 && "tool.result"@.len()
        == 11);
}

/// A line of frontmatter is a key, a colon and a value.
pub proof fn law_entry_is_a_key_and_a_value(key: Seq<char>, value: Seq<char>)
    requires
        key.len() > 0,
        !key.contains(':'),
        key[0] != '#',
        !text::is_space(key[0]),
        !text::is_space(key.last()),
        value.len() > 0,
        !text::is_space(value[0]),
        !text::is_space(value.last()),
        value[0] != '"' && value[0] != '\'',
        value.last() != '"' && value.last() != '\'',
    ensures
        skills::entry_of(key + ": "@ + value) == Some((key, value)),
{
    reveal_strlit(": ");
    let line = key + ": "@ + value;
    assert(line[0] == key[0] && line.last() == value.last());
    texts::law_trimmed_text_stays(line);
    text::lemma_char_from(line, ':', 0);
    let k = text::char_from(line, ':', 0);
    assert(line[key.len() as int] == ':');
    assert(k == key.len()) by {
        if k < key.len() {
            assert(line[k] == key[k]);
        }
    }
    let rest = line.skip(k + 1);
    assert(rest =~= seq![' '] + value);
    assert(rest.skip(1) =~= value);
    assert(text::trim_start(rest) == text::trim_start(value));
    assert(text::trim(rest) =~= value);
    assert(line.take(k) =~= key);
    texts::law_trimmed_text_stays(key);
}

/// A comment, an empty line and a line without a colon are no entries.
pub proof fn law_other_lines_are_no_entries(line: Seq<char>)
    requires
        text::trim(line).len() == 0 || text::trim(line)[0] == '#' || !text::trim(line).contains(
            ':',
        ),
    ensures
        skills::entry_of(line) is None,
{
    let t = text::trim(line);
    text::lemma_char_from(t, ':', 0);
    if text::char_from(t, ':', 0) < t.len() {
        assert(t[text::char_from(t, ':', 0)] == ':');
    }
}

/// The last entry of a key counts.
pub proof fn law_last_entry_counts(ls: Seq<Seq<char>>, line: Seq<char>)
    ensures
        skills::entry_of(line) matches Some((k, v)) ==> skills::entries(ls.push(line))
            == skills::entries(ls).insert(k, v),
        skills::entry_of(line) is None ==> skills::entries(ls.push(line)) == skills::entries(ls),
        skills::entries(Seq::empty()) == Map::<Seq<char>, Seq<char>>::empty(),
{
    assert(ls.push(line).drop_last() =~= ls);
}

/// A file without frontmatter is all body; one with it has the entries of the lines
/// between the marks, and the body behind them.
pub proof fn law_frontmatter_stands_between_marks(meta: Seq<char>, body: Seq<char>)
    requires
        forall|j: int|
            0 <= j < meta.len() ==> !#[trigger] text::occurs_at(
                meta + "\n---\n"@ + body,
                "\n---"@,
                j,
            ),
    ensures
        skills::document("---"@ + meta + "\n---\n"@ + body) == (
            skills::entries(text::lines(meta)),
            body,
        ),
{
    reveal_strlit("---");
    reveal_strlit("\n---");
    reveal_strlit("\n---\n");
    let raw = "---"@ + meta + "\n---\n"@ + body;
    let rest = meta + "\n---\n"@ + body;
    assert(raw[0] == '-');
    assert(text::trim_start_char(raw, '\u{feff}') == raw);
    assert(raw.subrange(0, 3) =~= "---"@);
    assert(text::starts_with(raw, "---"@));
    assert(raw.skip(3) =~= rest);
    text::lemma_find_from(rest, "\n---"@, 0);
    let n = meta.len() as int;
    assert(rest.subrange(n, n + 4) =~= "\n---"@);
    assert(text::occurs_at(rest, "\n---"@, n));
    assert(text::find(rest, "\n---"@) == Some(n));
    assert(rest.take(n) =~= meta);
    assert(rest.skip(n + 4) =~= seq!['\n'] + body);
    assert((seq!['\n'] + body).skip(1) =~= body);
}

/// A file without the first mark has no frontmatter.
pub proof fn law_file_without_frontmatter(raw: Seq<char>)
    requires
        raw.len() > 0 ==> raw[0] != '\u{feff}',
        !text::starts_with(raw, "---"@),
    ensures
        skills::document(raw) == (Map::<Seq<char>, Seq<char>>::empty(), raw),
{
}

/// A skill has the name and the description of its frontmatter, and for want of a name
/// that of its directory; its instructions are the body.
pub proof fn law_skill_is_read(file: SkillFile)
    ensures
        ({
            let s = skills::skill_in(file);
            let meta = skills::document(file.raw@).0;
            &&& meta.contains_key("name"@) ==> s.name == meta["name"@]
            &&& !meta.contains_key("name"@) ==> (file.dir_name matches Some(n) ==> s.name == n@)
            &&& meta.contains_key("description"@) ==> s.description == meta["description"@]
            &&& !meta.contains_key("description"@) ==> s.description.len() == 0
            &&& s.dir == file.dir@
            &&& s.instructions == text::trim(skills::document(file.raw@).1)
        }),
{
}

/// The skill that was read last under a name counts.
pub proof fn law_last_skill_counts(files: Seq<SkillFile>, file: SkillFile)
    ensures
        skills::skills_in(files.push(file)) == skills::skills_in(files).insert(
            skills::skill_in(file).name,
            skills::skill_in(file),
        ),
{
    assert(files.push(file).drop_last() =~= files);
}

/// The model is told every skill by its name and its description.
pub proof fn law_every_skill_is_told(all: Seq<SkillView>, i: int)
    requires
        0 <= i < all.len(),
    ensures
        text::contains(
            skills::skills_section(all),
            "- "@ + all[i].name + ": "@ + all[i].description + "\n"@,
        ),
        skills::skills_section(Seq::empty()).len() == 0,
{
    lemma_skill_lines(all, i);
    let line = "- "@ + all[i].name + ": "@ + all[i].description + "\n"@;
    let section = skills::skills_section(all);
    let lines = skills::skill_lines(all);
    let head = section.take(section.len() - lines.len());
    assert(section =~= head + lines);
    texts::law_contained_in_a_part(head, lines, line);
}

proof fn lemma_skill_lines(all: Seq<SkillView>, i: int)
    requires
        0 <= i < all.len(),
    ensures
        text::contains(
            skills::skill_lines(all),
            "- "@ + all[i].name + ": "@ + all[i].description + "\n"@,
        ),
    decreases all.len(),
{
    let line = "- "@ + all[i].name + ": "@ + all[i].description + "\n"@;
    let front = all.drop_last();
    let last = "- "@ + all.last().name + ": "@ + all.last().description + "\n"@;
    if i < front.len() {
        assert(front[i] == all[i]);
        lemma_skill_lines(front, i);
        texts::law_contained_in_a_part(skills::skill_lines(front), last, line);
    } else {
        texts::law_contained_in_a_part(skills::skill_lines(front), last, line);
        texts::law_contained_in_a_part(Seq::empty(), Seq::empty(), line);
    }
}

/// The tool that loads skills offers every name.
pub proof fn law_skill_tool_offers_the_names(all: Seq<SkillView>, i: int)
    requires
        0 <= i < all.len(),
    ensures
        ({
            let d = skills::skill_definition(all);
            let p = d.parameters.get("properties"@)->0.get("name"@)->0;
            &&& d.name == "skill"@
            &&& d.kind == "function"@
            &&& d.parameters.get("properties"@) is Some
            &&& d.parameters.get("properties"@)->0.get("name"@) is Some
            &&& p.array_at("enum"@) is Some
            &&& p.array_at("enum"@)->0.len() == all.len()
            &&& p.array_at("enum"@)->0[i] == JsonView::Text(all[i].name)
            &&& d.parameters.array_at("required"@) == Some(seq![JsonView::Text("name"@)])
        }),
{
    reveal_strlit("type");
    reveal_strlit("properties");
    reveal_strlit("required");
    reveal_strlit("name");
    reveal_strlit("description");
    reveal_strlit("enum");
    assert("type"@.len() == 4 && "properties"@.len() == 10 && "required"@.len() == 8 && "name"@.len()
        == 4 && "description"@.len() == 11 && "enum"@.len() == 4 && "type"@[0] == 't' && "enum"@[0]
        == 'e');
    let d = skills::skill_definition(all);
    assert(d.parameters.array_at("required"@)->0 =~= seq![JsonView::Text("name"@)]);
}

/// A skill that is asked for is the one of that name; the error names what was asked for.
pub proof fn law_asked_skill_is_found(known: Map<Seq<char>, SkillView>, args: JsonView)
    ensures
        args.text_at("name"@) matches Some(n) ==> (known.contains_key(n) ==> skills::asked_skill(
            known,
            args,
        ) == Ok::<SkillView, Seq<char>>(known[n])),
        args.text_at("name"@) matches Some(n) ==> (!known.contains_key(n) ==> (skills::asked_skill(
            known,
            args,
        ) matches Err(t) && text::contains(t, n))),
        args.text_at("name"@) is None ==> skills::asked_skill(known, args) is Err,
{
    if let Some(n) = args.text_at("name"@) {
        let t = skills::unknown_skill(n, skills::in_order(known));
        let k = "unknown skill '"@.len() as int;
        assert(t.subrange(k, k + n.len()) =~= n);
        assert(text::occurs_at(t, n, k));
    }
}

/// The answer to a skill that is loaded holds its instructions and lists its files.
pub proof fn law_loaded_skill_is_whole(s: SkillView, files: Seq<Seq<char>>)
    ensures
        ({
            let j = skills::skill_json(s, files);
            &&& j.text_at("name"@) == Some(s.name)
            &&& j.text_at("instructions"@) == Some(s.instructions)
            &&& j.text_at("directory"@) == Some(s.dir)
            &&& j.array_at("bundled_files"@) is Some
            &&& j.array_at("bundled_files"@)->0.len() == files.len()
            &&& forall|i: int|
                0 <= i < files.len() ==> #[trigger] j.array_at("bundled_files"@)->0[i]
                    == JsonView::Text(files[i])
        }),
{
    reveal_strlit("name");
    reveal_strlit("instructions");
    reveal_strlit("directory");
    reveal_strlit("bundled_files");
    assert("name"@.len() == 4 && "instructions"@.len() == 12 && "directory"@.len() == 9
        && "bundled_files"@.len() == 13);
}

/// The tools that a keyword names are exposed, in order, and no others.
pub proof fn law_named_tools_are_exposed(
    keywords: Seq<Seq<char>>,
    a: Seq<ToolDefView>,
    b: Seq<ToolDefView>,
    d: ToolDefView,
)
    ensures
        tool::named_tools(keywords, a + b) == tool::named_tools(keywords, a) + tool::named_tools(
            keywords,
            b,
        ),
        (exists|i: int| 0 <= i < keywords.len() && text::contains(d.name, #[trigger] keywords[i]))
            ==> tool::named_tools(keywords, seq![d]) == seq![d],
        (forall|i: int|
            0 <= i < keywords.len() ==> !text::contains(d.name, #[trigger] keywords[i]))
            ==> tool::named_tools(keywords, seq![d]).len() == 0,
{
    let f = |d: ToolDefView|
        if tool::named_by(keywords, d.name) {
            Some(d)
        } else {
            None
        };
    seqs::lemma_filter_map_concat(a, b, f);
    blocks::lemma_filter_one(d, f);
}

/// The skills are told in their order.
pub proof fn law_skills_are_told_in_order(all: Seq<SkillView>, s: SkillView)
    ensures
        skills::skill_lines(Seq::empty()).len() == 0,
        skills::skill_lines(all.push(s)) == skills::skill_lines(all) + ("- "@ + s.name + ": "@
            + s.description + "\n"@),
        all.len() > 0 ==> skills::skill_lines(all).is_suffix_of(skills::skills_section(all)),
{
    assert(all.push(s).drop_last() =~= all);
}

/// The attempts are told in their order, behind a heading.
pub proof fn law_attempts_are_told_in_order(
    branches: Seq<Seq<EventView>>,
    branch: Seq<EventView>,
)
    ensures
        context::negative_text(Seq::empty()) == context::negative_heading(),
        context::negative_text(branches.push(branch)) == context::negative_text(branches) + "\n"@
            + context::attempt_text((branches.len() + 1) as nat, branch),
{
    let f = |i: int| context::attempt_text((i + 1) as nat, branches[i]);
    let more = branches.push(branch);
    let g = |i: int| context::attempt_text((i + 1) as nat, more[i]);
    let head = seq![context::negative_heading()];
    let last = context::attempt_text((branches.len() + 1) as nat, branch);
    assert(head + Seq::new(more.len(), g) =~= (head + Seq::new(branches.len(), f)).push(last));
    texts::law_join_adds_at_the_end(head + Seq::new(branches.len(), f), "\n"@, last);
    let none = Seq::<Seq<EventView>>::empty();
    assert(head + Seq::new(
        none.len(),
        |i: int| context::attempt_text((i + 1) as nat, none[i]),
    ) =~= head);
}

/// An attempt is told event by event, behind its number.
pub proof fn law_attempt_is_told_in_order(n: nat, branch: Seq<EventView>, e: EventView)
    ensures
        context::attempt_text(n, Seq::empty()) == "Attempt "@ + text::decimal(n) + ":"@,
        context::failure_lines(e).len() == 1 ==> context::attempt_text(n, branch.push(e))
            == context::attempt_text(n, branch) + "\n"@ + context::failure_lines(e)[0],
        context::failure_lines(e).len() == 0 ==> context::attempt_text(n, branch.push(e))
            == context::attempt_text(n, branch),
{
    let f = |e: EventView| context::failure_lines(e);
    let title = seq!["Attempt "@ + text::decimal(n) + ":"@];
    seqs::lemma_flat_map_push(branch, f, e);
    let lines = seqs::flat_map(branch, f);
    let own = context::failure_lines(e);
    if own.len() == 1 {
        assert(title + (lines + own) =~= (title + lines).push(own[0]));
        texts::law_join_adds_at_the_end(title + lines, "\n"@, own[0]);
    }
    if own.len() == 0 {
        assert(title + (lines + own) =~= title + lines);
    }
    assert(title + seqs::flat_map(Seq::<EventView>::empty(), f) =~= title);
}

/// The history of a session follows its log.
pub proof fn law_history_follows_the_log(a: Seq<EventView>, b: Seq<EventView>, e: EventView)
    ensures
        session::turns_of(a + b) == session::turns_of(a) + session::turns_of(b),
        session::turn_of(e) matches Some(t) ==> session::turns_of(seq![e]) == seq![t],
        session::turn_of(e) is None ==> session::turns_of(seq![e]).len() == 0,
{
    let f = |e: EventView| session::turn_of(e);
    seqs::lemma_filter_map_concat(a, b, f);
    blocks::lemma_filter_one(e, f);
}

/// The context of an outer directory stands before those of the directories in it.
pub proof fn law_outer_context_stands_first(levels: Seq<ContextFiles>, outer: ContextFiles)
    ensures
        project::context_of(outer) matches Some(c) ==> project::contexts_of(levels.push(outer))
            == seq![c] + project::contexts_of(levels),
        project::context_of(outer) is None ==> project::contexts_of(levels.push(outer))
            == project::contexts_of(levels),
        project::contexts_of(Seq::empty()).len() == 0,
{
    let f = |f: ContextFiles| project::context_of(f);
    assert(levels.push(outer).reverse() =~= seq![outer] + levels.reverse());
    seqs::lemma_filter_map_concat(seq![outer], levels.reverse(), f);
    blocks::lemma_filter_one(outer, f);
    let r = project::contexts_of(levels);
    assert(Seq::<ProjectView>::empty() + r =~= r);
    assert(Seq::<ContextFiles>::empty().reverse() =~= Seq::<ContextFiles>::empty());
}

/// After a failed cycle the agent waits a second; each failure in a row doubles the wait,
/// up to the sixth, and without a failure it does not wait.
pub proof fn law_failures_double_the_wait(n: int)
    ensures
        n <= 0 ==> cycle::wait_ms(n) == 0,
        1 <= n <= 6 ==> cycle::wait_ms(n) == 1_000 * vstd::arithmetic::power2::pow2(
            (n - 1) as nat,
        ),
        n > 6 ==> cycle::wait_ms(n) == cycle::wait_ms(6),
{
    vstd::arithmetic::power2::lemma2_to64();
}

/// The inventory lists the dearest prompts first, and prompts of the same cost by name.
pub proof fn law_dearest_prompts_stand_first(rows: Seq<(Seq<char>, usize)>, i: int, j: int)
    requires
        prompts::rows_in_order(rows),
        0 <= i < j < rows.len(),
    ensures
        rows[i].1 >= rows[j].1,
        rows[i].1 == rows[j].1 ==> text::text_before(rows[i].0, rows[j].0),
{
    assert(prompts::row_before(rows[i], rows[j]));
}

/// Each built-in prompt stands under its own name.
pub proof fn law_built_in_prompts_have_their_names()
    ensures
        ({
            let d = prompts::default_prompts();
            &&& d.contains_key("context.summarize.fresh"@)
            &&& d["context.summarize.fresh"@] == prompts::SUMMARIZE_FRESH_TEXT@
            &&& d.contains_key("context.summarize.extend"@)
            &&& d["context.summarize.extend"@] == prompts::SUMMARIZE_EXTEND_TEXT@
            &&& d.contains_key("loop.stuck_hint"@)
            &&& d["loop.stuck_hint"@] == prompts::STUCK_HINT_TEXT@
            &&& d.contains_key("loop.wrap_up"@)
            &&& d["loop.wrap_up"@] == prompts::WRAP_UP_TEXT@
        }),
{
    reveal_strlit("context.summarize.fresh");
    reveal_strlit("context.summarize.extend");
    reveal_strlit("loop.stuck_hint");
    reveal_strlit("loop.wrap_up");
    assert("context.summarize.fresh"@.len() == 23 && "context.summarize.extend"@.len() == 24
        && "loop.stuck_hint"@.len() == 15 && "loop.wrap_up"@.len() == 12);
}

/// The built-in prompts for a summary take in the conversation, and the one that extends a
/// summary takes in that summary.
pub proof fn law_built_in_prompts_take_the_conversation()
    ensures
        text::contains(prompts::SUMMARIZE_FRESH_TEXT@, prompts::placeholder("conversation"@)),
        text::contains(prompts::SUMMARIZE_EXTEND_TEXT@, prompts::placeholder("conversation"@)),
        text::contains(prompts::SUMMARIZE_EXTEND_TEXT@, prompts::placeholder("summary"@)),
{
    reveal_strlit("conversation");
    reveal_strlit("summary");
    reveal_strlit("{");
    reveal_strlit("}");
    reveal_strlit(
        "Summarize the following conversation history. Your summary MUST start with a \"User instructions\" bullet list that quotes, verbatim, every short instruction or correction the user gave. After the bullet list, write a concise narrative preserving all important context, decisions, and results.\n\n{conversation}",
    );
    reveal_strlit(
        "You have a summary of earlier conversation history:\n\n{summary}\n\nExtend this summary to also cover the following new messages. Your updated summary MUST start with a \"User instructions\" bullet list that quotes, verbatim, every short instruction or correction the user gave (including any from the previous summary). After the bullet list, write a concise narrative preserving all important context, decisions, and results.\n\n{conversation}",
    );
    let fresh = prompts::SUMMARIZE_FRESH_TEXT@;
    let extend = prompts::SUMMARIZE_EXTEND_TEXT@;
    let conversation = prompts::placeholder("conversation"@);
    let summary = prompts::placeholder("summary"@);
    assert(fresh.subrange(293, 307) =~= conversation);
    assert(text::occurs_at(fresh, conversation, 293));
    assert(extend.subrange(423, 437) =~= conversation);
    assert(text::occurs_at(extend, conversation, 423));
    assert(extend.subrange(53, 62) =~= summary);
    assert(text::occurs_at(extend, summary, 53));
}

} // verus!
