//! Agent skills: `SKILL.md` bundles that are disclosed step by step.
//!
//! A skill is a directory with a `SKILL.md` file: frontmatter with a name and a
//! description, then markdown instructions. The system prompt lists one line per
//! skill; the `skill` tool hands out the instructions of one on demand.
use crate::text;
use crate::table;
use crate::seqs;
use crate::llm::wire;
use crate::json;
use crate::json::{Json, JsonMap, JsonView};
use crate::llm::types::{ToolDefView, ToolDefinition};
use crate::llm::wire::text_array_json;
use crate::table::{insert_name, Table};
use crate::text::{
    chars_of, find_char, find_chars, join_strs, lines_of, strip_prefix_str, string_of,
    trim_char_str, trim_start_char_str, trim_str,
};
use std::sync::Arc;
use vstd::prelude::*;

verus! {

// ── Frontmatter ────────────────────────────────────────────────────────────

/// The entry that a line of frontmatter writes: `key: value`, with quotes around
/// the value taken off. A comment, a line without a colon and one without a value
/// write none.
pub open spec fn entry_of(line: Seq<char>) -> Option<(Seq<char>, Seq<char>)> {
    let t = text::trim(line);
    let k = text::char_from(t, ':', 0);
    if t.len() == 0 || t[0] == '#' || k >= t.len() {
        None
    } else {
        let value = text::trim_char(text::trim_char(text::trim(t.skip(k + 1)), '"'), '\'');
        if value.len() == 0 {
            None
        } else {
            Some((text::trim(t.take(k)), value))
        }
    }
}

/// The entries of frontmatter; the last line with a key holds its value.
pub open spec fn entries(ls: Seq<Seq<char>>) -> Map<Seq<char>, Seq<char>>
    decreases ls.len(),
{
    if ls.len() == 0 {
        Map::empty()
    } else {
        match entry_of(ls.last()) {
            Some((k, v)) => entries(ls.drop_last()).insert(k, v),
            None => entries(ls.drop_last()),
        }
    }
}

/// The frontmatter and the body of a document. Without a complete frontmatter the
/// document is all body.
pub open spec fn document(raw: Seq<char>) -> (Map<Seq<char>, Seq<char>>, Seq<char>) {
    match text::after_prefix(text::trim_start_char(raw, '\u{feff}'), "---"@) {
        None => (Map::empty(), raw),
        Some(rest) => match text::find(rest, "\n---"@) {
            None => (Map::empty(), raw),
            Some(end) => {
                let after = rest.skip(end + 4);
                (
                    entries(text::lines(rest.take(end))),
                    if after.len() > 0 && after[0] == '\n' {
                        after.skip(1)
                    } else {
                        after
                    },
                )
            },
        },
    }
}

/// The texts of a table.
pub open spec fn text_map(t: Map<Seq<char>, String>) -> Map<Seq<char>, Seq<char>> {
    t.map_values(|s: String| s@)
}

fn read_entry(line: &str) -> (r: Option<(String, String)>)
    ensures
        match r {
            Some(e) => entry_of(line@) == Some(e@),
            None => entry_of(line@) is None,
        },
{
    let t = trim_str(line);
    let v = chars_of(t.as_str());
    if v.len() == 0 || v[0] == '#' {
        return None;
    }
    let k: usize = find_char(&v, ':', 0);
    proof {
        text::lemma_char_from(t@, ':', 0);
    }
    if k >= v.len() {
        return None;
    }
    let head = string_of(&v, 0, k);
    let tail = string_of(&v, k + 1, v.len());
    proof {
        assert(head@ =~= t@.take(k as int));
        assert(tail@ =~= t@.skip(k + 1));
    }
    let bare = trim_str(tail.as_str());
    let plain = trim_char_str(bare.as_str(), '"');
    let value = trim_char_str(plain.as_str(), '\'');
    if value.as_str().is_empty() {
        return None;
    }
    let key = trim_str(head.as_str());
    Some((key, value))
}

fn read_entries(ls: &Vec<String>) -> (r: Table<String>)
    ensures
        text_map(r@) == entries(text::views(ls@)),
{
    let ghost all = text::views(ls@);
    let mut out: Table<String> = Table::new();
    let mut i: usize = 0;
    assert(text_map(out@) =~= entries(all.take(0)));
    while i < ls.len()
        invariant
            i <= ls@.len(),
            all == text::views(ls@),
            text_map(out@) == entries(all.take(i as int)),
        decreases ls@.len() - i,
    {
        assert(all.take(i + 1).drop_last() =~= all.take(i as int));
        assert(all.take(i + 1).last() == ls@[i as int]@);
        if let Some((k, v)) = read_entry(ls[i].as_str()) {
            let ghost before = text_map(out@);
            out.put(k.as_str(), v);
            assert(text_map(out@) =~= before.insert(k@, v@));
        }
        i += 1;
    }
    assert(all.take(i as int) =~= all);
    out
}

/// Split frontmatter from a markdown document.
///
/// Parses only simple top-level `key: value` scalars, which is enough for skill
/// metadata.
pub fn split_frontmatter(raw: &str) -> (r: (Table<String>, String))
    ensures
        text_map(r.0@) == document(raw@).0,
        r.1@ == document(raw@).1,
{
    let trimmed = trim_start_char_str(raw, '\u{feff}');
    let rest = match strip_prefix_str(trimmed.as_str(), "---") {
        Some(t) => t,
        None => {
            let none: Table<String> = Table::new();
            assert(text_map(none@) =~= Map::empty());
            return (none, raw.to_owned());
        },
    };
    let v = chars_of(rest.as_str());
    let mark = chars_of("\n---");
    proof {
        reveal_strlit("\n---");
        assert("\n---"@.len() == 4);
        text::lemma_find_from(rest@, "\n---"@, 0);
    }
    match find_chars(&v, &mark, 0) {
        None => {
            let none: Table<String> = Table::new();
            assert(text_map(none@) =~= Map::empty());
            (none, raw.to_owned())
        },
        Some(end) => {
            let front = string_of(&v, 0, end);
            assert(front@ =~= rest@.take(end as int));
            let ls = lines_of(front.as_str());
            let meta = read_entries(&ls);
            let mut from: usize = end + 4;
            if from < v.len() && v[from] == '\n' {
                from += 1;
            }
            let body = string_of(&v, from, v.len());
            assert(body@ =~= document(raw@).1);
            (meta, body)
        },
    }
}

// ── The library ────────────────────────────────────────────────────────────

/// One skill.
#[derive(Debug)]
pub struct Skill {
    /// The name in the frontmatter, or the name of the directory.
    pub name: String,
    /// What the skill does and when to use it; the model decides from this line
    /// whether the skill is relevant.
    pub description: String,
    /// Directory with the `SKILL.md` file and any bundled files.
    pub dir: String,
    /// Markdown body of the file.
    pub instructions: String,
}

#[verifier::ext_equal]
pub struct SkillView {
    pub name: Seq<char>,
    pub description: Seq<char>,
    pub dir: Seq<char>,
    pub instructions: Seq<char>,
}

impl View for Skill {
    type V = SkillView;

    open spec fn view(&self) -> SkillView {
        SkillView {
            name: self.name@,
            description: self.description@,
            dir: self.dir@,
            instructions: self.instructions@,
        }
    }
}

impl Clone for Skill {
    fn clone(&self) -> (r: Skill)
        ensures
            r == *self,
    {
        Skill {
            name: self.name.clone(),
            description: self.description.clone(),
            dir: self.dir.clone(),
            instructions: self.instructions.clone(),
        }
    }
}

/// A `SKILL.md` file that was read.
pub struct SkillFile {
    /// The last part of the directory's path, if it has one.
    pub dir_name: Option<String>,
    pub dir: String,
    pub raw: String,
}

pub open spec fn value_or(
    m: Map<Seq<char>, Seq<char>>,
    key: Seq<char>,
    other: Seq<char>,
) -> Seq<char> {
    if m.contains_key(key) {
        m[key]
    } else {
        other
    }
}

/// The skill that a file describes.
pub open spec fn skill_in(file: SkillFile) -> SkillView {
    let (meta, body) = document(file.raw@);
    SkillView {
        name: value_or(
            meta,
            "name"@,
            match file.dir_name {
                Some(n) => n@,
                None => Seq::empty(),
            },
        ),
        description: value_or(meta, "description"@, Seq::empty()),
        dir: file.dir@,
        instructions: text::trim(body),
    }
}

/// The skill that a file describes.
pub fn parse_skill(file: &SkillFile) -> (r: Skill)
    ensures
        r@ == skill_in(*file),
{
    let (meta, body) = split_frontmatter(file.raw.as_str());
    let name = match meta.get("name") {
        Some(t) => t.clone(),
        None => match &file.dir_name {
            Some(n) => n.clone(),
            None => String::new(),
        },
    };
    let description = match meta.get("description") {
        Some(t) => t.clone(),
        None => String::new(),
    };
    Skill { name, description, dir: file.dir.clone(), instructions: trim_str(body.as_str()) }
}

/// A collection of skills by name.
pub struct SkillsLibrary {
    pub skills: Table<Skill>,
}

impl View for SkillsLibrary {
    type V = Map<Seq<char>, SkillView>;

    open spec fn view(&self) -> Map<Seq<char>, SkillView> {
        self.skills@.map_values(|s: Skill| s@)
    }
}

/// The skills of files; a later file with the same name wins.
pub open spec fn skills_in(files: Seq<SkillFile>) -> Map<Seq<char>, SkillView>
    decreases files.len(),
{
    if files.len() == 0 {
        Map::empty()
    } else {
        let s = skill_in(files.last());
        skills_in(files.drop_last()).insert(s.name, s)
    }
}

/// The skills in ascending order of their names.
pub open spec fn in_order(skills: Map<Seq<char>, SkillView>) -> Seq<SkillView> {
    table::ordered(skills.dom()).map_values(|k: Seq<char>| skills[k])
}

/// The lines that list skills.
pub open spec fn skill_lines(skills: Seq<SkillView>) -> Seq<char>
    decreases skills.len(),
{
    if skills.len() == 0 {
        Seq::empty()
    } else {
        skill_lines(skills.drop_last()) + ("- "@ + skills.last().name + ": "@
            + skills.last().description + "\n"@)
    }
}

/// The section of the system prompt that lists the skills.
pub open spec fn skills_section(skills: Seq<SkillView>) -> Seq<char> {
    if skills.len() == 0 {
        Seq::empty()
    } else {
        "## Skills\nThe following skills are available. When a task matches a skill's description, call the `skill` tool with its name to load the full instructions before proceeding.\n"@
            + skill_lines(skills)
    }
}

impl SkillsLibrary {
    pub fn new() -> (r: SkillsLibrary)
        ensures
            r@ == Map::<Seq<char>, SkillView>::empty(),
    {
        let out = SkillsLibrary { skills: Table::new() };
        assert(out@ =~= Map::<Seq<char>, SkillView>::empty());
        out
    }

    /// The library of the files that were found, in the order in which they were
    /// found; without any it is empty.
    pub fn discover(files: &Vec<SkillFile>) -> (r: SkillsLibrary)
        ensures
            r@ == skills_in(files@),
    {
        let mut out = SkillsLibrary::new();
        let mut i: usize = 0;
        while i < files.len()
            invariant
                i <= files@.len(),
                out@ == skills_in(files@.take(i as int)),
            decreases files@.len() - i,
        {
            assert(files@.take(i + 1).drop_last() =~= files@.take(i as int));
            let skill = parse_skill(&files[i]);
            out.add_skill(skill);
            i += 1;
        }
        assert(files@.take(i as int) =~= files@);
        out
    }

    /// Register a skill under its name.
    pub fn add_skill(&mut self, skill: Skill)
        ensures
            final(self)@ == old(self)@.insert(skill@.name, skill@),
    {
        let name = skill.name.clone();
        self.skills.put(name.as_str(), skill);
        assert(self@ =~= old(self)@.insert(skill@.name, skill@));
    }

    pub fn is_empty(&self) -> (r: bool)
        ensures
            r == (in_order(self@).len() == 0),
            r == (self@ == Map::<Seq<char>, SkillView>::empty()),
    {
        let n: usize = self.len();
        proof {
            let keys = table::ordered(self@.dom());
            if n == 0 {
                assert forall|k: Seq<char>| !#[trigger] self@.contains_key(k) by {
                    assert(!keys.contains(k));
                }
                assert(self@ =~= Map::<Seq<char>, SkillView>::empty());
            } else {
                assert(keys.contains(keys[0]));
                assert(self@.contains_key(keys[0]));
            }
        }
        n == 0
    }

    /// How many skills there are.
    pub fn len(&self) -> (r: usize)
        ensures
            r == in_order(self@).len(),
            table::has_order(self@.dom()),
    {
        assert(self@.dom() =~= self.skills@.dom());
        self.skills.names().len()
    }

    pub fn get(&self, name: &str) -> (r: Option<&Skill>)
        ensures
            match r {
                Some(s) => self@.contains_key(name@) && s@ == self@[name@],
                None => !self@.contains_key(name@),
            },
    {
        self.skills.get(name)
    }

    /// The skills in ascending order of their names.
    pub fn iter(&self) -> (r: Vec<Skill>)
        ensures
            text::views(r@) == in_order(self@),
            table::has_order(self@.dom()),
    {
        assert(self@.dom() =~= self.skills@.dom());
        let names = self.skills.names();
        let ghost keys = text::views(names@);
        let ghost all = in_order(self@);
        let mut out: Vec<Skill> = Vec::new();
        let mut i: usize = 0;
        assert(text::views(out@) =~= all.take(0));
        while i < names.len()
            invariant
                i <= names@.len(),
                keys == text::views(names@),
                keys == table::ordered(self@.dom()),
                all == in_order(self@),
                forall|k: Seq<char>| #[trigger] keys.contains(k) <==> self.skills@.contains_key(k),
                text::views(out@) == all.take(i as int),
            decreases names@.len() - i,
        {
            assert(keys[i as int] == names@[i as int]@);
            assert(keys.contains(keys[i as int]));
            if let Some(s) = self.skills.get(names[i].as_str()) {
                let copy = s.clone();
                let ghost before = text::views(out@);
                out.push(copy);
                proof {
                    seqs::lemma_take_push(all, i as int);
                    assert(all[i as int] == self@[keys[i as int]]);
                    assert(text::views(out@) =~= before.push(copy@));
                }
            }
            i += 1;
        }
        assert(all.take(i as int) =~= all);
        out
    }

    /// Render the listing for the system prompt; empty when no skills are loaded.
    pub fn system_prompt_section(&self) -> (r: String)
        ensures
            r@ == skills_section(in_order(self@)),
    {
        let list = self.iter();
        if list.len() == 0 {
            return String::new();
        }
        let ghost all = text::views(list@);
        let mut out =
            "## Skills\nThe following skills are available. When a task matches a skill's description, call the `skill` tool with its name to load the full instructions before proceeding.\n".to_owned();
        let ghost head = out@;
        let mut i: usize = 0;
        assert(head + skill_lines(all.take(0)) =~= head);
        while i < list.len()
            invariant
                i <= list@.len(),
                all == text::views(list@),
                out@ == head + skill_lines(all.take(i as int)),
            decreases list@.len() - i,
        {
            let mut line = "- ".to_owned();
            line.push_str(list[i].name.as_str());
            line.push_str(": ");
            line.push_str(list[i].description.as_str());
            line.push_str("\n");
            let ghost before = out@;
            out.push_str(line.as_str());
            proof {
                assert(all.take(i + 1).drop_last() =~= all.take(i as int));
                assert(all.take(i + 1).last() == list@[i as int]@);
                assert(head + (skill_lines(all.take(i as int)) + line@) =~= out@);
            }
            i += 1;
        }
        assert(all.take(i as int) =~= all);
        out
    }
}

// ── The tool ───────────────────────────────────────────────────────────────

/// The `skill` tool: hands out a skill's full instructions on demand.
pub struct SkillTool {
    pub library: Arc<SkillsLibrary>,
}

/// The names of skills.
pub open spec fn names_of(skills: Seq<SkillView>) -> Seq<Seq<char>> {
    skills.map_values(|s: SkillView| s.name)
}

/// The parameters of the `skill` tool.
pub open spec fn skill_parameters(skills: Seq<SkillView>) -> JsonView {
    let object = Map::<Seq<char>, JsonView>::empty();
    JsonView::Object(
        object.insert("type"@, JsonView::Text("object"@)).insert(
            "properties"@,
            JsonView::Object(
                object.insert(
                    "name"@,
                    JsonView::Object(
                        object.insert("type"@, JsonView::Text("string"@)).insert(
                            "description"@,
                            JsonView::Text("Skill to load"@),
                        ).insert("enum"@, wire::text_array(names_of(skills))),
                    ),
                ),
            ),
        ).insert("required"@, wire::text_array(seq!["name"@])),
    )
}

/// The definition of the `skill` tool.
pub open spec fn skill_definition(skills: Seq<SkillView>) -> ToolDefView {
    ToolDefView {
        kind: "function"@,
        name: "skill"@,
        description:
            "Load the full instructions for a named skill. Call this before attempting a task that matches a skill's description."@,
        parameters: skill_parameters(skills),
    }
}

/// What the tool says of a name that it does not know.
pub open spec fn unknown_skill(name: Seq<char>, skills: Seq<SkillView>) -> Seq<char> {
    "unknown skill '"@ + name + "'; available: "@ + text::join(names_of(skills), ", "@)
}

/// What the tool answers with.
pub open spec fn skill_json(s: SkillView, files: Seq<Seq<char>>) -> JsonView {
    JsonView::Object(
        Map::<Seq<char>, JsonView>::empty().insert("name"@, JsonView::Text(s.name)).insert(
            "instructions"@,
            JsonView::Text(s.instructions),
        ).insert("directory"@, JsonView::Text(s.dir)).insert("bundled_files"@, wire::text_array(files)),
    )
}

/// The skill that a call asks for, or what the tool says in its place.
pub open spec fn asked_skill(
    skills: Map<Seq<char>, SkillView>,
    args: JsonView,
) -> Result<SkillView, Seq<char>> {
    match args.text_at("name"@) {
        None => Err("missing 'name' argument"@),
        Some(name) => if skills.contains_key(name) {
            Ok(skills[name])
        } else {
            Err(unknown_skill(name, in_order(skills)))
        },
    }
}

impl SkillTool {
    pub fn new(library: SkillsLibrary) -> (r: SkillTool)
        ensures
            r.library@ == library@,
    {
        SkillTool { library: Arc::new(library) }
    }

    /// A tool over a library that others share.
    pub fn from_arc(library: Arc<SkillsLibrary>) -> (r: SkillTool)
        ensures
            r.library == library,
    {
        SkillTool { library }
    }

    fn names(&self) -> (r: Vec<String>)
        ensures
            text::views(r@) == names_of(in_order(self.library@)),
    {
        let list = self.library.iter();
        let ghost all = names_of(text::views(list@));
        let mut out: Vec<String> = Vec::new();
        let mut i: usize = 0;
        assert(text::views(out@) =~= all.take(0));
        while i < list.len()
            invariant
                i <= list@.len(),
                all == names_of(text::views(list@)),
                text::views(out@) == all.take(i as int),
            decreases list@.len() - i,
        {
            let name = list[i].name.clone();
            let ghost before = text::views(out@);
            out.push(name);
            proof {
                seqs::lemma_take_push(all, i as int);
                assert(all[i as int] == list@[i as int]@.name);
                assert(text::views(out@) =~= before.push(name@));
            }
            i += 1;
        }
        assert(all.take(i as int) =~= all);
        out
    }

    /// The definition of the tool; its parameter lists the names.
    pub fn definition(&self) -> (r: ToolDefinition)
        ensures
            r@ == skill_definition(in_order(self.library@)),
    {
        let names = self.names();
        let required = vec!["name".to_owned()];
        assert(text::views(required@) =~= seq!["name"@]);
        let parameters = Json::Object(
            JsonMap::new().with("type", Json::text("object")).with(
                "properties",
                Json::Object(
                    JsonMap::new().with(
                        "name",
                        Json::Object(
                            JsonMap::new().with("type", Json::text("string")).with(
                                "description",
                                Json::text("Skill to load"),
                            ).with("enum", text_array_json(&names)),
                        ),
                    ),
                ),
            ).with("required", text_array_json(&required)),
        );
        ToolDefinition::function(
            "skill",
            "Load the full instructions for a named skill. Call this before attempting a task that matches a skill's description.",
            parameters,
        )
    }

    /// The skill that a call asks for; an error says why there is none.
    pub fn find(&self, args: &Json) -> (r: Result<&Skill, String>)
        ensures
            match (r, asked_skill(self.library@, args@)) {
                (Ok(s), Ok(v)) => s@ == v,
                (Err(e), Err(t)) => e@ == t,
                _ => false,
            },
    {
        match args.text_at("name") {
            None => Err("missing 'name' argument".to_owned()),
            Some(name) => match self.library.get(name) {
                Some(s) => Ok(s),
                None => {
                    let names = self.names();
                    let mut out = "unknown skill '".to_owned();
                    out.push_str(name);
                    out.push_str("'; available: ");
                    let list = join_strs(&names, ", ");
                    out.push_str(list.as_str());
                    Err(out)
                },
            },
        }
    }

    /// What the tool answers with: the skill, and the files bundled with it in
    /// ascending order.
    pub fn answer(skill: &Skill, files: &Vec<String>) -> (r: Json)
        ensures
            r@ == skill_json(skill@, table::ordered(text::views(files@).to_set())),
            table::has_order(text::views(files@).to_set()),
    {
        let mut sorted: Vec<String> = Vec::new();
        let mut i: usize = 0;
        let ghost all = text::views(files@);
        while i < files.len()
            invariant
                i <= files@.len(),
                all == text::views(files@),
                table::ascending(text::views(sorted@)),
                forall|k: Seq<char>| #[trigger]
                    text::views(sorted@).contains(k) <==> all.take(i as int).contains(k),
            decreases files@.len() - i,
        {
            let ghost before = text::views(sorted@);
            insert_name(&mut sorted, files[i].as_str());
            proof {
                let (a, b) = (all.take(i as int), all.take(i + 1));
                assert(b[i as int] == files@[i as int]@);
                assert forall|k: Seq<char>| #[trigger]
                    text::views(sorted@).contains(k) <==> b.contains(k) by {
                    assert(before.contains(k) <==> a.contains(k));
                    if a.contains(k) {
                        let j = choose|j: int| 0 <= j < a.len() && a[j] == k;
                        assert(b[j] == k);
                    }
                    if b.contains(k) {
                        let j = choose|j: int| 0 <= j < b.len() && b[j] == k;
                        if j < i {
                            assert(a[j] == k);
                        }
                    }
                }
            }
            i += 1;
        }
        proof {
            assert(all.take(i as int) =~= all);
            table::lemma_ordered(text::views(sorted@), all.to_set());
        }
        Json::Object(
            JsonMap::new().with("name", Json::text(skill.name.as_str())).with(
                "instructions",
                Json::text(skill.instructions.as_str()),
            ).with("directory", Json::text(skill.dir.as_str())).with(
                "bundled_files",
                text_array_json(&sorted),
            ),
        )
    }
}

/// A skill that was found can be asked for by the name under which it is listed.
pub proof fn law_listed_skill_is_known(files: Seq<SkillFile>, name: Seq<char>)
    ensures
        skills_in(files).contains_key(name) ==> skills_in(files)[name].name == name,
    decreases files.len(),
{
    if files.len() > 0 {
        law_listed_skill_is_known(files.drop_last(), name);
    }
}

} // verus!
