//! Prompts as addressable assets.
//!
//! A harness sends far more prompts to a model than the one the user writes. A
//! [`PromptLibrary`] makes each of them a named entry with a default. The
//! framework asks for prompts by name, so an application can replace any of them,
//! including the ones the harness uses on its own behalf.
use crate::text;
use crate::table;
use crate::table::Table;
use crate::text::{bytes_in, comes_before, replace_str};
use vstd::prelude::*;

pub mod names;

verus! {

pub const SUMMARIZE_FRESH_TEXT: &'static str =
    "Summarize the following conversation history. Your summary MUST start with a \"User instructions\" bullet list that quotes, verbatim, every short instruction or correction the user gave. After the bullet list, write a concise narrative preserving all important context, decisions, and results.\n\n{conversation}";

pub const SUMMARIZE_EXTEND_TEXT: &'static str =
    "You have a summary of earlier conversation history:\n\n{summary}\n\nExtend this summary to also cover the following new messages. Your updated summary MUST start with a \"User instructions\" bullet list that quotes, verbatim, every short instruction or correction the user gave (including any from the previous summary). After the bullet list, write a concise narrative preserving all important context, decisions, and results.\n\n{conversation}";

pub const STUCK_HINT_TEXT: &'static str =
    "You appear to be repeating the same action or error. Try a different approach, use different arguments, or ask the user for clarification.";

pub const WRAP_UP_TEXT: &'static str =
    "You have reached the step limit for this turn. Summarize what you did, what remains, and stop calling tools.";

/// The framework's built-in prompts.
pub open spec fn default_prompts() -> Map<Seq<char>, Seq<char>> {
    Map::<Seq<char>, Seq<char>>::empty().insert(
        names::SUMMARIZE_FRESH@,
        SUMMARIZE_FRESH_TEXT@,
    ).insert(names::SUMMARIZE_EXTEND@, SUMMARIZE_EXTEND_TEXT@).insert(
        names::STUCK_HINT@,
        STUCK_HINT_TEXT@,
    ).insert(names::WRAP_UP@, WRAP_UP_TEXT@)
}

/// Every prompt that the framework sends has a built-in text.
pub proof fn law_defaults_are_complete()
    ensures
        default_prompts().contains_key(names::SUMMARIZE_FRESH@),
        default_prompts().contains_key(names::SUMMARIZE_EXTEND@),
        default_prompts().contains_key(names::STUCK_HINT@),
        default_prompts().contains_key(names::WRAP_UP@),
{
}

/// A named collection of prompt templates.
pub struct PromptLibrary {
    pub prompts: Table<String>,
}

impl View for PromptLibrary {
    type V = Map<Seq<char>, Seq<char>>;

    open spec fn view(&self) -> Map<Seq<char>, Seq<char>> {
        self.prompts@.map_values(|t: String| t@)
    }
}

/// Variables as texts.
pub open spec fn vars_view(vars: Seq<(&str, &str)>) -> Seq<(Seq<char>, Seq<char>)> {
    vars.map_values(|v: (&str, &str)| (v.0@, v.1@))
}

/// The placeholder of a variable.
pub open spec fn placeholder(key: Seq<char>) -> Seq<char> {
    "{"@ + key + "}"@
}

/// A template with its variables filled in, one after another.
pub open spec fn filled(template: Seq<char>, vars: Seq<(Seq<char>, Seq<char>)>) -> Seq<char>
    decreases vars.len(),
{
    if vars.len() == 0 {
        template
    } else {
        text::replace(
            filled(template, vars.drop_last()),
            placeholder(vars.last().0),
            vars.last().1,
        )
    }
}

/// The text of a prompt; a name that is not registered gives the empty text.
pub open spec fn rendered(
    library: Map<Seq<char>, Seq<char>>,
    name: Seq<char>,
    vars: Seq<(Seq<char>, Seq<char>)>,
) -> Seq<char> {
    if library.contains_key(name) {
        filled(library[name], vars)
    } else {
        Seq::empty()
    }
}

/// The rough token cost of a prompt: a quarter of its bytes, rounded up.
pub open spec fn cost(body: Seq<char>) -> nat {
    (text::byte_len(body) + 3) / 4
}

/// Whether a row comes before another: the bigger cost first, then by name.
pub open spec fn row_before(a: (Seq<char>, usize), b: (Seq<char>, usize)) -> bool {
    a.1 > b.1 || (a.1 == b.1 && text::text_before(a.0, b.0))
}

/// Rows as texts and numbers.
pub open spec fn rows_view(rows: Seq<(String, usize)>) -> Seq<(Seq<char>, usize)> {
    rows.map_values(|r: (String, usize)| (r.0@, r.1))
}

/// Whether rows stand in order, each once.
pub open spec fn rows_in_order(rows: Seq<(Seq<char>, usize)>) -> bool {
    forall|i: int, j: int|
        0 <= i < j < rows.len() ==> row_before(#[trigger] rows[i], #[trigger] rows[j])
}

fn insert_row(rows: &mut Vec<(String, usize)>, name: String, size: usize)
    requires
        rows_in_order(rows_view(old(rows)@)),
        !rows_view(old(rows)@).contains((name@, size)),
    ensures
        rows_in_order(rows_view(final(rows)@)),
        forall|r: (Seq<char>, usize)| #[trigger]
            rows_view(final(rows)@).contains(r) <==> rows_view(old(rows)@).contains(r) || r == (
                name@,
                size,
            ),
{
    let ghost s = rows_view(rows@);
    let ghost row = (name@, size);
    let mut i: usize = 0;
    while i < rows.len() && (rows[i].1 > size || (rows[i].1 == size && comes_before(
        rows[i].0.as_str(),
        name.as_str(),
    )))
        invariant
            i <= rows@.len(),
            s == rows_view(rows@),
            row == (name@, size),
            forall|j: int| 0 <= j < i ==> row_before(#[trigger] s[j], row),
        decreases rows@.len() - i,
    {
        assert(s[i as int] == (rows@[i as int].0@, rows@[i as int].1));
        i += 1;
    }
    proof {
        if i < rows@.len() {
            assert(s[i as int] == (rows@[i as int].0@, rows@[i as int].1));
            assert(s[i as int] != row);
            text::lemma_text_before_total(s[i as int].0, name@);
        }
        assert forall|j: int| i <= j < s.len() implies row_before(row, #[trigger] s[j]) by {
            if j > i {
                assert(row_before(s[i as int], s[j]));
                if s[i as int].1 == size && s[j].1 == size {
                    text::lemma_text_before_transitive(name@, s[i as int].0, s[j].0);
                }
            }
        }
    }
    rows.insert(i, (name, size));
    proof {
        let t = rows_view(rows@);
        assert(t =~= s.insert(i as int, row));
        assert forall|r: (Seq<char>, usize)| #[trigger]
            t.contains(r) <==> s.contains(r) || r == row by {
            if s.contains(r) {
                let j = choose|j: int| 0 <= j < s.len() && s[j] == r;
                if j < i {
                    assert(t[j] == r);
                } else {
                    assert(t[j + 1] == r);
                }
            }
            if t.contains(r) {
                let j = choose|j: int| 0 <= j < t.len() && t[j] == r;
                if j < i {
                    assert(s[j] == r);
                } else if j > i {
                    assert(s[j - 1] == r);
                }
            }
            assert(t[i as int] == row);
        }
    }
}

/// The rough token cost of a prompt.
pub fn size_of(body: &str) -> (r: usize)
    ensures
        r == cost(body@),
{
    let b: usize = bytes_in(body);
    if b % 4 == 0 {
        b / 4
    } else {
        b / 4 + 1
    }
}

impl PromptLibrary {
    /// An empty library. Rendering an unregistered name yields an empty string, so
    /// a missing prompt degrades rather than ending a session.
    pub fn empty() -> (r: PromptLibrary)
        ensures
            r@ == Map::<Seq<char>, Seq<char>>::empty(),
    {
        let out = PromptLibrary { prompts: Table::new() };
        assert(out@ =~= Map::<Seq<char>, Seq<char>>::empty());
        out
    }

    /// A library carrying the framework's built-in prompts.
    pub fn with_defaults() -> (r: PromptLibrary)
        ensures
            r@ == default_prompts(),
    {
        let mut out = PromptLibrary::empty();
        out.set(names::SUMMARIZE_FRESH, SUMMARIZE_FRESH_TEXT);
        out.set(names::SUMMARIZE_EXTEND, SUMMARIZE_EXTEND_TEXT);
        out.set(names::STUCK_HINT, STUCK_HINT_TEXT);
        out.set(names::WRAP_UP, WRAP_UP_TEXT);
        out
    }

    /// The prompts as they are now, in a library of their own.
    pub fn snapshot(&self) -> (r: PromptLibrary)
        ensures
            r@ == self@,
    {
        let ghost s = self.prompts.entries@;
        let mut out = PromptLibrary::empty();
        let mut i: usize = 0;
        assert(table::entries_map(s.take(0)).map_values(|t: String| t@) =~= Map::empty());
        while i < self.prompts.entries.len()
            invariant
                i <= s.len(),
                s == self.prompts.entries@,
                out@ == table::entries_map(s.take(i as int)).map_values(|t: String| t@),
            decreases s.len() - i,
        {
            let ghost before = table::entries_map(s.take(i as int));
            assert(s.take(i + 1).drop_last() =~= s.take(i as int));
            out.set(self.prompts.entries[i].0.as_str(), self.prompts.entries[i].1.as_str());
            assert(table::entries_map(s.take(i + 1)).map_values(|t: String| t@)
                =~= before.map_values(|t: String| t@).insert(s[i as int].0@, s[i as int].1@));
            i += 1;
        }
        assert(s.take(i as int) =~= s);
        out
    }

    /// Register or replace a prompt.
    pub fn set(&mut self, name: &str, template: &str)
        ensures
            final(self)@ == old(self)@.insert(name@, template@),
    {
        self.prompts.put(name, template.to_owned());
        assert(self@ =~= old(self)@.insert(name@, template@));
    }

    /// The raw template, if registered.
    pub fn get(&self, name: &str) -> (r: Option<String>)
        ensures
            match r {
                Some(t) => self@.contains_key(name@) && t@ == self@[name@],
                None => !self@.contains_key(name@),
            },
    {
        match self.prompts.get(name) {
            Some(t) => Some(t.clone()),
            None => None,
        }
    }

    /// Render a prompt, substituting `{variable}` placeholders.
    ///
    /// Unknown names render empty and unknown placeholders are left alone.
    pub fn render(&self, name: &str, vars: &[(&str, &str)]) -> (r: String)
        ensures
            r@ == rendered(self@, name@, vars_view(vars@)),
    {
        let mut out = match self.get(name) {
            Some(t) => t,
            None => {
                return String::new();
            },
        };
        let ghost all = vars_view(vars@);
        let ghost template = out@;
        let mut i: usize = 0;
        while i < vars.len()
            invariant
                i <= vars@.len(),
                all == vars_view(vars@),
                out@ == filled(template, all.take(i as int)),
            decreases vars@.len() - i,
        {
            let mut mark = "{".to_owned();
            mark.push_str(vars[i].0);
            mark.push_str("}");
            proof {
                reveal_strlit("{");
                assert(mark@.len() > 0);
                assert(all.take(i + 1).drop_last() =~= all.take(i as int));
            }
            out = replace_str(out.as_str(), mark.as_str(), vars[i].1);
            i += 1;
        }
        assert(all.take(i as int) =~= all);
        out
    }

    /// Every registered name, sorted.
    pub fn names(&self) -> (r: Vec<String>)
        ensures
            text::views(r@) == table::ordered(self@.dom()),
            table::ascending(text::views(r@)),
            forall|k: Seq<char>| #[trigger] text::views(r@).contains(k) <==> self@.contains_key(k),
    {
        assert(self@.dom() =~= self.prompts@.dom());
        self.prompts.names()
    }

    /// Name and rough token cost of every prompt, the biggest first.
    pub fn inventory(&self) -> (r: Vec<(String, usize)>)
        ensures
            rows_in_order(rows_view(r@)),
            forall|k: Seq<char>, n: usize| #[trigger]
                rows_view(r@).contains((k, n)) <==> self@.contains_key(k) && n == cost(self@[k]),
    {
        let list = self.prompts.names();
        let mut out: Vec<(String, usize)> = Vec::new();
        let mut i: usize = 0;
        while i < list.len()
            invariant
                i <= list@.len(),
                table::ascending(text::views(list@)),
                forall|k: Seq<char>| #[trigger] text::views(list@).contains(k) <==> self@.contains_key(k),
                rows_in_order(rows_view(out@)),
                forall|k: Seq<char>, n: usize| #[trigger]
                    rows_view(out@).contains((k, n)) <==> text::views(list@).take(i as int).contains(k)
                        && n == cost(self@[k]),
            decreases list@.len() - i,
        {
            let ghost names = text::views(list@);
            let ghost before = rows_view(out@);
            proof {
                assert(names[i as int] == list@[i as int]@);
                assert(names.contains(names[i as int]));
                assert(!names.take(i as int).contains(names[i as int])) by {
                    if names.take(i as int).contains(names[i as int]) {
                        let j = choose|j: int| 0 <= j < i && names[j] == names[i as int];
                        assert(text::text_before(names[j], names[i as int]));
                        text::lemma_text_before_total(names[j], names[i as int]);
                    }
                }
            }
            if let Some(body) = self.prompts.get(list[i].as_str()) {
                let size: usize = size_of(body.as_str());
                let name = list[i].clone();
                assert(name@ == names[i as int]);
                assert(!before.contains((name@, size)));
                insert_row(&mut out, name, size);
            }
            proof {
                assert forall|k: Seq<char>, n: usize| #[trigger]
                    rows_view(out@).contains((k, n)) <==> names.take(i + 1).contains(k) && n
                        == cost(self@[k]) by {
                    lemma_take_contains(names, i as int, k);
                    assert(before.contains((k, n)) <==> names.take(i as int).contains(k) && n
                        == cost(self@[k]));
                }
            }
            i += 1;
        }
        assert(text::views(list@).take(i as int) =~= text::views(list@));
        out
    }
}

/// The rows of an inventory are the names with their costs, in another order.
pub proof fn law_inventory_lists_the_names(
    library: Map<Seq<char>, Seq<char>>,
    names: Seq<Seq<char>>,
    rows: Seq<(Seq<char>, usize)>,
)
    requires
        table::ascending(names),
        forall|k: Seq<char>| #[trigger] names.contains(k) <==> library.contains_key(k),
        rows_in_order(rows),
        forall|k: Seq<char>, n: usize| #[trigger]
            rows.contains((k, n)) <==> library.contains_key(k) && n == cost(library[k]),
        forall|k: Seq<char>| #[trigger] library.contains_key(k) ==> cost(library[k]) <= usize::MAX,
    ensures
        rows.to_multiset() == names.map_values(
            |k: Seq<char>| (k, cost(library[k]) as usize),
        ).to_multiset(),
{
    let sized = names.map_values(|k: Seq<char>| (k, cost(library[k]) as usize));
    assert(rows.no_duplicates()) by {
        assert forall|i: int, j: int| 0 <= i < rows.len() && 0 <= j < rows.len() && i != j implies rows[i]
            != rows[j] by {
            if i < j {
                assert(row_before(rows[i], rows[j]));
                text::lemma_text_before_total(rows[i].0, rows[j].0);
            } else {
                assert(row_before(rows[j], rows[i]));
                text::lemma_text_before_total(rows[j].0, rows[i].0);
            }
        }
    }
    assert(sized.no_duplicates()) by {
        assert forall|i: int, j: int|
            0 <= i < sized.len() && 0 <= j < sized.len() && i != j implies sized[i] != sized[j] by {
            if i < j {
                assert(text::text_before(names[i], names[j]));
                text::lemma_text_before_total(names[i], names[j]);
            } else {
                assert(text::text_before(names[j], names[i]));
                text::lemma_text_before_total(names[j], names[i]);
            }
        }
    }
    assert forall|r: (Seq<char>, usize)| #[trigger] rows.contains(r) <==> sized.contains(r) by {
        assert(rows.contains((r.0, r.1)) <==> library.contains_key(r.0) && r.1 == cost(library[r.0]));
        if rows.contains(r) {
            assert(names.contains(r.0));
            let i = choose|i: int| 0 <= i < names.len() && names[i] == r.0;
            assert(sized[i] == r);
        }
        if sized.contains(r) {
            let i = choose|i: int| 0 <= i < sized.len() && sized[i] == r;
            assert(names.contains(names[i]));
            assert(library.contains_key(r.0));
        }
    }
    broadcast use vstd::seq_lib::group_to_multiset_ensures;

    rows.lemma_multiset_has_no_duplicates();
    sized.lemma_multiset_has_no_duplicates();
    assert forall|r: (Seq<char>, usize)| rows.to_multiset().count(r) == #[trigger] sized.to_multiset().count(
        r,
    ) by {
        assert(rows.contains(r) <==> rows.to_multiset().count(r) > 0);
        assert(sized.contains(r) <==> sized.to_multiset().count(r) > 0);
        assert(rows.contains(r) <==> sized.contains(r));
        if rows.contains(r) {
            assert(rows.to_multiset().contains(r));
            assert(sized.to_multiset().contains(r));
        }
    }
    assert(rows.to_multiset() =~= sized.to_multiset());
}

proof fn lemma_take_contains<A>(s: Seq<A>, i: int, k: A)
    requires
        0 <= i < s.len(),
    ensures
        s.take(i + 1).contains(k) <==> s.take(i).contains(k) || s[i] == k,
{
    let (a, b) = (s.take(i), s.take(i + 1));
    if a.contains(k) {
        let j = choose|j: int| 0 <= j < a.len() && a[j] == k;
        assert(b[j] == k);
    }
    if b.contains(k) {
        let j = choose|j: int| 0 <= j < b.len() && b[j] == k;
        if j < i {
            assert(a[j] == k);
        }
    }
    assert(b[i] == s[i]);
}

impl Default for PromptLibrary {
    fn default() -> (r: PromptLibrary)
        ensures
            r@ == default_prompts(),
    {
        PromptLibrary::with_defaults()
    }
}

} // verus!
