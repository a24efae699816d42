//! Tool registry and selection.
use crate::text;
use crate::table;
use crate::seqs;
use crate::llm::types::{ToolDefView, ToolDefinition};
use crate::table::Table;
use crate::text::contains_str;
use vstd::prelude::*;

verus! {

/// The definitions of the tools that a model may call, by name.
pub struct ToolRegistry {
    pub tools: Table<ToolDefinition>,
}

impl View for ToolRegistry {
    type V = Map<Seq<char>, ToolDefView>;

    open spec fn view(&self) -> Map<Seq<char>, ToolDefView> {
        self.tools@.map_values(|d: ToolDefinition| d@)
    }
}

/// The definitions in ascending order of their names.
pub open spec fn in_order(tools: Map<Seq<char>, ToolDefView>) -> Seq<ToolDefView> {
    table::ordered(tools.dom()).map_values(|k: Seq<char>| tools[k])
}

impl ToolRegistry {
    pub fn new() -> (r: ToolRegistry)
        ensures
            r@ == Map::<Seq<char>, ToolDefView>::empty(),
    {
        let out = ToolRegistry { tools: Table::new() };
        assert(out@ =~= Map::<Seq<char>, ToolDefView>::empty());
        out
    }

    /// Registers a tool under its name, overwriting an existing one.
    pub fn register(&mut self, tool: ToolDefinition)
        ensures
            final(self)@ == old(self)@.insert(tool@.name, tool@),
    {
        let name = tool.function.name.clone();
        self.tools.put(name.as_str(), tool);
        assert(self@ =~= old(self)@.insert(tool@.name, tool@));
    }

    /// Remove a tool by name. Returns `true` if the tool existed.
    pub fn remove(&mut self, name: &str) -> (r: bool)
        ensures
            r == old(self)@.contains_key(name@),
            final(self)@ == old(self)@.remove(name@),
    {
        let there = self.tools.contains(name);
        self.tools.remove(name);
        assert(self@ =~= old(self)@.remove(name@));
        there
    }

    /// Remove all registered tools.
    pub fn clear(&mut self)
        ensures
            final(self)@ == Map::<Seq<char>, ToolDefView>::empty(),
    {
        self.tools = Table::new();
        assert(self@ =~= Map::<Seq<char>, ToolDefView>::empty());
    }

    /// All registered tool names.
    pub fn names(&self) -> (r: Vec<String>)
        ensures
            text::views(r@) == table::ordered(self@.dom()),
            table::ascending(text::views(r@)),
            forall|k: Seq<char>| #[trigger] text::views(r@).contains(k) <==> self@.contains_key(k),
    {
        assert(self@.dom() =~= self.tools@.dom());
        self.tools.names()
    }

    /// `true` if no tools are registered.
    pub fn is_empty(&self) -> (r: bool)
        ensures
            r == (self@ == Map::<Seq<char>, ToolDefView>::empty()),
    {
        let names = self.tools.names();
        proof {
            if names@.len() == 0 {
                assert forall|k: Seq<char>| !#[trigger] self@.contains_key(k) by {
                    assert(!text::views(names@).contains(k));
                }
                assert(self@ =~= Map::<Seq<char>, ToolDefView>::empty());
            } else {
                assert(text::views(names@).contains(text::views(names@)[0]));
                assert(self@.contains_key(text::views(names@)[0]));
            }
        }
        names.len() == 0
    }

    /// Tool definitions, in a stable order.
    ///
    /// Sorted by name because these are sent on every request, ahead of the
    /// conversation, and a stable prefix can be cached.
    pub fn definitions(&self) -> (r: Vec<ToolDefinition>)
        ensures
            text::views(r@) == in_order(self@),
            table::has_order(self@.dom()),
    {
        let names = self.names();
        let ghost keys = text::views(names@);
        let ghost all = in_order(self@);
        let mut out: Vec<ToolDefinition> = Vec::new();
        let mut i: usize = 0;
        assert(self@.dom() =~= self.tools@.dom());
        let listed = self.tools.names();
        assert(text::views(listed@) == keys);
        assert(text::views(out@) =~= all.take(0));
        while i < names.len()
            invariant
                i <= names@.len(),
                keys == text::views(names@),
                keys == table::ordered(self@.dom()),
                all == in_order(self@),
                forall|k: Seq<char>| #[trigger] keys.contains(k) <==> self.tools@.contains_key(k),
                text::views(out@) == all.take(i as int),
            decreases names@.len() - i,
        {
            assert(keys[i as int] == names@[i as int]@);
            assert(keys.contains(keys[i as int]));
            if let Some(d) = self.tools.get(names[i].as_str()) {
                let copy = d.clone();
                let ghost before = text::views(out@);
                out.push(copy);
                proof {
                    seqs::lemma_take_push(all, i as int);
                    assert(all[i as int] == self@[keys[i as int]]);
                    assert(text::views(out@) =~= before.push(copy@));
                }
            }
            i += 1;
        }
        assert(all.take(i as int) =~= all);
        out
    }

    /// Look up a single tool by name.
    pub fn get(&self, name: &str) -> (r: Option<ToolDefinition>)
        ensures
            match r {
                Some(d) => self@.contains_key(name@) && d@ == self@[name@],
                None => !self@.contains_key(name@),
            },
    {
        match self.tools.get(name) {
            Some(d) => Some(d.clone()),
            None => None,
        }
    }
}

impl Default for ToolRegistry {
    fn default() -> (r: ToolRegistry)
        ensures
            r@ == Map::<Seq<char>, ToolDefView>::empty(),
    {
        ToolRegistry::new()
    }
}

/// The definitions come out the same, whatever the order in which two tools were
/// registered.
pub proof fn law_order_is_reproducible(
    tools: Map<Seq<char>, ToolDefView>,
    a: ToolDefView,
    b: ToolDefView,
)
    requires
        a.name != b.name,
    ensures
        in_order(tools.insert(a.name, a).insert(b.name, b)) == in_order(
            tools.insert(b.name, b).insert(a.name, a),
        ),
{
    assert(tools.insert(a.name, a).insert(b.name, b) =~= tools.insert(b.name, b).insert(a.name, a));
}

/// Selects tools whose name contains any of the given keywords.
pub struct KeywordToolSelector {
    pub keywords: Vec<String>,
}

/// Whether a name contains one of the keywords.
pub open spec fn named_by(keywords: Seq<Seq<char>>, name: Seq<char>) -> bool {
    exists|i: int| 0 <= i < keywords.len() && text::contains(name, #[trigger] keywords[i])
}

/// The tools that the keywords name.
pub open spec fn named_tools(keywords: Seq<Seq<char>>, tools: Seq<ToolDefView>) -> Seq<ToolDefView> {
    seqs::filter_map(
        tools,
        |d: ToolDefView|
            if named_by(keywords, d.name) {
                Some(d)
            } else {
                None
            },
    )
}

impl KeywordToolSelector {
    pub fn new(keywords: Vec<String>) -> (r: KeywordToolSelector)
        ensures
            r.keywords == keywords,
    {
        KeywordToolSelector { keywords }
    }

    /// Whether a tool with this name is exposed.
    pub fn exposes(&self, name: &str) -> (r: bool)
        ensures
            r == named_by(text::views(self.keywords@), name@),
    {
        let ghost ks = text::views(self.keywords@);
        let mut i: usize = 0;
        while i < self.keywords.len()
            invariant
                i <= self.keywords@.len(),
                ks == text::views(self.keywords@),
                forall|j: int| 0 <= j < i ==> !text::contains(name@, #[trigger] ks[j]),
            decreases self.keywords@.len() - i,
        {
            assert(ks[i as int] == self.keywords@[i as int]@);
            if contains_str(name, self.keywords[i].as_str()) {
                return true;
            }
            i += 1;
        }
        false
    }

    /// The subset of `tools` to expose to the model.
    pub fn select(&self, tools: &Vec<ToolDefinition>) -> (r: Vec<ToolDefinition>)
        ensures
            text::views(r@) == named_tools(text::views(self.keywords@), text::views(tools@)),
    {
        let ghost ks = text::views(self.keywords@);
        let ghost all = text::views(tools@);
        let ghost f = |d: ToolDefView|
            if named_by(ks, d.name) {
                Some(d)
            } else {
                None
            };
        let mut out: Vec<ToolDefinition> = Vec::new();
        let mut i: usize = 0;
        assert(text::views(out@) =~= seqs::filter_map(all.take(0), f));
        while i < tools.len()
            invariant
                i <= tools@.len(),
                ks == text::views(self.keywords@),
                all == text::views(tools@),
                f == (|d: ToolDefView|
                    if named_by(ks, d.name) {
                        Some(d)
                    } else {
                        None
                    }),
                text::views(out@) == seqs::filter_map(all.take(i as int), f),
            decreases tools@.len() - i,
        {
            proof {
                seqs::lemma_take_push(all, i as int);
                seqs::lemma_filter_map_push(all.take(i as int), f, all[i as int]);
            }
            if self.exposes(tools[i].function.name.as_str()) {
                let ghost before = text::views(out@);
                let copy = tools[i].clone();
                out.push(copy);
                assert(text::views(out@) =~= before.push(copy@));
            }
            i += 1;
        }
        assert(all.take(i as int) =~= all);
        out
    }
}

} // verus!
