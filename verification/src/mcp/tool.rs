//! Tools that a remote MCP server executes.
use crate::text;
use crate::seqs;
use crate::agent::tool::ToolRegistry;
use crate::llm::types::{FunctionDefinition, ToolDefView, ToolDefinition};
use vstd::prelude::*;

verus! {

/// A tool of an MCP server.
pub struct McpTool {
    /// Definition exposed to the model (its name may carry a prefix).
    pub definition: ToolDefinition,
    /// The tool's real name on the server.
    pub remote_name: String,
}

#[verifier::ext_equal]
pub struct McpToolView {
    pub definition: ToolDefView,
    pub remote_name: Seq<char>,
}

impl View for McpTool {
    type V = McpToolView;

    open spec fn view(&self) -> McpToolView {
        McpToolView { definition: self.definition@, remote_name: self.remote_name@ }
    }
}

/// A name behind a prefix.
pub open spec fn prefixed_name(prefix: Seq<char>, name: Seq<char>) -> Seq<char> {
    prefix + "__"@ + name
}

/// The tool of a definition that a server lists.
pub open spec fn listed_tool(def: ToolDefView, prefix: Option<Seq<char>>) -> McpToolView {
    McpToolView {
        definition: match prefix {
            Some(p) => ToolDefView { name: prefixed_name(p, def.name), ..def },
            None => def,
        },
        remote_name: def.name,
    }
}

/// The tools of the definitions that a server lists.
pub open spec fn listed_tools(defs: Seq<ToolDefView>, prefix: Option<Seq<char>>) -> Seq<
    McpToolView,
> {
    defs.map_values(|d: ToolDefView| listed_tool(d, prefix))
}

/// The tools of one MCP server.
///
/// When the tools of several servers are registered together, each set gets a
/// prefix; otherwise tools of the same name overwrite each other.
pub struct McpToolset {
    pub tools: Vec<McpTool>,
    pub prefix: Option<String>,
}

/// The tools of a set, behind a prefix.
pub open spec fn renamed(t: McpToolView, prefix: Seq<char>) -> McpToolView {
    McpToolView {
        definition: ToolDefView { name: prefixed_name(prefix, t.remote_name), ..t.definition },
        remote_name: t.remote_name,
    }
}

/// A registry with tools added.
pub open spec fn with_tools(
    registry: Map<Seq<char>, ToolDefView>,
    tools: Seq<McpToolView>,
) -> Map<Seq<char>, ToolDefView>
    decreases tools.len(),
{
    if tools.len() == 0 {
        registry
    } else {
        with_tools(registry, tools.drop_last()).insert(
            tools.last().definition.name,
            tools.last().definition,
        )
    }
}

fn name_behind(prefix: &str, name: &str) -> (r: String)
    ensures
        r@ == prefixed_name(prefix@, name@),
{
    let mut out = prefix.to_owned();
    out.push_str("__");
    out.push_str(name);
    out
}

fn tools_of(definitions: &Vec<ToolDefinition>, prefix: &Option<String>) -> (r: Vec<McpTool>)
    ensures
        text::views(r@) == listed_tools(text::views(definitions@), crate::json::opt_text(*prefix)),
{
    let ghost p = crate::json::opt_text(*prefix);
    let ghost all = listed_tools(text::views(definitions@), p);
    let mut out: Vec<McpTool> = Vec::new();
    let mut i: usize = 0;
    assert(text::views(out@) =~= all.take(0));
    while i < definitions.len()
        invariant
            i <= definitions@.len(),
            p == crate::json::opt_text(*prefix),
            all == listed_tools(text::views(definitions@), p),
            text::views(out@) == all.take(i as int),
        decreases definitions@.len() - i,
    {
        let mut definition = definitions[i].clone();
        let remote_name = definition.function.name.clone();
        if let Some(t) = prefix {
            let name = name_behind(t.as_str(), remote_name.as_str());
            definition = ToolDefinition {
                kind: definition.kind,
                function: FunctionDefinition { name, ..definition.function },
            };
        }
        let tool = McpTool { definition, remote_name };
        let ghost before = text::views(out@);
        out.push(tool);
        proof {
            seqs::lemma_take_push(all, i as int);
            assert(text::views(out@) =~= before.push(tool@));
            assert(all[i as int] == listed_tool(definitions@[i as int]@, p));
            assert(tool@ =~= all[i as int]);
        }
        i += 1;
    }
    assert(all.take(i as int) =~= all);
    out
}

impl McpToolset {
    /// The tools that a server lists, under their own names.
    pub fn from_definitions(definitions: &Vec<ToolDefinition>) -> (r: McpToolset)
        ensures
            text::views(r.tools@) == listed_tools(text::views(definitions@), None),
            r.prefix is None,
    {
        let prefix: Option<String> = None;
        let tools = tools_of(definitions, &prefix);
        McpToolset { tools, prefix }
    }

    /// Renames every tool to `<prefix>__<name>` for the model, while the server is
    /// still called with the original name.
    pub fn with_prefix(self, prefix: String) -> (r: McpToolset)
        ensures
            text::views(r.tools@) == text::views(self.tools@).map_values(
                |t: McpToolView| renamed(t, prefix@),
            ),
            r.prefix == Some(prefix),
    {
        let ghost all = text::views(self.tools@).map_values(|t: McpToolView| renamed(t, prefix@));
        let mut out: Vec<McpTool> = Vec::new();
        let mut i: usize = 0;
        assert(text::views(out@) =~= all.take(0));
        while i < self.tools.len()
            invariant
                i <= self.tools@.len(),
                all == text::views(self.tools@).map_values(|t: McpToolView| renamed(t, prefix@)),
                text::views(out@) == all.take(i as int),
            decreases self.tools@.len() - i,
        {
            let old = &self.tools[i];
            let name = name_behind(prefix.as_str(), old.remote_name.as_str());
            let copy = old.definition.clone();
            let tool = McpTool {
                definition: ToolDefinition {
                    kind: copy.kind,
                    function: FunctionDefinition { name, ..copy.function },
                },
                remote_name: old.remote_name.clone(),
            };
            let ghost before = text::views(out@);
            out.push(tool);
            proof {
                seqs::lemma_take_push(all, i as int);
                assert(text::views(out@) =~= before.push(tool@));
                assert(all[i as int] == renamed(self.tools@[i as int]@, prefix@));
                assert(tool@ =~= all[i as int]);
            }
            i += 1;
        }
        assert(all.take(i as int) =~= all);
        McpToolset { tools: out, prefix: Some(prefix) }
    }

    /// The set with the tools that the server lists now, under the same prefix.
    pub fn reload(&self, definitions: &Vec<ToolDefinition>) -> (r: McpToolset)
        ensures
            text::views(r.tools@) == listed_tools(
                text::views(definitions@),
                crate::json::opt_text(self.prefix),
            ),
            crate::json::opt_text(r.prefix) == crate::json::opt_text(self.prefix),
    {
        let tools = tools_of(definitions, &self.prefix);
        McpToolset { tools, prefix: crate::llm::types::copy_opt_text(&self.prefix) }
    }

    /// Registers all tools in this set into the given registry.
    pub fn add_to_registry(&self, registry: &mut ToolRegistry)
        ensures
            final(registry)@ == with_tools(old(registry)@, text::views(self.tools@)),
    {
        let ghost all = text::views(self.tools@);
        let ghost start = registry@;
        let mut i: usize = 0;
        while i < self.tools.len()
            invariant
                i <= self.tools@.len(),
                all == text::views(self.tools@),
                registry@ == with_tools(start, all.take(i as int)),
            decreases self.tools@.len() - i,
        {
            assert(all.take(i + 1).drop_last() =~= all.take(i as int));
            assert(all.take(i + 1).last() == self.tools@[i as int]@);
            registry.register(self.tools[i].definition.clone());
            i += 1;
        }
        assert(all.take(i as int) =~= all);
    }

    /// The individual tools.
    pub fn into_tools(self) -> (r: Vec<McpTool>)
        ensures
            r == self.tools,
    {
        self.tools
    }

    /// How many tools there are.
    pub fn len(&self) -> (r: usize)
        ensures
            r == self.tools@.len(),
    {
        self.tools.len()
    }

    pub fn is_empty(&self) -> (r: bool)
        ensures
            r == (self.tools@.len() == 0),
    {
        self.tools.len() == 0
    }
}

/// Reloading a set that got its prefix later lists the same tools as listing them
/// behind the prefix at once.
pub proof fn law_prefix_then_or_now(defs: Seq<ToolDefView>, prefix: Seq<char>)
    ensures
        listed_tools(defs, None).map_values(|t: McpToolView| renamed(t, prefix)) == listed_tools(
            defs,
            Some(prefix),
        ),
{
    let a = listed_tools(defs, None).map_values(|t: McpToolView| renamed(t, prefix));
    let b = listed_tools(defs, Some(prefix));
    assert forall|i: int| 0 <= i < defs.len() implies a[i] == b[i] by {
        assert(a[i] =~= b[i]);
    }
    assert(a =~= b);
}

/// Two tools of one server keep apart behind the prefix.
pub proof fn law_prefix_keeps_apart(prefix: Seq<char>, a: Seq<char>, b: Seq<char>)
    requires
        prefixed_name(prefix, a) == prefixed_name(prefix, b),
    ensures
        a == b,
{
    let head = prefix + "__"@;
    assert((head + a).skip(head.len() as int) =~= a);
    assert((head + b).skip(head.len() as int) =~= b);
}

} // verus!
