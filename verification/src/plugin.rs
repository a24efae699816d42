//! Manifest-driven plugins: distributable bundles of skills, MCP servers and prompt
//! fragments.
//!
//! A plugin is a directory with an `eventage-plugin.toml` manifest. [`PluginHost`]
//! holds any number of plugins and installs them in one call: their MCP servers are
//! connected, the skills of all plugins are merged behind one `skill` tool, and the
//! prompt fragments are joined in load order, followed by the listing of the skills.
use crate::text;
use crate::agent::skills;
use crate::agent::skills::{Skill, SkillFile, SkillTool, SkillView, SkillsLibrary};
use crate::agent::tool::ToolRegistry;
use crate::component::ComponentError;
use crate::text::{same, trim_str};
use vstd::prelude::*;

verus! {

/// Manifest filename looked up in a plugin directory.
pub const MANIFEST_NAME: &'static str = "eventage-plugin.toml";

/// Why a plugin could not be loaded or installed.
#[derive(Debug)]
pub enum PluginError {
    Io(String),
    Manifest { path: String, message: String },
    Mcp { name: String, message: String },
    McpFeatureDisabled,
    Capability { plugin: String, message: String },
}

pub enum PluginErrorView {
    Io(Seq<char>),
    Manifest { path: Seq<char>, message: Seq<char> },
    Mcp { name: Seq<char>, message: Seq<char> },
    McpFeatureDisabled,
    Capability { plugin: Seq<char>, message: Seq<char> },
}

impl View for PluginError {
    type V = PluginErrorView;

    open spec fn view(&self) -> PluginErrorView {
        match self {
            PluginError::Io(m) => PluginErrorView::Io(m@),
            PluginError::Manifest { path, message } => PluginErrorView::Manifest {
                path: path@,
                message: message@,
            },
            PluginError::Mcp { name, message } => PluginErrorView::Mcp {
                name: name@,
                message: message@,
            },
            PluginError::McpFeatureDisabled => PluginErrorView::McpFeatureDisabled,
            PluginError::Capability { plugin, message } => PluginErrorView::Capability {
                plugin: plugin@,
                message: message@,
            },
        }
    }
}

/// The message of a plugin error.
pub open spec fn plugin_error_text(e: PluginErrorView) -> Seq<char> {
    match e {
        PluginErrorView::Io(m) => "I/O error: "@ + m,
        PluginErrorView::Manifest { path, message } => "invalid manifest "@ + path + ": "@
            + message,
        PluginErrorView::Mcp { name, message } => "MCP server '"@ + name + "' failed: "@ + message,
        PluginErrorView::McpFeatureDisabled =>
            "plugin declares MCP servers but eventage was built without the `mcp` feature"@,
        PluginErrorView::Capability { plugin, message } => "plugin '"@ + plugin + "': "@ + message,
    }
}

impl PluginError {
    /// The message of this error.
    pub fn to_text(&self) -> (r: String)
        ensures
            r@ == plugin_error_text(self@),
    {
        match self {
            PluginError::Io(m) => {
                let mut out = "I/O error: ".to_owned();
                out.push_str(m.as_str());
                out
            },
            PluginError::Manifest { path, message } => {
                let mut out = "invalid manifest ".to_owned();
                out.push_str(path.as_str());
                out.push_str(": ");
                out.push_str(message.as_str());
                out
            },
            PluginError::Mcp { name, message } => {
                let mut out = "MCP server '".to_owned();
                out.push_str(name.as_str());
                out.push_str("' failed: ");
                out.push_str(message.as_str());
                out
            },
            PluginError::McpFeatureDisabled =>
                "plugin declares MCP servers but eventage was built without the `mcp` feature".to_owned(),
            PluginError::Capability { plugin, message } => {
                let mut out = "plugin '".to_owned();
                out.push_str(plugin.as_str());
                out.push_str("': ");
                out.push_str(message.as_str());
                out
            },
        }
    }
}

// ── Manifest ───────────────────────────────────────────────────────────────

/// One MCP server declared by a plugin.
#[derive(Debug)]
pub struct McpServerSpec {
    /// Registry prefix for this server's tools (`<name>__<tool>`).
    pub name: String,
    /// `"stdio"` or `"http"`.
    pub transport: String,
    /// stdio: executable to spawn.
    pub command: Option<String>,
    /// stdio: arguments.
    pub args: Vec<String>,
    /// stdio: extra environment variables for the server process.
    pub env: Vec<(String, String)>,
    /// http: endpoint URL.
    pub url: Option<String>,
    /// http: extra request headers (e.g. `Authorization`).
    pub headers: Vec<(String, String)>,
}

/// How a server is reached.
pub enum Endpoint<'a> {
    /// Spawn a command.
    Stdio(&'a str),
    /// Send requests to a URL.
    Http(&'a str),
}

/// How a server is reached by its transport, or what is wrong with it.
pub open spec fn endpoint_of(spec: McpServerSpec) -> Result<(bool, Seq<char>), Seq<char>> {
    if spec.transport@ == "stdio"@ {
        match spec.command {
            Some(c) => Ok((true, c@)),
            None => Err("stdio transport requires `command`"@),
        }
    } else if spec.transport@ == "http"@ {
        match spec.url {
            Some(u) => Ok((false, u@)),
            None => Err("http transport requires `url`"@),
        }
    } else {
        Err("unknown transport '"@ + spec.transport@ + "' (expected stdio|http)"@)
    }
}

impl McpServerSpec {
    fn failed(&self, message: &str) -> (r: PluginError)
        ensures
            r@ == (PluginErrorView::Mcp { name: self.name@, message: message@ }),
    {
        PluginError::Mcp { name: self.name.clone(), message: message.to_owned() }
    }

    /// How this server is reached, going by its transport.
    pub fn endpoint(&self) -> (r: Result<Endpoint<'_>, PluginError>)
        ensures
            match (r, endpoint_of(*self)) {
                (Ok(Endpoint::Stdio(c)), Ok(e)) => e == (true, c@),
                (Ok(Endpoint::Http(u)), Ok(e)) => e == (false, u@),
                (Err(e), Err(m)) => e@ == (PluginErrorView::Mcp { name: self.name@, message: m }),
                _ => false,
            },
    {
        if same(self.transport.as_str(), "stdio") {
            match &self.command {
                Some(c) => Ok(Endpoint::Stdio(c.as_str())),
                None => Err(self.failed("stdio transport requires `command`")),
            }
        } else if same(self.transport.as_str(), "http") {
            match &self.url {
                Some(u) => Ok(Endpoint::Http(u.as_str())),
                None => Err(self.failed("http transport requires `url`")),
            }
        } else {
            let mut message = "unknown transport '".to_owned();
            message.push_str(self.transport.as_str());
            message.push_str("' (expected stdio|http)");
            Err(self.failed(message.as_str()))
        }
    }

    /// How this server is reached when its plugin runs as a component: by its
    /// command if it has one, else by its URL.
    pub fn declared_endpoint(&self) -> (r: Result<Endpoint<'_>, ComponentError>)
        ensures
            match (self.command, self.url) {
                (Some(c), _) => r matches Ok(Endpoint::Stdio(d)) && d@ == c@,
                (None, Some(u)) => r matches Ok(Endpoint::Http(v)) && v@ == u@,
                (None, None) => r matches Err(ComponentError::Start(m)) && m@ == "MCP server '"@
                    + self.name@ + "' has neither command nor url"@,
            },
    {
        match (&self.command, &self.url) {
            (Some(c), _) => Ok(Endpoint::Stdio(c.as_str())),
            (None, Some(u)) => Ok(Endpoint::Http(u.as_str())),
            (None, None) => {
                let mut message = "MCP server '".to_owned();
                message.push_str(self.name.as_str());
                message.push_str("' has neither command nor url");
                Err(ComponentError::Start(message))
            },
        }
    }
}

/// A process that watches the event bus.
#[derive(Debug)]
pub struct ObserverSpec {
    pub name: String,
    pub command: String,
    pub args: Vec<String>,
    pub watch: Vec<String>,
}

/// Where a plugin was installed from, which decides what its observers may do.
#[derive(Debug, Clone, Copy, PartialEq, Eq, Structural)]
pub enum PluginOrigin {
    /// Found in the project: the least privileged answer.
    Workspace,
    /// Found in the user's own directory.
    User,
}

/// What a manifest says.
pub struct Manifest {
    pub name: String,
    pub description: String,
    /// Relative path to a markdown file appended to the system prompt.
    pub prompt: Option<String>,
    /// Relative path to a directory of `SKILL.md` bundles.
    pub skills_dir: Option<String>,
    pub mcp: Vec<McpServerSpec>,
    pub observers: Vec<ObserverSpec>,
}

/// What reading a manifest gave.
pub enum ManifestFile {
    /// The file could not be read.
    Unreadable(String),
    /// The file does not hold a manifest.
    Invalid(String),
    Read(Manifest),
}

/// What was found in a plugin directory.
pub struct PluginFiles {
    /// Path of the manifest.
    pub path: String,
    pub manifest: ManifestFile,
    /// The file that the manifest names as the prompt, or why it could not be read.
    pub prompt: Result<String, String>,
    /// The skills in the directory that the manifest names, or why it could not be
    /// read.
    pub skills: Result<Vec<SkillFile>, String>,
    /// What is wrong with the first observer that may not be declared.
    pub objection: Option<String>,
}

// ── Plugin ─────────────────────────────────────────────────────────────────

/// A loaded (but not yet installed) plugin.
pub struct Plugin {
    pub name: String,
    pub description: String,
    /// System-prompt fragment from the manifest's `prompt` file.
    pub prompt_fragment: Option<String>,
    /// Skills bundled with this plugin.
    pub skills: SkillsLibrary,
    /// MCP servers to connect at install time.
    pub mcp_servers: Vec<McpServerSpec>,
    /// Bus observers to spawn, subject to the plugin's origin and trust.
    pub observers: Vec<ObserverSpec>,
    /// Where this plugin was installed from.
    pub origin: PluginOrigin,
}

/// Why the plugin of a directory cannot be loaded.
pub open spec fn fault_in(files: PluginFiles) -> Option<PluginErrorView> {
    match files.manifest {
        ManifestFile::Unreadable(m) => Some(PluginErrorView::Io(m@)),
        ManifestFile::Invalid(m) => Some(
            PluginErrorView::Manifest { path: files.path@, message: m@ },
        ),
        ManifestFile::Read(manifest) => {
            if manifest.prompt is Some && files.prompt is Err {
                Some(PluginErrorView::Io(files.prompt->Err_0@))
            } else if manifest.skills_dir is Some && files.skills is Err {
                Some(PluginErrorView::Io(files.skills->Err_0@))
            } else {
                match files.objection {
                    Some(m) => Some(
                        PluginErrorView::Capability { plugin: manifest.name@, message: m@ },
                    ),
                    None => None,
                }
            }
        },
    }
}

/// The fragment that a prompt file contributes: its text, trimmed, if there is any.
pub open spec fn fragment_of(text: Seq<char>) -> Option<Seq<char>> {
    if text::trim(text).len() > 0 {
        Some(text::trim(text))
    } else {
        None
    }
}

/// The text of an optional string.
pub open spec fn text_in(s: Option<String>) -> Option<Seq<char>> {
    match s {
        Some(t) => Some(t@),
        None => None,
    }
}

/// Whether a plugin is what its directory holds.
pub open spec fn comes_from(p: Plugin, manifest: Manifest, files: PluginFiles) -> bool {
    &&& p.name == manifest.name
    &&& p.description == manifest.description
    &&& p.mcp_servers == manifest.mcp
    &&& p.observers == manifest.observers
    &&& text_in(p.prompt_fragment) == (if manifest.prompt is Some {
        fragment_of(files.prompt->Ok_0@)
    } else {
        None
    })
    &&& p.skills@ == (if manifest.skills_dir is Some {
        skills::skills_in(files.skills->Ok_0@)
    } else {
        Map::<Seq<char>, SkillView>::empty()
    })
}

impl Plugin {
    /// Makes a plugin of what its directory holds.
    pub fn load(files: PluginFiles) -> (r: Result<Plugin, PluginError>)
        ensures
            match (r, fault_in(files)) {
                (Ok(p), None) => comes_from(p, files.manifest->Read_0, files) && p.origin
                    == PluginOrigin::Workspace,
                (Err(e), Some(fault)) => e@ == fault,
                _ => false,
            },
    {
        let manifest = match files.manifest {
            ManifestFile::Unreadable(m) => {
                return Err(PluginError::Io(m));
            },
            ManifestFile::Invalid(m) => {
                return Err(PluginError::Manifest { path: files.path, message: m });
            },
            ManifestFile::Read(manifest) => manifest,
        };
        let mut prompt_fragment: Option<String> = None;
        if manifest.prompt.is_some() {
            match files.prompt {
                Ok(text) => {
                    let trimmed = trim_str(text.as_str());
                    if !trimmed.as_str().is_empty() {
                        prompt_fragment = Some(trimmed);
                    }
                },
                Err(m) => {
                    return Err(PluginError::Io(m));
                },
            }
        }
        let mut skills = SkillsLibrary::new();
        if manifest.skills_dir.is_some() {
            match files.skills {
                Ok(list) => {
                    skills = SkillsLibrary::discover(&list);
                },
                Err(m) => {
                    return Err(PluginError::Io(m));
                },
            }
        }
        if let Some(message) = files.objection {
            return Err(PluginError::Capability { plugin: manifest.name, message });
        }
        Ok(
            Plugin {
                name: manifest.name,
                description: manifest.description,
                prompt_fragment,
                skills,
                mcp_servers: manifest.mcp,
                observers: manifest.observers,
                origin: PluginOrigin::Workspace,
            },
        )
    }

    /// Record where this plugin was installed from.
    pub fn with_origin(self, origin: PluginOrigin) -> (r: Plugin)
        ensures
            r == (Plugin { origin, ..self }),
    {
        Plugin { origin, ..self }
    }
}

// ── PluginHost ─────────────────────────────────────────────────────────────

/// Holds plugins and installs them into an agent's tool registry.
pub struct PluginHost {
    pub plugins: Vec<Plugin>,
}

/// A prompt with a part appended, a blank line between them.
pub open spec fn appended(prompt: Seq<char>, part: Seq<char>) -> Seq<char> {
    if prompt.len() == 0 {
        part
    } else {
        prompt + "\n\n"@ + part
    }
}

/// The prompt fragments of plugins, in load order.
pub open spec fn fragments(plugins: Seq<Plugin>) -> Seq<char>
    decreases plugins.len(),
{
    if plugins.len() == 0 {
        Seq::empty()
    } else {
        match plugins.last().prompt_fragment {
            Some(part) => appended(fragments(plugins.drop_last()), part@),
            None => fragments(plugins.drop_last()),
        }
    }
}

/// Skills with others added under their names.
pub open spec fn with_skills(
    skills: Map<Seq<char>, SkillView>,
    more: Seq<SkillView>,
) -> Map<Seq<char>, SkillView>
    decreases more.len(),
{
    if more.len() == 0 {
        skills
    } else {
        with_skills(skills, more.drop_last()).insert(more.last().name, more.last())
    }
}

/// The skills of plugins; where two have a name in common, the later one wins.
pub open spec fn merged_skills(plugins: Seq<Plugin>) -> Map<Seq<char>, SkillView>
    decreases plugins.len(),
{
    if plugins.len() == 0 {
        Map::empty()
    } else {
        with_skills(merged_skills(plugins.drop_last()), skills::in_order(plugins.last().skills@))
    }
}

/// The prompt that plugins contribute.
pub open spec fn installed_prompt(plugins: Seq<Plugin>) -> Seq<char> {
    let skills = skills::in_order(merged_skills(plugins));
    if skills.len() == 0 {
        fragments(plugins)
    } else {
        appended(fragments(plugins), skills::skills_section(skills))
    }
}

fn append(prompt: &mut String, part: &str)
    ensures
        final(prompt)@ == appended(old(prompt)@, part@),
{
    if !prompt.as_str().is_empty() {
        prompt.push_str("\n\n");
        prompt.push_str(part);
    } else {
        prompt.push_str(part);
        assert(prompt@ =~= part@);
    }
}

fn merge(skills: &mut SkillsLibrary, more: Vec<Skill>)
    ensures
        final(skills)@ == with_skills(old(skills)@, text::views(more@)),
{
    let ghost all = text::views(more@);
    let ghost start = skills@;
    let mut i: usize = 0;
    while i < more.len()
        invariant
            i <= more@.len(),
            all == text::views(more@),
            skills@ == with_skills(start, all.take(i as int)),
        decreases more@.len() - i,
    {
        assert(all.take(i + 1).drop_last() =~= all.take(i as int));
        assert(all.take(i + 1).last() == more@[i as int]@);
        skills.add_skill(more[i].clone());
        i += 1;
    }
    assert(all.take(i as int) =~= all);
}

impl PluginHost {
    pub fn new() -> (r: PluginHost)
        ensures
            r.plugins@.len() == 0,
    {
        PluginHost { plugins: Vec::new() }
    }

    /// Load the plugin of a directory, treating it as found in the project.
    pub fn load(&mut self, files: PluginFiles) -> (r: Result<&Plugin, PluginError>)
        ensures
            match (r, fault_in(files)) {
                (Ok(p), None) => comes_from(*p, files.manifest->Read_0, files) && p.origin
                    == PluginOrigin::Workspace && final(self).plugins@ == old(self).plugins@.push(
                    *p,
                ),
                (Err(e), Some(fault)) => e@ == fault && *final(self) == *old(self),
                _ => false,
            },
    {
        self.load_from(files, PluginOrigin::Workspace)
    }

    /// Load the plugin of a directory, recording where it came from.
    pub fn load_from(&mut self, files: PluginFiles, origin: PluginOrigin) -> (r: Result<
        &Plugin,
        PluginError,
    >)
        ensures
            match (r, fault_in(files)) {
                (Ok(p), None) => comes_from(*p, files.manifest->Read_0, files) && p.origin
                    == origin && final(self).plugins@ == old(self).plugins@.push(*p),
                (Err(e), Some(fault)) => e@ == fault && *final(self) == *old(self),
                _ => false,
            },
    {
        let plugin = match Plugin::load(files) {
            Ok(p) => p.with_origin(origin),
            Err(e) => {
                return Err(e);
            },
        };
        self.plugins.push(plugin);
        Ok(&self.plugins[self.plugins.len() - 1])
    }

    /// Add an already-constructed plugin (e.g. built in code).
    pub fn add(&mut self, plugin: Plugin)
        ensures
            final(self).plugins@ == old(self).plugins@.push(plugin),
    {
        self.plugins.push(plugin);
    }

    pub fn plugins(&self) -> (r: &[Plugin])
        ensures
            r@ == self.plugins@,
    {
        self.plugins.as_slice()
    }

    /// The skills of the plugins together; where two have a name in common, the later
    /// one wins.
    pub fn merged_library(&self) -> (r: SkillsLibrary)
        ensures
            r@ == merged_skills(self.plugins@),
    {
        let all = &self.plugins;
        let mut merged = SkillsLibrary::new();
        let mut i: usize = 0;
        while i < all.len()
            invariant
                i <= all@.len(),
                merged@ == merged_skills(all@.take(i as int)),
            decreases all@.len() - i,
        {
            assert(all@.take(i + 1).drop_last() =~= all@.take(i as int));
            assert(all@.take(i + 1).last() == all@[i as int]);
            merge(&mut merged, all[i].skills.iter());
            i += 1;
        }
        assert(all@.take(i as int) =~= all@);
        merged
    }

    /// Puts the merged `skill` tool into `registry` and returns the combined
    /// system-prompt fragment to append to the agent's prompt.
    ///
    /// The tools of the MCP servers are registered by whoever connects them.
    pub fn install(&self, registry: &mut ToolRegistry) -> (r: String)
        ensures
            r@ == installed_prompt(self.plugins@),
            final(registry)@ == (if skills::in_order(merged_skills(self.plugins@)).len() == 0 {
                old(registry)@
            } else {
                let tool = skills::skill_definition(skills::in_order(merged_skills(self.plugins@)));
                old(registry)@.insert(tool.name, tool)
            }),
    {
        let all = &self.plugins;
        let mut prompt = String::new();
        let mut i: usize = 0;
        assert(prompt@ =~= fragments(all@.take(0)));
        while i < all.len()
            invariant
                i <= all@.len(),
                prompt@ == fragments(all@.take(i as int)),
            decreases all@.len() - i,
        {
            assert(all@.take(i + 1).drop_last() =~= all@.take(i as int));
            assert(all@.take(i + 1).last() == all@[i as int]);
            if let Some(part) = &all[i].prompt_fragment {
                append(&mut prompt, part.as_str());
            }
            i += 1;
        }
        assert(all@.take(i as int) =~= all@);
        let merged = self.merged_library();
        if !merged.is_empty() {
            let section = merged.system_prompt_section();
            let tool = SkillTool::new(merged);
            registry.register(tool.definition());
            append(&mut prompt, section.as_str());
        }
        prompt
    }
}

proof fn lemma_with_skills(skills: Map<Seq<char>, SkillView>, more: Seq<SkillView>, name: Seq<char>)
    ensures
        skills.contains_key(name) ==> with_skills(skills, more).contains_key(name),
        (exists|k: int| 0 <= k < more.len() && (#[trigger] more[k]).name == name) ==> with_skills(
            skills,
            more,
        ).contains_key(name),
    decreases more.len(),
{
    if more.len() > 0 {
        let d = more.drop_last();
        lemma_with_skills(skills, d, name);
        if exists|k: int| 0 <= k < more.len() && (#[trigger] more[k]).name == name {
            let k = choose|k: int| 0 <= k < more.len() && (#[trigger] more[k]).name == name;
            if k < d.len() {
                assert(d[k].name == name);
            }
        }
    }
}

/// Every skill of every plugin stands behind the merged tool under its name.
pub proof fn law_every_skill_is_installed(plugins: Seq<Plugin>, i: int, k: int)
    requires
        0 <= i < plugins.len(),
        0 <= k < skills::in_order(plugins[i].skills@).len(),
    ensures
        merged_skills(plugins).contains_key(skills::in_order(plugins[i].skills@)[k].name),
    decreases plugins.len(),
{
    let d = plugins.drop_last();
    let name = skills::in_order(plugins[i].skills@)[k].name;
    lemma_with_skills(merged_skills(d), skills::in_order(plugins.last().skills@), name);
    if i < d.len() {
        assert(d[i] == plugins[i]);
        law_every_skill_is_installed(d, i, k);
    } else {
        assert(skills::in_order(plugins.last().skills@)[k].name == name);
    }
}

// ── Plugins as components ──────────────────────────────────────────────────

/// Adapts a plugin to the component lifecycle so it can be unloaded.
pub struct PluginComponent {
    pub plugin: Plugin,
    pub trusted: bool,
    pub cwd: String,
}

impl PluginComponent {
    /// A component for a plugin that is not trusted, in the current directory.
    pub fn new(plugin: Plugin) -> (r: PluginComponent)
        ensures
            r.plugin == plugin,
            r.trusted == false,
            r.cwd@ == "."@,
    {
        PluginComponent { plugin, trusted: false, cwd: ".".to_owned() }
    }

    /// Whether the operator has said this project is theirs. Graded observer
    /// capabilities are withheld without it.
    pub fn with_trust(self, trusted: bool) -> (r: PluginComponent)
        ensures
            r == (PluginComponent { trusted, ..self }),
    {
        PluginComponent { trusted, ..self }
    }

    /// Working directory for any observer this plugin spawns.
    pub fn with_cwd(self, cwd: String) -> (r: PluginComponent)
        ensures
            r == (PluginComponent { cwd, ..self }),
    {
        PluginComponent { cwd, ..self }
    }

    /// The system-prompt fragment this plugin contributes.
    pub fn prompt_fragment(&self) -> (r: Option<&str>)
        ensures
            match r {
                Some(s) => self.plugin.prompt_fragment matches Some(t) && t@ == s@,
                None => self.plugin.prompt_fragment is None,
            },
    {
        match &self.plugin.prompt_fragment {
            Some(s) => Some(s.as_str()),
            None => None,
        }
    }

    /// The name of the component: that of the plugin.
    pub fn name(&self) -> (r: &str)
        ensures
            r@ == self.plugin.name@,
    {
        self.plugin.name.as_str()
    }
}

} // verus!
