//! Components and plugins.
use eventage::agent::skills::{SkillFile, SkillTool};
use eventage::agent::tool::ToolRegistry;
use eventage::component::{
    undo_tools, ComponentContext, ComponentError, ComponentHost, ComponentState, Effect,
    Reconciliation, ServiceRegistry, StartMove, Stopped,
};
use eventage::json::{Json, JsonMap};
use eventage::llm::types::ToolDefinition;
use eventage::plugin::{
    Endpoint, Manifest, ManifestFile, McpServerSpec, Plugin, PluginComponent, PluginError,
    PluginFiles, PluginHost, PluginOrigin,
};

fn noop(name: &str) -> ToolDefinition {
    ToolDefinition::function(name, "noop", Json::Object(JsonMap::new()))
}

/// A host together with the tools that its components registered.
struct World {
    host: ComponentHost,
    tools: ToolRegistry,
    seen: Vec<String>,
}

/// What a component does when it starts.
#[derive(Clone)]
struct Script {
    name: &'static str,
    tool: Option<&'static str>,
    service: Option<&'static str>,
    fails: bool,
}

const PROVIDER: Script =
    Script { name: "provider", tool: None, service: Some("index"), fails: false };
const CONSUMER: Script =
    Script { name: "consumer", tool: Some("consumer_tool"), service: None, fails: false };

impl World {
    fn new() -> World {
        World { host: ComponentHost::new(), tools: ToolRegistry::new(), seen: Vec::new() }
    }

    fn undo(&mut self, stopped: &Stopped) {
        undo_tools(&mut self.tools, &stopped.undo);
        self.seen.push(stopped.payload("unloaded").text_at("component").unwrap().to_string());
    }

    fn start(&mut self, s: &Script) -> Result<ComponentState, ComponentError> {
        match self.host.begin_start(s.name)? {
            StartMove::Running => Ok(ComponentState::Active),
            StartMove::Waiting(_) => Ok(ComponentState::Pending),
            StartMove::Start => {
                let mut ctx = ComponentContext::new(s.name);
                if let Some(tool) = s.tool {
                    self.tools.register(noop(tool));
                    ctx.record(Effect::Tool(tool.to_string()));
                }
                if let Some(service) = s.service {
                    self.host.provide(&mut ctx, service);
                }
                if s.fails {
                    let undo = self.host.start_failed(ctx);
                    undo_tools(&mut self.tools, &undo);
                    return Err(ComponentError::Start("boom".to_string()));
                }
                self.host.started(ctx);
                Ok(ComponentState::Active)
            }
        }
    }

    fn load(
        &mut self,
        s: &Script,
        needs: &[&str],
        others: &[Script],
    ) -> Result<ComponentState, ComponentError> {
        self.host.register(s.name, needs.iter().map(|n| n.to_string()).collect())?;
        let state = self.start(s)?;
        if state == ComponentState::Active {
            let mut pass = Reconciliation::new();
            while let Some(name) = self.host.next_candidate(&pass.attempted) {
                let script = others.iter().find(|o| o.name == name).unwrap().clone();
                let became = matches!(self.start(&script), Ok(ComponentState::Active));
                pass.tried(&name, became);
            }
        }
        Ok(state)
    }

    fn unload(&mut self, name: &str) -> Result<(), ComponentError> {
        let (own, others) = self.host.unload(name)?;
        for stopped in own.iter().chain(others.iter()) {
            self.undo(stopped);
        }
        Ok(())
    }
}

#[test]
fn unload_removes_everything_the_component_registered() {
    let mut host = ComponentHost::new();
    host.register("kitchen", vec![]).unwrap();
    let mut ctx = ComponentContext::new("kitchen");
    ctx.record(Effect::Tool("kitchen_tool".to_string()));
    ctx.record(Effect::Hook(7));
    ctx.record(Effect::Task(8));
    ctx.record(Effect::Custom(9));
    assert_eq!(ctx.effect_count(), 4);
    host.started(ctx);

    let mut tools = ToolRegistry::new();
    tools.register(noop("kitchen_tool"));
    tools.register(noop("other_tool"));
    let (own, others) = host.unload("kitchen").unwrap();
    let own = own.unwrap();
    assert!(others.is_empty());
    assert!(matches!(
        own.undo[..],
        [Effect::Custom(9), Effect::Task(8), Effect::Hook(7), Effect::Tool(_)]
    ));
    undo_tools(&mut tools, &own.undo);
    assert!(tools.get("kitchen_tool").is_none(), "tool must be removed");
    assert!(tools.get("other_tool").is_some());
    assert_eq!(own.payload("unloaded").u64_at("effects_reverted"), Some(4));
}

#[test]
fn registrations_are_undone_in_reverse_order() {
    let mut host = ComponentHost::new();
    host.register("ordered", vec![]).unwrap();
    let mut ctx = ComponentContext::new("ordered");
    for i in 1..=3 {
        ctx.record(Effect::Custom(i));
    }
    host.started(ctx);
    let (own, _) = host.unload("ordered").unwrap();
    let order: Vec<u64> = own
        .unwrap()
        .undo
        .iter()
        .map(|e| match e {
            Effect::Custom(i) => *i,
            _ => 0,
        })
        .collect();
    assert_eq!(order, vec![3, 2, 1]);
}

#[test]
fn a_failed_start_leaves_nothing_behind() {
    let mut world = World::new();
    let failing =
        Script { name: "failing", tool: Some("doomed_tool"), service: Some("s"), fails: true };
    let err = world.load(&failing, &[], &[]).unwrap_err();
    assert!(matches!(err, ComponentError::Start(_)));
    assert!(world.tools.get("doomed_tool").is_none());
    assert!(!world.host.services.has("s"));
    assert_eq!(world.host.state("failing"), Some(ComponentState::Pending));
}

#[test]
fn a_component_waits_for_its_dependency_then_starts() {
    let mut world = World::new();
    assert_eq!(world.load(&CONSUMER, &["index"], &[]).unwrap(), ComponentState::Pending);
    assert!(world.tools.get("consumer_tool").is_none());
    match world.host.begin_start("consumer").unwrap() {
        StartMove::Waiting(payload) => {
            assert_eq!(payload.array_at("missing").unwrap()[0].as_str(), Some("index"))
        }
        _ => panic!("expected to wait"),
    }

    world.load(&PROVIDER, &[], &[CONSUMER]).unwrap();
    assert_eq!(world.host.state("consumer"), Some(ComponentState::Active));
    assert!(world.tools.get("consumer_tool").is_some());
}

#[test]
fn withdrawing_a_service_cascades_to_dependents() {
    let mut world = World::new();
    world.load(&PROVIDER, &[], &[]).unwrap();
    world.load(&CONSUMER, &["index"], &[]).unwrap();
    assert_eq!(world.host.active(), vec!["consumer".to_string(), "provider".to_string()]);

    world.unload("provider").unwrap();
    assert_eq!(world.host.state("consumer"), Some(ComponentState::Pending));
    assert!(world.tools.get("consumer_tool").is_none());
    assert!(world.host.active().is_empty());
    assert_eq!(world.seen, vec!["provider".to_string(), "consumer".to_string()]);
}

#[test]
fn reload_restores_a_working_component() {
    let mut world = World::new();
    world.load(&PROVIDER, &[], &[]).unwrap();
    world.load(&CONSUMER, &["index"], &[]).unwrap();
    world.unload("consumer").unwrap();
    world.start(&CONSUMER).unwrap();
    assert_eq!(world.host.state("consumer"), Some(ComponentState::Active));
    assert_eq!(world.tools.names(), vec!["consumer_tool".to_string()]);
}

#[test]
fn unload_is_idempotent_and_reports_unknown_components() {
    let mut world = World::new();
    world.load(&PROVIDER, &[], &[]).unwrap();
    world.unload("provider").unwrap();
    world.unload("provider").unwrap();
    assert_eq!(world.seen.len(), 1);
    match world.unload("nope") {
        Err(e) => {
            assert!(matches!(e, ComponentError::Unknown(_)));
            assert_eq!(e.to_text(), "unknown component 'nope'");
        }
        Ok(()) => panic!("expected an error"),
    }
}

#[test]
fn duplicate_registration_is_rejected() {
    let mut world = World::new();
    world.load(&PROVIDER, &[], &[]).unwrap();
    match world.load(&PROVIDER, &[], &[]) {
        Err(e) => {
            assert!(matches!(e, ComponentError::Duplicate(_)));
            assert_eq!(e.to_text(), "component 'provider' is already registered");
        }
        Ok(_) => panic!("expected an error"),
    }
}

#[test]
fn lifecycle_is_observable_on_the_bus() {
    let mut host = ComponentHost::new();
    host.register("provider", vec![]).unwrap();
    let mut ctx = ComponentContext::new("provider");
    host.provide(&mut ctx, "index");
    let loaded = host.started(ctx);
    assert_eq!(loaded.text_at("component"), Some("provider"));
    assert_eq!(loaded.array_at("provides").unwrap()[0].as_str(), Some("index"));
    let (own, _) = host.unload("provider").unwrap();
    let unloaded = own.unwrap().payload("unloaded");
    assert_eq!(unloaded.text_at("reason"), Some("unloaded"));
}

#[test]
fn a_removed_component_is_forgotten() {
    let mut world = World::new();
    world.load(&PROVIDER, &[], &[]).unwrap();
    world.load(&CONSUMER, &["index"], &[]).unwrap();
    let (own, others) = world.host.remove("provider").unwrap();
    assert!(own.is_some());
    assert_eq!(others.len(), 1);
    assert_eq!(world.host.state("provider"), None);
    assert_eq!(world.host.state("consumer"), Some(ComponentState::Pending));
    assert!(world.host.remove("provider").is_err());
}

#[test]
fn services_by_name() {
    let mut services: ServiceRegistry<u32> = ServiceRegistry::new();
    services.provide("b", 1);
    services.provide("a", 2);
    services.provide("b", 3);
    assert!(services.has("a"));
    assert_eq!(services.get("b"), Some(&3));
    assert_eq!(services.names(), vec!["a".to_string(), "b".to_string()]);
    assert!(services.withdraw("a"));
    assert!(!services.withdraw("a"));
    assert_eq!(ComponentError::Start("x".to_string()).to_text(), "component failed to start: x");
}

fn greeting() -> SkillFile {
    SkillFile {
        dir_name: Some("greet".to_string()),
        dir: "/p/skills/greet".to_string(),
        raw: "---\nname: greeting\ndescription: greet users warmly. Use for hellos.\n---\nSay hello twice.".to_string(),
    }
}

fn demo_files() -> PluginFiles {
    PluginFiles {
        path: "/p/eventage-plugin.toml".to_string(),
        manifest: ManifestFile::Read(Manifest {
            name: "demo".to_string(),
            description: "demo plugin".to_string(),
            prompt: Some("prompts/system.md".to_string()),
            skills_dir: Some("skills".to_string()),
            mcp: vec![],
            observers: vec![],
        }),
        prompt: Ok("Always be polite.\n".to_string()),
        skills: Ok(vec![greeting()]),
        objection: None,
    }
}

#[test]
fn a_plugin_can_be_unloaded_completely() {
    let component = PluginComponent::new(Plugin::load(demo_files()).unwrap())
        .with_trust(true)
        .with_cwd("/p".to_string());
    assert!(component.trusted);
    assert_eq!(component.prompt_fragment(), Some("Always be polite."));
    let mut host = ComponentHost::new();
    host.register(component.name(), vec![]).unwrap();
    let mut tools = ToolRegistry::new();
    let mut ctx = ComponentContext::new(component.name());
    let tool = SkillTool::new(component.plugin.skills).definition();
    ctx.record(Effect::Tool(tool.function.name.clone()));
    tools.register(tool);
    host.started(ctx);
    assert_eq!(host.state("demo"), Some(ComponentState::Active));
    assert!(tools.get("skill").is_some());

    let (own, _) = host.unload("demo").unwrap();
    undo_tools(&mut tools, &own.unwrap().undo);
    assert!(tools.get("skill").is_none());
}

#[test]
fn loads_and_installs_plugin() {
    let mut host = PluginHost::new();
    let plugin = host.load(demo_files()).unwrap();
    assert_eq!(plugin.name, "demo");
    assert_eq!(plugin.skills.len(), 1);
    assert_eq!(plugin.prompt_fragment.as_deref(), Some("Always be polite."));
    assert_eq!(plugin.origin, PluginOrigin::Workspace);

    let mut registry = ToolRegistry::new();
    let prompt = host.install(&mut registry);
    assert!(prompt.starts_with("Always be polite.\n\n## Skills"));
    assert!(prompt.contains("greeting: greet users warmly"));
    assert!(registry.get("skill").is_some(), "merged skill tool must be registered");
}

#[test]
fn plugins_are_joined_in_load_order() {
    let mut host = PluginHost::new();
    let mut first = demo_files();
    first.skills = Ok(vec![]);
    host.load_from(first, PluginOrigin::User).unwrap();
    let mut second = Plugin::load(demo_files()).unwrap();
    second.prompt_fragment = Some("Be brief.".to_string());
    host.add(second);
    assert_eq!(host.plugins().len(), 2);
    assert_eq!(host.plugins()[0].origin, PluginOrigin::User);
    let prompt = host.install(&mut ToolRegistry::new());
    assert!(prompt.starts_with("Always be polite.\n\nBe brief.\n\n## Skills"));
}

#[test]
fn missing_manifest_is_io_error() {
    let mut files = demo_files();
    files.manifest = ManifestFile::Unreadable("No such file or directory".to_string());
    assert!(matches!(Plugin::load(files), Err(PluginError::Io(_))));
}

#[test]
fn bad_manifest_is_reported_with_path() {
    let mut files = demo_files();
    files.manifest = ManifestFile::Invalid("expected `.`".to_string());
    let err = match Plugin::load(files) {
        Ok(_) => panic!("expected an error"),
        Err(e) => e,
    };
    assert!(matches!(err, PluginError::Manifest { .. }));
    assert_eq!(err.to_text(), "invalid manifest /p/eventage-plugin.toml: expected `.`");
}

#[test]
fn other_faults_of_a_plugin() {
    let mut files = demo_files();
    files.prompt = Err("gone".to_string());
    assert!(matches!(Plugin::load(files), Err(PluginError::Io(_))));
    let mut files = demo_files();
    files.skills = Err("gone".to_string());
    assert!(matches!(Plugin::load(files), Err(PluginError::Io(_))));
    let mut files = demo_files();
    files.objection = Some("may not publish tool.result".to_string());
    match Plugin::load(files) {
        Err(e) => {
            assert_eq!(e.to_text(), "plugin 'demo': may not publish tool.result")
        }
        Ok(_) => panic!("expected an error"),
    }
    let mut files = demo_files();
    files.prompt = Ok(" \n".to_string());
    assert!(Plugin::load(files).unwrap().prompt_fragment.is_none());
}

fn server(transport: &str, command: Option<&str>, url: Option<&str>) -> McpServerSpec {
    McpServerSpec {
        name: "search".to_string(),
        transport: transport.to_string(),
        command: command.map(|c| c.to_string()),
        args: vec![],
        env: vec![],
        url: url.map(|u| u.to_string()),
        headers: vec![],
    }
}

#[test]
fn servers_are_reached_by_their_transport() {
    assert!(matches!(server("stdio", Some("npx"), None).endpoint(), Ok(Endpoint::Stdio("npx"))));
    assert!(matches!(server("http", None, Some("u")).endpoint(), Ok(Endpoint::Http("u"))));
    let text = |s: McpServerSpec| match s.endpoint() {
        Ok(_) => String::new(),
        Err(e) => e.to_text(),
    };
    assert_eq!(
        text(server("stdio", None, Some("u"))),
        "MCP server 'search' failed: stdio transport requires `command`"
    );
    assert_eq!(
        text(server("http", Some("npx"), None)),
        "MCP server 'search' failed: http transport requires `url`"
    );
    assert_eq!(
        text(server("pigeon", None, None)),
        "MCP server 'search' failed: unknown transport 'pigeon' (expected stdio|http)"
    );
    let s = server("http", Some("npx"), Some("u"));
    assert!(matches!(s.declared_endpoint(), Ok(Endpoint::Stdio("npx"))));
    assert!(server("http", None, None).declared_endpoint().is_err());
    assert!(PluginError::McpFeatureDisabled.to_text().contains("`mcp` feature"));
}
