//! Prompts, project files and skills.
use eventage::agent::project::{
    load_project_context, load_project_context_walkup, ContextFiles, ProjectContext,
};
use eventage::agent::prompts::{names, PromptLibrary};
use eventage::agent::skills::{split_frontmatter, SkillFile, SkillTool, SkillsLibrary};
use eventage::json::Json;
use std::sync::{Arc, RwLock};

#[test]
fn defaults_cover_every_prompt_the_framework_sends() {
    let library = PromptLibrary::with_defaults();
    for name in [
        names::SUMMARIZE_FRESH,
        names::SUMMARIZE_EXTEND,
        names::STUCK_HINT,
        names::WRAP_UP,
    ] {
        assert!(library.get(name).is_some(), "missing default for {name}");
    }
}

#[test]
fn an_application_can_replace_a_framework_prompt() {
    let mut library = PromptLibrary::with_defaults();
    library.set(names::SUMMARIZE_FRESH, "Just the facts: {conversation}");
    assert_eq!(
        library.render(names::SUMMARIZE_FRESH, &[("conversation", "abc")]),
        "Just the facts: abc"
    );
}

#[test]
fn clones_share_one_set_of_prompts() {
    let a = Arc::new(RwLock::new(PromptLibrary::with_defaults()));
    let b = a.clone();
    b.write().unwrap().set("custom", "hello");
    assert_eq!(a.read().unwrap().get("custom").as_deref(), Some("hello"));
    // What is handed out of the shared set is a set of its own.
    let own = a.read().unwrap().snapshot();
    b.write().unwrap().set("custom", "bye");
    assert_eq!(own.get("custom").as_deref(), Some("hello"));
    assert_eq!(own.names().len(), 5);
}

#[test]
fn substitutes_every_occurrence_of_a_variable() {
    let mut library = PromptLibrary::empty();
    library.set("p", "{x} and {x} again, plus {y}");
    assert_eq!(
        library.render("p", &[("x", "1"), ("y", "2")]),
        "1 and 1 again, plus 2"
    );
}

#[test]
fn an_unknown_prompt_renders_empty_rather_than_panicking() {
    assert_eq!(PromptLibrary::empty().render("nope", &[]), "");
}

#[test]
fn an_unfilled_placeholder_stays_visible() {
    let mut library = PromptLibrary::empty();
    library.set("p", "value: {missing}");
    assert_eq!(library.render("p", &[]), "value: {missing}");
}

#[test]
fn the_inventory_lists_the_biggest_prompts_first() {
    let mut library = PromptLibrary::empty();
    library.set("small", "hi");
    library.set("big", &"x".repeat(400));
    let inventory = library.inventory();
    assert_eq!(inventory[0].0, "big");
    assert_eq!(inventory[0].1, 100);
    assert_eq!(inventory[1].0, "small");
}

#[test]
fn names_come_in_order_and_a_prompt_can_be_set_again() {
    let mut library = PromptLibrary::empty();
    library.set("b", "1");
    library.set("a", "2");
    library.set("b", "3");
    assert_eq!(library.names(), vec!["a".to_string(), "b".to_string()]);
    assert_eq!(library.get("b").as_deref(), Some("3"));
}

fn file(source: &str, content: &str) -> Option<ProjectContext> {
    Some(ProjectContext { source: source.to_string(), content: content.to_string() })
}

#[test]
fn prefers_agents_md_over_claude_md() {
    let files = ContextFiles {
        agents: file("/p/AGENTS.md", "agents instructions"),
        fallback: file("/p/OTHER.md", "other instructions"),
    };
    let ctx = load_project_context(&files).unwrap();
    assert_eq!(ctx.content, "agents instructions");
    assert!(ctx.source.ends_with("AGENTS.md"));
    assert!(ctx.system_prompt_section().contains("Project instructions"));
}

#[test]
fn falls_back_to_claude_md() {
    let files = ContextFiles { agents: None, fallback: file("/p/OTHER.md", "other instructions") };
    assert_eq!(load_project_context(&files).unwrap().content, "other instructions");
}

#[test]
fn empty_and_missing_yield_none() {
    assert!(load_project_context(&ContextFiles { agents: None, fallback: None }).is_none());
    let blank = ContextFiles { agents: file("/p/AGENTS.md", "  \n"), fallback: None };
    assert!(load_project_context(&blank).is_none());
}

#[test]
fn walkup_collects_nested_contexts_nearest_last() {
    let levels = vec![
        ContextFiles { agents: file("/p/packages/web/AGENTS.md", "web rules"), fallback: None },
        ContextFiles { agents: None, fallback: None },
        ContextFiles { agents: file("/p/AGENTS.md", "root rules"), fallback: None },
    ];
    let contexts = load_project_context_walkup(&levels);
    assert!(contexts.len() >= 2);
    let last_two: Vec<&str> =
        contexts.iter().rev().take(2).map(|c| c.content.as_str()).collect();
    assert_eq!(last_two, vec!["web rules", "root rules"]);
}

fn skill_file(dir_name: &str, frontmatter_name: &str) -> SkillFile {
    SkillFile {
        dir: format!("/skills/{dir_name}"),
        dir_name: Some(dir_name.to_string()),
        raw: format!(
            "---\nname: {frontmatter_name}\ndescription: does {frontmatter_name} things. Use when asked.\n---\n\n# Steps\n1. Do the thing.\n"
        ),
    }
}

#[test]
fn discovers_and_renders_prompt_section() {
    let library = SkillsLibrary::discover(&vec![
        skill_file("pdf", "pdf-processing"),
        skill_file("csv", "csv-analysis"),
    ]);
    assert_eq!(library.len(), 2);

    let section = library.system_prompt_section();
    assert!(section.contains("pdf-processing: does pdf-processing things"));
    assert!(section.contains("csv-analysis"));
    assert!(section.contains("`skill` tool"));
}

#[test]
fn skill_tool_loads_instructions_and_files() {
    let library = SkillsLibrary::discover(&vec![skill_file("pdf", "pdf-processing")]);
    let tool = SkillTool::from_arc(Arc::new(library));

    let def = tool.definition();
    let names = def.function.parameters.get("properties").unwrap().get("name").unwrap();
    assert_eq!(names.get("enum").unwrap().at(0).unwrap().as_str(), Some("pdf-processing"));

    let skill = tool.find(&Json::parse(r#"{"name": "pdf-processing"}"#).unwrap()).unwrap();
    let result = SkillTool::answer(skill, &vec!["z.md".to_string(), "reference.md".to_string()]);
    assert!(result.text_at("instructions").unwrap().contains("Do the thing"));
    assert_eq!(
        result.get("bundled_files").unwrap().at(0).unwrap().as_str(),
        Some("reference.md")
    );

    let err = match tool.find(&Json::parse(r#"{"name": "nope"}"#).unwrap()) {
        Ok(_) => panic!("expected an error"),
        Err(e) => e,
    };
    assert!(err.contains("available: pdf-processing"));
    assert!(tool.find(&Json::parse("{}").unwrap()).is_err());
}

#[test]
fn frontmatter_edge_cases() {
    let (meta, body) = split_frontmatter("no frontmatter here");
    assert!(meta.names().is_empty());
    assert_eq!(body, "no frontmatter here");

    let (meta, body) = split_frontmatter("---\nname: x\ndescription: \"quoted\"\n---\nbody");
    assert_eq!(meta.get("name").unwrap(), "x");
    assert_eq!(meta.get("description").unwrap(), "quoted");
    assert_eq!(body, "body");
}

#[test]
fn missing_dir_is_empty_library() {
    let library = SkillsLibrary::discover(&vec![]);
    assert!(library.is_empty());
    assert_eq!(library.system_prompt_section(), "");
}

#[test]
fn a_skill_without_a_name_takes_that_of_its_directory() {
    let file = SkillFile {
        dir: "/skills/plain".to_string(),
        dir_name: Some("plain".to_string()),
        raw: "just text".to_string(),
    };
    let library = SkillsLibrary::discover(&vec![file]);
    let skill = library.get("plain").unwrap();
    assert_eq!(skill.instructions, "just text");
    assert_eq!(skill.description, "");
}
