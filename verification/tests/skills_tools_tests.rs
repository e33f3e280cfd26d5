use xclaw::agent::workspace::Workspace;
use xclaw::hooks::Hook;
use xclaw::skills::manager::{LoadStep, SkillError, SkillManager};
use xclaw::skills::skill::{FrontmatterError, SkillFrontmatter, compose_prompt, split_frontmatter};
use xclaw::tools::{
    TaskClaimTool, TaskProgressTool, TaskReadTool, TaskStatus, ToolCall, claimed_message, not_found_message, search_order,
    string_param, task_file,
};

fn fm(name: &str, tools: &[&str]) -> SkillFrontmatter {
    SkillFrontmatter {
        name: name.to_string(),
        description: format!("{} skill", name),
        tools: tools.iter().map(|t| t.to_string()).collect(),
    }
}

#[test]
fn frontmatter_split() {
    let (yaml, body) = split_frontmatter("\n---\nname: web\ndescription: d\n---\n\n# Body\n").unwrap();
    assert_eq!(yaml, "\nname: web\ndescription: d\n");
    assert_eq!(body, "# Body");
    assert!(matches!(split_frontmatter("name: web"), Err(FrontmatterError::MissingStart)));
    assert!(matches!(split_frontmatter("---\nname: web"), Err(FrontmatterError::MissingEnd)));
    let (yaml, body) = split_frontmatter("------").unwrap();
    assert_eq!(yaml, "");
    assert_eq!(body, "");
    assert_eq!(FrontmatterError::MissingStart.message(), "SKILL.md must start with YAML frontmatter (---)");
    assert_eq!(FrontmatterError::MissingEnd.message(), "Missing closing --- in frontmatter");
}

#[test]
fn skill_prompts_with_references() {
    let refs = vec![("a.md".to_string(), "A".to_string()), ("b.md".to_string(), "B".to_string())];
    assert_eq!(compose_prompt("body".to_string(), &refs), "body\n\n#### Reference: a.md\nA\n\n#### Reference: b.md\nB");
    assert_eq!(compose_prompt("body".to_string(), &vec![]), "body");
}

#[test]
fn skill_manager_lifecycle() {
    let mut m = SkillManager::new("skills".to_string());
    assert!(m.is_empty());
    assert_eq!(m.available_catalog(), "");
    m.register(fm("web", &["fetch", "search"]), "skills/web".to_string());
    m.register(fm("code", &["search", "run"]), "skills/code".to_string());
    m.register(fm("web", &["fetch", "search"]), "skills/web2".to_string());
    assert!(!m.is_empty());
    assert_eq!(m.available_catalog(), "- **web**: web skill\n- **code**: code skill");
    assert!(matches!(m.begin_load("nope"), Err(SkillError::NotFound)));
    match m.begin_load("web").unwrap() {
        LoadStep::ReadFiles { dir } => assert_eq!(dir, "skills/web2"),
        other => panic!("unexpected {:?}", other),
    }
    let r = m.activate("web", "prompt".to_string()).unwrap();
    assert_eq!(r.prompt, "prompt");
    assert_eq!(r.tool_names, vec!["fetch".to_string(), "search".to_string()]);
    assert!(m.is_active("web"));
    match m.begin_load("web").unwrap() {
        LoadStep::Loaded(lr) => assert_eq!(lr.prompt, "prompt"),
        other => panic!("unexpected {:?}", other),
    }
    m.activate("code", "p2".to_string()).unwrap();
    assert_eq!(m.active_tool_names(), vec!["fetch".to_string(), "search".to_string(), "run".to_string()]);
    assert_eq!(m.active_prompts().len(), 2);
    m.unload("web");
    assert!(!m.is_active("web"));
    assert!(m.is_active("code"));
    m.unload("web");
    assert!(matches!(m.activate("ghost", String::new()), Err(SkillError::NotFound)));
    assert_eq!(m.skills_dir(), "skills");
}

#[test]
fn task_tools() {
    let r = TaskReadTool::new("ws".to_string());
    assert_eq!(r.workspace_path(), "ws");
    assert_eq!(r.name(), "task_read");
    assert_eq!(TaskClaimTool::new("ws".to_string()).name(), "task_claim");
    assert_eq!(TaskProgressTool::new("w2".to_string()).workspace_path(), "w2");
    assert_eq!(task_file("ws", TaskStatus::Pending, "a7"), std::path::Path::new("ws/tasks/pending/a7.json").to_string_lossy());
    assert_eq!(TaskStatus::Completed.dir_name(), "completed");
    assert_eq!(search_order(), vec![TaskStatus::Pending, TaskStatus::Active, TaskStatus::Completed, TaskStatus::Failed]);
    assert_eq!(claimed_message("a7", "executor"), "Task #a7 has been claimed by executor");
    assert_eq!(not_found_message("a7", " in pending"), "Task a7 not found in pending");
    assert_eq!(string_param("{\"task_id\":\"x\"}", "task_id", "Missing task_id"), Ok("x".to_string()));
    assert_eq!(string_param("{\"task_id\":1}", "task_id", "Missing task_id"), Err("Missing task_id".to_string()));
    let call = ToolCall { name: "task_read".to_string(), params: "{}".to_string() };
    assert_eq!(call.name, "task_read");
}

#[test]
fn workspace_names() {
    assert_eq!(Workspace::new("/home/u/agents/main".to_string()).name, "main");
    assert_eq!(Workspace::new("/".to_string()).name, "workspace");
    assert_eq!(Workspace::new("/a/b".to_string()).path, "/a/b");
}

struct Quiet;

impl Hook for Quiet {
    fn name(&self) -> &str {
        "quiet"
    }
}

#[test]
fn hook_defaults() {
    assert_eq!(Quiet.name(), "quiet");
    assert_eq!(Quiet.priority(), 100);
    assert!(Quiet.enabled());
}
