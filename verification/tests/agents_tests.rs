use codex_core::agents::{filter_tools_for_agent, parse_agent_markdown, AgentRegistry, SubAgent};
use codex_core::tools::{
    create_exec_command_tool, create_write_stdin_tool, tool_name, OpenAiTool,
};

#[test]
fn parses_basic_agent_markdown() {
    let md = "---\ndescription: example\ntools: [shell]\n---\nYou are an agent.";
    let agent = parse_agent_markdown(md, "docs-writer".to_string()).unwrap();
    assert_eq!(agent.name, "docs-writer");
    assert_eq!(agent.description, "example");
    assert_eq!(agent.tools, Some(vec!["shell".to_string()]));
    assert_eq!(agent.body, "You are an agent.");
}

#[test]
fn agent_markdown_requires_frontmatter_and_body() {
    let err = parse_agent_markdown("no frontmatter", "x".to_string()).unwrap_err();
    assert!(err.contains("missing YAML frontmatter"));

    let err = parse_agent_markdown("---\ndescription: d\n---\n\n", "x".to_string()).unwrap_err();
    assert!(err.contains("non-empty body"));

    let err = parse_agent_markdown("---\ntools: [shell]\n---\nbody", "x".to_string()).unwrap_err();
    assert!(err.contains("description"));

    let err =
        parse_agent_markdown("---\ndescription: d\ntools: ['  ']\n---\nbody", "x".to_string())
            .unwrap_err();
    assert!(err.contains("tool names"));
}

#[test]
fn registry_overrides_by_project() {
    let mut reg = AgentRegistry::new();
    reg.insert_agent(SubAgent {
        name: "docs".into(),
        description: "user".into(),
        tools: None,
        body: "user body".into(),
    });
    // A later (project) insert replaces the earlier definition.
    reg.insert_agent(SubAgent {
        name: "docs".into(),
        description: "project".into(),
        tools: None,
        body: "proj body".into(),
    });
    let a = reg.get("docs").unwrap();
    assert_eq!(a.description, "project");
    assert_eq!(reg.names(), vec!["docs".to_string()]);
}

#[test]
fn registry_lists_names_sorted() {
    let mut reg = AgentRegistry::new();
    for name in ["zeta", "alpha", "mid"] {
        reg.insert_agent(SubAgent {
            name: name.into(),
            description: "d".into(),
            tools: None,
            body: "b".into(),
        });
    }
    assert_eq!(
        reg.names(),
        vec!["alpha".to_string(), "mid".to_string(), "zeta".to_string()]
    );
    assert!(reg.has_agent("mid"));
    assert!(!reg.has_agent("nope"));
}

#[test]
fn filter_tools_with_aliases() {
    let tools = vec![
        OpenAiTool::LocalShell,
        create_exec_command_tool(),
        create_write_stdin_tool(),
    ];
    let allow = vec!["shell".to_string()];
    let filtered = filter_tools_for_agent(tools, Some(&allow));
    // All shell-group tools stay.
    assert_eq!(filtered.len(), 3);
    let names: Vec<&str> = filtered.iter().map(|t| tool_name(t).unwrap()).collect();
    assert!(names.contains(&"local_shell"));
    assert!(names.contains(&"exec_command"));
    assert!(names.contains(&"write_stdin"));
}

#[test]
fn filter_tools_empty_allowlist_blocks_everything() {
    let tools = vec![
        OpenAiTool::LocalShell,
        create_exec_command_tool(),
        OpenAiTool::WebSearch,
    ];
    let allow: Vec<String> = Vec::new();
    let filtered = filter_tools_for_agent(tools, Some(&allow));
    assert!(filtered.is_empty());
}

#[test]
fn filter_tools_no_allowlist_keeps_everything() {
    let tools = vec![OpenAiTool::LocalShell, OpenAiTool::WebSearch];
    let filtered = filter_tools_for_agent(tools, None);
    assert_eq!(filtered.len(), 2);
}

#[test]
fn filter_tools_allowlist_excludes_unlisted() {
    let tools = vec![OpenAiTool::LocalShell, OpenAiTool::WebSearch];
    let allow = vec!["web_search".to_string()];
    let filtered = filter_tools_for_agent(tools, Some(&allow));
    let names: Vec<&str> = filtered.iter().map(|t| tool_name(t).unwrap()).collect();
    assert_eq!(names, vec!["web_search"]);
}
