use codex_core::tools::{
    create_shell_tool_for_sandbox, create_subagent_describe_tool, create_subagent_list_tool,
    create_subagent_run_tool, get_openai_tools, tool_name, ApplyPatchToolType, AskForApproval,
    ConfigShellToolType, JsonSchema, ModelFamily, OpenAiTool, SandboxPolicy, ToolsConfig,
    ToolsConfigParams,
};

fn family(slug: &str, uses_local_shell_tool: bool) -> ModelFamily {
    ModelFamily {
        slug: slug.to_string(),
        family: slug.to_string(),
        needs_special_apply_patch_instructions: false,
        supports_reasoning_summaries: false,
        uses_local_shell_tool,
        apply_patch_tool_type: None,
    }
}

fn names_of(tools: &[OpenAiTool]) -> Vec<String> {
    tools
        .iter()
        .map(|t| tool_name(t).unwrap().to_string())
        .collect()
}

#[test]
fn test_tools_config_params_construction() {
    let model_family = family("o3", false);

    // All options enabled.
    let params_all_enabled = ToolsConfigParams {
        model_family: &model_family,
        approval_policy: AskForApproval::OnRequest,
        sandbox_policy: SandboxPolicy::WorkspaceWrite {
            writable_roots: vec![],
            network_access: true,
            exclude_tmpdir_env_var: false,
            exclude_slash_tmp: false,
        },
        include_plan_tool: true,
        include_apply_patch_tool: true,
        include_web_search_request: true,
        use_streamable_shell_tool: true,
        include_view_image_tool: true,
        include_subagent_tools: true,
    };

    let config = ToolsConfig::new(&params_all_enabled);
    assert!(config.include_subagent_tools);
    assert!(config.plan_tool);
    assert!(config.web_search_request);
    assert!(config.include_view_image_tool);

    // Sub-agent tools disabled.
    let params_subagent_disabled = ToolsConfigParams {
        model_family: &model_family,
        approval_policy: AskForApproval::Never,
        sandbox_policy: SandboxPolicy::ReadOnly,
        include_plan_tool: false,
        include_apply_patch_tool: false,
        include_web_search_request: false,
        use_streamable_shell_tool: false,
        include_view_image_tool: false,
        include_subagent_tools: false,
    };

    let config = ToolsConfig::new(&params_subagent_disabled);
    assert!(!config.include_subagent_tools);
    assert!(!config.plan_tool);
    assert!(!config.web_search_request);
    assert!(!config.include_view_image_tool);
}

#[test]
fn test_tools_config_subagent_tools_enabled() {
    let model_family = family("o3", false);
    let config = ToolsConfig::new(&ToolsConfigParams {
        model_family: &model_family,
        approval_policy: AskForApproval::Never,
        sandbox_policy: SandboxPolicy::ReadOnly,
        include_plan_tool: false,
        include_apply_patch_tool: false,
        include_web_search_request: false,
        use_streamable_shell_tool: false,
        include_view_image_tool: false,
        include_subagent_tools: true,
    });

    assert!(config.include_subagent_tools);

    let tool_names = names_of(&get_openai_tools(&config));
    assert!(tool_names.contains(&"subagent_list".to_string()));
    assert!(tool_names.contains(&"subagent_describe".to_string()));
    assert!(tool_names.contains(&"subagent_run".to_string()));
}

#[test]
fn test_tools_config_subagent_tools_disabled() {
    let model_family = family("o3", false);
    let config = ToolsConfig::new(&ToolsConfigParams {
        model_family: &model_family,
        approval_policy: AskForApproval::Never,
        sandbox_policy: SandboxPolicy::ReadOnly,
        include_plan_tool: false,
        include_apply_patch_tool: false,
        include_web_search_request: false,
        use_streamable_shell_tool: false,
        include_view_image_tool: false,
        include_subagent_tools: false,
    });

    assert!(!config.include_subagent_tools);

    let tool_names = names_of(&get_openai_tools(&config));
    assert!(!tool_names.contains(&"subagent_list".to_string()));
    assert!(!tool_names.contains(&"subagent_describe".to_string()));
    assert!(!tool_names.contains(&"subagent_run".to_string()));
}

#[test]
fn test_get_openai_tools() {
    // A local-shell model family presents the local shell tool.
    let model_family = family("codex-mini-latest", true);
    let config = ToolsConfig::new(&ToolsConfigParams {
        model_family: &model_family,
        approval_policy: AskForApproval::Never,
        sandbox_policy: SandboxPolicy::ReadOnly,
        include_plan_tool: true,
        include_apply_patch_tool: false,
        include_web_search_request: true,
        use_streamable_shell_tool: false,
        include_view_image_tool: true,
        include_subagent_tools: false,
    });
    let tools = get_openai_tools(&config);
    assert_eq!(
        names_of(&tools),
        vec!["local_shell", "update_plan", "web_search", "view_image"]
    );
}

#[test]
fn test_get_openai_tools_default_shell() {
    let model_family = family("o3", false);
    let config = ToolsConfig::new(&ToolsConfigParams {
        model_family: &model_family,
        approval_policy: AskForApproval::Never,
        sandbox_policy: SandboxPolicy::ReadOnly,
        include_plan_tool: true,
        include_apply_patch_tool: false,
        include_web_search_request: true,
        use_streamable_shell_tool: false,
        include_view_image_tool: true,
        include_subagent_tools: false,
    });
    let tools = get_openai_tools(&config);
    assert_eq!(
        names_of(&tools),
        vec!["shell", "update_plan", "web_search", "view_image"]
    );
}

#[test]
fn test_get_openai_tools_with_subagent_tools() {
    let model_family = family("o3", false);
    let config = ToolsConfig::new(&ToolsConfigParams {
        model_family: &model_family,
        approval_policy: AskForApproval::Never,
        sandbox_policy: SandboxPolicy::ReadOnly,
        include_plan_tool: false,
        include_apply_patch_tool: false,
        include_web_search_request: false,
        use_streamable_shell_tool: false,
        include_view_image_tool: false,
        include_subagent_tools: true,
    });
    let tools = get_openai_tools(&config);
    assert_eq!(
        names_of(&tools),
        vec!["shell", "subagent_list", "subagent_describe", "subagent_run"]
    );
}

#[test]
fn test_shell_tool_for_sandbox_workspace_write() {
    let sandbox_policy = SandboxPolicy::WorkspaceWrite {
        writable_roots: vec!["workspace".to_string()],
        network_access: false,
        exclude_tmpdir_env_var: false,
        exclude_slash_tmp: false,
    };
    let tool = create_shell_tool_for_sandbox(&sandbox_policy);
    let OpenAiTool::Function(t) = &tool else {
        panic!("expected function tool");
    };
    assert_eq!(t.name, "shell");

    let expected = "\nThe shell tool is used to execute shell commands.\n- When invoking the shell tool, your call will be running in a sandbox, and some shell commands will require escalated privileges:\n  - Types of actions that require escalated privileges:\n    - Writing files other than those in the writable roots\n      - writable roots:\n        - workspace\n    - Commands that require network access\n\n  - Examples of commands that require escalated privileges:\n    - git commit\n    - npm install or pnpm install\n    - cargo build\n    - cargo test\n- When invoking a command that will require escalated privileges:\n  - Provide the with_escalated_permissions parameter with the boolean value true\n  - Include a short, 1 sentence explanation for why we need to run with_escalated_permissions in the justification parameter.";
    assert_eq!(t.description, expected);
}

#[test]
fn test_shell_tool_for_sandbox_readonly() {
    let tool = create_shell_tool_for_sandbox(&SandboxPolicy::ReadOnly);
    let OpenAiTool::Function(t) = &tool else {
        panic!("expected function tool");
    };
    assert_eq!(t.name, "shell");

    let expected = "\nThe shell tool is used to execute shell commands.\n- When invoking the shell tool, your call will be running in a sandbox, and some shell commands (including apply_patch) will require escalated permissions:\n  - Types of actions that require escalated privileges:\n    - Writing files\n    - Applying patches\n  - Examples of commands that require escalated privileges:\n    - apply_patch\n    - git commit\n    - npm install or pnpm install\n    - cargo build\n    - cargo test\n- When invoking a command that will require escalated privileges:\n  - Provide the with_escalated_permissions parameter with the boolean value true\n  - Include a short, 1 sentence explanation for why we need to run with_escalated_permissions in the justification parameter";
    assert_eq!(t.description, expected);
}

#[test]
fn test_shell_tool_for_sandbox_danger_full_access() {
    let tool = create_shell_tool_for_sandbox(&SandboxPolicy::DangerFullAccess);
    let OpenAiTool::Function(t) = &tool else {
        panic!("expected function tool");
    };
    assert_eq!(t.name, "shell");
    assert_eq!(t.description, "Runs a shell command and returns its output.");
}

#[test]
fn test_subagent_tool_schemas() {
    let list_tool = create_subagent_list_tool();
    if let OpenAiTool::Function(t) = &list_tool {
        assert_eq!(t.name, "subagent_list");
        assert_eq!(
            t.description,
            "List available sub-agents with their names and descriptions"
        );
        if let JsonSchema::Object {
            required,
            properties,
            ..
        } = &t.parameters
        {
            assert_eq!(required, &Some(vec![]));
            assert!(properties.is_empty());
        } else {
            panic!("Expected Object schema for subagent_list");
        }
    } else {
        panic!("Expected Function tool for subagent_list");
    }

    let describe_tool = create_subagent_describe_tool();
    if let OpenAiTool::Function(t) = &describe_tool {
        assert_eq!(t.name, "subagent_describe");
        assert_eq!(
            t.description,
            "Get detailed information about a specific sub-agent including tools and prompt"
        );
        if let JsonSchema::Object {
            required,
            properties,
            ..
        } = &t.parameters
        {
            assert_eq!(required, &Some(vec!["name".to_string()]));
            assert!(properties.iter().any(|(k, _)| k == "name"));
        } else {
            panic!("Expected Object schema for subagent_describe");
        }
    } else {
        panic!("Expected Function tool for subagent_describe");
    }

    let run_tool = create_subagent_run_tool();
    if let OpenAiTool::Function(t) = &run_tool {
        assert_eq!(t.name, "subagent_run");
        assert_eq!(t.description, "Execute a sub-agent with a specific task");
        if let JsonSchema::Object {
            required,
            properties,
            ..
        } = &t.parameters
        {
            assert_eq!(
                required,
                &Some(vec!["name".to_string(), "task".to_string()])
            );
            assert!(properties.iter().any(|(k, _)| k == "name"));
            assert!(properties.iter().any(|(k, _)| k == "task"));
            assert!(properties.iter().any(|(k, _)| k == "model"));
        } else {
            panic!("Expected Object schema for subagent_run");
        }
    } else {
        panic!("Expected Function tool for subagent_run");
    }
}

#[test]
fn shell_with_request_config_keeps_sandbox_policy() {
    let model_family = family("o3", false);
    let config = ToolsConfig::new(&ToolsConfigParams {
        model_family: &model_family,
        approval_policy: AskForApproval::OnRequest,
        sandbox_policy: SandboxPolicy::ReadOnly,
        include_plan_tool: false,
        include_apply_patch_tool: false,
        include_web_search_request: false,
        use_streamable_shell_tool: false,
        include_view_image_tool: false,
        include_subagent_tools: false,
    });
    assert!(matches!(
        config.shell_type,
        ConfigShellToolType::ShellWithRequest { .. }
    ));
    assert_eq!(config.apply_patch_tool_type, None);
}

#[test]
fn apply_patch_tool_follows_model_family() {
    let mut model_family = family("o3", false);
    model_family.apply_patch_tool_type = Some(ApplyPatchToolType::Function);
    let config = ToolsConfig::new(&ToolsConfigParams {
        model_family: &model_family,
        approval_policy: AskForApproval::Never,
        sandbox_policy: SandboxPolicy::ReadOnly,
        include_plan_tool: false,
        include_apply_patch_tool: false,
        include_web_search_request: false,
        use_streamable_shell_tool: false,
        include_view_image_tool: false,
        include_subagent_tools: false,
    });
    assert_eq!(
        config.apply_patch_tool_type,
        Some(ApplyPatchToolType::Function)
    );
    let tools = get_openai_tools(&config);
    assert_eq!(names_of(&tools), vec!["shell", "apply_patch"]);
}
