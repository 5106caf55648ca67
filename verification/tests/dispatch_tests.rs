use codex_core::agents::{AgentRegistry, SubAgent};
use codex_core::dispatch::{
    apply_patch_exec_params, format_exec_output, join_comma, nested_function_call_route,
    nested_subagent_denied_output, nested_unsupported_output, parse_shell_args,
    subagent_describe_output, subagent_failed_output, subagent_final_output, subagent_run_decision,
    subagent_run_summary, to_exec_params, view_image_output, NestedRoute,
};
use codex_core::exec_format::{ExecToolCallOutput, StreamOutput};
use codex_core::json::parse_json;
use codex_core::submission::{
    compact_finish, merge_turn_settings, submission_route, Op, SubmissionAction, TurnOverrides,
    TurnSettings,
};
use codex_core::tools::{
    append_mcp_tools, create_shell_tool, create_subagent_list_tool, mcp_tool_to_openai_tool,
    nested_tools_config, schema_from_json, AskForApproval, ConfigShellToolType, JsonSchema,
    OpenAiTool, ResponsesApiTool, SandboxPolicy, ToolsConfig,
};
use codex_core::turn::{FnRoute, ResponseInputItem, ReviewDecision};
use codex_core::items::{ContentItem, ConversationHistory, ResponseItem};
use codex_core::session::SessionState;

fn payload_of(r: ResponseInputItem) -> (String, Option<bool>, String) {
    match r {
        ResponseInputItem::FunctionCallOutput { call_id, output } => {
            (call_id, output.success, output.content)
        }
        _ => panic!("expected a function call output"),
    }
}

#[test]
fn run_decision_accepts_name_and_task() {
    let v = parse_json(r#"{"name":"docs","task":"say hi"}"#).unwrap();
    let args = subagent_run_decision(&v).unwrap();
    assert_eq!(args.name, "docs");
    assert_eq!(args.task, "say hi");
    assert_eq!(args.model, None);
}

#[test]
fn run_decision_takes_model_and_rejects_bad_shapes() {
    let v = parse_json(r#"{"name":"docs","task":"t","model":"gpt"}"#).unwrap();
    let args = subagent_run_decision(&v).unwrap();
    assert_eq!(args.model.as_deref(), Some("gpt"));
    let missing = parse_json(r#"{"name":"docs"}"#).unwrap();
    assert!(subagent_run_decision(&missing).is_none());
    let bad_model = parse_json(r#"{"name":"a","task":"b","model":3}"#).unwrap();
    assert!(subagent_run_decision(&bad_model).is_none());
}

#[test]
fn run_summary_serializes_sorted_keys() {
    let r = subagent_run_summary(
        "c1".to_string(),
        &"docs".to_string(),
        &"say hi".to_string(),
        true,
        "hi".to_string(),
        None,
    );
    let (call_id, success, content) = payload_of(r);
    assert_eq!(call_id, "c1");
    assert_eq!(success, Some(true));
    assert_eq!(
        content,
        r#"{"agent_name":"docs","output":"hi","success":true,"task":"say hi"}"#
    );
}

#[test]
fn run_summary_carries_error() {
    let r = subagent_run_summary(
        "c2".to_string(),
        &"docs".to_string(),
        &"t".to_string(),
        false,
        "x".to_string(),
        Some("boom".to_string()),
    );
    let (_, success, content) = payload_of(r);
    assert_eq!(success, Some(false));
    assert_eq!(
        content,
        r#"{"agent_name":"docs","error":"boom","output":"x","success":false,"task":"t"}"#
    );
}

#[test]
fn final_output_composition() {
    let name = "docs".to_string();
    let no_calls: Vec<String> = Vec::new();
    let out = subagent_final_output(&name, &"".to_string(), &no_calls);
    assert_eq!(out, "Sub-agent 'docs' completed. No tool calls were made");
    let calls = vec!["Shell call: a".to_string(), "Function call: b".to_string()];
    let out2 = subagent_final_output(&name, &"hi\n".to_string(), &calls);
    assert_eq!(out2, "hi\n\n\nTool calls made: Shell call: a, Function call: b");
    assert_eq!(join_comma(&calls), "Shell call: a, Function call: b");
}

#[test]
fn describe_output_variants() {
    let mut reg = AgentRegistry::new();
    reg.insert_agent(SubAgent {
        name: "docs".to_string(),
        description: "Docs helper".to_string(),
        tools: Some(vec!["shell".to_string()]),
        body: "Body text".to_string(),
    });
    let ok_args = parse_json(r#"{"name":"docs"}"#).unwrap();
    let (_, success, content) = payload_of(subagent_describe_output(&reg, &ok_args, "c".into()));
    assert_eq!(success, Some(true));
    assert_eq!(
        content,
        r#"{"body":"Body text","description":"Docs helper","name":"docs","tools":["shell"]}"#
    );
    let missing = parse_json(r#"{"name":"nope"}"#).unwrap();
    let (_, s2, c2) = payload_of(subagent_describe_output(&reg, &missing, "c".into()));
    assert_eq!(s2, Some(false));
    assert_eq!(c2, "Agent not found: nope");
    let bad = parse_json(r#"{"agent":"docs"}"#).unwrap();
    let (_, s3, c3) = payload_of(subagent_describe_output(&reg, &bad, "c".into()));
    assert_eq!(s3, Some(false));
    assert!(c3.starts_with("failed to parse function arguments"));
}

#[test]
fn failed_output_text() {
    let (_, s, c) = payload_of(subagent_failed_output("c".into(), "unknown agent"));
    assert_eq!(s, Some(false));
    assert_eq!(c, "Sub-agent execution failed: unknown agent");
}

#[test]
fn shell_args_parsing() {
    let v = parse_json(
        r#"{"command":["echo","hi"],"workdir":"sub","timeout_ms":500,"with_escalated_permissions":true,"justification":"why"}"#,
    )
    .unwrap();
    let p = parse_shell_args(&v).unwrap();
    assert_eq!(p.command, vec!["echo".to_string(), "hi".to_string()]);
    assert_eq!(p.workdir.as_deref(), Some("sub"));
    assert_eq!(p.timeout_ms, Some(500));
    assert_eq!(p.with_escalated_permissions, Some(true));
    assert_eq!(p.justification.as_deref(), Some("why"));
    let bad = parse_json(r#"{"command":["a"],"timeout_ms":-5}"#).unwrap();
    assert!(parse_shell_args(&bad).is_none());
    let no_cmd = parse_json(r#"{"workdir":"w"}"#).unwrap();
    assert!(parse_shell_args(&no_cmd).is_none());
}

#[test]
fn exec_params_resolution() {
    let v = parse_json(r#"{"command":["ls"],"workdir":"sub"}"#).unwrap();
    let p = parse_shell_args(&v).unwrap();
    let e = to_exec_params(p, &"/root/project".to_string());
    assert_eq!(e.cwd, "/root/project/sub");
    assert_eq!(e.command, vec!["ls".to_string()]);
    let v2 = parse_json(r#"{"command":["ls"],"workdir":"/abs"}"#).unwrap();
    let e2 = to_exec_params(parse_shell_args(&v2).unwrap(), &"/root".to_string());
    assert_eq!(e2.cwd, "/abs");
}

#[test]
fn apply_patch_params() {
    let e = apply_patch_exec_params("*** Begin Patch".to_string(), &"/w".to_string());
    assert_eq!(e.command, vec!["apply_patch".to_string(), "*** Begin Patch".to_string()]);
    assert_eq!(e.cwd, "/w");
    assert_eq!(e.timeout_ms, None);
}

#[test]
fn view_image_outputs() {
    let (_, s, c) = payload_of(view_image_output("c".into(), true));
    assert_eq!((s, c.as_str()), (Some(true), "attached local image path"));
    let (_, s2, c2) = payload_of(view_image_output("c".into(), false));
    assert_eq!((s2, c2.as_str()), (Some(false), "unable to attach image (no active task)"));
}

#[test]
fn exec_envelope_rounds_duration_to_tenths() {
    let out = ExecToolCallOutput {
        exit_code: 0,
        stdout: StreamOutput::new(String::new()),
        stderr: StreamOutput::new(String::new()),
        aggregated_output: StreamOutput::new("hello".to_string()),
        duration_ms: 1234,
    };
    assert_eq!(
        format_exec_output(&out),
        r#"{"metadata":{"duration_seconds":1.2,"exit_code":0},"output":"hello"}"#
    );
    let out2 = ExecToolCallOutput {
        exit_code: 2,
        stdout: StreamOutput::new(String::new()),
        stderr: StreamOutput::new(String::new()),
        aggregated_output: StreamOutput::new("x".to_string()),
        duration_ms: 1950,
    };
    assert_eq!(
        format_exec_output(&out2),
        r#"{"metadata":{"duration_seconds":2.0,"exit_code":2},"output":"x"}"#
    );
}

#[test]
fn nested_routing_denies_subagents() {
    assert_eq!(
        nested_function_call_route(&FnRoute::SubagentRun),
        NestedRoute::DeniedSubagent
    );
    assert_eq!(nested_function_call_route(&FnRoute::Shell), NestedRoute::Shell);
    assert_eq!(
        nested_function_call_route(&FnRoute::McpTool {
            server: "s".into(),
            tool: "t".into()
        }),
        NestedRoute::Unsupported
    );
    let (_, s, c) = payload_of(nested_subagent_denied_output("c".into()));
    assert_eq!((s, c.as_str()), (Some(false), "Sub-agents are not enabled in this nested context"));
    let (_, s2, c2) = payload_of(nested_unsupported_output("magic", "c".into()));
    assert_eq!((s2, c2.as_str()), (Some(false), "unsupported function call: magic"));
}

#[test]
fn submission_routing() {
    assert!(matches!(submission_route(Op::Interrupt), SubmissionAction::InterruptTask));
    assert!(matches!(
        submission_route(Op::ExecApproval { id: "1".into(), decision: ReviewDecision::Abort }),
        SubmissionAction::InterruptTask
    ));
    assert!(matches!(
        submission_route(Op::ExecApproval { id: "1".into(), decision: ReviewDecision::Approved }),
        SubmissionAction::ResolveApproval { .. }
    ));
    assert!(matches!(submission_route(Op::Shutdown), SubmissionAction::FlushAndShutdown));
    assert!(matches!(submission_route(Op::Unknown), SubmissionAction::Ignore));
}

#[test]
fn override_merge_unwrap_or() {
    let prev = TurnSettings {
        model: "m1".to_string(),
        cwd: "/a".to_string(),
        approval_policy: AskForApproval::Never,
        sandbox_policy: SandboxPolicy::ReadOnly,
    };
    let (merged, record) = merge_turn_settings(
        &prev,
        TurnOverrides {
            model: None,
            cwd: Some("/b".to_string()),
            approval_policy: None,
            sandbox_policy: None,
        },
    );
    assert!(record);
    assert_eq!(merged.model, "m1");
    assert_eq!(merged.cwd, "/b");
    assert_eq!(merged.approval_policy, AskForApproval::Never);
    let (merged2, record2) = merge_turn_settings(
        &merged,
        TurnOverrides { model: Some("m2".to_string()), cwd: None, approval_policy: None, sandbox_policy: None },
    );
    assert!(!record2);
    assert_eq!(merged2.model, "m2");
    assert_eq!(merged2.cwd, "/b");
}

#[test]
fn compact_finish_truncates_history() {
    let mut state = SessionState::new();
    state.set_task("task-1".to_string());
    let mut items: Vec<ResponseItem> = Vec::new();
    items.push(ResponseItem::Message {
        id: None,
        role: "user".to_string(),
        content: vec![ContentItem::InputText { text: "hi".to_string() }],
        origin: None,
    });
    items.push(ResponseItem::Message {
        id: None,
        role: "assistant".to_string(),
        content: vec![ContentItem::OutputText { text: "summary".to_string() }],
        origin: None,
    });
    state.history.record_items(items);
    compact_finish(&mut state, "task-1");
    assert_eq!(state.current_task, None);
    assert_eq!(state.history.len(), 1);
    match &state.history.contents()[0] {
        ResponseItem::Message { role, .. } => assert_eq!(role, "assistant"),
        other => panic!("unexpected item: {other:?}"),
    }
}

#[test]
fn nested_config_disables_subagent_tools() {
    let cfg = ToolsConfig {
        shell_type: ConfigShellToolType::DefaultShell,
        plan_tool: true,
        apply_patch_tool_type: None,
        web_search_request: false,
        include_view_image_tool: true,
        include_subagent_tools: true,
    };
    let nested = nested_tools_config(&cfg);
    assert!(!nested.include_subagent_tools);
    assert!(nested.plan_tool);
    assert!(nested.include_view_image_tool);
}

fn plain_tool(name: &str) -> ResponsesApiTool {
    ResponsesApiTool {
        name: name.to_string(),
        description: String::new(),
        strict: false,
        parameters: JsonSchema::Object {
            properties: Vec::new(),
            required: None,
            additional_properties: None,
        },
    }
}

fn name_of(t: &OpenAiTool) -> String {
    match t {
        OpenAiTool::Function(f) => f.name.clone(),
        OpenAiTool::LocalShell => "local_shell".to_string(),
        OpenAiTool::WebSearch => "web_search".to_string(),
        OpenAiTool::Freeform(f) => f.name.clone(),
    }
}

#[test]
fn mcp_tools_appended_sorted_after_builtins() {
    let mut tools = vec![create_shell_tool(), create_subagent_list_tool()];
    let mcp = vec![plain_tool("zeta/last"), plain_tool("alpha/first"), plain_tool("mid/tool")];
    append_mcp_tools(&mut tools, mcp);
    let names: Vec<String> = tools.iter().map(name_of).collect();
    assert_eq!(
        names,
        vec!["shell", "subagent_list", "alpha/first", "mid/tool", "zeta/last"]
    );
}

#[test]
fn mcp_tool_conversion_sanitizes_schema() {
    let schema = parse_json(
        r#"{"type":"object","properties":{"count":{"type":"integer","description":"n"}}}"#,
    )
    .unwrap();
    let t = mcp_tool_to_openai_tool("srv/tool".to_string(), Some("does things".to_string()), schema)
        .unwrap();
    assert_eq!(t.name, "srv/tool");
    assert_eq!(t.description, "does things");
    assert!(!t.strict);
    match t.parameters {
        JsonSchema::Object { properties, .. } => {
            assert_eq!(properties.len(), 1);
            assert_eq!(properties[0].0, "count");
            assert!(matches!(properties[0].1, JsonSchema::Number { .. }));
        }
        other => panic!("unexpected schema: {other:?}"),
    }
}

#[test]
fn mcp_tool_conversion_inserts_missing_properties() {
    let schema = parse_json(r#"{"type":"object"}"#).unwrap();
    let t = mcp_tool_to_openai_tool("s/t".to_string(), None, schema).unwrap();
    assert_eq!(t.description, "");
    match t.parameters {
        JsonSchema::Object { properties, .. } => assert!(properties.is_empty()),
        other => panic!("unexpected schema: {other:?}"),
    }
}

#[test]
fn schema_from_json_rejects_unknown_type() {
    let v = parse_json(r#"{"type":"tuple"}"#).unwrap();
    assert!(schema_from_json(&v).is_none());
    let arr = parse_json(r#"{"type":"array","items":{"type":"string"}}"#).unwrap();
    assert!(matches!(schema_from_json(&arr), Some(JsonSchema::Array { .. })));
}
