use codex_core::items::{
    get_last_assistant_message_from_turn, missing_call_outputs, ContentItem,
    FunctionCallOutputPayload, ResponseItem,
};
use codex_core::json::parse_json;
use codex_core::tools::AskForApproval;
use codex_core::turn::{
    convert_call_tool_result_to_function_call_output_payload, exec_approval_outcome,
    function_call_route, resolve_path, retry_decision, sandbox_error_next_step,
    should_translate_shell_command, subagent_parent_markers, CallToolResult, ErrorClass,
    ExecOutcome, FnRoute, ResponseInputItem, ProcessedResponseItem, process_turn_output,
    RetryDecision, ReviewDecision, SafetyCheck, SandboxErrorStep, SandboxType, Shell,
};

fn jv(s: &str) -> codex_core::json::JsonValue {
    parse_json(s).unwrap()
}

#[test]
fn prefers_structured_content_when_present() {
    let ctr = CallToolResult {
        content: jv("[\"ignored\"]"),
        is_error: None,
        structured_content: Some(jv("{\"ok\":true,\"value\":42}")),
    };
    let got = convert_call_tool_result_to_function_call_output_payload(&ctr);
    let expected: serde_json::Value = serde_json::from_str("{\"ok\":true,\"value\":42}").unwrap();
    assert_eq!(got.content, serde_json::to_string(&expected).unwrap());
    assert_eq!(got.success, Some(true));
}

#[test]
fn falls_back_to_content_when_structured_is_null() {
    let ctr = CallToolResult {
        content: jv("[\"hello\",\"world\"]"),
        is_error: None,
        structured_content: Some(jv("null")),
    };
    let got = convert_call_tool_result_to_function_call_output_payload(&ctr);
    assert_eq!(got.content, "[\"hello\",\"world\"]");
    assert_eq!(got.success, Some(true));
}

#[test]
fn success_flag_reflects_is_error_true() {
    let ctr = CallToolResult {
        content: jv("[\"unused\"]"),
        is_error: Some(true),
        structured_content: Some(jv("{\"message\":\"bad\"}")),
    };
    let got = convert_call_tool_result_to_function_call_output_payload(&ctr);
    assert_eq!(got.content, "{\"message\":\"bad\"}");
    assert_eq!(got.success, Some(false));
}

#[test]
fn success_flag_true_with_no_error_and_content_used() {
    let ctr = CallToolResult {
        content: jv("[\"alpha\"]"),
        is_error: Some(false),
        structured_content: None,
    };
    let got = convert_call_tool_result_to_function_call_output_payload(&ctr);
    assert_eq!(got.content, "[\"alpha\"]");
    assert_eq!(got.success, Some(true));
}

#[test]
fn translates_commands_when_shell_policy_requests_profile() {
    let shell = Shell::Posix {
        shell_path: "/bin/zsh".to_string(),
        has_snapshot: false,
    };
    assert!(should_translate_shell_command(&shell, true));
}

#[test]
fn translates_commands_for_zsh_with_snapshot() {
    let shell = Shell::Posix {
        shell_path: "/bin/zsh".to_string(),
        has_snapshot: true,
    };
    assert!(should_translate_shell_command(&shell, false));
}

#[test]
fn bypasses_translation_for_zsh_without_snapshot_or_profile() {
    let shell = Shell::Posix {
        shell_path: "/bin/zsh".to_string(),
        has_snapshot: false,
    };
    assert!(!should_translate_shell_command(&shell, false));
}

#[test]
fn routes_builtin_and_external_tool_names() {
    assert_eq!(function_call_route("shell"), FnRoute::Shell);
    assert_eq!(function_call_route("container.exec"), FnRoute::Shell);
    assert_eq!(function_call_route("view_image"), FnRoute::ViewImage);
    assert_eq!(function_call_route("apply_patch"), FnRoute::ApplyPatch);
    assert_eq!(function_call_route("update_plan"), FnRoute::UpdatePlan);
    assert_eq!(function_call_route("subagent_run"), FnRoute::SubagentRun);
    match function_call_route("test_server/do_something_cool") {
        FnRoute::McpTool { server, tool } => {
            assert_eq!(server, "test_server");
            assert_eq!(tool, "do_something_cool");
        }
        other => panic!("expected external route, got {:?}", other),
    }
    assert_eq!(function_call_route("made_up_tool"), FnRoute::Unsupported);
}

#[test]
fn retry_policy_matches_error_classes() {
    // Interruptions and usage errors are fatal at once.
    for err in [
        ErrorClass::Interrupted,
        ErrorClass::EnvVar,
        ErrorClass::UsageLimitReached,
        ErrorClass::UsageNotIncluded,
    ] {
        assert_eq!(retry_decision(err, 0, 5, None, 200), RetryDecision::Fatal);
    }
    // Stream errors retry with server delay, then back-off, until the cap.
    assert_eq!(
        retry_decision(ErrorClass::Stream, 0, 5, Some(1500), 200),
        RetryDecision::Retry { delay_ms: 1500 }
    );
    assert_eq!(
        retry_decision(ErrorClass::Stream, 2, 5, None, 800),
        RetryDecision::Retry { delay_ms: 800 }
    );
    assert_eq!(
        retry_decision(ErrorClass::Stream, 5, 5, None, 800),
        RetryDecision::Fatal
    );
}

#[test]
fn exec_approval_untrusted_flow() {
    // An untrusted command asks the user; approval runs it unsandboxed.
    let outcome = exec_approval_outcome(SafetyCheck::AskUser, Some(ReviewDecision::Approved));
    assert_eq!(
        outcome,
        ExecOutcome::Run {
            sandbox_type: SandboxType::NoSandbox,
            add_to_approved: false
        }
    );
    let outcome =
        exec_approval_outcome(SafetyCheck::AskUser, Some(ReviewDecision::ApprovedForSession));
    assert_eq!(
        outcome,
        ExecOutcome::Run {
            sandbox_type: SandboxType::NoSandbox,
            add_to_approved: true
        }
    );
    for denial in [ReviewDecision::Denied, ReviewDecision::Abort] {
        assert_eq!(
            exec_approval_outcome(SafetyCheck::AskUser, Some(denial)),
            ExecOutcome::RejectedByUser
        );
    }
    assert_eq!(
        exec_approval_outcome(
            SafetyCheck::AutoApprove {
                sandbox_type: SandboxType::LinuxSeccomp
            },
            None
        ),
        ExecOutcome::Run {
            sandbox_type: SandboxType::LinuxSeccomp,
            add_to_approved: false
        }
    );
}

#[test]
fn sandbox_error_branches_by_policy() {
    assert_eq!(
        sandbox_error_next_step(AskForApproval::Never, false),
        SandboxErrorStep::ReturnFailure
    );
    assert_eq!(
        sandbox_error_next_step(AskForApproval::OnRequest, false),
        SandboxErrorStep::ReturnFailure
    );
    assert_eq!(
        sandbox_error_next_step(AskForApproval::OnFailure, true),
        SandboxErrorStep::ReturnTimeout
    );
    assert_eq!(
        sandbox_error_next_step(AskForApproval::UnlessTrusted, false),
        SandboxErrorStep::AskRetryWithoutSandbox
    );
}

#[test]
fn resolves_workdir_against_cwd() {
    let cwd = "/tmp/x".to_string();
    assert_eq!(resolve_path(&cwd, None), "/tmp/x");
    assert_eq!(resolve_path(&cwd, Some(&"sub".to_string())), "/tmp/x/sub");
    assert_eq!(resolve_path(&cwd, Some(&"/abs".to_string())), "/abs");
}

#[test]
fn missing_calls_get_aborted_outputs() {
    // A call with no output anywhere gets a synthetic "aborted" output; an
    // answered call does not.
    let input = vec![
        ResponseItem::FunctionCall {
            id: None,
            name: "shell".to_string(),
            arguments: "{}".to_string(),
            call_id: "c1".to_string(),
        },
        ResponseItem::FunctionCall {
            id: None,
            name: "shell".to_string(),
            arguments: "{}".to_string(),
            call_id: "c2".to_string(),
        },
        ResponseItem::FunctionCallOutput {
            call_id: "c2".to_string(),
            output: FunctionCallOutputPayload {
                content: "done".to_string(),
                success: Some(true),
            },
            origin: None,
        },
    ];
    let aborted = missing_call_outputs(&input);
    assert_eq!(aborted.len(), 1);
    match &aborted[0] {
        ResponseItem::CustomToolCallOutput { call_id, output, .. } => {
            assert_eq!(call_id, "c1");
            assert_eq!(output, "aborted");
        }
        other => panic!("expected synthetic output, got {:?}", other),
    }
}

#[test]
fn subagent_run_touches_parent_history_with_two_markers() {
    // The parent history gains exactly the start and end markers.
    let (start, end) =
        subagent_parent_markers(&"docs".to_string(), &"say hi".to_string(), true);
    match &start {
        ResponseItem::SubAgentStart {
            name, description, ..
        } => {
            assert_eq!(name, "docs");
            assert_eq!(description, "say hi");
        }
        other => panic!("expected start marker, got {:?}", other),
    }
    match &end {
        ResponseItem::SubAgentEnd { name, success, .. } => {
            assert_eq!(name, "docs");
            assert!(*success);
        }
        other => panic!("expected end marker, got {:?}", other),
    }
}

#[test]
fn turn_output_records_calls_with_their_outputs() {
    let turn_output = vec![
        ProcessedResponseItem {
            item: ResponseItem::FunctionCall {
                id: None,
                name: "shell".to_string(),
                arguments: "{}".to_string(),
                call_id: "c1".to_string(),
            },
            response: Some(ResponseInputItem::FunctionCallOutput {
                call_id: "c1".to_string(),
                output: FunctionCallOutputPayload {
                    content: "ok".to_string(),
                    success: Some(true),
                },
            }),
        },
        ProcessedResponseItem {
            item: ResponseItem::Message {
                id: None,
                role: "assistant".to_string(),
                content: vec![ContentItem::OutputText {
                    text: "all done".to_string(),
                }],
                origin: None,
            },
            response: None,
        },
    ];
    let (items, has_responses) = process_turn_output(turn_output);
    assert!(has_responses);
    assert_eq!(items.len(), 3);
    assert!(matches!(items[0], ResponseItem::FunctionCall { .. }));
    assert!(matches!(items[1], ResponseItem::FunctionCallOutput { .. }));
    assert!(matches!(items[2], ResponseItem::Message { .. }));

    let last = get_last_assistant_message_from_turn(&items);
    assert_eq!(last, Some("all done".to_string()));
}

#[test]
fn turn_without_responses_completes_task() {
    let turn_output = vec![ProcessedResponseItem {
        item: ResponseItem::Message {
            id: None,
            role: "assistant".to_string(),
            content: vec![ContentItem::OutputText {
                text: "hi".to_string(),
            }],
            origin: None,
        },
        response: None,
    }];
    let (items, has_responses) = process_turn_output(turn_output);
    assert!(!has_responses);
    assert_eq!(items.len(), 1);
}
