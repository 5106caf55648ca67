//! The turn engine's decisions: routing of model tool calls, the retry
//! policy for stream failures, recording of a turn's output into history,
//! exec approval and sandbox-failure handling, and the sub-agent run's
//! effect on the parent history.

use vstd::prelude::*;

verus! {

use crate::items::ContentItem;
use crate::items::FunctionCallOutputPayload;
use crate::items::Origin;
use crate::items::ResponseItem;
use crate::items::string_is;
use crate::json::JsonVal;
use crate::json::JsonValue;
use crate::json::json_text_of;
use crate::json::json_to_string;
use crate::tools::AskForApproval;
use crate::agents::AgentRegistry;
use crate::agents::agent_names;
use crate::chars::str_to_chars;

/// An item fed back to the provider on the next turn.
#[derive(Debug)]
pub enum ResponseInputItem {
    Message { role: String, content: Vec<ContentItem> },
    FunctionCallOutput { call_id: String, output: FunctionCallOutputPayload },
    CustomToolCallOutput { call_id: String, output: String },
    McpToolCallOutput { call_id: String, result: Result<CallToolResult, String> },
}

/// Result of an external (MCP) tool call, with parsed JSON payloads.
#[derive(Debug)]
pub struct CallToolResult {
    pub content: JsonValue,
    pub is_error: Option<bool>,
    pub structured_content: Option<JsonValue>,
}

/// A streamed output item paired with the response it produced, if any.
#[derive(Debug)]
pub struct ProcessedResponseItem {
    pub item: ResponseItem,
    pub response: Option<ResponseInputItem>,
}

/// The payload content source an MCP result maps to: the structured content
/// when present and non-null, the plain content otherwise.
pub open spec fn chosen_tool_content(r: CallToolResult) -> JsonVal {
    match r.structured_content {
        Some(s) => if !(s@ is Null) {
            s@
        } else {
            r.content@
        },
        None => r.content@,
    }
}

/// Convert an MCP tool result into a function-call output payload: prefer
/// the structured content when present and non-null; the call is a success
/// unless the result is flagged as an error.
pub fn convert_call_tool_result_to_function_call_output_payload(
    call_tool_result: &CallToolResult,
) -> (r: FunctionCallOutputPayload)
    ensures
        r.content@ == json_text_of(chosen_tool_content(*call_tool_result)),
        r.success == Some(call_tool_result.is_error != Some(true)),
{
    let is_success = match call_tool_result.is_error {
        Some(true) => false,
        _ => true,
    };
    let chosen: &JsonValue = match &call_tool_result.structured_content {
        Some(s) => {
            let is_null = match s {
                JsonValue::Null => true,
                _ => false,
            };
            if !is_null {
                s
            } else {
                &call_tool_result.content
            }
        },
        None => &call_tool_result.content,
    };
    let content = json_to_string(chosen);
    FunctionCallOutputPayload { content, success: Some(is_success) }
}

/// Where a function call by this name is routed.
#[derive(Debug, PartialEq)]
pub enum FnRoute {
    Shell,
    ViewImage,
    ApplyPatch,
    UpdatePlan,
    ExecCommandTool,
    WriteStdinTool,
    SubagentList,
    SubagentDescribe,
    SubagentRun,
    McpTool { server: String, tool: String },
    Unsupported,
}

pub open spec fn is_builtin_tool_name(name: Seq<char>) -> bool {
    ||| name == "shell"@
    ||| name == "container.exec"@
    ||| name == "view_image"@
    ||| name == "apply_patch"@
    ||| name == "update_plan"@
    ||| name == "exec_command"@
    ||| name == "write_stdin"@
    ||| name == "subagent_list"@
    ||| name == "subagent_describe"@
    ||| name == "subagent_run"@
}

/// The tool-name literals are pairwise distinct.
proof fn lemma_tool_name_texts()
    ensures
        "shell"@.len() == 5 && "shell"@[0] == 's' && "shell"@[1] == 'h',
        "container.exec"@.len() == 14 && "container.exec"@[0] == 'c',
        "view_image"@.len() == 10 && "view_image"@[0] == 'v',
        "apply_patch"@.len() == 11 && "apply_patch"@[0] == 'a',
        "update_plan"@.len() == 11 && "update_plan"@[0] == 'u',
        "exec_command"@.len() == 12 && "exec_command"@[0] == 'e',
        "write_stdin"@.len() == 11 && "write_stdin"@[0] == 'w',
        "subagent_list"@.len() == 13 && "subagent_list"@[0] == 's',
        "subagent_describe"@.len() == 17 && "subagent_describe"@[0] == 's',
        "subagent_run"@.len() == 12 && "subagent_run"@[0] == 's',
{
    reveal_strlit("shell");
    reveal_strlit("container.exec");
    reveal_strlit("view_image");
    reveal_strlit("apply_patch");
    reveal_strlit("update_plan");
    reveal_strlit("exec_command");
    reveal_strlit("write_stdin");
    reveal_strlit("subagent_list");
    reveal_strlit("subagent_describe");
    reveal_strlit("subagent_run");
}

/// Route a function call by name: built-in tools by their names, fully
/// qualified `server/tool` names to the external dispatcher, anything else
/// to a structured `unsupported call` failure.
#[verifier::loop_isolation(false)]
pub fn function_call_route(name: &str) -> (r: FnRoute)
    ensures
        (name@ == "shell"@ || name@ == "container.exec"@) <==> r == FnRoute::Shell,
        name@ == "view_image"@ <==> r == FnRoute::ViewImage,
        name@ == "apply_patch"@ <==> r == FnRoute::ApplyPatch,
        name@ == "update_plan"@ <==> r == FnRoute::UpdatePlan,
        name@ == "exec_command"@ <==> r == FnRoute::ExecCommandTool,
        name@ == "write_stdin"@ <==> r == FnRoute::WriteStdinTool,
        name@ == "subagent_list"@ <==> r == FnRoute::SubagentList,
        name@ == "subagent_describe"@ <==> r == FnRoute::SubagentDescribe,
        name@ == "subagent_run"@ <==> r == FnRoute::SubagentRun,
        r matches FnRoute::McpTool { server, tool } ==> !is_builtin_tool_name(name@) && name@
            == server@ + "/"@ + tool@ && !server@.contains('/'),
        r == FnRoute::Unsupported ==> !is_builtin_tool_name(name@) && !name@.contains('/'),
{
    proof {
        lemma_tool_name_texts();
    }
    if str_is(name, "shell") || str_is(name, "container.exec") {
        return FnRoute::Shell;
    }
    if str_is(name, "view_image") {
        return FnRoute::ViewImage;
    }
    if str_is(name, "apply_patch") {
        return FnRoute::ApplyPatch;
    }
    if str_is(name, "update_plan") {
        return FnRoute::UpdatePlan;
    }
    if str_is(name, "exec_command") {
        return FnRoute::ExecCommandTool;
    }
    if str_is(name, "write_stdin") {
        return FnRoute::WriteStdinTool;
    }
    if str_is(name, "subagent_list") {
        return FnRoute::SubagentList;
    }
    if str_is(name, "subagent_describe") {
        return FnRoute::SubagentDescribe;
    }
    if str_is(name, "subagent_run") {
        return FnRoute::SubagentRun;
    }
    let cs = str_to_chars(name);
    let mut i: usize = 0;
    while i < cs.len()
        invariant
            i <= cs@.len(),
            cs@ == name@,
            forall|k: int| 0 <= k < i ==> name@[k] != '/',
        decreases cs@.len() - i,
    {
        if cs[i] == '/' {
            let server = crate::chars::vec_subrange(&cs, 0, i);
            let tool = crate::chars::vec_subrange(&cs, i + 1, cs.len());
            let r = FnRoute::McpTool {
                server: crate::chars::chars_to_string(&server),
                tool: crate::chars::chars_to_string(&tool),
            };
            proof {
                assert(name@ =~= name@.subrange(0, i as int) + "/"@ + name@.subrange(
                    i + 1,
                    name@.len() as int,
                )) by {
                    reveal_strlit("/");
                }
                assert(!name@.subrange(0, i as int).contains('/')) by {
                    if name@.subrange(0, i as int).contains('/') {
                        let w = choose|w: int|
                            0 <= w < i && name@.subrange(0, i as int)[w] == '/';
                        assert(name@[w] == '/');
                    }
                }
            }
            return r;
        }
        i = i + 1;
    }
    proof {
        assert(!name@.contains('/')) by {
            if name@.contains('/') {
                let w = choose|w: int| 0 <= w < name@.len() && name@[w] == '/';
            }
        }
    }
    FnRoute::Unsupported
}

/// Equality of a string slice against a literal.
fn str_is(s: &str, lit: &str) -> (r: bool)
    ensures
        r == (s@ == lit@),
{
    let a = String::from_str(s);
    let b = String::from_str(lit);
    a == b
}

/// How a provider-stream failure is classified.
#[derive(Debug, Clone, Copy, PartialEq, Eq, Structural)]
pub enum ErrorClass {
    Interrupted,
    EnvVar,
    UsageLimitReached,
    UsageNotIncluded,
    Stream,
    Other,
}

#[derive(Debug, Clone, Copy, PartialEq, Eq, Structural)]
pub enum RetryDecision {
    Fatal,
    Retry { delay_ms: u64 },
}

/// The retry policy of the turn loop: interruptions, environment-variable
/// errors and usage-limit errors propagate at once; everything else retries
/// with the server-supplied delay (or the caller's back-off) until the
/// provider's retry budget is spent.
pub fn retry_decision(
    err: ErrorClass,
    retries_so_far: u64,
    max_retries: u64,
    retry_after_ms: Option<u64>,
    backoff_ms: u64,
) -> (r: RetryDecision)
    ensures
        (err == ErrorClass::Interrupted || err == ErrorClass::EnvVar || err
            == ErrorClass::UsageLimitReached || err == ErrorClass::UsageNotIncluded) ==> r
            == RetryDecision::Fatal,
        (err == ErrorClass::Stream || err == ErrorClass::Other) && retries_so_far < max_retries
            ==> r == (RetryDecision::Retry {
            delay_ms: (match retry_after_ms {
                Some(d) => d,
                None => backoff_ms,
            }),
        }),
        (err == ErrorClass::Stream || err == ErrorClass::Other) && retries_so_far >= max_retries
            ==> r == RetryDecision::Fatal,
{
    match err {
        ErrorClass::Interrupted
        | ErrorClass::EnvVar
        | ErrorClass::UsageLimitReached
        | ErrorClass::UsageNotIncluded => RetryDecision::Fatal,
        ErrorClass::Stream | ErrorClass::Other => {
            if retries_so_far < max_retries {
                let delay_ms = match retry_after_ms {
                    Some(d) => d,
                    None => backoff_ms,
                };
                RetryDecision::Retry { delay_ms }
            } else {
                RetryDecision::Fatal
            }
        },
    }
}

/// What one (item, response) pair of a turn contributes to the history:
/// `out` is exactly the recorded segment for this pair.
pub open spec fn pair_recorded(pair: ProcessedResponseItem, out: Seq<ResponseItem>) -> bool {
    match (pair.item, pair.response) {
        (ResponseItem::Message { role, .. }, Option::<ResponseInputItem>::None) => if role@
            == "assistant"@ {
            out == seq![pair.item]
        } else {
            out.len() == 0
        },
        (
            ResponseItem::LocalShellCall { .. },
            Some(ResponseInputItem::FunctionCallOutput { call_id, output }),
        ) => out == seq![
            pair.item,
            ResponseItem::FunctionCallOutput { call_id, output, origin: None },
        ],
        (
            ResponseItem::FunctionCall { .. },
            Some(ResponseInputItem::FunctionCallOutput { call_id, output }),
        ) => out == seq![
            pair.item,
            ResponseItem::FunctionCallOutput { call_id, output, origin: None },
        ],
        (
            ResponseItem::CustomToolCall { .. },
            Some(ResponseInputItem::CustomToolCallOutput { call_id, output }),
        ) => out == seq![
            pair.item,
            ResponseItem::CustomToolCallOutput { call_id, output, origin: None },
        ],
        (
            ResponseItem::FunctionCall { .. },
            Some(ResponseInputItem::McpToolCallOutput { call_id, result }),
        ) => match result {
            Ok(ctr) => out.len() == 2 && out[0] == pair.item && (out[1]
                matches ResponseItem::FunctionCallOutput { call_id: c, output, origin } && c
                == call_id && origin is None && output.success == Some(ctr.is_error != Some(true))
                && output.content@ == json_text_of(chosen_tool_content(ctr))),
            Err(e) => out == seq![
                pair.item,
                ResponseItem::FunctionCallOutput {
                    call_id,
                    output: FunctionCallOutputPayload { content: e, success: Some(false) },
                    origin: None,
                },
            ],
        },
        (ResponseItem::Reasoning { id, summary, content, encrypted_content, .. }, Option::<
            ResponseInputItem,
        >::None) => out == seq![
            ResponseItem::Reasoning { id, summary, content, encrypted_content, origin: None },
        ],
        _ => out.len() == 0,
    }
}

/// `out` is the concatenation, in order, of the recorded segments of
/// `pairs`.
pub open spec fn recorded_ok(pairs: Seq<ProcessedResponseItem>, out: Seq<ResponseItem>) -> bool
    decreases pairs.len(),
{
    if pairs.len() == 0 {
        out.len() == 0
    } else {
        exists|n: int|
            0 <= n <= out.len() && recorded_ok(pairs.drop_last(), #[trigger] out.take(n))
                && pair_recorded(pairs.last(), out.skip(n))
    }
}

/// Fold a turn's output: the items to append to history (calls followed by
/// their outputs, assistant messages, reasoning), and whether any response
/// demands another turn. A turn with no responses completes the task.
#[verifier::loop_isolation(false)]
#[verifier::rlimit(100)]
pub fn process_turn_output(turn_output: Vec<ProcessedResponseItem>) -> (r: (
    Vec<ResponseItem>,
    bool,
))
    ensures
        recorded_ok(turn_output@, r.0@),
        r.1 == exists|i: int|
            0 <= i < turn_output@.len() && (#[trigger] turn_output@[i]).response is Some,
{
    let mut items: Vec<ResponseItem> = Vec::new();
    let mut has_responses: bool = false;
    let mut rest = turn_output;
    let ghost all = rest@;
    let total = rest.len();
    proof {
        assert(all.take(0) =~= Seq::<ProcessedResponseItem>::empty());
        assert(recorded_ok(all.take(0), items@));
    }
    while rest.len() > 0
        invariant
            rest@.len() <= total,
            all.len() == total,
            rest@ == all.skip(total - rest@.len()),
            recorded_ok(all.take(total - rest@.len()), items@),
            has_responses == exists|i: int|
                0 <= i < total - rest@.len() && (#[trigger] all[i]).response is Some,
        decreases rest@.len(),
    {
        let ghost i = total - rest@.len();
        let pair = rest.remove(0);
        proof {
            assert(pair == all[i]);
            assert(rest@ =~= all.skip(i + 1));
            assert(all.take(i + 1).drop_last() =~= all.take(i));
            assert(all.take(i + 1).last() == all[i]);
        }
        if pair.response.is_some() {
            has_responses = true;
        }
        let ghost items0 = items@;
        let ProcessedResponseItem { item, response } = pair;
        match (item, response) {
            (ResponseItem::Message { id, role, content, origin }, None) => {
                if string_is(&role, "assistant") {
                    items.push(ResponseItem::Message { id, role, content, origin });
                    proof {
                        assert(items@.last() == pair.item);
                        assert(items@.skip(items0.len() as int) =~= seq![items@.last()]);
                    }
                } else {
                    proof {
                        assert(items@.skip(items0.len() as int).len() == 0);
                    }
                }
            },
            (
                ResponseItem::LocalShellCall { id, call_id, action },
                Some(ResponseInputItem::FunctionCallOutput { call_id: out_id, output }),
            ) => {
                items.push(ResponseItem::LocalShellCall { id, call_id, action });
                proof {
                    assert(items@.last() == pair.item);
                }
                items.push(
                    ResponseItem::FunctionCallOutput { call_id: out_id, output, origin: None },
                );
                proof {
                    assert(items@.skip(items0.len() as int) =~= seq![
                        items@[items0.len() as int],
                        items@.last(),
                    ]);
                }
            },
            (
                ResponseItem::FunctionCall { id, name, arguments, call_id },
                Some(ResponseInputItem::FunctionCallOutput { call_id: out_id, output }),
            ) => {
                items.push(ResponseItem::FunctionCall { id, name, arguments, call_id });
                proof {
                    assert(items@.last() == pair.item);
                }
                items.push(
                    ResponseItem::FunctionCallOutput { call_id: out_id, output, origin: None },
                );
                proof {
                    assert(items@.skip(items0.len() as int) =~= seq![
                        items@[items0.len() as int],
                        items@.last(),
                    ]);
                }
            },
            (
                ResponseItem::CustomToolCall { id, call_id, name, input },
                Some(ResponseInputItem::CustomToolCallOutput { call_id: out_id, output }),
            ) => {
                items.push(ResponseItem::CustomToolCall { id, call_id, name, input });
                proof {
                    assert(items@.last() == pair.item);
                }
                items.push(
                    ResponseItem::CustomToolCallOutput { call_id: out_id, output, origin: None },
                );
                proof {
                    assert(items@.skip(items0.len() as int) =~= seq![
                        items@[items0.len() as int],
                        items@.last(),
                    ]);
                }
            },
            (
                ResponseItem::FunctionCall { id, name, arguments, call_id },
                Some(ResponseInputItem::McpToolCallOutput { call_id: out_id, result }),
            ) => {
                items.push(ResponseItem::FunctionCall { id, name, arguments, call_id });
                proof {
                    assert(items@.last() == pair.item);
                }
                let output = match result {
                    Ok(ctr) => {
                        let o = convert_call_tool_result_to_function_call_output_payload(&ctr);
                        o
                    },
                    Err(e) => FunctionCallOutputPayload { content: e, success: Some(false) },
                };
                items.push(
                    ResponseItem::FunctionCallOutput { call_id: out_id, output, origin: None },
                );
                proof {
                    assert(items@.skip(items0.len() as int) =~= seq![
                        items@[items0.len() as int],
                        items@.last(),
                    ]);
                }
            },
            (
                ResponseItem::Reasoning { id, summary, content, encrypted_content, .. },
                None,
            ) => {
                items.push(
                    ResponseItem::Reasoning {
                        id,
                        summary,
                        content,
                        encrypted_content,
                        origin: None,
                    },
                );
                proof {
                    assert(items@.skip(items0.len() as int) =~= seq![items@.last()]);
                }
            },
            _ => {
                proof {
                    assert(items@.skip(items0.len() as int).len() == 0);
                }
            },
        }
        proof {
            let n = items0.len() as int;
            assert(items@.take(n) =~= items0);
            assert(pair_recorded(pair, items@.skip(n)));
            assert(recorded_ok(all.take(i + 1), items@));
        }
    }
    proof {
        assert(all.take(total as int) =~= all);
    }
    (items, has_responses)
}

/// The two items a sub-agent run contributes to the parent history: the
/// start and end markers, and nothing else. Nested tool-call transcripts
/// stay in the sub-agent's local conversation.
pub fn subagent_parent_markers(name: &String, task: &String, success: bool) -> (r: (
    ResponseItem,
    ResponseItem,
))
    ensures
        r.0 == (ResponseItem::SubAgentStart {
            name: *name,
            description: *task,
            origin: Some(Origin::Main),
        }),
        r.1 == (ResponseItem::SubAgentEnd { name: *name, success, origin: Some(Origin::Main) }),
{
    let start = ResponseItem::SubAgentStart {
        name: name.clone(),
        description: task.clone(),
        origin: Some(Origin::Main),
    };
    let end = ResponseItem::SubAgentEnd { name: name.clone(), success, origin: Some(Origin::Main) };
    (start, end)
}

/// Running a sub-agent adds exactly two items to the parent history — the
/// start and end markers — and neither is a tool call or tool output.
pub proof fn lemma_subagent_isolation(name: String, task: String, success: bool)
    ensures
        ({
            let additions = seq![
                ResponseItem::SubAgentStart {
                    name,
                    description: task,
                    origin: Some(Origin::Main),
                },
                ResponseItem::SubAgentEnd { name, success, origin: Some(Origin::Main) },
            ];
            &&& additions.len() == 2
            &&& forall|k: int|
                0 <= k < additions.len() ==> crate::items::call_id_of_call(#[trigger] additions[k])
                    is None && crate::items::output_call_id(additions[k]) is None
        }),
{
}

/// The safety assessment of a command about to run.
#[derive(Debug)]
pub enum SafetyCheck {
    AutoApprove { sandbox_type: SandboxType },
    AskUser,
    Reject { reason: String },
}

#[derive(Debug, Clone, Copy, PartialEq, Eq, Structural)]
pub enum SandboxType {
    NoSandbox,
    MacosSeatbelt,
    LinuxSeccomp,
}

/// The user's answer to an approval request.
#[derive(Debug, Clone, Copy, PartialEq, Eq, Structural)]
pub enum ReviewDecision {
    Approved,
    ApprovedForSession,
    Denied,
    Abort,
}

/// What the exec engine does next for a command.
#[derive(Debug, PartialEq)]
pub enum ExecOutcome {
    /// Run under this sandbox; record the command as approved for the
    /// session first when asked to.
    Run { sandbox_type: SandboxType, add_to_approved: bool },
    /// Return a structured "rejected by user" failure.
    RejectedByUser,
    /// Return a structured rejection with the assessor's reason.
    RejectedByPolicy { reason: String },
}

/// Decide what to do with a command, given its safety assessment and — when
/// the user was asked — the review decision. Approval for the session also
/// records the command; denial and abort reject it; an auto-approval runs
/// under the assessed sandbox, and an explicit approval runs unsandboxed.
pub fn exec_approval_outcome(safety: SafetyCheck, decision: Option<ReviewDecision>) -> (r:
    ExecOutcome)
    ensures
        (safety matches SafetyCheck::AutoApprove { sandbox_type } ==> r == (ExecOutcome::Run {
            sandbox_type,
            add_to_approved: false,
        })),
        safety is AskUser ==> r == (match decision {
            Some(ReviewDecision::Approved) => (ExecOutcome::Run {
                sandbox_type: SandboxType::NoSandbox,
                add_to_approved: false,
            }),
            Some(ReviewDecision::ApprovedForSession) => (ExecOutcome::Run {
                sandbox_type: SandboxType::NoSandbox,
                add_to_approved: true,
            }),
            _ => ExecOutcome::RejectedByUser,
        }),
        (safety matches SafetyCheck::Reject { reason } ==> r == (ExecOutcome::RejectedByPolicy {
            reason,
        })),
{
    match safety {
        SafetyCheck::AutoApprove { sandbox_type } => ExecOutcome::Run {
            sandbox_type,
            add_to_approved: false,
        },
        SafetyCheck::AskUser => match decision {
            Some(ReviewDecision::Approved) => ExecOutcome::Run {
                sandbox_type: SandboxType::NoSandbox,
                add_to_approved: false,
            },
            Some(ReviewDecision::ApprovedForSession) => ExecOutcome::Run {
                sandbox_type: SandboxType::NoSandbox,
                add_to_approved: true,
            },
            _ => ExecOutcome::RejectedByUser,
        },
        SafetyCheck::Reject { reason } => ExecOutcome::RejectedByPolicy { reason },
    }
}

/// What the exec engine does after the sandbox rejected a command.
#[derive(Debug, Clone, Copy, PartialEq, Eq, Structural)]
pub enum SandboxErrorStep {
    /// Return the sandbox failure to the model.
    ReturnFailure,
    /// Return a "command timed out" failure to the model.
    ReturnTimeout,
    /// Emit a background event and ask the user to retry without a sandbox.
    AskRetryWithoutSandbox,
}

/// Decide the next step after a sandbox denial: under a never/on-request
/// policy the failure goes back to the model; a timeout is always reported
/// as such; otherwise the user is asked to retry without the sandbox.
pub fn sandbox_error_next_step(approval_policy: AskForApproval, is_timeout: bool) -> (r:
    SandboxErrorStep)
    ensures
        (approval_policy == AskForApproval::Never || approval_policy == AskForApproval::OnRequest)
            ==> r == SandboxErrorStep::ReturnFailure,
        (approval_policy == AskForApproval::UnlessTrusted || approval_policy
            == AskForApproval::OnFailure) && is_timeout ==> r == SandboxErrorStep::ReturnTimeout,
        (approval_policy == AskForApproval::UnlessTrusted || approval_policy
            == AskForApproval::OnFailure) && !is_timeout ==> r
            == SandboxErrorStep::AskRetryWithoutSandbox,
{
    match approval_policy {
        AskForApproval::Never | AskForApproval::OnRequest => SandboxErrorStep::ReturnFailure,
        AskForApproval::UnlessTrusted | AskForApproval::OnFailure => {
            if is_timeout {
                SandboxErrorStep::ReturnTimeout
            } else {
                SandboxErrorStep::AskRetryWithoutSandbox
            }
        },
    }
}

/// The user's default shell, as far as command translation cares.
#[derive(Debug)]
pub enum Shell {
    PowerShell,
    Posix { shell_path: String, has_snapshot: bool },
    Unknown,
}

/// Whether an argv is translated into a profile-aware shell invocation:
/// under PowerShell, when the environment policy asks for the user profile,
/// or when a POSIX shell has a captured snapshot.
pub fn should_translate_shell_command(shell: &Shell, use_profile: bool) -> (r: bool)
    ensures
        r == (shell is PowerShell || use_profile || (*shell matches Shell::Posix {
            has_snapshot,
            ..
        } && has_snapshot)),
{
    match shell {
        Shell::PowerShell => true,
        Shell::Posix { has_snapshot, .. } => use_profile || *has_snapshot,
        Shell::Unknown => use_profile,
    }
}

/// A path resolved against the session directory: an absolute path stands
/// alone; a relative one is joined under `cwd`.
pub open spec fn resolved_path(cwd: Seq<char>, p: Option<Seq<char>>) -> Seq<char> {
    match p {
        None => cwd,
        Some(path) => if path.len() > 0 && path[0] == '/' {
            path
        } else {
            cwd + seq!['/'] + path
        },
    }
}

/// Resolve an optional model-supplied workdir against the session cwd.
pub fn resolve_path(cwd: &String, p: Option<&String>) -> (r: String)
    ensures
        r@ == resolved_path(cwd@, match p {
            Some(s) => Some(s@),
            None => None::<Seq<char>>,
        }),
{
    match p {
        None => cwd.clone(),
        Some(path) => {
            let cs = str_to_chars(path.as_str());
            if cs.len() > 0 && cs[0] == '/' {
                path.clone()
            } else {
                let mut out = cwd.clone();
                out.append("/");
                out.append(path.as_str());
                proof {
                    reveal_strlit("/");
                    assert(out@ =~= cwd@ + seq!['/'] + path@);
                }
                out
            }
        },
    }
}

/// The names payload of a sub-agent listing: `{"agents": [...]}` with the
/// registry's names in sorted order.
pub open spec fn subagent_list_json(names: Seq<Seq<char>>) -> JsonVal {
    JsonVal::Object(
        seq![
            ("agents"@, JsonVal::Array(Seq::new(names.len(), |i: int| JsonVal::Text(names[i])))),
        ],
    )
}

/// Answer a `subagent_list` call: a successful output whose content is the
/// serialized `{"agents": [...]}` object over the registry's sorted names.
pub fn subagent_list_output(registry: &AgentRegistry, call_id: String) -> (r: ResponseInputItem)
    ensures
        (r matches ResponseInputItem::FunctionCallOutput { call_id: c, output } && c == call_id
            && output.success == Some(true) && output.content@ == json_text_of(
            subagent_list_json(agent_names(registry@)),
        )),
{
    let names = registry.names();
    let ghost gnames = agent_names(registry@);
    let mut arr: Vec<JsonValue> = Vec::new();
    let mut i: usize = 0;
    proof {
        crate::json::lemma_view_arr_index(arr@);
    }
    while i < names.len()
        invariant
            i <= names@.len(),
            names.deep_view() == gnames,
            arr@.len() == i,
            forall|k: int|
                0 <= k < i ==> (#[trigger] arr@[k])@ == JsonVal::Text(gnames[k]),
        decreases names.len() - i,
    {
        arr.push(JsonValue::Text(names[i].clone()));
        proof {
            assert(names.deep_view()[i as int] == names@[i as int]@);
            assert(arr@.last()@ == JsonVal::Text(gnames[i as int]));
        }
        i = i + 1;
    }
    let mut obj: Vec<(String, JsonValue)> = Vec::new();
    obj.push((String::from_str("agents"), JsonValue::Array(arr)));
    let payload = JsonValue::Object(obj);
    proof {
        if let JsonValue::Object(ps) = &payload {
            crate::json::lemma_view_obj_index(ps@);
            if let JsonValue::Array(xs) = &ps@[0].1 {
                crate::json::lemma_view_arr_index(xs@);
                assert(crate::json::view_arr(xs@) =~= Seq::new(
                    gnames.len(),
                    |k: int| JsonVal::Text(gnames[k]),
                ));
            }
            assert(crate::json::view_obj(ps@) =~= seq![
                (
                    "agents"@,
                    JsonVal::Array(Seq::new(gnames.len(), |k: int| JsonVal::Text(gnames[k]))),
                ),
            ]);
        }
        assert(payload@ == subagent_list_json(gnames));
    }
    let content = json_to_string(&payload);
    ResponseInputItem::FunctionCallOutput {
        call_id,
        output: FunctionCallOutputPayload { content, success: Some(true) },
    }
}

/// The structured failure returned when sub-agent tools are called while
/// disabled for the turn.
pub fn subagents_disabled_output(call_id: String) -> (r: ResponseInputItem)
    ensures
        (r matches ResponseInputItem::FunctionCallOutput { call_id: c, output } && c == call_id
            && output.success == Some(false) && output.content@
            == "Sub-agents are not enabled in this session"@),
{
    ResponseInputItem::FunctionCallOutput {
        call_id,
        output: FunctionCallOutputPayload {
            content: String::from_str("Sub-agents are not enabled in this session"),
            success: Some(false),
        },
    }
}

/// The structured failure for a call nobody handles, so the model can
/// self-correct.
pub fn unsupported_call_output(name: &str, call_id: String) -> (r: ResponseInputItem)
    ensures
        (r matches ResponseInputItem::FunctionCallOutput { call_id: c, output } && c == call_id
            && output.success is None && output.content@ == "unsupported call: "@ + name@),
{
    let mut content = String::from_str("unsupported call: ");
    content.append(name);
    ResponseInputItem::FunctionCallOutput {
        call_id,
        output: FunctionCallOutputPayload { content, success: None },
    }
}

} // verus!
