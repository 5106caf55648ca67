//! The tool dispatcher's argument decisions: parsing of sub-agent run and
//! describe arguments, of shell-exec, apply-patch and view-image arguments
//! out of the parsed JSON model, the run-summary and describe payloads, and
//! the model-facing exec output envelope.

use vstd::prelude::*;

verus! {

use crate::agents::AgentRegistry;
use crate::items::FunctionCallOutputPayload;
use crate::json::JsonVal;
use crate::json::JsonValue;
use crate::json::json_text_of;
use crate::json::json_to_string;
use crate::json::obj_field_of;
use crate::json::obj_str_of;
use crate::json::obj_bool_of;
use crate::json::obj_u64_of;
use crate::json::obj_str_list_of;
use crate::json::obj_get;
use crate::json::obj_str_field;
use crate::json::obj_str_list_field;
use crate::turn::ResponseInputItem;
use crate::turn::resolved_path;
use crate::turn::resolve_path;

/// The field is absent, null, or a string: anything else rejects the
/// argument object.
pub open spec fn opt_str_field_ok(v: JsonVal, key: Seq<char>) -> bool {
    match obj_field_of(v, key) {
        None => true,
        Some(JsonVal::Null) => true,
        Some(JsonVal::Text(_)) => true,
        _ => false,
    }
}

/// The field is absent, null, or a non-negative integer.
pub open spec fn opt_u64_field_ok(v: JsonVal, key: Seq<char>) -> bool {
    match obj_field_of(v, key) {
        None => true,
        Some(JsonVal::Null) => true,
        Some(JsonVal::UInt(_)) => true,
        Some(JsonVal::Int(i)) => i >= 0,
        _ => false,
    }
}

/// The field is absent, null, or a boolean.
pub open spec fn opt_bool_field_ok(v: JsonVal, key: Seq<char>) -> bool {
    match obj_field_of(v, key) {
        None => true,
        Some(JsonVal::Null) => true,
        Some(JsonVal::Bool(_)) => true,
        _ => false,
    }
}

/// Parsed arguments of a `subagent_run` call.
#[derive(Debug)]
pub struct RunArgs {
    pub name: String,
    pub task: String,
    pub model: Option<String>,
}

/// The shape `subagent_run` arguments must have: string `name` and `task`,
/// and `model` absent, null, or a string.
pub open spec fn run_args_shape(v: JsonVal) -> bool {
    &&& obj_str_of(v, "name"@) is Some
    &&& obj_str_of(v, "task"@) is Some
    &&& opt_str_field_ok(v, "model"@)
}

/// Decide a `subagent_run` call's arguments: accepted exactly when the
/// object carries string `name` and `task` fields and no ill-typed `model`.
pub fn subagent_run_decision(args: &JsonValue) -> (r: Option<RunArgs>)
    ensures
        r is Some <==> run_args_shape(args@),
        (r matches Some(a) ==> {
            &&& obj_str_of(args@, "name"@) == Some(a.name@)
            &&& obj_str_of(args@, "task"@) == Some(a.task@)
            &&& (match a.model {
                Some(m) => obj_str_of(args@, "model"@) == Some(m@),
                None => obj_str_of(args@, "model"@) is None,
            })
        }),
{
    let name = match obj_str_field(args, "name") {
        Some(s) => s,
        None => {
            return None;
        },
    };
    let task = match obj_str_field(args, "task") {
        Some(s) => s,
        None => {
            return None;
        },
    };
    let model = match obj_get(args, "model") {
        None => None,
        Some(JsonValue::Null) => None,
        Some(JsonValue::Text(s)) => Some(s.clone()),
        Some(_) => {
            return None;
        },
    };
    Some(RunArgs { name, task, model })
}

/// Elements joined with a separator between consecutive ones.
pub open spec fn joined(parts: Seq<Seq<char>>, sep: Seq<char>) -> Seq<char>
    decreases parts.len(),
{
    if parts.len() == 0 {
        Seq::empty()
    } else if parts.len() == 1 {
        parts[0]
    } else {
        joined(parts.drop_last(), sep) + sep + parts.last()
    }
}

/// Join strings with `", "` between them.
pub fn join_comma(parts: &Vec<String>) -> (r: String)
    ensures
        r@ == joined(parts.deep_view(), ", "@),
{
    let ghost gp = parts.deep_view();
    let mut out = String::new();
    let mut i: usize = 0;
    proof {
        reveal_strlit(", ");
        assert(out@ =~= joined(gp.take(0), ", "@));
    }
    while i < parts.len()
        invariant
            i <= parts@.len(),
            gp == parts.deep_view(),
            gp.len() == parts@.len(),
            out@ == joined(gp.take(i as int), ", "@),
        decreases parts@.len() - i,
    {
        if i > 0 {
            out.append(", ");
        }
        out.append(parts[i].as_str());
        proof {
            reveal_strlit(", ");
            assert(gp[i as int] == parts@[i as int]@);
            assert(gp.take(i + 1).drop_last() =~= gp.take(i as int));
            assert(gp.take(i + 1).last() == gp[i as int]);
            if i > 0 {
                assert(out@ =~= joined(gp.take(i as int), ", "@) + ", "@ + gp[i as int]);
            } else {
                assert(out@ =~= gp[0]);
            }
        }
        i = i + 1;
    }
    proof {
        assert(gp.take(gp.len() as int) =~= gp);
    }
    out
}

/// The tool-usage sentence of a run summary.
pub open spec fn tool_summary_text(calls: Seq<Seq<char>>) -> Seq<char> {
    if calls.len() == 0 {
        "No tool calls were made"@
    } else {
        "Tool calls made: "@ + joined(calls, ", "@)
    }
}

/// The `output` field of a run summary: the collected assistant text when
/// any was produced, the completion sentence otherwise; the tool-usage
/// sentence follows either way.
pub open spec fn final_output_text(
    name: Seq<char>,
    output_text: Seq<char>,
    calls: Seq<Seq<char>>,
) -> Seq<char> {
    if output_text.len() == 0 {
        "Sub-agent '"@ + name + "' completed. "@ + tool_summary_text(calls)
    } else {
        output_text + "\n\n"@ + tool_summary_text(calls)
    }
}

/// Compose the run summary's `output` field from the nested run's collected
/// assistant text and the tool calls it made.
pub fn subagent_final_output(name: &String, output_text: &String, calls: &Vec<String>) -> (r:
    String)
    ensures
        r@ == final_output_text(name@, output_text@, calls.deep_view()),
{
    let summary_tail = if calls.len() == 0 {
        String::from_str("No tool calls were made")
    } else {
        let mut t = String::from_str("Tool calls made: ");
        let j = join_comma(calls);
        t.append(j.as_str());
        t
    };
    proof {
        assert(summary_tail@ == tool_summary_text(calls.deep_view()));
    }
    if output_text.as_str().unicode_len() == 0 {
        let mut out = String::from_str("Sub-agent '");
        out.append(name.as_str());
        out.append("' completed. ");
        out.append(summary_tail.as_str());
        proof {
            assert(output_text@ =~= Seq::<char>::empty());
            assert(out@ =~= "Sub-agent '"@ + name@ + "' completed. "@ + summary_tail@);
        }
        out
    } else {
        let mut out = output_text.clone();
        out.append("\n\n");
        out.append(summary_tail.as_str());
        proof {
            assert(out@ =~= output_text@ + "\n\n"@ + summary_tail@);
        }
        out
    }
}

/// The run summary object `{agent_name, task, success, output, error?}`;
/// `error` is present only when the run failed with a message.
pub open spec fn run_summary_json(
    name: Seq<char>,
    task: Seq<char>,
    success: bool,
    output: Seq<char>,
    error: Option<Seq<char>>,
) -> JsonVal {
    JsonVal::Object(
        seq![
            ("agent_name"@, JsonVal::Text(name)),
            ("task"@, JsonVal::Text(task)),
            ("success"@, JsonVal::Bool(success)),
            ("output"@, JsonVal::Text(output)),
        ] + (match error {
            Some(e) => seq![("error"@, JsonVal::Text(e))],
            None => Seq::<(Seq<char>, JsonVal)>::empty(),
        }),
    )
}

/// The final function-call output of a `subagent_run`: the serialized run
/// summary, with the run's own success flag.
pub fn subagent_run_summary(
    call_id: String,
    name: &String,
    task: &String,
    success: bool,
    output: String,
    error: Option<String>,
) -> (r: ResponseInputItem)
    ensures
        (r matches ResponseInputItem::FunctionCallOutput { call_id: c, output: p } && c == call_id
            && p.success == Some(success) && p.content@ == json_text_of(
            run_summary_json(name@, task@, success, output@, match error {
                Some(e) => Some(e@),
                None => None::<Seq<char>>,
            }),
        )),
{
    let ghost gerr: Option<Seq<char>> = match &error {
        Some(e) => Some(e@),
        None => None,
    };
    let mut obj: Vec<(String, JsonValue)> = Vec::new();
    obj.push((String::from_str("agent_name"), JsonValue::Text(name.clone())));
    obj.push((String::from_str("task"), JsonValue::Text(task.clone())));
    obj.push((String::from_str("success"), JsonValue::Bool(success)));
    obj.push((String::from_str("output"), JsonValue::Text(output)));
    match error {
        Some(e) => {
            obj.push((String::from_str("error"), JsonValue::Text(e)));
        },
        None => {},
    }
    let payload = JsonValue::Object(obj);
    proof {
        if let JsonValue::Object(ps) = &payload {
            crate::json::lemma_view_obj_index(ps@);
            assert(crate::json::view_obj(ps@) =~= (run_summary_json(
                name@,
                task@,
                success,
                output@,
                gerr,
            ))->Object_0);
        }
        assert(payload@ == run_summary_json(name@, task@, success, output@, gerr));
    }
    let content = json_to_string(&payload);
    ResponseInputItem::FunctionCallOutput {
        call_id,
        output: FunctionCallOutputPayload { content, success: Some(success) },
    }
}

/// The structured failure used when a tool call's JSON arguments do not have
/// the shape the tool asks for; `success` is as the dispatcher reports it
/// for that tool.
pub fn parse_failure_output(call_id: String, detail: &str, success: Option<bool>) -> (r:
    ResponseInputItem)
    ensures
        (r matches ResponseInputItem::FunctionCallOutput { call_id: c, output } && c == call_id
            && output.success == success && output.content@
            == "failed to parse function arguments: "@ + detail@),
{
    let mut content = String::from_str("failed to parse function arguments: ");
    content.append(detail);
    ResponseInputItem::FunctionCallOutput {
        call_id,
        output: FunctionCallOutputPayload { content, success },
    }
}

/// The structured failure of a run that could not start or ended in error.
pub fn subagent_failed_output(call_id: String, detail: &str) -> (r: ResponseInputItem)
    ensures
        (r matches ResponseInputItem::FunctionCallOutput { call_id: c, output } && c == call_id
            && output.success == Some(false) && output.content@
            == "Sub-agent execution failed: "@ + detail@),
{
    let mut content = String::from_str("Sub-agent execution failed: ");
    content.append(detail);
    ResponseInputItem::FunctionCallOutput {
        call_id,
        output: FunctionCallOutputPayload { content, success: Some(false) },
    }
}


/// The describe payload `{name, description, tools, body}`; a missing
/// allowlist is `null`.
pub open spec fn describe_json(
    name: Seq<char>,
    description: Seq<char>,
    tools: Option<Seq<Seq<char>>>,
    body: Seq<char>,
) -> JsonVal {
    JsonVal::Object(
        seq![
            ("name"@, JsonVal::Text(name)),
            ("description"@, JsonVal::Text(description)),
            (
                "tools"@,
                match tools {
                    Some(ts) => JsonVal::Array(Seq::new(ts.len(), |k: int| JsonVal::Text(ts[k]))),
                    None => JsonVal::Null,
                },
            ),
            ("body"@, JsonVal::Text(body)),
        ],
    )
}

/// Answer a `subagent_describe` call: the serialized describe payload when
/// the arguments carry a string `name` held by the registry, the not-found
/// failure when they name no agent, the parse failure otherwise.
pub fn subagent_describe_output(
    registry: &AgentRegistry,
    args: &JsonValue,
    call_id: String,
) -> (r: ResponseInputItem)
    ensures
        (r matches ResponseInputItem::FunctionCallOutput { call_id: c, output } && c == call_id
            && (match obj_str_of(args@, "name"@) {
            None => output.success == Some(false) && output.content@
                == "failed to parse function arguments: "@ + "expected a string `name` field"@,
            Some(name) => {
                if registry.spec_has(name) {
                    output.success == Some(true) && exists|i: int|
                        0 <= i < registry@.len() && (#[trigger] registry@[i]).name@ == name
                            && output.content@ == json_text_of(
                            describe_json(
                                name,
                                registry@[i].description@,
                                registry@[i].tools.deep_view(),
                                registry@[i].body@,
                            ),
                        )
                } else {
                    output.success == Some(false) && output.content@ == "Agent not found: "@ + name
                }
            },
        })),
{
    let name = match obj_str_field(args, "name") {
        Some(s) => s,
        None => {
            return parse_failure_output(call_id, "expected a string `name` field", Some(false));
        },
    };
    let agent = match registry.get(name.as_str()) {
        Some(a) => a,
        None => {
            let mut content = String::from_str("Agent not found: ");
            content.append(name.as_str());
            return ResponseInputItem::FunctionCallOutput {
                call_id,
                output: FunctionCallOutputPayload { content, success: Some(false) },
            };
        },
    };
    let tools_value = match &agent.tools {
        None => JsonValue::Null,
        Some(ts) => {
            let ghost gts = ts.deep_view();
            let mut arr: Vec<JsonValue> = Vec::new();
            let mut i: usize = 0;
            while i < ts.len()
                invariant
                    i <= ts@.len(),
                    gts == ts.deep_view(),
                    gts.len() == ts@.len(),
                    arr@.len() == i,
                    forall|k: int| 0 <= k < i ==> (#[trigger] arr@[k])@ == JsonVal::Text(gts[k]),
                decreases ts@.len() - i,
            {
                arr.push(JsonValue::Text(ts[i].clone()));
                proof {
                    assert(gts[i as int] == ts@[i as int]@);
                    assert(arr@.last()@ == JsonVal::Text(gts[i as int]));
                }
                i = i + 1;
            }
            proof {
                crate::json::lemma_view_arr_index(arr@);
                assert(crate::json::view_arr(arr@) =~= Seq::new(
                    gts.len(),
                    |k: int| JsonVal::Text(gts[k]),
                ));
            }
            JsonValue::Array(arr)
        },
    };
    let ghost gtools = agent.tools.deep_view();
    let mut obj: Vec<(String, JsonValue)> = Vec::new();
    obj.push((String::from_str("name"), JsonValue::Text(agent.name.clone())));
    obj.push((String::from_str("description"), JsonValue::Text(agent.description.clone())));
    obj.push((String::from_str("tools"), tools_value));
    obj.push((String::from_str("body"), JsonValue::Text(agent.body.clone())));
    let payload = JsonValue::Object(obj);
    proof {
        if let JsonValue::Object(ps) = &payload {
            crate::json::lemma_view_obj_index(ps@);
            assert(crate::json::view_obj(ps@) =~= (describe_json(
                agent.name@,
                agent.description@,
                gtools,
                agent.body@,
            ))->Object_0);
        }
        assert(payload@ == describe_json(agent.name@, agent.description@, gtools, agent.body@));
    }
    let content = json_to_string(&payload);
    ResponseInputItem::FunctionCallOutput {
        call_id,
        output: FunctionCallOutputPayload { content, success: Some(true) },
    }
}


/// Parsed arguments of a `shell` / `container.exec` call.
#[derive(Debug)]
pub struct ShellToolCallParams {
    pub command: Vec<String>,
    pub workdir: Option<String>,
    pub timeout_ms: Option<u64>,
    pub with_escalated_permissions: Option<bool>,
    pub justification: Option<String>,
}

/// The shape shell-exec arguments must have: a string-array `command`, and
/// well-typed optional `workdir`, `timeout_ms`, `with_escalated_permissions`
/// and `justification` fields.
pub open spec fn shell_args_shape(v: JsonVal) -> bool {
    &&& obj_str_list_of(v, "command"@) is Some
    &&& opt_str_field_ok(v, "workdir"@)
    &&& opt_u64_field_ok(v, "timeout_ms"@)
    &&& opt_bool_field_ok(v, "with_escalated_permissions"@)
    &&& opt_str_field_ok(v, "justification"@)
}

/// Decide a shell-exec call's arguments: accepted exactly when the object
/// has the shell shape; every field of the result is the object's.
pub fn parse_shell_args(args: &JsonValue) -> (r: Option<ShellToolCallParams>)
    ensures
        r is Some <==> shell_args_shape(args@),
        (r matches Some(p) ==> {
            &&& obj_str_list_of(args@, "command"@) == Some(p.command.deep_view())
            &&& (match p.workdir {
                Some(w) => obj_str_of(args@, "workdir"@) == Some(w@),
                None => obj_str_of(args@, "workdir"@) is None,
            })
            &&& p.timeout_ms == obj_u64_of(args@, "timeout_ms"@)
            &&& p.with_escalated_permissions == obj_bool_of(
                args@,
                "with_escalated_permissions"@,
            )
            &&& (match p.justification {
                Some(j) => obj_str_of(args@, "justification"@) == Some(j@),
                None => obj_str_of(args@, "justification"@) is None,
            })
        }),
{
    let command = match obj_str_list_field(args, "command") {
        Some(v) => v,
        None => {
            return None;
        },
    };
    let workdir = match obj_get(args, "workdir") {
        None => None,
        Some(JsonValue::Null) => None,
        Some(JsonValue::Text(s)) => Some(s.clone()),
        Some(_) => {
            return None;
        },
    };
    let timeout_ms = match obj_get(args, "timeout_ms") {
        None => None,
        Some(JsonValue::Null) => None,
        Some(JsonValue::UInt(u)) => Some(*u),
        Some(JsonValue::Int(i)) => {
            if *i >= 0 {
                Some(*i as u64)
            } else {
                return None;
            }
        },
        Some(_) => {
            return None;
        },
    };
    let with_escalated_permissions = match obj_get(args, "with_escalated_permissions") {
        None => None,
        Some(JsonValue::Null) => None,
        Some(JsonValue::Bool(b)) => Some(*b),
        Some(_) => {
            return None;
        },
    };
    let justification = match obj_get(args, "justification") {
        None => None,
        Some(JsonValue::Null) => None,
        Some(JsonValue::Text(s)) => Some(s.clone()),
        Some(_) => {
            return None;
        },
    };
    Some(
        ShellToolCallParams {
            command,
            workdir,
            timeout_ms,
            with_escalated_permissions,
            justification,
        },
    )
}

/// What the exec engine runs: the argv, the resolved working directory, and
/// the call's limits and escalation request.
#[derive(Debug)]
pub struct ExecParams {
    pub command: Vec<String>,
    pub cwd: String,
    pub timeout_ms: Option<u64>,
    pub with_escalated_permissions: Option<bool>,
    pub justification: Option<String>,
}

/// Turn parsed shell arguments into exec parameters: the workdir is
/// resolved against the session cwd, everything else is carried through.
pub fn to_exec_params(params: ShellToolCallParams, cwd: &String) -> (r: ExecParams)
    ensures
        r.command == params.command,
        r.cwd@ == resolved_path(cwd@, match params.workdir {
            Some(w) => Some(w@),
            None => None::<Seq<char>>,
        }),
        r.timeout_ms == params.timeout_ms,
        r.with_escalated_permissions == params.with_escalated_permissions,
        r.justification == params.justification,
{
    let resolved = resolve_path(cwd, params.workdir.as_ref());
    ExecParams {
        command: params.command,
        cwd: resolved,
        timeout_ms: params.timeout_ms,
        with_escalated_permissions: params.with_escalated_permissions,
        justification: params.justification,
    }
}

/// Turn an `apply_patch {input}` call into exec parameters: the argv is the
/// built-in apply-patch invocation over the patch body, run in the session
/// cwd with no limits or escalation.
pub fn apply_patch_exec_params(input: String, cwd: &String) -> (r: ExecParams)
    ensures
        r.command.deep_view() == seq!["apply_patch"@, input@],
        r.cwd == cwd,
        r.timeout_ms is None,
        r.with_escalated_permissions is None,
        r.justification is None,
{
    let mut command: Vec<String> = Vec::new();
    command.push(String::from_str("apply_patch"));
    command.push(input);
    proof {
        assert(command.deep_view() =~= seq!["apply_patch"@, command@[1]@]);
    }
    ExecParams {
        command,
        cwd: cwd.clone(),
        timeout_ms: None,
        with_escalated_permissions: None,
        justification: None,
    }
}

/// The outcome of a `view_image` call: the image was injected into the
/// running task's pending input, or there was no task to take it.
pub fn view_image_output(call_id: String, attached: bool) -> (r: ResponseInputItem)
    ensures
        (r matches ResponseInputItem::FunctionCallOutput { call_id: c, output } && c == call_id
            && output.success == Some(attached) && output.content@ == (if attached {
            "attached local image path"@
        } else {
            "unable to attach image (no active task)"@
        })),
{
    let content = if attached {
        String::from_str("attached local image path")
    } else {
        String::from_str("unable to attach image (no active task)")
    };
    ResponseInputItem::FunctionCallOutput {
        call_id,
        output: FunctionCallOutputPayload { content, success: Some(attached) },
    }
}


/// The duration in tenths of a second, rounded half-up from milliseconds.
pub open spec fn duration_tenths(ms: u64) -> int {
    ms / 100 + (if ms % 100 >= 50 {
        1int
    } else {
        0int
    })
}

/// The numeral the envelope carries for a tenths count: one decimal place.
pub open spec fn tenths_text(tenths: int) -> Seq<char> {
    crate::exec_format::dec_str(tenths / 10) + seq!['.'] + seq![
        crate::exec_format::dec_digit(tenths % 10),
    ]
}

/// The model-facing exec envelope `{output, metadata: {exit_code,
/// duration_seconds}}`.
pub open spec fn exec_output_json(output: Seq<char>, exit_code: i32, tenths: int) -> JsonVal {
    JsonVal::Object(
        seq![
            ("output"@, JsonVal::Text(output)),
            (
                "metadata"@,
                JsonVal::Object(
                    seq![
                        ("exit_code"@, JsonVal::Int(exit_code as i64)),
                        ("duration_seconds"@, JsonVal::NumText(tenths_text(tenths))),
                    ],
                ),
            ),
        ],
    )
}

/// Serialize the model-facing exec envelope: the head-and-tail-capped
/// aggregated output, the exit code, and the duration in seconds rounded to
/// one decimal place.
pub fn format_exec_output(exec_output: &crate::exec_format::ExecToolCallOutput) -> (r: String)
    ensures
        r@ == json_text_of(
            exec_output_json(
                crate::exec_format::model_format(exec_output.aggregated_output.text@),
                exec_output.exit_code,
                duration_tenths(exec_output.duration_ms),
            ),
        ),
{
    let formatted = crate::exec_format::format_exec_output_str(exec_output);
    let ms = exec_output.duration_ms;
    let tenths: u64 = ms / 100 + (if ms % 100 >= 50 {
        1
    } else {
        0
    });
    let mut num: Vec<char> = crate::exec_format::u64_to_dec_string(tenths / 10);
    num.push('.');
    num.push(((48 + tenths % 10) as u8) as char);
    proof {
        assert(num@ =~= tenths_text(duration_tenths(ms)));
    }
    let num_string = crate::chars::chars_to_string(&num);
    let mut meta: Vec<(String, JsonValue)> = Vec::new();
    meta.push((String::from_str("exit_code"), JsonValue::Int(exec_output.exit_code as i64)));
    meta.push((String::from_str("duration_seconds"), JsonValue::NumText(num_string)));
    let mut obj: Vec<(String, JsonValue)> = Vec::new();
    obj.push((String::from_str("output"), JsonValue::Text(formatted)));
    obj.push((String::from_str("metadata"), JsonValue::Object(meta)));
    let payload = JsonValue::Object(obj);
    proof {
        if let JsonValue::Object(ps) = &payload {
            crate::json::lemma_view_obj_index(ps@);
            if let JsonValue::Object(ms2) = &ps@[1].1 {
                crate::json::lemma_view_obj_index(ms2@);
                assert(crate::json::view_obj(ms2@) =~= seq![
                    ("exit_code"@, JsonVal::Int(exec_output.exit_code as i64)),
                    ("duration_seconds"@, JsonVal::NumText(tenths_text(duration_tenths(ms)))),
                ]);
            }
            assert(crate::json::view_obj(ps@) =~= (exec_output_json(
                crate::exec_format::model_format(exec_output.aggregated_output.text@),
                exec_output.exit_code,
                duration_tenths(ms),
            ))->Object_0);
        }
    }
    json_to_string(&payload)
}


/// Where the nested (sub-agent) dispatcher sends a routed call: sub-agent
/// tools are denied to prevent recursion, external tools are not presented,
/// the rest is handled as in the parent.
#[derive(Debug, PartialEq, Eq, Structural)]
pub enum NestedRoute {
    DeniedSubagent,
    Shell,
    ExecCommandTool,
    WriteStdinTool,
    ApplyPatch,
    ViewImage,
    UpdatePlan,
    Unsupported,
}

/// Reduce a parent route to the nested dispatcher's: the three sub-agent
/// tools are denied, external (MCP) names are unsupported there.
pub fn nested_function_call_route(route: &crate::turn::FnRoute) -> (r: NestedRoute)
    ensures
        r == (match route {
            crate::turn::FnRoute::Shell => NestedRoute::Shell,
            crate::turn::FnRoute::ExecCommandTool => NestedRoute::ExecCommandTool,
            crate::turn::FnRoute::WriteStdinTool => NestedRoute::WriteStdinTool,
            crate::turn::FnRoute::ApplyPatch => NestedRoute::ApplyPatch,
            crate::turn::FnRoute::ViewImage => NestedRoute::ViewImage,
            crate::turn::FnRoute::UpdatePlan => NestedRoute::UpdatePlan,
            crate::turn::FnRoute::SubagentList => NestedRoute::DeniedSubagent,
            crate::turn::FnRoute::SubagentDescribe => NestedRoute::DeniedSubagent,
            crate::turn::FnRoute::SubagentRun => NestedRoute::DeniedSubagent,
            crate::turn::FnRoute::McpTool { .. } => NestedRoute::Unsupported,
            crate::turn::FnRoute::Unsupported => NestedRoute::Unsupported,
        }),
{
    match route {
        crate::turn::FnRoute::Shell => NestedRoute::Shell,
        crate::turn::FnRoute::ExecCommandTool => NestedRoute::ExecCommandTool,
        crate::turn::FnRoute::WriteStdinTool => NestedRoute::WriteStdinTool,
        crate::turn::FnRoute::ApplyPatch => NestedRoute::ApplyPatch,
        crate::turn::FnRoute::ViewImage => NestedRoute::ViewImage,
        crate::turn::FnRoute::UpdatePlan => NestedRoute::UpdatePlan,
        crate::turn::FnRoute::SubagentList => NestedRoute::DeniedSubagent,
        crate::turn::FnRoute::SubagentDescribe => NestedRoute::DeniedSubagent,
        crate::turn::FnRoute::SubagentRun => NestedRoute::DeniedSubagent,
        crate::turn::FnRoute::McpTool { .. } => NestedRoute::Unsupported,
        crate::turn::FnRoute::Unsupported => NestedRoute::Unsupported,
    }
}

/// The structured failure a nested run returns for its own sub-agent tools.
pub fn nested_subagent_denied_output(call_id: String) -> (r: ResponseInputItem)
    ensures
        (r matches ResponseInputItem::FunctionCallOutput { call_id: c, output } && c == call_id
            && output.success == Some(false) && output.content@
            == "Sub-agents are not enabled in this nested context"@),
{
    ResponseInputItem::FunctionCallOutput {
        call_id,
        output: FunctionCallOutputPayload {
            content: String::from_str("Sub-agents are not enabled in this nested context"),
            success: Some(false),
        },
    }
}

/// The structured failure the nested dispatcher returns for a name it does
/// not handle.
pub fn nested_unsupported_output(name: &str, call_id: String) -> (r: ResponseInputItem)
    ensures
        (r matches ResponseInputItem::FunctionCallOutput { call_id: c, output } && c == call_id
            && output.success == Some(false) && output.content@
            == "unsupported function call: "@ + name@),
{
    let mut content = String::from_str("unsupported function call: ");
    content.append(name);
    ResponseInputItem::FunctionCallOutput {
        call_id,
        output: FunctionCallOutputPayload { content, success: Some(false) },
    }
}

} // verus!
